use cch_rooms::handshake::{Reply, ServeGame};
use cch_rooms::message::{message_allowed, RoomMessage, UserMessage};
use cch_rooms::registry::{JoinError, RoomRegistry};
use cch_rooms::session::{handle_frame, Inbound};
use cch_rooms::views::ViewCounter;
use tokio::sync::broadcast::error::TryRecvError;

fn text(n: usize, c: char) -> String {
    std::iter::repeat(c).take(n).collect()
}

#[test]
fn message_of_128_chars_is_allowed() {
    assert!(message_allowed(&text(128, 'a')));
    assert!(message_allowed(""));
}

#[test]
fn message_of_129_chars_is_refused() {
    assert!(!message_allowed(&text(129, 'a')));
}

#[test]
fn message_length_counts_characters_not_bytes() {
    assert!(message_allowed(&text(128, 'é')));
    assert!(!message_allowed(&text(129, 'é')));
}

#[test]
fn room_frame_puts_user_first() {
    let m = RoomMessage { user: "alice".to_string(), message: "hi".to_string() };
    assert_eq!(m.to_frame(), "{\"user\":\"alice\",\"message\":\"hi\"}");
}

#[test]
fn room_frame_escapes_quotes() {
    let m = RoomMessage { user: "a\"b".to_string(), message: "x\ny".to_string() };
    assert_eq!(m.to_frame(), "{\"user\":\"a\\\"b\",\"message\":\"x\\ny\"}");
}

#[test]
fn user_frame_is_read() {
    let m = UserMessage::from_frame("{\"message\":\"hi\"}").unwrap();
    assert_eq!(m.message, "hi");
    let m = UserMessage::from_frame("{\"other\": 1, \"message\": \"a\\u0041\"}").unwrap();
    assert_eq!(m.message, "aA");
}

#[test]
fn malformed_user_frames_are_refused() {
    assert!(UserMessage::from_frame("not json").is_none());
    assert!(UserMessage::from_frame("{\"message\":5}").is_none());
    assert!(UserMessage::from_frame("{\"text\":\"hi\"}").is_none());
    assert!(UserMessage::from_frame("[\"hi\"]").is_none());
}

#[test]
fn inbound_frame_is_published_with_sender() {
    match handle_frame("alice", "{\"message\":\"hi\"}") {
        Inbound::Publish(m) => {
            assert_eq!(m.user, "alice");
            assert_eq!(m.message, "hi");
        }
        other => panic!("unexpected {:?}", other),
    }
}

#[test]
fn inbound_long_message_is_skipped() {
    let frame = format!("{{\"message\":\"{}\"}}", text(129, 'z'));
    assert!(matches!(handle_frame("alice", &frame), Inbound::Skip));
}

#[test]
fn inbound_malformed_frame_closes() {
    assert!(matches!(handle_frame("alice", "{\"message\""), Inbound::Close));
}

#[test]
fn reset_then_read_gives_zero() {
    let mut views = ViewCounter::new();
    views.increment();
    views.increment();
    assert_eq!(views.read(), 2);
    views.reset();
    assert_eq!(views.read(), 0);
}

#[test]
fn failed_write_is_not_counted() {
    let mut views = ViewCounter::new();
    assert!(views.record_write(true));
    assert!(!views.record_write(false));
    assert_eq!(views.read(), 1);
}

#[test]
fn ping_before_serve_gets_no_reply() {
    let mut game = ServeGame::new();
    assert_eq!(game.on_frame("ping"), Reply::Silent);
    assert!(!game.ready());
}

#[test]
fn ping_after_serve_gets_one_pong_each() {
    let mut game = ServeGame::new();
    assert_eq!(game.on_frame("serve"), Reply::Silent);
    assert_eq!(game.on_frame("ping"), Reply::Pong);
    assert_eq!(game.on_frame("ping"), Reply::Pong);
    assert_eq!(game.on_frame("pong"), Reply::Silent);
    assert_eq!(game.on_frame("Ping"), Reply::Silent);
    assert!(game.ready());
}

#[test]
fn joins_to_one_room_share_one_channel() {
    let mut rooms = RoomRegistry::new();
    let a = rooms.join(3, "alice".to_string()).unwrap();
    let b = rooms.join(3, "bob".to_string()).unwrap();
    assert!(a.same_channel(&b));
    let c = rooms.join(4, "alice".to_string()).unwrap();
    assert!(!a.same_channel(&c));
}

#[test]
fn repeated_name_is_refused() {
    let mut rooms = RoomRegistry::new();
    assert!(rooms.join(1, "alice".to_string()).is_ok());
    assert_eq!(rooms.join(1, "alice".to_string()).err(), Some(JoinError::NameTaken));
    assert!(rooms.join(1, "bob".to_string()).is_ok());
}

#[test]
fn message_reaches_every_member_and_sender() {
    let mut rooms = RoomRegistry::new();
    let alice = rooms.join(7, "alice".to_string()).unwrap();
    let bob = rooms.join(7, "bob".to_string()).unwrap();
    let mut alice_rx = alice.subscribe();
    let mut bob_rx = bob.subscribe();
    let mut views = ViewCounter::new();
    match handle_frame("alice", "{\"message\":\"hi\"}") {
        Inbound::Publish(m) => {
            alice.send(m).unwrap();
        }
        other => panic!("unexpected {:?}", other),
    }
    for rx in [&mut bob_rx, &mut alice_rx] {
        let got = rx.try_recv().unwrap();
        assert_eq!(got.to_frame(), "{\"user\":\"alice\",\"message\":\"hi\"}");
        views.record_write(true);
        assert!(matches!(rx.try_recv(), Err(TryRecvError::Empty)));
    }
    assert_eq!(views.read(), 2);
}

#[test]
fn long_message_reaches_no_one() {
    let mut rooms = RoomRegistry::new();
    let alice = rooms.join(9, "alice".to_string()).unwrap();
    let mut rx = alice.subscribe();
    let frame = format!("{{\"message\":\"{}\"}}", text(200, 'x'));
    if let Inbound::Publish(m) = handle_frame("alice", &frame) {
        let _ = alice.send(m);
    }
    assert!(matches!(rx.try_recv(), Err(TryRecvError::Empty)));
}

#[test]
fn late_subscriber_misses_earlier_message() {
    let mut rooms = RoomRegistry::new();
    let alice = rooms.join(2, "alice".to_string()).unwrap();
    let mut early = alice.subscribe();
    let m = RoomMessage { user: "alice".to_string(), message: "first".to_string() };
    alice.send(m).unwrap();
    let bob = rooms.join(2, "bob".to_string()).unwrap();
    let mut late = bob.subscribe();
    assert!(matches!(late.try_recv(), Err(TryRecvError::Empty)));
    assert_eq!(early.try_recv().unwrap().message, "first");
}

#[test]
fn channel_capacity_must_be_usable() {
    assert!(RoomRegistry::with_channel_capacity(0).is_none());
    assert!(RoomRegistry::with_channel_capacity(usize::MAX).is_none());
    let mut rooms = RoomRegistry::with_channel_capacity(1).unwrap();
    let tx = rooms.join(5, "alice".to_string()).unwrap();
    let mut rx = tx.subscribe();
    for text in ["one", "two"] {
        tx.send(RoomMessage { user: "alice".to_string(), message: text.to_string() }).unwrap();
    }
    assert!(matches!(rx.try_recv(), Err(TryRecvError::Lagged(1))));
    assert_eq!(rx.try_recv().unwrap().message, "two");
}

#[test]
fn room_frame_escapes_control_characters() {
    let m = RoomMessage { user: "a\\b".to_string(), message: "\u{1}\t\u{1f}é".to_string() };
    assert_eq!(m.to_frame(), "{\"user\":\"a\\\\b\",\"message\":\"\\u0001\\t\\u001fé\"}");
}
