//! The decisions of a connection's inbound relay: what to do with each frame
//! that a client sends to its room.
use vstd::prelude::*;
use crate::message::{fits, message_allowed, message_field_of, RoomMessage, UserMessage};

verus! {

/// What the inbound relay does with one client frame.
#[derive(Clone, Debug)]
pub enum Inbound {
    /// Publish this message to the room.
    Publish(RoomMessage),
    /// Drop the message (it is too long) and read the next frame.
    Skip,
    /// The frame is malformed: end the connection.
    Close,
}

/// The decision for a frame whose `message` member is `field` (`None` for a
/// malformed frame), sent by `user`.
pub open spec fn inbound_decision(user: Seq<char>, field: Option<Seq<char>>, r: Inbound) -> bool {
    match field {
        None => r is Close,
        Some(m) => if fits(m) {
            &&& r is Publish
            &&& r->Publish_0.user@ == user
            &&& r->Publish_0.message@ == m
        } else {
            r is Skip
        },
    }
}

/// Decides what to do with a message that `user` sent, once its frame has
/// been read (`None` for a frame that could not be read).
pub fn decide_inbound(user: &str, sent: Option<UserMessage>) -> (r: Inbound)
    ensures
        inbound_decision(
            user@,
            match sent {
                Some(m) => Some(m.message@),
                None => None,
            },
            r,
        ),
{
    match sent {
        None => Inbound::Close,
        Some(m) => {
            if message_allowed(m.message.as_str()) {
                Inbound::Publish(RoomMessage { user: String::from_str(user), message: m.message })
            } else {
                Inbound::Skip
            }
        },
    }
}

/// Reads one client frame sent by `user` and decides what to do with it.
pub fn handle_frame(user: &str, frame: &str) -> (r: Inbound)
    ensures
        inbound_decision(user@, message_field_of(frame@), r),
{
    let sent = UserMessage::from_frame(frame);
    decide_inbound(user, sent)
}

/// A message that fits is published once, as exactly the pair of its sender
/// and its text.
pub proof fn law_fitting_message_published(user: Seq<char>, m: Seq<char>, r: Inbound)
    requires
        fits(m),
        inbound_decision(user, Some(m), r),
    ensures
        r is Publish,
        r->Publish_0.user@ == user,
        r->Publish_0.message@ == m,
{
}

/// A message longer than the limit is never published.
pub proof fn law_long_message_dropped(user: Seq<char>, m: Seq<char>, r: Inbound)
    requires
        m.len() > crate::message::MAX_MESSAGE_CHARS,
        inbound_decision(user, Some(m), r),
    ensures
        r is Skip,
{
}

} // verus!
