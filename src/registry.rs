//! The room registry: each numbered room holds the display names of its
//! members and one broadcast channel that all of them share.
use vstd::prelude::*;
use std::collections::HashMap;
use tokio::sync::broadcast::Sender;
use crate::message::RoomMessage;

verus! {

broadcast use vstd::std_specs::hash::group_hash_axioms;

/// tokio's broadcast sender, carried through as an opaque value.
#[verifier::external_type_specification]
#[verifier::external_body]
#[verifier::reject_recursive_types(T)]
pub struct ExSender<T>(tokio::sync::broadcast::Sender<T>);

/// How many messages a channel keeps for each subscriber that has not read
/// them yet.
pub uninterp spec fn kept_messages_of(channel: Sender<RoomMessage>) -> usize;

/// Relies on `tokio::sync::broadcast::Sender::new`, which opens a channel
/// with no receiver yet and a buffer of `capacity` rounded up to a power of
/// two; it panics on a capacity of zero or above `usize::MAX / 2`.
#[verifier::external_body]
fn open_channel(capacity: usize) -> (r: Sender<RoomMessage>)
    requires
        0 < capacity <= usize::MAX / 2,
    ensures
        capacity <= kept_messages_of(r) < 2 * capacity,
{
    Sender::new(capacity)
}

/// Relies on `Clone` for `tokio::sync::broadcast::Sender`, which hands out
/// another sender on the same channel.
pub assume_specification<T>[ <tokio::sync::broadcast::Sender<T> as Clone>::clone ](s: &tokio::sync::broadcast::Sender<T>) -> (r: tokio::sync::broadcast::Sender<T>)
    ensures
        r == *s,
;

/// How many messages a room's channel keeps for each subscriber that has not
/// read them yet.
pub const ROOM_CHANNEL_CAPACITY: usize = 100000;

/// Why a connection could not join a room.
#[derive(Clone, Copy, Debug, PartialEq, Eq)]
pub enum JoinError {
    /// The room already has a member of that display name.
    NameTaken,
}

/// One room: its members' display names and its broadcast channel.
pub struct Room {
    members: Vec<String>,
    channel: Sender<RoomMessage>,
}

/// The display names of a room's members, as text.
pub open spec fn names(members: Seq<String>) -> Seq<Seq<char>> {
    members.map_values(|u: String| u@)
}

/// The outcome of `join(room, user)` on a registry whose members are `pre_m`
/// and channels `pre_c`, leaving `post_m` and `post_c` and returning `r`: a
/// sender on the room's channel, or `NameTaken`.
pub open spec fn joined(
    pre_m: Map<usize, Seq<Seq<char>>>,
    pre_c: Map<usize, Sender<RoomMessage>>,
    room: usize,
    user: Seq<char>,
    post_m: Map<usize, Seq<Seq<char>>>,
    post_c: Map<usize, Sender<RoomMessage>>,
    r: Result<Sender<RoomMessage>, JoinError>,
) -> bool {
    if pre_m.contains_key(room) && pre_m[room].contains(user) {
        &&& r == Err::<Sender<RoomMessage>, JoinError>(JoinError::NameTaken)
        &&& post_m == pre_m
        &&& post_c == pre_c
    } else {
        &&& r == Ok::<Sender<RoomMessage>, JoinError>(post_c[room])
        &&& if pre_m.contains_key(room) {
            &&& post_m == pre_m.insert(room, pre_m[room].push(user))
            &&& post_c == pre_c
        } else {
            &&& post_m == pre_m.insert(room, seq![user])
            &&& post_c.dom() == pre_c.dom().insert(room)
            &&& post_c.remove(room) == pre_c.remove(room)
        }
    }
}

/// Every room known to the process, by number.
pub struct RoomRegistry {
    rooms: HashMap<usize, Room>,
    capacity: usize,
}

impl RoomRegistry {
    /// The display names of each room's members, in the order they joined.
    pub closed spec fn members(&self) -> Map<usize, Seq<Seq<char>>> {
        self.rooms@.map_values(|r: Room| names(r.members@))
    }

    /// The broadcast channel of each room.
    pub closed spec fn channels(&self) -> Map<usize, Sender<RoomMessage>> {
        self.rooms@.map_values(|r: Room| r.channel)
    }

    /// How many unread messages each new room's channel keeps per subscriber.
    pub closed spec fn channel_capacity(&self) -> usize {
        self.capacity
    }

    /// No room holds the same display name twice, every room has one
    /// channel, and new channels can be opened with the chosen capacity.
    pub open spec fn wf(&self) -> bool {
        &&& 0 < self.channel_capacity() <= usize::MAX / 2
        &&& self.members().dom() == self.channels().dom()
        &&& forall|room: usize| #[trigger]
            self.members().contains_key(room) ==> self.members()[room].no_duplicates()
    }

    /// A registry with no room, whose channels keep `ROOM_CHANNEL_CAPACITY`
    /// messages.
    pub fn new() -> (r: RoomRegistry)
        ensures
            r.wf(),
            r.channel_capacity() == ROOM_CHANNEL_CAPACITY,
            r.members() == Map::<usize, Seq<Seq<char>>>::empty(),
            r.channels() == Map::<usize, Sender<RoomMessage>>::empty(),
    {
        let r = RoomRegistry { rooms: HashMap::new(), capacity: ROOM_CHANNEL_CAPACITY };
        assert(r.members() =~= Map::<usize, Seq<Seq<char>>>::empty());
        assert(r.channels() =~= Map::<usize, Sender<RoomMessage>>::empty());
        r
    }

    /// A registry with no room, whose channels keep `capacity` messages;
    /// `None` for a capacity of zero or above `usize::MAX / 2`.
    pub fn with_channel_capacity(capacity: usize) -> (r: Option<RoomRegistry>)
        ensures
            match r {
                Some(reg) => {
                    &&& reg.wf()
                    &&& reg.channel_capacity() == capacity
                    &&& reg.members() == Map::<usize, Seq<Seq<char>>>::empty()
                    &&& reg.channels() == Map::<usize, Sender<RoomMessage>>::empty()
                },
                None => capacity == 0 || capacity > usize::MAX / 2,
            },
    {
        if capacity == 0 || capacity > usize::MAX / 2 {
            return None;
        }
        let r = RoomRegistry { rooms: HashMap::new(), capacity };
        assert(r.members() =~= Map::<usize, Seq<Seq<char>>>::empty());
        assert(r.channels() =~= Map::<usize, Sender<RoomMessage>>::empty());
        Some(r)
    }

    /// Adds `user` to room `room`, opening the room with a fresh channel when
    /// no one has asked for it before, and returns a sender on the room's
    /// channel. A display name that the room already holds is refused and
    /// nothing changes.
    pub fn join(&mut self, room: usize, user: String) -> (r: Result<Sender<RoomMessage>, JoinError>)
        requires
            old(self).wf(),
        ensures
            final(self).wf(),
            final(self).channel_capacity() == old(self).channel_capacity(),
            joined(
                old(self).members(),
                old(self).channels(),
                room,
                user@,
                final(self).members(),
                final(self).channels(),
                r,
            ),
            !old(self).channels().contains_key(room) ==> {
                let kept = kept_messages_of(final(self).channels()[room]);
                old(self).channel_capacity() <= kept < 2 * old(self).channel_capacity()
            },
    {
        let ghost pre_m = self.members();
        let ghost pre_c = self.channels();
        match self.rooms.remove(&room) {
            Some(mut entry) => {
                assert(pre_m.contains_key(room));
                assert(pre_m[room] == names(entry.members@));
                if has_member(&entry.members, &user) {
                    self.rooms.insert(room, entry);
                    assert(self.members() =~= pre_m);
                    assert(self.channels() =~= pre_c);
                    Err(JoinError::NameTaken)
                } else {
                    let ghost before = entry.members@;
                    entry.members.push(user);
                    assert(names(entry.members@) =~= names(before).push(user@));
                    let handle = entry.channel.clone();
                    self.rooms.insert(room, entry);
                    assert(self.members() =~= pre_m.insert(room, pre_m[room].push(user@)));
                    assert(self.channels() =~= pre_c);
                    proof {
                        assert forall|k: usize| #[trigger]
                            self.members().contains_key(k) implies self.members()[k].no_duplicates() by {
                            if k != room {
                                assert(pre_m.contains_key(k));
                            }
                        }
                    }
                    Ok(handle)
                }
            },
            None => {
                assert(!pre_m.contains_key(room));
                let mut members: Vec<String> = Vec::new();
                members.push(user);
                assert(names(members@) =~= seq![user@]);
                let channel = open_channel(self.capacity);
                let handle = channel.clone();
                self.rooms.insert(room, Room { members, channel });
                assert(self.members() =~= pre_m.insert(room, seq![user@]));
                assert(self.channels().dom() =~= pre_c.dom().insert(room));
                assert(self.channels().remove(room) =~= pre_c.remove(room));
                proof {
                    assert forall|k: usize| #[trigger]
                        self.members().contains_key(k) implies self.members()[k].no_duplicates() by {
                        if k != room {
                            assert(pre_m.contains_key(k));
                        }
                    }
                }
                Ok(handle)
            },
        }
    }
}

/// Tells whether `user` is among `members`.
fn has_member(members: &Vec<String>, user: &String) -> (r: bool)
    ensures
        r == names(members@).contains(user@),
{
    let mut i: usize = 0;
    while i < members.len()
        invariant
            i <= members.len(),
            forall|j: int| 0 <= j < i ==> members@[j]@ != user@,
        decreases members.len() - i,
    {
        if members[i] == *user {
            assert(names(members@)[i as int] == user@);
            return true;
        }
        i = i + 1;
    }
    proof {
        if names(members@).contains(user@) {
            let j = choose|j: int| 0 <= j < names(members@).len() && names(members@)[j] == user@;
            assert(members@[j]@ == user@);
        }
    }
    false
}

/// However concurrent joins to a room that does not exist yet are ordered,
/// the first opens exactly one room with one channel, the next joins that
/// same room and gets a sender on that same channel under another name, and
/// a repeated name is refused.
pub proof fn law_one_room_per_number(
    pre_m: Map<usize, Seq<Seq<char>>>,
    pre_c: Map<usize, Sender<RoomMessage>>,
    mid_m: Map<usize, Seq<Seq<char>>>,
    mid_c: Map<usize, Sender<RoomMessage>>,
    post_m: Map<usize, Seq<Seq<char>>>,
    post_c: Map<usize, Sender<RoomMessage>>,
    room: usize,
    first: Seq<char>,
    second: Seq<char>,
    r1: Result<Sender<RoomMessage>, JoinError>,
    r2: Result<Sender<RoomMessage>, JoinError>,
)
    requires
        !pre_m.contains_key(room),
        pre_m.dom() == pre_c.dom(),
        joined(pre_m, pre_c, room, first, mid_m, mid_c, r1),
        joined(mid_m, mid_c, room, second, post_m, post_c, r2),
    ensures
        r1 is Ok,
        mid_m.dom() == pre_m.dom().insert(room),
        mid_c.dom() == pre_c.dom().insert(room),
        post_m.dom() == mid_m.dom(),
        post_c == mid_c,
        mid_m[room] == seq![first],
        r1->Ok_0 == post_c[room],
        (r2 is Ok) == (first != second),
        r2 is Ok ==> r2->Ok_0 == r1->Ok_0 && post_m[room] == seq![first, second],
        r2 is Err ==> post_m == mid_m,
{
    assert(mid_m[room] == seq![first]);
    if first == second {
        assert(mid_m[room][0] == second);
        assert(mid_m[room].contains(second));
    } else {
        assert(!mid_m[room].contains(second));
        assert(mid_m[room].push(second) =~= seq![first, second]);
    }
}

} // verus!
