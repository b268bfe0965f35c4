//! Packets remembered with the moment they were saved, to tell later how
//! long ago that was.
use vstd::prelude::*;

verus! {

/// Why an elapsed time could not be given.
#[derive(Clone, Copy, Debug, PartialEq, Eq, Structural)]
pub enum PacketError {
    /// The packet was never saved.
    Unknown,
    /// The difference does not fit in an `i64`.
    Overflow,
}

/// Saved packets, each with the moment (in seconds) it was last saved.
pub struct PacketStore {
    stamps: Vec<(String, i64)>,
}

impl PacketStore {
    /// The moment each saved packet was last saved.
    pub closed spec fn saved(&self) -> Map<Seq<char>, i64> {
        Map::new(
            |p: Seq<char>| exists|i: int| 0 <= i < self.stamps@.len() && self.stamps@[i].0@ == p,
            |p: Seq<char>|
                self.stamps@[choose|i: int| 0 <= i < self.stamps@.len() && self.stamps@[i].0@ == p].1,
        )
    }

    /// No packet is listed twice.
    pub closed spec fn wf(&self) -> bool {
        forall|i: int, j: int|
            0 <= i < j < self.stamps@.len() ==> self.stamps@[i].0@ != self.stamps@[j].0@
    }

    /// A store with no packet.
    pub fn new() -> (r: PacketStore)
        ensures
            r.wf(),
            r.saved() == Map::<Seq<char>, i64>::empty(),
    {
        let r = PacketStore { stamps: Vec::new() };
        assert(r.saved() =~= Map::<Seq<char>, i64>::empty());
        r
    }

    /// Where `packet` is listed.
    fn find(&self, packet: &String) -> (r: Option<usize>)
        requires
            self.wf(),
        ensures
            match r {
                Some(i) => i < self.stamps@.len() && self.stamps@[i as int].0@ == packet@,
                None => !self.saved().contains_key(packet@),
            },
    {
        let mut i: usize = 0;
        while i < self.stamps.len()
            invariant
                i <= self.stamps@.len(),
                forall|j: int| 0 <= j < i ==> self.stamps@[j].0@ != packet@,
            decreases self.stamps@.len() - i,
        {
            if self.stamps[i].0 == *packet {
                return Some(i);
            }
            i = i + 1;
        }
        None
    }

    /// The moment of the packet on line `i` is the one the store gives.
    proof fn lemma_saved_at(&self, i: int)
        requires
            self.wf(),
            0 <= i < self.stamps@.len(),
        ensures
            self.saved().contains_key(self.stamps@[i].0@),
            self.saved()[self.stamps@[i].0@] == self.stamps@[i].1,
    {
        let p = self.stamps@[i].0@;
        assert forall|j: int| 0 <= j < self.stamps@.len() && #[trigger] self.stamps@[j].0@ == p implies j
            == i by {
            if j < i {
                assert(self.stamps@[j].0@ != self.stamps@[i].0@);
            } else if j > i {
                assert(self.stamps@[i].0@ != self.stamps@[j].0@);
            }
        }
    }

    /// Saves `packet` at moment `now`, replacing an earlier save of it.
    pub fn add_packet(&mut self, packet: String, now: i64)
        requires
            old(self).wf(),
        ensures
            final(self).wf(),
            final(self).saved() == old(self).saved().insert(packet@, now),
    {
        let ghost pre = self.saved();
        match self.find(&packet) {
            Some(i) => {
                let ghost before = self.stamps@;
                self.stamps.set(i, (packet, now));
                proof {
                    assert forall|a: int, b: int|
                        0 <= a < b < self.stamps@.len() implies self.stamps@[a].0@ != self.stamps@[b].0@ by {
                        assert(before[a].0@ != before[b].0@);
                    }
                    assert forall|p: Seq<char>| #[trigger] self.saved().contains_key(p) == pre.insert(
                        packet@,
                        now,
                    ).contains_key(p) by {
                        if pre.contains_key(p) && p != packet@ {
                            let j = choose|j: int| 0 <= j < before.len() && before[j].0@ == p;
                            assert(self.stamps@[j] == before[j]);
                        }
                        if self.saved().contains_key(p) && p != packet@ {
                            let j = choose|j: int| 0 <= j < self.stamps@.len() && self.stamps@[j].0@ == p;
                            assert(self.stamps@[j] == before[j]);
                        }
                        if p == packet@ {
                            assert(self.stamps@[i as int].0@ == p);
                        }
                    }
                    assert forall|p: Seq<char>| #[trigger] self.saved().contains_key(p) implies self.saved()[p]
                        == pre.insert(packet@, now)[p] by {
                        let j = choose|j: int| 0 <= j < self.stamps@.len() && self.stamps@[j].0@ == p;
                        self.lemma_saved_at(j);
                        if j != i {
                            assert(self.stamps@[j] == before[j]);
                            assert(before[j].0@ != before[i as int].0@ || j == i);
                            lemma_saved_in(before, j);
                        }
                    }
                    assert(self.saved() =~= pre.insert(packet@, now));
                }
            },
            None => {
                let ghost before = self.stamps@;
                self.stamps.push((packet, now));
                proof {
                    assert forall|a: int, b: int|
                        0 <= a < b < self.stamps@.len() implies self.stamps@[a].0@ != self.stamps@[b].0@ by {
                        if b == before.len() {
                            assert(self.stamps@[a] == before[a]);
                            assert(!pre.contains_key(packet@));
                        } else {
                            assert(before[a].0@ != before[b].0@);
                        }
                    }
                    assert forall|p: Seq<char>| #[trigger] self.saved().contains_key(p) == pre.insert(
                        packet@,
                        now,
                    ).contains_key(p) by {
                        if pre.contains_key(p) {
                            let j = choose|j: int| 0 <= j < before.len() && before[j].0@ == p;
                            assert(self.stamps@[j] == before[j]);
                        }
                        if self.saved().contains_key(p) && p != packet@ {
                            let j = choose|j: int| 0 <= j < self.stamps@.len() && self.stamps@[j].0@ == p;
                            assert(self.stamps@[j] == before[j]);
                        }
                        if p == packet@ {
                            assert(self.stamps@[before.len() as int].0@ == p);
                        }
                    }
                    assert forall|p: Seq<char>| #[trigger] self.saved().contains_key(p) implies self.saved()[p]
                        == pre.insert(packet@, now)[p] by {
                        let j = choose|j: int| 0 <= j < self.stamps@.len() && self.stamps@[j].0@ == p;
                        self.lemma_saved_at(j);
                        if j < before.len() {
                            assert(self.stamps@[j] == before[j]);
                            lemma_saved_in(before, j);
                        }
                    }
                    assert(self.saved() =~= pre.insert(packet@, now));
                }
            },
        }
    }

    /// How many seconds have passed, at moment `now`, since `packet` was
    /// last saved.
    pub fn load_packet(&self, packet: &String, now: i64) -> (r: Result<i64, PacketError>)
        requires
            self.wf(),
        ensures
            !self.saved().contains_key(packet@) ==> r == Err::<i64, PacketError>(PacketError::Unknown),
            self.saved().contains_key(packet@) ==> {
                let d = now - self.saved()[packet@];
                if i64::MIN <= d <= i64::MAX {
                    r == Ok::<i64, PacketError>(d as i64)
                } else {
                    r == Err::<i64, PacketError>(PacketError::Overflow)
                }
            },
    {
        match self.find(packet) {
            Some(i) => {
                proof {
                    self.lemma_saved_at(i as int);
                }
                match now.checked_sub(self.stamps[i].1) {
                    Some(d) => Ok(d),
                    None => Err(PacketError::Overflow),
                }
            },
            None => Err(PacketError::Unknown),
        }
    }
}

/// In a list without repeated packets, the stamp of line `j` is the one that
/// the list gives its packet.
proof fn lemma_saved_in(list: Seq<(String, i64)>, j: int)
    requires
        forall|a: int, b: int| 0 <= a < b < list.len() ==> list[a].0@ != list[b].0@,
        0 <= j < list.len(),
    ensures
        list[choose|i: int| 0 <= i < list.len() && list[i].0@ == list[j].0@].1 == list[j].1,
{
    let p = list[j].0@;
    assert(0 <= j < list.len() && list[j].0@ == p);
    assert forall|k: int| 0 <= k < list.len() && #[trigger] list[k].0@ == p implies k == j by {
        if k < j {
            assert(list[k].0@ != list[j].0@);
        } else if k > j {
            assert(list[j].0@ != list[k].0@);
        }
    }
}

} // verus!
