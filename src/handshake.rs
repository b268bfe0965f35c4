//! The readiness handshake: a client is answered `pong` to each `ping` once
//! it has sent `serve`.
use vstd::prelude::*;
use crate::text::same_text;

verus! {

/// The frame that makes a session ready.
pub open spec fn serve_text() -> Seq<char> {
    "serve"@
}

/// The frame that a ready session answers.
pub open spec fn ping_text() -> Seq<char> {
    "ping"@
}

/// The session is ready after `frame` when it was ready before or `frame` is
/// `serve`.
pub open spec fn ready_after(ready: bool, frame: Seq<char>) -> bool {
    ready || frame == serve_text()
}

/// A frame is answered with `pong` when it is `ping` and the session was
/// already ready.
pub open spec fn answers(ready: bool, frame: Seq<char>) -> bool {
    ready && frame == ping_text() && frame != serve_text()
}

/// The number of `pong` replies to a run of frames, from a session that
/// starts ready or not.
pub open spec fn pongs(ready: bool, frames: Seq<Seq<char>>) -> nat
    decreases frames.len(),
{
    if frames.len() == 0 {
        0
    } else {
        (if answers(ready, frames[0]) {
            1nat
        } else {
            0nat
        }) + pongs(ready_after(ready, frames[0]), frames.drop_first())
    }
}

/// The number of `ping` frames in a run.
pub open spec fn pings(frames: Seq<Seq<char>>) -> nat
    decreases frames.len(),
{
    if frames.len() == 0 {
        0
    } else {
        (if frames[0] == ping_text() {
            1nat
        } else {
            0nat
        }) + pings(frames.drop_first())
    }
}

/// What a session answers to one frame.
#[derive(Clone, Copy, Debug, PartialEq, Eq)]
pub enum Reply {
    /// Send the text `pong`.
    Pong,
    /// Send nothing.
    Silent,
}

/// The state of one readiness-handshake session.
#[derive(Debug)]
pub struct ServeGame {
    ready: bool,
}

impl ServeGame {
    /// Whether `serve` has been received.
    pub closed spec fn is_ready(&self) -> bool {
        self.ready
    }

    /// A session that has not yet been told to serve.
    pub fn new() -> (r: ServeGame)
        ensures
            !r.is_ready(),
    {
        ServeGame { ready: false }
    }

    /// Whether `serve` has been received.
    pub fn ready(&self) -> (r: bool)
        ensures
            r == self.is_ready(),
    {
        self.ready
    }

    /// Takes one text frame and says what to answer.
    pub fn on_frame(&mut self, frame: &str) -> (r: Reply)
        ensures
            final(self).is_ready() == ready_after(old(self).is_ready(), frame@),
            (r == Reply::Pong) == answers(old(self).is_ready(), frame@),
    {
        if same_text(frame, "serve") {
            self.ready = true;
            Reply::Silent
        } else if self.ready && same_text(frame, "ping") {
            Reply::Pong
        } else {
            Reply::Silent
        }
    }
}

/// `serve` and `ping` are different frames.
pub proof fn lemma_serve_is_not_ping()
    ensures
        serve_text() != ping_text(),
{
    reveal_strlit("serve");
    reveal_strlit("ping");
    assert(serve_text()[0] != ping_text()[0]);
}

/// Before `serve` nothing is answered: a session that is not ready gets no
/// reply to a run of frames without `serve`.
pub proof fn law_no_reply_before_serve(frames: Seq<Seq<char>>)
    requires
        forall|i: int| 0 <= i < frames.len() ==> frames[i] != serve_text(),
    ensures
        pongs(false, frames) == 0,
    decreases frames.len(),
{
    if frames.len() > 0 {
        law_no_reply_before_serve(frames.drop_first());
    }
}

/// Once ready, a session answers exactly one `pong` per `ping`.
pub proof fn law_one_pong_per_ping(frames: Seq<Seq<char>>)
    ensures
        pongs(true, frames) == pings(frames),
    decreases frames.len(),
{
    lemma_serve_is_not_ping();
    if frames.len() > 0 {
        law_one_pong_per_ping(frames.drop_first());
    }
}

/// Frames sent before the first `serve` get no reply, and every `ping` after
/// it gets one `pong`.
pub proof fn law_pongs_follow_serve(before: Seq<Seq<char>>, after: Seq<Seq<char>>)
    requires
        forall|i: int| 0 <= i < before.len() ==> before[i] != serve_text(),
    ensures
        pongs(false, before + seq![serve_text()] + after) == pings(after),
    decreases before.len(),
{
    lemma_serve_is_not_ping();
    let all = before + seq![serve_text()] + after;
    if before.len() == 0 {
        assert(all[0] == serve_text());
        assert(all.drop_first() == after);
        law_one_pong_per_ping(after);
    } else {
        assert(all[0] == before[0]);
        assert(all.drop_first() == before.drop_first() + seq![serve_text()] + after);
        law_pongs_follow_serve(before.drop_first(), after);
    }
}

} // verus!
