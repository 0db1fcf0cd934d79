//! The download driver: what to send next, given what the session knows of
//! the peer and what the assembler still wants.
//!
//! The driver decides and the caller sends. A download is a run of steps,
//! each against the session as the answer to the last message left it; it
//! ends when nothing is pending or when the attempts are used up.

use vstd::prelude::*;
use crate::client::{Client, SessionView};
use crate::data::{DataDesc, DataView};
use crate::error::AttemptsExceeded;
use crate::message::{Message, MessageView};
use crate::requests::Request;

verus! {

/// How often in a row the driver asks a choking peer to unchoke us.
pub const TRIES_TO_UNCHOKE: u8 = 5;

/// What the driver does in one step.
pub enum Move {
    /// Nothing is pending: take over the blocks that have come and stop.
    Finish,
    /// The attempts are used up: stop with an error.
    GiveUp,
    /// The peer wants blocks and we choke it: unchoke it.
    Unchoke,
    /// The peer chokes us: tell it we are interested, at the cost of one attempt.
    Interested,
    /// The peer serves us: ask for a pending block and start counting anew.
    Request,
}

/// The move for a step: `done` says whether nothing is pending, `attempts`
/// how many attempts are left.
pub open spec fn next_move(done: bool, attempts: nat, session: SessionView) -> Move {
    if done {
        Move::Finish
    } else if attempts == 0 {
        Move::GiveUp
    } else if session.peer_choked && session.peer_interested {
        Move::Unchoke
    } else if session.am_choked {
        Move::Interested
    } else {
        Move::Request
    }
}

/// The attempts left after a move.
pub open spec fn attempts_after(mv: Move, attempts: nat, budget: nat) -> nat {
    match mv {
        Move::Interested => (attempts - 1) as nat,
        Move::Request => budget,
        _ => attempts,
    }
}

/// The outcome of a step that did not fail.
pub enum Step {
    /// The download is over: nothing is pending, and the assembler holds
    /// the session's blocks.
    Done,
    /// Send this, give the answer to the session, and step again.
    Send(Message),
}

/// The driver of one download over one session.
pub struct Download {
    /// The attempts left.
    pub attempts: u8,
    /// The attempts that progress restores.
    pub budget: u8,
}

impl Download {
    /// A driver with a full budget of attempts.
    pub fn new(budget: u8) -> (driver: Download)
        ensures
            driver.attempts == budget,
            driver.budget == budget,
    {
        Download { attempts: budget, budget }
    }

    /// One step of the download, decided by `next_move`. The session is
    /// only read; its blocks are copied into the assembler when the download
    /// is over.
    pub fn step(&mut self, client: &Client, desc: &mut DataDesc) -> (next: Result<
        Step,
        AttemptsExceeded,
    >)
        requires
            old(desc).wf(),
        ensures
            final(desc).wf(),
            final(self).budget == old(self).budget,
            ({
                let mv = next_move(
                    old(desc)@.pending == Set::<Request>::empty(),
                    old(self).attempts as nat,
                    client@,
                );
                &&& final(self).attempts == attempts_after(
                    mv,
                    old(self).attempts as nat,
                    old(self).budget as nat,
                )
                &&& match mv {
                    Move::Finish => {
                        &&& next matches Ok(Step::Done)
                        &&& final(desc)@ == (DataView {
                            received: old(desc)@.received.union_prefer_right(client@.blocks),
                            ..old(desc)@
                        })
                    },
                    Move::GiveUp => next is Err && final(desc)@ == old(desc)@,
                    Move::Unchoke => {
                        &&& next matches Ok(Step::Send(msg))
                        &&& msg@ == MessageView::Unchoke
                        &&& final(desc)@ == old(desc)@
                    },
                    Move::Interested => {
                        &&& next matches Ok(Step::Send(msg))
                        &&& msg@ == MessageView::Interested
                        &&& final(desc)@ == old(desc)@
                    },
                    Move::Request => {
                        &&& next matches Ok(Step::Send(msg))
                        &&& msg@ matches MessageView::Request(index, begin, length)
                        &&& old(desc)@.pending.contains((index, begin, length))
                        &&& final(desc)@ == (DataView {
                            pending: old(desc)@.pending.remove((index, begin, length)),
                            ..old(desc)@
                        })
                    },
                }
            }),
    {
        if desc.is_done() {
            desc.load_blocks(&client.blocks);
            return Ok(Step::Done);
        }
        if self.attempts == 0 {
            return Err(AttemptsExceeded);
        }
        if client.peer_choked && client.peer_interested {
            Ok(Step::Send(client.unchoke_peer()))
        } else if client.am_choked {
            self.attempts -= 1;
            Ok(Step::Send(client.unchoke_me()))
        } else {
            self.attempts = self.budget;
            match desc.request() {
                Some(request) => Ok(Step::Send(client.request(request.0, request.1, request.2))),
                // Something is pending, or the step had ended above.
                None => Ok(Step::Done),
            }
        }
    }
}

/// The moves of a download with `pending` requests to send and `attempts`
/// attempts left, against a peer that the steps find in the states of
/// `trace`, one after another. The run ends with the trace or with the first
/// move that stops the download.
pub open spec fn moves(pending: nat, attempts: nat, budget: nat, trace: Seq<SessionView>) -> Seq<
    Move,
>
    decreases trace.len(),
{
    if trace.len() == 0 {
        Seq::empty()
    } else {
        let mv = next_move(pending == 0, attempts, trace[0]);
        match mv {
            Move::Finish => seq![mv],
            Move::GiveUp => seq![mv],
            Move::Request => seq![mv] + moves(
                (pending - 1) as nat,
                attempts_after(mv, attempts, budget),
                budget,
                trace.skip(1),
            ),
            _ => seq![mv] + moves(
                pending,
                attempts_after(mv, attempts, budget),
                budget,
                trace.skip(1),
            ),
        }
    }
}

/// As long as the peer chokes us, the driver asks for no block.
pub proof fn lemma_choked_sends_no_request(
    pending: nat,
    attempts: nat,
    budget: nat,
    trace: Seq<SessionView>,
)
    requires
        forall|i: int| 0 <= i < trace.len() ==> trace[i].am_choked,
    ensures
        forall|i: int|
            0 <= i < moves(pending, attempts, budget, trace).len() ==> !(#[trigger] moves(
                pending,
                attempts,
                budget,
                trace,
            )[i] is Request),
    decreases trace.len(),
{
    if trace.len() > 0 {
        let mv = next_move(pending == 0, attempts, trace[0]);
        assert(trace[0].am_choked);
        assert(!(mv is Request));
        let rest = trace.skip(1);
        assert forall|i: int| 0 <= i < rest.len() implies rest[i].am_choked by {
            assert(rest[i] == trace[i + 1]);
        }
        lemma_choked_sends_no_request(pending, attempts_after(mv, attempts, budget), budget, rest);
    }
}

/// With requests pending, a peer that chokes us throughout and is not at
/// the same time choked by us and interested uses up the attempts: the
/// driver says that it is interested once for each attempt, then gives up.
/// It has asked for no block.
pub proof fn lemma_choked_gives_up(
    pending: nat,
    attempts: nat,
    budget: nat,
    trace: Seq<SessionView>,
)
    requires
        pending > 0,
        trace.len() > attempts,
        forall|i: int| 0 <= i < trace.len() ==> trace[i].am_choked,
        forall|i: int| 0 <= i < trace.len() ==> !(trace[i].peer_choked && trace[i].peer_interested),
    ensures
        moves(pending, attempts, budget, trace).len() == attempts + 1,
        forall|i: int|
            0 <= i < attempts ==> #[trigger] moves(pending, attempts, budget, trace)[i]
                is Interested,
        moves(pending, attempts, budget, trace)[attempts as int] is GiveUp,
    decreases trace.len(),
{
    assert(trace[0].am_choked);
    assert(!(trace[0].peer_choked && trace[0].peer_interested));
    if attempts > 0 {
        let rest = trace.skip(1);
        assert forall|i: int| 0 <= i < rest.len() implies rest[i].am_choked && !(
        rest[i].peer_choked && rest[i].peer_interested) by {
            assert(rest[i] == trace[i + 1]);
        }
        lemma_choked_gives_up(pending, (attempts - 1) as nat, budget, rest);
        let tail = moves(pending, (attempts - 1) as nat, budget, rest);
        let all = moves(pending, attempts, budget, trace);
        assert(all == seq![Move::Interested] + tail);
        assert forall|i: int| 0 <= i < attempts implies #[trigger] all[i] is Interested by {
            if i > 0 {
                assert(all[i] == tail[i - 1]);
            }
        }
        assert(all[attempts as int] == tail[attempts - 1]);
    }
}

} // verus!
