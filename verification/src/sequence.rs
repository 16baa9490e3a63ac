//! The order of submission: a command's transactions go out one at a time,
//! each only after the one before it was seen to complete.

use vstd::prelude::*;

verus! {

/// What the transport reports back.
#[derive(Debug, Clone, Copy, PartialEq, Eq)]
pub enum Event {
    /// The command starts.
    Begin,
    /// The transaction in flight completed: with the hash of its receipt,
    /// or without a receipt.
    Completed(Option<[u8; 32]>),
    /// The transaction in flight failed.
    Failed,
}

/// What the transport is to do next.
#[derive(Debug, Clone, Copy, PartialEq, Eq)]
pub enum Action {
    /// Submit the transaction of this index, and report how it ended.
    Submit(usize),
    /// The last transaction completed: report it and stop.
    Finish(Option<[u8; 32]>),
    /// A transaction failed: report the failure and stop. Nothing is sent
    /// again.
    Abort,
    /// The event fits no transaction in flight: do nothing.
    Ignore,
}

/// How far a command's transactions have gone.
#[derive(Debug, Clone, Copy, PartialEq, Eq, Structural)]
pub struct Sequencer {
    /// How many transactions the command has.
    pub calls: usize,
    /// How many were submitted.
    pub issued: usize,
    /// How many were seen to complete.
    pub observed: usize,
    /// Whether the command is over.
    pub closed: bool,
}

impl Sequencer {
    /// At most one transaction is in flight, and none beyond the last.
    pub open spec fn wf(self) -> bool {
        &&& self.observed <= self.issued <= self.calls
        &&& self.issued <= self.observed + 1
    }

    /// Whether a transaction is in flight.
    pub open spec fn in_flight(self) -> bool {
        !self.closed && self.issued > self.observed
    }

    /// The state before anything was submitted.
    pub open spec fn spec_new(calls: usize) -> Sequencer {
        Sequencer { calls, issued: 0, observed: 0, closed: false }
    }

    /// The state after `event`, and what to do. The first transaction goes
    /// out at the beginning. Each later one goes out when the one before it
    /// completed, with or without a receipt. A failure ends the command.
    pub open spec fn spec_step(self, event: Event) -> (Sequencer, Action) {
        match event {
            Event::Begin => {
                if !self.closed && self.issued == 0 && self.calls > 0 {
                    (Sequencer { issued: 1, ..self }, Action::Submit(0))
                } else {
                    (self, Action::Ignore)
                }
            },
            Event::Completed(receipt) => {
                if self.in_flight() {
                    if self.issued < self.calls {
                        (
                            Sequencer {
                                issued: (self.issued + 1) as usize,
                                observed: self.issued,
                                ..self
                            },
                            Action::Submit(self.issued),
                        )
                    } else {
                        (
                            Sequencer { observed: self.issued, closed: true, ..self },
                            Action::Finish(receipt),
                        )
                    }
                } else {
                    (self, Action::Ignore)
                }
            },
            Event::Failed => {
                if self.in_flight() {
                    (Sequencer { closed: true, ..self }, Action::Abort)
                } else {
                    (self, Action::Ignore)
                }
            },
        }
    }

    /// The state before anything was submitted, for a command of `calls`
    /// transactions.
    pub fn new(calls: usize) -> (s: Sequencer)
        ensures
            s == Sequencer::spec_new(calls),
            s.wf(),
    {
        Sequencer { calls, issued: 0, observed: 0, closed: false }
    }

    /// Takes one event: the next state, and what to do.
    pub fn step(self, event: Event) -> (r: (Sequencer, Action))
        ensures
            r == self.spec_step(event),
            self.wf() ==> r.0.wf(),
    {
        match event {
            Event::Begin => {
                if !self.closed && self.issued == 0 && self.calls > 0 {
                    (
                        Sequencer {
                            calls: self.calls,
                            issued: 1,
                            observed: self.observed,
                            closed: self.closed,
                        },
                        Action::Submit(0),
                    )
                } else {
                    (self, Action::Ignore)
                }
            },
            Event::Completed(receipt) => {
                if !self.closed && self.issued > self.observed {
                    if self.issued < self.calls {
                        (
                            Sequencer {
                                calls: self.calls,
                                issued: self.issued + 1,
                                observed: self.issued,
                                closed: self.closed,
                            },
                            Action::Submit(self.issued),
                        )
                    } else {
                        (
                            Sequencer {
                                calls: self.calls,
                                issued: self.issued,
                                observed: self.issued,
                                closed: true,
                            },
                            Action::Finish(receipt),
                        )
                    }
                } else {
                    (self, Action::Ignore)
                }
            },
            Event::Failed => {
                if !self.closed && self.issued > self.observed {
                    (
                        Sequencer {
                            calls: self.calls,
                            issued: self.issued,
                            observed: self.observed,
                            closed: true,
                        },
                        Action::Abort,
                    )
                } else {
                    (self, Action::Ignore)
                }
            },
        }
    }
}

/// The state after the events `events`, taken in order from the start.
pub open spec fn state_after(calls: usize, events: Seq<Event>) -> Sequencer
    decreases events.len(),
{
    if events.len() == 0 {
        Sequencer::spec_new(calls)
    } else {
        state_after(calls, events.drop_last()).spec_step(events.last()).0
    }
}

/// What the event of index `i` made the transport do.
pub open spec fn action_at(calls: usize, events: Seq<Event>, i: int) -> Action
    recommends
        0 <= i < events.len(),
{
    state_after(calls, events.take(i)).spec_step(events[i]).1
}

/// Every state that events lead to is well formed, and as many
/// transactions were submitted as the state counts.
pub proof fn lemma_states_wf(calls: usize, events: Seq<Event>)
    ensures
        state_after(calls, events).wf(),
    decreases events.len(),
{
    if events.len() > 0 {
        lemma_states_wf(calls, events.drop_last());
    }
}

/// The transaction before the next one to submit was submitted by an
/// earlier event, and all up to it were seen to complete but the last.
proof fn lemma_issued_before(calls: usize, events: Seq<Event>)
    ensures
        state_after(calls, events).issued > 0 ==> exists|j: int|
            0 <= j < events.len() && #[trigger] action_at(calls, events, j) == Action::Submit(
                (state_after(calls, events).issued - 1) as usize,
            ),
    decreases events.len(),
{
    let now = state_after(calls, events);
    if events.len() > 0 && now.issued > 0 {
        let front = events.drop_last();
        let before = state_after(calls, front);
        let last = events.len() - 1;
        lemma_states_wf(calls, front);
        assert(events.take(last) =~= front);
        if before.issued == now.issued {
            lemma_issued_before(calls, front);
            let j = choose|j: int|
                0 <= j < front.len() && #[trigger] action_at(calls, front, j) == Action::Submit(
                    (before.issued - 1) as usize,
                );
            assert(front.take(j) =~= events.take(j));
            assert(action_at(calls, events, j) == action_at(calls, front, j));
        } else {
            assert(action_at(calls, events, last) == Action::Submit((now.issued - 1) as usize));
        }
    }
}

/// The count of submitted transactions never goes down, and an event that
/// makes the transport submit the transaction of index `k` takes the count
/// from `k` to `k + 1`.
proof fn lemma_issued_grows(calls: usize, events: Seq<Event>, i: int)
    requires
        0 <= i <= events.len(),
    ensures
        state_after(calls, events.take(i)).issued <= state_after(calls, events).issued,
        state_after(calls, events.take(i)).closed ==> state_after(calls, events).closed,
        i < events.len() ==> (action_at(calls, events, i) matches Action::Submit(k) ==> state_after(
            calls,
            events.take(i),
        ).issued == k && state_after(calls, events.take(i + 1)).issued == k + 1),
    decreases events.len() - i,
{
    lemma_states_wf(calls, events.take(i));
    if i < events.len() {
        lemma_issued_grows(calls, events, i + 1);
        let next = events.take(i + 1);
        assert(next.drop_last() =~= events.take(i));
        assert(next.last() == events[i]);
    } else {
        assert(events.take(i) =~= events);
    }
}

/// Nothing is sent twice, and nothing out of order: where two events make
/// the transport submit, the later one submits a transaction of a higher
/// index.
pub proof fn lemma_submitted_once_in_order(
    calls: usize,
    events: Seq<Event>,
    i: int,
    j: int,
    k: usize,
    m: usize,
)
    requires
        0 <= i < j < events.len(),
        action_at(calls, events, i) == Action::Submit(k),
        action_at(calls, events, j) == Action::Submit(m),
    ensures
        k < m,
{
    let upto = events.take(j);
    lemma_issued_grows(calls, events, j);
    lemma_issued_grows(calls, upto, i + 1);
    assert(upto.take(i) =~= events.take(i));
    assert(upto.take(i + 1) =~= events.take(i + 1));
    assert(upto[i] == events[i]);
    lemma_issued_grows(calls, events, i);
}

/// A command that is over stays over: after the event that ends it, by the
/// last transaction's completion or by a failure, every event is ignored,
/// and so nothing is sent again.
pub proof fn lemma_nothing_after_the_end(calls: usize, events: Seq<Event>, i: int, j: int)
    requires
        0 <= i < j < events.len(),
        action_at(calls, events, i) is Finish || action_at(calls, events, i) is Abort,
    ensures
        action_at(calls, events, j) == Action::Ignore,
{
    let upto = events.take(j);
    let ended = events.take(i + 1);
    assert(ended.drop_last() =~= events.take(i));
    assert(ended.last() == events[i]);
    assert(state_after(calls, ended).closed);
    lemma_issued_grows(calls, upto, i + 1);
    assert(upto.take(i + 1) =~= ended);
}

/// No transaction goes out before the one ahead of it was seen to complete:
/// where an event makes the transport submit the transaction of index
/// `k >= 1`, that event is the completion of a transaction, and an earlier
/// event made the transport submit the transaction of index `k - 1`. For a
/// token funding, whose transactions are the approval and the deposit, the
/// deposit is submitted only on the approval's completion.
pub proof fn lemma_submit_follows_completion(calls: usize, events: Seq<Event>, i: int, k: usize)
    requires
        0 <= i < events.len(),
        action_at(calls, events, i) == Action::Submit(k),
        k >= 1,
    ensures
        events[i] is Completed,
        exists|j: int|
            0 <= j < i && #[trigger] action_at(calls, events, j) == Action::Submit((k - 1) as usize),
{
    let front = events.take(i);
    let before = state_after(calls, front);
    lemma_states_wf(calls, front);
    lemma_issued_before(calls, front);
    assert(before.issued == k);
    let j = choose|j: int|
        0 <= j < front.len() && #[trigger] action_at(calls, front, j) == Action::Submit(
            (k - 1) as usize,
        );
    assert(front.take(j) =~= events.take(j));
    assert(action_at(calls, events, j) == action_at(calls, front, j));
}

} // verus!
