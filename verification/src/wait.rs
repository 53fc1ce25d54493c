//! Waiting for requested activations to show among the active assignments.
//!
//! The service offers no notice of a change, so the caller polls: it lists
//! the active assignments, strikes those it finds from the set it waits
//! for, and goes on until the set is empty or the time is up. The decisions
//! are made here; listing and sleeping are the caller's.

use vstd::prelude::*;
use crate::ordset::OrdSet;
use crate::models::roles::{friendly_lines, RoleAssignment, RoleAssignmentView, RolesExt};
use crate::text::{push_text, string_of};

verus! {

/// The shortest time between two listings, in nanoseconds.
pub const POLL_INTERVAL_NANOS: u128 = 5_000_000_000;

/// The assignments of `waiting` that are not among `active`, in order.
pub open spec fn still_waiting(waiting: Seq<RoleAssignmentView>, active: Seq<RoleAssignmentView>) -> Seq<
    RoleAssignmentView,
> {
    waiting.filter(|a: RoleAssignmentView| !active.contains(a))
}

/// The time `pause` after `elapsed`, or the largest time that can be counted.
pub open spec fn poll_time(elapsed: u128, pause: u128) -> u128 {
    if elapsed + pause > u128::MAX {
        u128::MAX
    } else {
        (elapsed + pause) as u128
    }
}

/// How long to sleep before a listing at time `elapsed`, so that it comes
/// no sooner than one interval after the listing before it.
pub open spec fn pause_before(last_poll: Option<u128>, elapsed: u128) -> u128 {
    match last_poll {
        None => 0,
        Some(last) => if elapsed >= poll_time(last, POLL_INTERVAL_NANOS) {
            0
        } else {
            (poll_time(last, POLL_INTERVAL_NANOS) - elapsed) as u128
        },
    }
}

/// The wait ran out of time with these assignments not yet active.
#[derive(Debug, PartialEq, Eq)]
pub struct WaitError {
    pub remaining: OrdSet<RoleAssignment>,
}

impl WaitError {
    /// The message shown to the operator.
    pub fn message(&self) -> (r: String)
        ensures
            r@ == "timed out waiting for the following roles to activate:\n"@ + friendly_lines(
                self.remaining@,
            ),
    {
        let mut out: Vec<char> = Vec::new();
        push_text(&mut out, "timed out waiting for the following roles to activate:\n");
        push_text(&mut out, self.remaining.friendly().as_str());
        string_of(&out)
    }
}

/// What to do next while waiting.
#[derive(Debug, PartialEq, Eq)]
pub enum WaitStep {
    /// Every assignment is active.
    Done,
    /// Sleep this long, list the active assignments and report them.
    Poll { sleep_nanos: u128 },
    /// The time is up.
    TimedOut(WaitError),
}

/// The state of a wait. Times are nanoseconds since the wait began.
pub struct Wait {
    waiting: OrdSet<RoleAssignment>,
    timeout_nanos: u128,
    last_poll: Option<u128>,
}

impl Wait {
    /// The assignments still waited for, in order.
    pub closed spec fn waiting(&self) -> Seq<RoleAssignmentView> {
        self.waiting@
    }

    /// The time after which the wait gives up.
    pub closed spec fn timeout(&self) -> u128 {
        self.timeout_nanos
    }

    /// The time of the latest listing, if one was made.
    pub closed spec fn last_poll(&self) -> Option<u128> {
        self.last_poll
    }

    /// A wait for `assignments` that gives up after `timeout_nanos`.
    pub fn new(assignments: &OrdSet<RoleAssignment>, timeout_nanos: u128) -> (r: Wait)
        ensures
            r.waiting() == assignments@,
            r.timeout() == timeout_nanos,
            r.last_poll() is None,
    {
        Wait { waiting: assignments.duplicate(), timeout_nanos, last_poll: None }
    }

    /// Decides what to do at time `elapsed`. The wait is over when nothing
    /// is waited for. Else it has failed when the time is up, with all that
    /// is still waited for. Else the active assignments are listed, after a
    /// sleep that keeps listings one interval apart.
    pub fn next(&mut self, elapsed: u128) -> (r: WaitStep)
        ensures
            final(self).waiting() == old(self).waiting(),
            final(self).timeout() == old(self).timeout(),
            old(self).waiting().len() == 0 ==> r == WaitStep::Done
                && final(self).last_poll() == old(self).last_poll(),
            old(self).waiting().len() > 0 && elapsed > old(self).timeout() ==> (r matches WaitStep::TimedOut(
                e,
            ) && e.remaining@ == old(self).waiting())
                && final(self).last_poll() == old(self).last_poll(),
            old(self).waiting().len() > 0 && elapsed <= old(self).timeout() ==> r == (WaitStep::Poll {
                sleep_nanos: pause_before(old(self).last_poll(), elapsed),
            }) && final(self).last_poll() == Some(
                poll_time(elapsed, pause_before(old(self).last_poll(), elapsed)),
            ),
    {
        if self.waiting.is_empty() {
            return WaitStep::Done;
        }
        if elapsed > self.timeout_nanos {
            return WaitStep::TimedOut(WaitError { remaining: self.waiting.duplicate() });
        }
        let sleep_nanos: u128 = match self.last_poll {
            None => 0,
            Some(last) => {
                let due: u128 = match last.checked_add(POLL_INTERVAL_NANOS) {
                    Some(t) => t,
                    None => u128::MAX,
                };
                if elapsed >= due {
                    0
                } else {
                    due - elapsed
                }
            },
        };
        let at = match elapsed.checked_add(sleep_nanos) {
            Some(t) => t,
            None => u128::MAX,
        };
        self.last_poll = Some(at);
        WaitStep::Poll { sleep_nanos }
    }

    /// Takes in a listing of the active assignments: those of them that
    /// were waited for are waited for no longer.
    pub fn observe(&mut self, active: &OrdSet<RoleAssignment>)
        ensures
            final(self).waiting() == still_waiting(old(self).waiting(), active@),
            final(self).timeout() == old(self).timeout(),
            final(self).last_poll() == old(self).last_poll(),
    {
        let rest = self.waiting.without(active);
        self.waiting = rest;
    }
}

/// Two listings are at least one interval apart.
pub proof fn lemma_poll_spacing(last: u128, elapsed: u128)
    requires
        last + POLL_INTERVAL_NANOS <= u128::MAX,
    ensures
        poll_time(elapsed, pause_before(Some(last), elapsed)) >= last + POLL_INTERVAL_NANOS,
{
}

/// Where every assignment waited for is listed as active, nothing is waited
/// for any longer.
pub proof fn lemma_all_active(waiting: Seq<RoleAssignmentView>, active: Seq<RoleAssignmentView>)
    requires
        forall|i: int| 0 <= i < waiting.len() ==> active.contains(#[trigger] waiting[i]),
    ensures
        still_waiting(waiting, active).len() == 0,
    decreases waiting.len(),
{
    reveal(Seq::filter);
    if waiting.len() > 0 {
        assert forall|i: int| 0 <= i < waiting.drop_last().len() implies active.contains(
            #[trigger] waiting.drop_last()[i],
        ) by {
            assert(waiting.drop_last()[i] == waiting[i]);
        }
        lemma_all_active(waiting.drop_last(), active);
        assert(active.contains(waiting[waiting.len() - 1]));
    }
}

/// Where no assignment waited for is listed as active, all are waited for
/// still.
pub proof fn lemma_none_active(waiting: Seq<RoleAssignmentView>, active: Seq<RoleAssignmentView>)
    requires
        forall|i: int| 0 <= i < waiting.len() ==> !active.contains(#[trigger] waiting[i]),
    ensures
        still_waiting(waiting, active) == waiting,
    decreases waiting.len(),
{
    reveal(Seq::filter);
    if waiting.len() > 0 {
        assert forall|i: int| 0 <= i < waiting.drop_last().len() implies !active.contains(
            #[trigger] waiting.drop_last()[i],
        ) by {
            assert(waiting.drop_last()[i] == waiting[i]);
        }
        lemma_none_active(waiting.drop_last(), active);
        assert(!active.contains(waiting[waiting.len() - 1]));
        assert(waiting.drop_last().push(waiting.last()) =~= waiting);
    } else {
        assert(still_waiting(waiting, active) =~= waiting);
    }
}

} // verus!
