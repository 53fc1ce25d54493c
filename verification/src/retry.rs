//! The retry policy for requests: which answers end a request, which call
//! for another attempt, and how long to wait in between.

use vstd::prelude::*;
use exponential_backoff::IntoIter;
use crate::activate::RequestFailed;
use crate::backend::{judge, passes, Validator};
use crate::json::Json;

verus! {

/// The number of attempts that a request is given.
pub const RETRY_COUNT: u32 = 10;

/// The shortest wait between two attempts, in milliseconds.
pub const MIN_WAIT_MILLIS: u64 = 1000;

/// `exponential_backoff::IntoIter`: a schedule of waits, carried as it is.
#[verifier::external_type_specification]
#[verifier::external_body]
pub struct ExIntoIter(IntoIter);

/// How many attempts a schedule still allows.
pub uninterp spec fn attempts_left(schedule: IntoIter) -> nat;

/// The shortest wait that a schedule was made with, in milliseconds.
pub uninterp spec fn shortest_wait(schedule: IntoIter) -> nat;

/// A fresh schedule for `attempts` attempts with waits of at least
/// `shortest_millis` milliseconds.
///
/// Trusted: `exponential_backoff::Backoff::new` with this number of
/// attempts, this shortest wait and no longest wait gives, as an iterator, a
/// schedule that allows this number of attempts.
#[verifier::external_body]
fn schedule_start(attempts: u32, shortest_millis: u64) -> (r: IntoIter)
    ensures
        attempts_left(r) == attempts,
        shortest_wait(r) == shortest_millis,
{
    exponential_backoff::Backoff::new(
        attempts,
        std::time::Duration::from_millis(shortest_millis),
        None,
    ).into_iter()
}

/// The next item of a schedule: nothing where no attempt is left; else the
/// wait that follows the attempt, in milliseconds, which is missing after
/// the last attempt.
///
/// Trusted: the iterator of `exponential_backoff` counts the attempts it has
/// handed out; it ends when they reach the number it was made with, hands
/// out no wait for the last one, and for the others a wait with random
/// jitter that it keeps no shorter than the shortest wait it was made with.
#[verifier::external_body]
fn schedule_next(schedule: &mut IntoIter) -> (r: Option<Option<u128>>)
    ensures
        shortest_wait(*final(schedule)) == shortest_wait(*old(schedule)),
        attempts_left(*old(schedule)) == 0 ==> r is None && attempts_left(*final(schedule)) == 0,
        attempts_left(*old(schedule)) > 0 ==> r is Some && attempts_left(*final(schedule))
            == attempts_left(*old(schedule)) - 1,
        r matches Some(wait) ==> (wait is None <==> attempts_left(*old(schedule)) == 1),
        r matches Some(Some(millis)) ==> millis >= shortest_wait(*old(schedule)),
{
    schedule.next().map(|wait| wait.map(|d| d.as_millis()))
}

/// What came of one attempt to send a request.
#[derive(Debug, PartialEq, Eq)]
pub enum Attempt {
    /// The request did not get through.
    TransportFailed,
    /// An answer came, with this status; its body is here if it was JSON.
    Answer { status: u16, body: Option<Json> },
}

/// Why an attempt calls for another one.
#[derive(Debug, Clone, Copy, PartialEq, Eq, Structural)]
pub enum RetryCause {
    /// The request did not get through.
    Transport,
    /// The service asked for fewer requests.
    RateLimited,
}

/// Why a request failed for good.
#[derive(Debug, PartialEq, Eq)]
pub enum RequestError {
    /// The answer was not JSON.
    InvalidBody { status: u16 },
    /// The answer was judged a failure.
    Refused(RequestFailed),
    /// Every attempt called for another one; this was the cause of the last.
    Exhausted { last: Option<RetryCause> },
}

impl RequestError {
    /// The message shown to the operator.
    pub fn message(&self) -> (r: &'static str)
        ensures
            r@ == (match *self {
                RequestError::InvalidBody { .. } => "response body is not valid JSON"@,
                RequestError::Refused(_) => "request failed"@,
                RequestError::Exhausted { .. } => "exhausted retries"@,
            }),
    {
        match self {
            RequestError::InvalidBody { .. } => "response body is not valid JSON",
            RequestError::Refused(_) => "request failed",
            RequestError::Exhausted { .. } => "exhausted retries",
        }
    }
}

/// What an attempt means for the request.
#[derive(Debug, PartialEq, Eq)]
pub enum Verdict {
    /// The request is done, with this answer.
    Success(Json),
    /// Another attempt is called for.
    Retry(RetryCause),
    /// The request has failed for good.
    Fatal(RequestError),
}

/// The status by which the service asks for fewer requests.
pub const TOO_MANY_REQUESTS: u16 = 429;

/// Classifies an attempt. A request that did not get through, or that was
/// turned away for the rate of requests, is tried again. Any other answer
/// ends the request: as a failure if its body is not JSON or if it is
/// judged a failure, else as success.
pub fn classify(attempt: Attempt, validate: Option<Validator>) -> (r: Verdict)
    ensures
        attempt is TransportFailed ==> r == Verdict::Retry(RetryCause::Transport),
        attempt matches Attempt::Answer { status, body } ==> {
            if status == TOO_MANY_REQUESTS {
                r == Verdict::Retry(RetryCause::RateLimited)
            } else if body is None {
                r == Verdict::Fatal(RequestError::InvalidBody { status })
            } else if passes(validate, status, body->Some_0@) {
                r == Verdict::Success(body->Some_0)
            } else {
                r matches Verdict::Fatal(RequestError::Refused(e)) && e.status == status && e.body@
                    == body->Some_0@
            }
        },
{
    match attempt {
        Attempt::TransportFailed => Verdict::Retry(RetryCause::Transport),
        Attempt::Answer { status, body } => {
            if status == TOO_MANY_REQUESTS {
                Verdict::Retry(RetryCause::RateLimited)
            } else {
                match body {
                    None => Verdict::Fatal(RequestError::InvalidBody { status }),
                    Some(json) => match judge(validate, status, &json) {
                        Ok(()) => Verdict::Success(json),
                        Err(e) => Verdict::Fatal(RequestError::Refused(e)),
                    },
                }
            }
        },
    }
}

/// What to do next with a request.
#[derive(Debug, PartialEq, Eq)]
pub enum Step {
    /// Send the request, after waiting this many milliseconds.
    Send { wait_millis: u128 },
    /// The request is over, with this result.
    Finish(Result<Json, RequestError>),
}

/// The course of one request through its attempts.
pub struct Retry {
    schedule: IntoIter,
    pause: Option<u128>,
}

impl Retry {
    /// How many more attempts may be started.
    pub closed spec fn left(&self) -> nat {
        attempts_left(self.schedule)
    }

    /// The wait that follows the attempt under way, if one does.
    pub closed spec fn pause(&self) -> Option<u128> {
        self.pause
    }

    /// The shortest wait of the schedule that the request goes by.
    pub closed spec fn shortest(&self) -> nat {
        shortest_wait(self.schedule)
    }

    /// The start of a request: the first attempt is under way, and
    /// `RETRY_COUNT - 1` more may follow, each after a wait of at least
    /// `MIN_WAIT_MILLIS`.
    pub fn new() -> (r: Retry)
        ensures
            r.left() == RETRY_COUNT - 1,
            r.shortest() == MIN_WAIT_MILLIS,
            r.pause() matches Some(w) && w >= MIN_WAIT_MILLIS,
    {
        let mut schedule = schedule_start(RETRY_COUNT, MIN_WAIT_MILLIS);
        let pause = match schedule_next(&mut schedule) {
            Some(wait) => wait,
            None => None,
        };
        Retry { schedule, pause }
    }

    /// Takes in the verdict on the attempt under way and says what to do
    /// next. Another attempt is started only where one is left, after the
    /// wait that the schedule gave for it; after the last attempt the
    /// request is over.
    pub fn after(&mut self, verdict: Verdict) -> (r: Step)
        ensures
            final(self).shortest() == old(self).shortest(),
            verdict matches Verdict::Success(body) ==> r == Step::Finish(
                Ok::<Json, RequestError>(body),
            ) && final(self).left() == old(self).left(),
            verdict matches Verdict::Fatal(e) ==> r == Step::Finish(Err::<Json, RequestError>(e))
                && final(self).left() == old(self).left(),
            verdict matches Verdict::Retry(cause) ==> {
                if old(self).left() == 0 {
                    r == Step::Finish(
                        Err::<Json, RequestError>(RequestError::Exhausted { last: Some(cause) }),
                    ) && final(self).left() == 0
                } else {
                    r == (Step::Send {
                        wait_millis: match old(self).pause() {
                            Some(w) => w,
                            None => 0,
                        },
                    }) && final(self).left() == old(self).left() - 1 && (final(self).pause() is None
                        <==> final(self).left() == 0) && (final(self).pause() matches Some(w) ==> w
                        >= old(self).shortest())
                }
            },
    {
        match verdict {
            Verdict::Success(body) => Step::Finish(Ok(body)),
            Verdict::Fatal(e) => Step::Finish(Err(e)),
            Verdict::Retry(cause) => {
                let wait_millis = match self.pause {
                    Some(w) => w,
                    None => 0,
                };
                match schedule_next(&mut self.schedule) {
                    Some(next) => {
                        self.pause = next;
                        Step::Send { wait_millis }
                    },
                    None => Step::Finish(Err(RequestError::Exhausted { last: Some(cause) })),
                }
            },
        }
    }
}

} // verus!
