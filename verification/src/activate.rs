//! What an answer to a schedule request means, and what becomes of a batch
//! of such requests.

use vstd::prelude::*;
use crate::json::{field, step, text_here, text_of, Json, JsonView};
use crate::ordset::{increasing, lemma_placed_members, Keyed, OrdSet};
use crate::models::roles::{friendly_lines, RoleAssignment, RoleAssignmentView, RolesExt};
use crate::text::{push_text, same_text, string_of};

verus! {

/// Which assignments a listing asks for.
#[derive(Debug, Clone, Copy, PartialEq, Eq, Structural)]
pub enum ListFilter {
    /// Everything at or beneath a scope.
    AtScope,
    /// What concerns the calling principal.
    AsTarget,
}

impl ListFilter {
    /// The filter as the service reads it.
    pub fn as_str(&self) -> (r: &'static str)
        ensures
            r@ == (match *self {
                ListFilter::AtScope => "atScope()"@,
                ListFilter::AsTarget => "asTarget()"@,
            }),
    {
        match self {
            ListFilter::AtScope => "atScope()",
            ListFilter::AsTarget => "asTarget()",
        }
    }

    /// The filter as the operator writes it.
    pub fn to_string(&self) -> (r: String)
        ensures
            r@ == (match *self {
                ListFilter::AtScope => "at-scope"@,
                ListFilter::AsTarget => "as-target"@,
            }),
    {
        match self {
            ListFilter::AtScope => "at-scope".to_string(),
            ListFilter::AsTarget => "as-target".to_string(),
        }
    }

    /// Whether a listing under this filter names the principal of each
    /// assignment: it does unless the listing is for the caller alone.
    pub fn with_principal(filter: Option<ListFilter>) -> (r: bool)
        ensures
            r == (filter != Some(ListFilter::AsTarget)),
    {
        match filter {
            Some(ListFilter::AsTarget) => false,
            _ => true,
        }
    }
}

/// Whether a status says that a request succeeded.
pub open spec fn status_ok(status: u16) -> bool {
    200 <= status < 300
}

/// The code of the error that an answer reports, if it reports one.
pub open spec fn error_code(body: JsonView) -> Option<Seq<char>> {
    text_of(field(field(body, "error"@), "code"@))
}

/// Whether an answer says that what a schedule request asks for is already
/// so, or already asked for.
pub open spec fn benign_conflict(status: u16, body: JsonView) -> bool {
    status == 400 && (error_code(body) == Some("RoleAssignmentExists"@) || error_code(body)
        == Some("RoleAssignmentRequestExists"@))
}

/// Whether an answer to a schedule request counts as success.
pub open spec fn accepted(status: u16, body: JsonView) -> bool {
    status_ok(status) || benign_conflict(status, body)
}

/// An answer that is refused, with all that it said.
#[derive(Debug, PartialEq, Eq)]
pub struct RequestFailed {
    pub status: u16,
    pub body: Json,
}

/// Judges the answer to a schedule request. An answer that reports the
/// assignment, or a request for it, as existing is no failure.
pub fn check_error_response(status: u16, body: &Json) -> (r: Result<(), RequestFailed>)
    ensures
        r is Ok <==> accepted(status, body@),
        r matches Err(e) ==> e.status == status && e.body@ == body@,
{
    if status >= 200 && status < 300 {
        return Ok(());
    }
    if status == 400 {
        match text_here(step(step(Some(body), "error"), "code")) {
            Some(code) => {
                if same_text(code.as_str(), "RoleAssignmentExists") {
                    return Ok(());
                }
                if same_text(code.as_str(), "RoleAssignmentRequestExists") {
                    return Ok(());
                }
            },
            None => {},
        }
    }
    Err(RequestFailed { status, body: body.duplicate() })
}

/// An answer that reports the assignment as existing, or as asked for, is
/// accepted whatever else it says.
pub proof fn lemma_existing_is_accepted(body: JsonView)
    requires
        error_code(body) == Some("RoleAssignmentExists"@) || error_code(body) == Some(
            "RoleAssignmentRequestExists"@,
        ),
    ensures
        accepted(400, body),
{
}

/// How many requests of a batch are under way at once. The number is fixed
/// by the first batch; later batches go by it whatever they ask for.
#[derive(Debug, PartialEq, Eq)]
pub struct Concurrency {
    limit: Option<usize>,
}

impl Concurrency {
    #[verifier::type_invariant]
    spec fn positive(self) -> bool {
        self.limit matches Some(n) ==> n > 0
    }

    /// The limit, once it is fixed.
    pub closed spec fn fixed(&self) -> Option<usize> {
        self.limit
    }

    /// A limit that is not fixed yet.
    pub fn new() -> (r: Concurrency)
        ensures
            r.fixed() is None,
    {
        Concurrency { limit: None }
    }

    /// The limit in force when a batch asks for `wanted`: the one fixed
    /// before, else `wanted`, which is fixed from now on. A batch that asks
    /// for none is given one.
    pub fn configure(&mut self, wanted: usize) -> (r: usize)
        ensures
            final(self).fixed() == Some(r),
            r > 0,
            r == (match old(self).fixed() {
                Some(n) => n,
                None => if wanted == 0 {
                    1
                } else {
                    wanted
                },
            }),
    {
        proof {
            use_type_invariant(&*self);
        }
        match self.limit {
            Some(n) => n,
            None => {
                let n: usize = if wanted == 0 {
                    1
                } else {
                    wanted
                };
                self.limit = Some(n);
                n
            },
        }
    }
}

/// What became of the request for one assignment of a batch.
#[derive(Debug, PartialEq, Eq)]
pub enum ActivationResult {
    Success,
    Failed(RoleAssignment),
}

impl ActivationResult {
    /// The result for `assignment`, by whether its request succeeded.
    pub fn of(assignment: &RoleAssignment, succeeded: bool) -> (r: ActivationResult)
        ensures
            succeeded ==> r is Success,
            !succeeded ==> (r matches ActivationResult::Failed(a) && a@ == assignment@),
    {
        if succeeded {
            ActivationResult::Success
        } else {
            ActivationResult::Failed(assignment.duplicate())
        }
    }
}

/// What a batch asks of each of its assignments.
#[derive(Debug, Clone, Copy, PartialEq, Eq, Structural)]
pub enum SetAction {
    Activate,
    Deactivate,
}

/// Why a batch did not go through.
#[derive(Debug, PartialEq, Eq)]
pub enum SetError {
    /// The batch names no assignment.
    NoRoles,
    /// Some requests failed: these.
    Failed { action: SetAction, failed: OrdSet<RoleAssignment> },
}

/// The first line of the report of a failed batch.
pub open spec fn failure_heading(action: SetAction) -> Seq<char> {
    match action {
        SetAction::Activate => "failed to activate the following roles:\n"@,
        SetAction::Deactivate => "failed to deactivate the following roles:\n"@,
    }
}

impl SetError {
    /// The message shown to the operator.
    pub fn message(&self) -> (r: String)
        ensures
            self is NoRoles ==> r@ == "no roles specified"@,
            self matches SetError::Failed { action, failed } ==> r@ == failure_heading(*action)
                + friendly_lines(failed@),
    {
        match self {
            SetError::NoRoles => "no roles specified".to_string(),
            SetError::Failed { action, failed } => {
                let mut out: Vec<char> = Vec::new();
                match action {
                    SetAction::Activate => {
                        push_text(&mut out, "failed to activate the following roles:\n");
                    },
                    SetAction::Deactivate => {
                        push_text(&mut out, "failed to deactivate the following roles:\n");
                    },
                }
                push_text(&mut out, failed.friendly().as_str());
                string_of(&out)
            },
        }
    }
}

/// The assignments whose requests failed, among the first `n` results.
pub open spec fn failures(results: Seq<ActivationResult>, n: int) -> Set<RoleAssignmentView> {
    Set::new(
        |a: RoleAssignmentView|
            exists|i: int|
                0 <= i < n && (#[trigger] results[i]) is Failed && results[i]->Failed_0@ == a,
    )
}

/// Refuses a batch that names no assignment.
pub fn require_roles(assignments: &OrdSet<RoleAssignment>) -> (r: Result<(), SetError>)
    ensures
        assignments@.len() == 0 <==> r is Err,
        r matches Err(e) ==> e is NoRoles,
{
    if assignments.is_empty() {
        Err(SetError::NoRoles)
    } else {
        Ok(())
    }
}

/// Sums up a batch: it went through if every request succeeded; else the
/// error holds exactly the assignments whose requests failed.
pub fn aggregate(results: Vec<ActivationResult>, action: SetAction) -> (r: Result<(), SetError>)
    ensures
        r is Ok <==> failures(results@, results@.len() as int) == Set::<
            RoleAssignmentView,
        >::empty(),
        r matches Err(e) ==> (e matches SetError::Failed { action: a, failed } && a == action
            && failed@.to_set() == failures(results@, results@.len() as int) && increasing::<
            RoleAssignment,
        >(failed@)),
{
    let mut failed: OrdSet<RoleAssignment> = OrdSet::new();
    let _ = failed.len();
    assert(failed@.to_set() =~= failures(results@, 0));
    let mut i: usize = 0;
    while i < results.len()
        invariant
            i <= results@.len(),
            failed@.to_set() == failures(results@, i as int),
            increasing::<RoleAssignment>(failed@),
        decreases results@.len() - i,
    {
        let ghost before = failed@;
        match &results[i] {
            ActivationResult::Failed(entry) => {
                failed.insert(entry.duplicate());
                proof {
                    lemma_placed_members(before, entry@, failed@);
                    assert(failures(results@, i + 1) =~= failures(results@, i as int).insert(
                        entry@,
                    ));
                }
            },
            ActivationResult::Success => {
                assert(failures(results@, i + 1) =~= failures(results@, i as int));
            },
        }
        i += 1;
    }
    if failed.is_empty() {
        assert(failed@.to_set() =~= Set::<RoleAssignmentView>::empty());
        Ok(())
    } else {
        assert(failed@.to_set().contains(failed@[0]));
        Err(SetError::Failed { action, failed })
    }
}

/// Where exactly one request of a batch failed, the failures are exactly
/// the assignment of that request.
pub proof fn lemma_single_failure(results: Seq<ActivationResult>, k: int)
    requires
        0 <= k < results.len(),
        results[k] is Failed,
        forall|i: int| 0 <= i < results.len() && i != k ==> results[i] is Success,
    ensures
        failures(results, results.len() as int) == set![results[k]->Failed_0@],
        friendly_lines(seq![results[k]->Failed_0@]) == "* "@ + crate::models::roles::friendly_text(
            results[k]->Failed_0@,
        ),
{
    assert(failures(results, results.len() as int) =~= set![results[k]->Failed_0@]);
}

} // verus!
