//! Schedule requests: the requests that activate, extend, deactivate and
//! remove time-bound role assignments.

use vstd::prelude::*;
use crate::backend::{pairs, request_url, Method, Operation, Request, RequestBuilder, TokenScope,
    Validator};
use crate::duration::{duration_text, format_duration, DurationError};
use crate::ident::{hyphenated, uuid_text};
use crate::json::{member_views, Json, JsonView};
use crate::models::roles::RoleAssignment;

verus! {

/// What a schedule request asks for.
#[derive(Debug, Clone, Copy, PartialEq, Eq, Structural)]
pub enum RequestKind {
    SelfActivate,
    SelfDeactivate,
    SelfExtend,
    AdminRemove,
}

impl RequestKind {
    /// The name of the kind in a request.
    pub open spec fn name(self) -> Seq<char> {
        match self {
            RequestKind::SelfActivate => "SelfActivate"@,
            RequestKind::SelfDeactivate => "SelfDeactivate"@,
            RequestKind::SelfExtend => "SelfExtend"@,
            RequestKind::AdminRemove => "AdminRemove"@,
        }
    }

    /// The name of the kind in a request.
    pub fn as_str(&self) -> (r: &'static str)
        ensures
            r@ == self.name(),
    {
        match self {
            RequestKind::SelfActivate => "SelfActivate",
            RequestKind::SelfDeactivate => "SelfDeactivate",
            RequestKind::SelfExtend => "SelfExtend",
            RequestKind::AdminRemove => "AdminRemove",
        }
    }

    /// Whether requests of this kind carry a justification and a duration.
    pub open spec fn timed(self) -> bool {
        self == RequestKind::SelfActivate || self == RequestKind::SelfExtend
    }

    /// The operation that takes requests of this kind.
    pub open spec fn operation(self) -> Operation {
        if self == RequestKind::AdminRemove {
            Operation::RoleEligibilityScheduleRequests
        } else {
            Operation::RoleAssignmentScheduleRequests
        }
    }
}

/// The members that say who asks for what.
pub open spec fn base_members(kind: RequestKind, principal: Seq<char>, definition: Seq<char>) -> Seq<
    (Seq<char>, JsonView),
> {
    seq![
        ("principalId"@, JsonView::Text(principal)),
        ("roleDefinitionId"@, JsonView::Text(definition)),
        ("requestType"@, JsonView::Text(kind.name())),
    ]
}

/// The members that say why and for how long.
pub open spec fn timing_members(justification: Seq<char>, duration: Seq<char>) -> Seq<
    (Seq<char>, JsonView),
> {
    seq![
        ("justification"@, JsonView::Text(justification)),
        (
            "scheduleInfo"@,
            JsonView::Object(
                seq![
                    (
                        "expiration"@,
                        JsonView::Object(
                            seq![
                                ("duration"@, JsonView::Text(duration)),
                                ("type"@, JsonView::Text("AfterDuration"@)),
                            ],
                        ),
                    ),
                ],
            ),
        ),
    ]
}

/// The body of a schedule request that carries no justification.
pub open spec fn plain_body(kind: RequestKind, principal: Seq<char>, definition: Seq<char>) -> JsonView {
    JsonView::Object(seq![("properties"@, JsonView::Object(base_members(kind, principal, definition)))])
}

/// The body of a schedule request that carries a justification and a
/// duration of `secs` seconds.
pub open spec fn timed_body(
    kind: RequestKind,
    principal: Seq<char>,
    definition: Seq<char>,
    justification: Seq<char>,
    secs: nat,
) -> JsonView {
    JsonView::Object(
        seq![
            (
                "properties"@,
                JsonView::Object(
                    base_members(kind, principal, definition) + timing_members(
                        justification,
                        duration_text(secs),
                    ),
                ),
            ),
        ],
    )
}

fn base(kind: RequestKind, principal_id: &str, role_definition_id: &str) -> (r: Vec<(String, Json)>)
    ensures
        member_views(r@) == base_members(kind, principal_id@, role_definition_id@),
{
    let mut members: Vec<(String, Json)> = Vec::new();
    members.push(("principalId".to_string(), Json::text(principal_id)));
    members.push(("roleDefinitionId".to_string(), Json::text(role_definition_id)));
    members.push(("requestType".to_string(), Json::text(kind.as_str())));
    assert(member_views(members@) =~= base_members(kind, principal_id@, role_definition_id@));
    members
}

fn wrap(members: Vec<(String, Json)>) -> (r: Json)
    ensures
        r@ == JsonView::Object(seq![("properties"@, JsonView::Object(member_views(members@)))]),
{
    let mut outer: Vec<(String, Json)> = Vec::new();
    outer.push(("properties".to_string(), Json::object(members)));
    assert(member_views(outer@) =~= seq![
        ("properties"@, JsonView::Object(member_views(members@))),
    ]);
    Json::object(outer)
}

/// The body of a request of `kind` that carries no justification.
pub fn request_body(kind: RequestKind, principal_id: &str, role_definition_id: &str) -> (r: Json)
    ensures
        r@ == plain_body(kind, principal_id@, role_definition_id@),
{
    wrap(base(kind, principal_id, role_definition_id))
}

/// The body of a request of `kind` with a justification and a duration of
/// `secs` whole seconds. A duration of zero is refused.
pub fn timed_request_body(
    kind: RequestKind,
    principal_id: &str,
    role_definition_id: &str,
    justification: &str,
    secs: u64,
) -> (r: Result<Json, DurationError>)
    ensures
        secs == 0 ==> r == Err::<Json, DurationError>(DurationError::Empty),
        secs > 0 ==> r is Ok && r->Ok_0@ == timed_body(
            kind,
            principal_id@,
            role_definition_id@,
            justification@,
            secs as nat,
        ),
{
    let duration = match format_duration(secs) {
        Ok(text) => text,
        Err(e) => {
            return Err(e);
        },
    };
    let mut expiration: Vec<(String, Json)> = Vec::new();
    expiration.push(("duration".to_string(), Json::text(duration.as_str())));
    expiration.push(("type".to_string(), Json::text("AfterDuration")));
    assert(member_views(expiration@) =~= seq![
        ("duration"@, JsonView::Text(duration@)),
        ("type"@, JsonView::Text("AfterDuration"@)),
    ]);
    let mut info: Vec<(String, Json)> = Vec::new();
    info.push(("expiration".to_string(), Json::object(expiration)));
    assert(member_views(info@) =~= seq![
        ("expiration"@, JsonView::Object(member_views(expiration@))),
    ]);
    let mut members = base(kind, principal_id, role_definition_id);
    let ghost head = member_views(members@);
    members.push(("justification".to_string(), Json::text(justification)));
    members.push(("scheduleInfo".to_string(), Json::object(info)));
    assert(member_views(members@) =~= head + timing_members(justification@, duration@));
    Ok(wrap(members))
}

/// Why a request cannot be made.
#[derive(Debug, Clone, Copy, PartialEq, Eq, Structural)]
pub enum ScheduleError {
    /// The duration is shorter than one second.
    EmptyDuration,
    /// The assignment names no principal.
    MissingPrincipal,
}

impl ScheduleError {
    /// The message shown to the operator.
    pub fn message(&self) -> (r: &'static str)
        ensures
            r@ == (match *self {
                ScheduleError::EmptyDuration => "duration must be at least 1 second"@,
                ScheduleError::MissingPrincipal => "missing principal id"@,
            }),
    {
        match self {
            ScheduleError::EmptyDuration => "duration must be at least 1 second",
            ScheduleError::MissingPrincipal => "missing principal id",
        }
    }
}

/// What follows the operation in the address of a schedule request: a slash
/// and the identifier of the request.
fn request_path(request_id: u128) -> (r: String)
    ensures
        r@ == seq!['/'] + hyphenated(request_id),
{
    let mut out: Vec<char> = Vec::new();
    out.push('/');
    crate::text::push_text(&mut out, uuid_text(request_id).as_str());
    crate::text::string_of(&out)
}

/// Whether `r` is the schedule request of `kind` number `request_id` for
/// `assignment`, with `body` as its body: a `PUT` to the operation of the
/// kind at the scope of the assignment, judged as a schedule request is.
pub open spec fn is_schedule_request(
    r: Request,
    kind: RequestKind,
    assignment: RoleAssignment,
    request_id: u128,
    body: JsonView,
) -> bool {
    &&& r.method == Method::Put
    &&& r.url@ == request_url(
        assignment.scope@,
        kind.operation(),
        seq!['/'] + hyphenated(request_id),
    )
    &&& pairs(r.query@) == seq![("api-version"@, "2020-10-01"@)]
    &&& pairs(r.headers@) == seq![("X-Ms-Command-Name"@, "Microsoft_Azure_PIMCommon."@)]
    &&& r.token_scope == TokenScope::Management
    &&& r.body is Some
    &&& r.body->Some_0@ == body
    &&& r.validate == Some(Validator::ActivationResponse)
}

fn put(kind: RequestKind, assignment: &RoleAssignment, request_id: u128, body: Json) -> (r: Request)
    ensures
        is_schedule_request(r, kind, *assignment, request_id, body@),
{
    let operation = match kind {
        RequestKind::AdminRemove => Operation::RoleEligibilityScheduleRequests,
        _ => Operation::RoleAssignmentScheduleRequests,
    };
    let r = RequestBuilder::new(Method::Put, operation).extra(request_path(request_id)).scope(
        assignment.scope.clone(),
    ).json(body).validate(Validator::ActivationResponse).build();
    assert(pairs(r.query@) =~= seq![("api-version"@, "2020-10-01"@)]);
    r
}

/// The request that activates `assignment` for `principal_id`, for `secs`
/// whole seconds. A duration of zero is refused.
pub fn activate_request(
    assignment: &RoleAssignment,
    principal_id: &str,
    justification: &str,
    secs: u64,
    request_id: u128,
) -> (r: Result<Request, ScheduleError>)
    ensures
        secs == 0 ==> r == Err::<Request, ScheduleError>(ScheduleError::EmptyDuration),
        secs > 0 ==> r is Ok && is_schedule_request(
            r->Ok_0,
            RequestKind::SelfActivate,
            *assignment,
            request_id,
            timed_body(
                RequestKind::SelfActivate,
                principal_id@,
                assignment.role_definition_id@,
                justification@,
                secs as nat,
            ),
        ),
{
    match timed_request_body(
        RequestKind::SelfActivate,
        principal_id,
        assignment.role_definition_id.as_str(),
        justification,
        secs,
    ) {
        Ok(body) => Ok(put(RequestKind::SelfActivate, assignment, request_id, body)),
        Err(_) => Err(ScheduleError::EmptyDuration),
    }
}

/// The request that extends `assignment` for `principal_id` by `secs` whole
/// seconds. A duration of zero is refused.
pub fn extend_request(
    assignment: &RoleAssignment,
    principal_id: &str,
    justification: &str,
    secs: u64,
    request_id: u128,
) -> (r: Result<Request, ScheduleError>)
    ensures
        secs == 0 ==> r == Err::<Request, ScheduleError>(ScheduleError::EmptyDuration),
        secs > 0 ==> r is Ok && is_schedule_request(
            r->Ok_0,
            RequestKind::SelfExtend,
            *assignment,
            request_id,
            timed_body(
                RequestKind::SelfExtend,
                principal_id@,
                assignment.role_definition_id@,
                justification@,
                secs as nat,
            ),
        ),
{
    match timed_request_body(
        RequestKind::SelfExtend,
        principal_id,
        assignment.role_definition_id.as_str(),
        justification,
        secs,
    ) {
        Ok(body) => Ok(put(RequestKind::SelfExtend, assignment, request_id, body)),
        Err(_) => Err(ScheduleError::EmptyDuration),
    }
}

/// The request that deactivates `assignment` for `principal_id`.
pub fn deactivate_request(assignment: &RoleAssignment, principal_id: &str, request_id: u128) -> (r:
    Request)
    ensures
        is_schedule_request(
            r,
            RequestKind::SelfDeactivate,
            *assignment,
            request_id,
            plain_body(RequestKind::SelfDeactivate, principal_id@, assignment.role_definition_id@),
        ),
{
    let body = request_body(
        RequestKind::SelfDeactivate,
        principal_id,
        assignment.role_definition_id.as_str(),
    );
    put(RequestKind::SelfDeactivate, assignment, request_id, body)
}

/// The request that removes the eligibility that `assignment` stands for. An
/// assignment that names no principal is refused.
pub fn remove_request(assignment: &RoleAssignment, request_id: u128) -> (r: Result<
    Request,
    ScheduleError,
>)
    ensures
        assignment.principal_id is None ==> r == Err::<Request, ScheduleError>(
            ScheduleError::MissingPrincipal,
        ),
        assignment.principal_id matches Some(principal) ==> r is Ok && is_schedule_request(
            r->Ok_0,
            RequestKind::AdminRemove,
            *assignment,
            request_id,
            plain_body(RequestKind::AdminRemove, principal@, assignment.role_definition_id@),
        ),
{
    match &assignment.principal_id {
        None => Err(ScheduleError::MissingPrincipal),
        Some(principal) => {
            let body = request_body(
                RequestKind::AdminRemove,
                principal.as_str(),
                assignment.role_definition_id.as_str(),
            );
            Ok(put(RequestKind::AdminRemove, assignment, request_id, body))
        },
    }
}

} // verus!
