//! Requests to the resource manager: what they are called, where they go and
//! which credentials they need.

use vstd::prelude::*;
use crate::activate::{accepted, check_error_response, status_ok, RequestFailed};
use crate::json::Json;
use crate::models::scope::Scope;
use crate::text::{push_text, string_of};

verus! {

/// The audience that a bearer token is asked for.
#[derive(Debug, Clone, Copy, PartialEq, Eq, Structural)]
pub enum TokenScope {
    Management,
    Graph,
}

impl TokenScope {
    /// The endpoint that names the audience to the token provider.
    pub fn to_scope_endpoint(self) -> (r: &'static str)
        ensures
            r@ == (match self {
                TokenScope::Management => "https://management.core.windows.net/.default"@,
                TokenScope::Graph => "https://graph.microsoft.com/.default"@,
            }),
    {
        match self {
            TokenScope::Management => "https://management.core.windows.net/.default",
            TokenScope::Graph => "https://graph.microsoft.com/.default",
        }
    }
}

/// The bearer tokens that were fetched, one for each audience at most. A
/// token that is stored stays: it is never fetched again.
#[derive(Debug, PartialEq, Eq)]
pub struct TokenCache {
    management: Option<String>,
    graph: Option<String>,
}

impl TokenCache {
    /// The token stored for `scope`, if one is.
    pub closed spec fn stored(&self, scope: TokenScope) -> Option<Seq<char>> {
        match scope {
            TokenScope::Management => match self.management {
                Some(t) => Some(t@),
                None => None,
            },
            TokenScope::Graph => match self.graph {
                Some(t) => Some(t@),
                None => None,
            },
        }
    }

    /// A cache that holds no token.
    pub fn new() -> (r: TokenCache)
        ensures
            forall|scope: TokenScope| r.stored(scope) is None,
    {
        TokenCache { management: None, graph: None }
    }

    /// The token stored for `scope`, if one is.
    pub fn get(&self, scope: TokenScope) -> (r: Option<String>)
        ensures
            r is Some <==> self.stored(scope) is Some,
            r matches Some(t) ==> self.stored(scope) == Some(t@),
    {
        match scope {
            TokenScope::Management => match &self.management {
                Some(t) => Some(t.clone()),
                None => None,
            },
            TokenScope::Graph => match &self.graph {
                Some(t) => Some(t.clone()),
                None => None,
            },
        }
    }

    /// Stores `token` for `scope`, unless a token is stored for it already.
    /// Gives the token that is stored for `scope` from now on.
    pub fn insert(&mut self, scope: TokenScope, token: String) -> (r: String)
        ensures
            final(self).stored(scope) == Some(r@),
            r@ == (match old(self).stored(scope) {
                Some(t) => t,
                None => token@,
            }),
            forall|other: TokenScope|
                other != scope ==> final(self).stored(other) == old(self).stored(other),
    {
        match scope {
            TokenScope::Management => {
                match &self.management {
                    Some(t) => t.clone(),
                    None => {
                        self.management = Some(token.clone());
                        token
                    },
                }
            },
            TokenScope::Graph => {
                match &self.graph {
                    Some(t) => t.clone(),
                    None => {
                        self.graph = Some(token.clone());
                        token
                    },
                }
            },
        }
    }
}

/// An operation of the authorization provider.
#[derive(Debug, Clone, Copy, PartialEq, Eq, Structural)]
pub enum Operation {
    RoleAssignments,
    RoleAssignmentScheduleInstances,
    RoleDefinitions,
    RoleEligibilityScheduleInstances,
    RoleEligibilityScheduleRequests,
    RoleAssignmentScheduleRequests,
    EligibleChildResources,
}

impl Operation {
    /// The name of the operation in a request path.
    pub open spec fn path_name(self) -> Seq<char> {
        match self {
            Operation::RoleAssignments => "roleAssignments"@,
            Operation::RoleAssignmentScheduleInstances => "roleAssignmentScheduleInstances"@,
            Operation::RoleDefinitions => "roleDefinitions"@,
            Operation::RoleEligibilityScheduleInstances => "roleEligibilityScheduleInstances"@,
            Operation::RoleEligibilityScheduleRequests => "roleEligibilityScheduleRequests"@,
            Operation::RoleAssignmentScheduleRequests => "roleAssignmentScheduleRequests"@,
            Operation::EligibleChildResources => "eligibleChildResources"@,
        }
    }

    /// The version of the interface that the operation is asked in.
    pub open spec fn version(self) -> Seq<char> {
        match self {
            Operation::RoleAssignments | Operation::RoleDefinitions => "2022-04-01"@,
            _ => "2020-10-01"@,
        }
    }

    /// The name of the operation in a request path.
    pub fn as_str(&self) -> (r: &'static str)
        ensures
            r@ == self.path_name(),
    {
        match self {
            Operation::RoleAssignments => "roleAssignments",
            Operation::RoleAssignmentScheduleInstances => "roleAssignmentScheduleInstances",
            Operation::RoleDefinitions => "roleDefinitions",
            Operation::RoleEligibilityScheduleInstances => "roleEligibilityScheduleInstances",
            Operation::RoleEligibilityScheduleRequests => "roleEligibilityScheduleRequests",
            Operation::RoleAssignmentScheduleRequests => "roleAssignmentScheduleRequests",
            Operation::EligibleChildResources => "eligibleChildResources",
        }
    }

    /// The audience of the token that the operation needs.
    pub fn token_scope(self) -> (r: TokenScope)
        ensures
            r == TokenScope::Management,
    {
        TokenScope::Management
    }

    /// The version of the interface that the operation is asked in.
    pub fn api_version(&self) -> (r: &'static str)
        ensures
            r@ == self.version(),
    {
        match self {
            Operation::RoleAssignments | Operation::RoleDefinitions => "2022-04-01",
            Operation::RoleAssignmentScheduleInstances
            | Operation::RoleEligibilityScheduleInstances
            | Operation::RoleEligibilityScheduleRequests
            | Operation::RoleAssignmentScheduleRequests
            | Operation::EligibleChildResources => "2020-10-01",
        }
    }
}

/// The verb of a request.
#[derive(Debug, Clone, Copy, PartialEq, Eq, Structural)]
pub enum Method {
    Get,
    Put,
    Post,
    Delete,
}

impl Method {
    /// The verb as it stands in a request.
    pub fn as_str(&self) -> (r: &'static str)
        ensures
            r@ == (match *self {
                Method::Get => "GET"@,
                Method::Put => "PUT"@,
                Method::Post => "POST"@,
                Method::Delete => "DELETE"@,
            }),
    {
        match self {
            Method::Get => "GET",
            Method::Put => "PUT",
            Method::Post => "POST",
            Method::Delete => "DELETE",
        }
    }
}

/// How the answer to a request is judged.
#[derive(Debug, Clone, Copy, PartialEq, Eq, Structural)]
pub enum Validator {
    /// As the answer to a schedule request: a report that the assignment
    /// exists, or is asked for, counts as success.
    ActivationResponse,
}

/// Whether an answer counts as success under a way of judging, or under
/// none: then the status decides.
pub open spec fn passes(validate: Option<Validator>, status: u16, body: crate::json::JsonView) -> bool {
    match validate {
        Some(Validator::ActivationResponse) => accepted(status, body),
        None => status_ok(status),
    }
}

/// Judges an answer.
pub fn judge(validate: Option<Validator>, status: u16, body: &Json) -> (r: Result<(), RequestFailed>)
    ensures
        r is Ok <==> passes(validate, status, body@),
        r matches Err(e) ==> e.status == status && e.body@ == body@,
{
    match validate {
        Some(Validator::ActivationResponse) => check_error_response(status, body),
        None => {
            if status >= 200 && status < 300 {
                Ok(())
            } else {
                Err(RequestFailed { status, body: body.duplicate() })
            }
        },
    }
}

/// The texts of a sequence of pairs of strings.
pub open spec fn pairs(v: Seq<(String, String)>) -> Seq<(Seq<char>, Seq<char>)> {
    Seq::new(v.len(), |i: int| (v[i].0@, v[i].1@))
}

/// The text of an optional scope, empty where there is none.
pub open spec fn scope_text(scope: Option<Scope>) -> Seq<char> {
    match scope {
        Some(s) => s@,
        None => Seq::<char>::empty(),
    }
}

/// The text of an optional string, empty where there is none.
pub open spec fn text_or_none(o: Option<String>) -> Seq<char> {
    match o {
        Some(s) => s@,
        None => Seq::<char>::empty(),
    }
}

/// The address of an operation at a scope.
pub open spec fn request_url(scope: Seq<char>, operation: Operation, extra: Seq<char>) -> Seq<char> {
    "https://management.azure.com"@ + scope + "/providers/Microsoft.Authorization/"@
        + operation.path_name() + extra
}

/// A request to the authorization provider, as it is put together piece by
/// piece.
#[derive(Debug, PartialEq, Eq)]
pub struct RequestBuilder {
    pub method: Method,
    pub operation: Operation,
    pub extra: Option<String>,
    pub scope: Option<Scope>,
    pub query: Option<Vec<(String, String)>>,
    pub json: Option<Json>,
    pub validate: Option<Validator>,
}

/// A request as it goes out.
#[derive(Debug, PartialEq, Eq)]
pub struct Request {
    pub method: Method,
    pub url: String,
    pub query: Vec<(String, String)>,
    pub headers: Vec<(String, String)>,
    pub token_scope: TokenScope,
    pub body: Option<Json>,
    pub validate: Option<Validator>,
}

/// The query of a request: the version of the interface, then what the
/// builder was given.
pub open spec fn request_query(operation: Operation, given: Option<Vec<(String, String)>>) -> Seq<
    (Seq<char>, Seq<char>),
> {
    seq![("api-version"@, operation.version())] + (match given {
        Some(q) => pairs(q@),
        None => Seq::<(Seq<char>, Seq<char>)>::empty(),
    })
}

impl RequestBuilder {
    /// A request for `operation` with nothing else set.
    pub fn new(method: Method, operation: Operation) -> (r: Self)
        ensures
            r.method == method,
            r.operation == operation,
            r.extra is None,
            r.scope is None,
            r.query is None,
            r.json is None,
            r.validate is None,
    {
        RequestBuilder {
            method,
            operation,
            extra: None,
            scope: None,
            query: None,
            json: None,
            validate: None,
        }
    }

    /// Sets what follows the operation in the path.
    pub fn extra(self, extra: String) -> (r: Self)
        ensures
            r == (RequestBuilder { extra: Some(extra), ..self }),
    {
        RequestBuilder { extra: Some(extra), ..self }
    }

    /// Sets the scope that the request is made at.
    pub fn scope(self, scope: Scope) -> (r: Self)
        ensures
            r == (RequestBuilder { scope: Some(scope), ..self }),
    {
        RequestBuilder { scope: Some(scope), ..self }
    }

    /// Sets the body.
    pub fn json(self, json: Json) -> (r: Self)
        ensures
            r == (RequestBuilder { json: Some(json), ..self }),
    {
        RequestBuilder { json: Some(json), ..self }
    }

    /// Sets how the answer is judged.
    pub fn validate(self, validate: Validator) -> (r: Self)
        ensures
            r == (RequestBuilder { validate: Some(validate), ..self }),
    {
        RequestBuilder { validate: Some(validate), ..self }
    }

    /// Adds a query parameter after those that are there.
    pub fn query(self, key: &str, value: &str) -> (r: Self)
        ensures
            r.query is Some,
            pairs(r.query->Some_0@) == (match self.query {
                Some(q) => pairs(q@),
                None => Seq::<(Seq<char>, Seq<char>)>::empty(),
            }).push((key@, value@)),
            r.method == self.method,
            r.operation == self.operation,
            r.extra == self.extra,
            r.scope == self.scope,
            r.json == self.json,
            r.validate == self.validate,
    {
        let RequestBuilder { method, operation, extra, scope, query, json, validate } = self;
        let mut list = match query {
            Some(q) => q,
            None => Vec::new(),
        };
        let ghost before = pairs(list@);
        list.push((key.to_string(), value.to_string()));
        assert(pairs(list@) =~= before.push((key@, value@)));
        RequestBuilder { method, operation, extra, scope, query: Some(list), json, validate }
    }

    /// The request as it goes out: to the address of the operation at the
    /// scope, with the version of the interface as first query parameter.
    pub fn build(self) -> (r: Request)
        ensures
            r.method == self.method,
            r.url@ == request_url(scope_text(self.scope), self.operation, text_or_none(self.extra)),
            pairs(r.query@) == request_query(self.operation, self.query),
            pairs(r.headers@) == seq![("X-Ms-Command-Name"@, "Microsoft_Azure_PIMCommon."@)],
            r.token_scope == TokenScope::Management,
            r.body == self.json,
            r.validate == self.validate,
    {
        let RequestBuilder { method, operation, extra, scope, query, json, validate } = self;
        let mut url: Vec<char> = Vec::new();
        push_text(&mut url, "https://management.azure.com");
        match &scope {
            Some(s) => {
                push_text(&mut url, s.as_str());
            },
            None => {
                assert(url@ + Seq::<char>::empty() =~= url@);
            },
        }
        push_text(&mut url, "/providers/Microsoft.Authorization/");
        push_text(&mut url, operation.as_str());
        match &extra {
            Some(e) => {
                push_text(&mut url, e.as_str());
            },
            None => {
                assert(url@ + Seq::<char>::empty() =~= url@);
            },
        }
        let mut full: Vec<(String, String)> = Vec::new();
        full.push(("api-version".to_string(), operation.api_version().to_string()));
        let ghost wanted = request_query(operation, query);
        let ghost head = pairs(full@);
        assert(head =~= seq![("api-version"@, operation.version())]);
        match query {
            Some(q) => {
                let mut q = q;
                let ghost given = pairs(q@);
                full.append(&mut q);
                assert(pairs(full@) =~= head + given);
            },
            None => {
                assert(head + Seq::<(Seq<char>, Seq<char>)>::empty() =~= head);
            },
        }
        assert(pairs(full@) == wanted);
        let mut headers: Vec<(String, String)> = Vec::new();
        headers.push(("X-Ms-Command-Name".to_string(), "Microsoft_Azure_PIMCommon.".to_string()));
        assert(pairs(headers@) =~= seq![("X-Ms-Command-Name"@, "Microsoft_Azure_PIMCommon."@)]);
        Request {
            method,
            url: string_of(&url),
            query: full,
            headers,
            token_scope: operation.token_scope(),
            body: json,
            validate,
        }
    }
}

} // verus!
