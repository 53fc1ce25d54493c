use azure_pim_cli::backend::{Method, TokenScope, Validator};
use azure_pim_cli::client::{
    attach_objects, attach_to_assignments, delete_assignment_request, find_object, list_request,
    lookup_request, members_request, principal_ids,
};
use azure_pim_cli::models::assignments::{Assignment, Properties};
use azure_pim_cli::backend::Operation;
use azure_pim_cli::duration::DurationError;
use azure_pim_cli::graph::{Object, PrincipalType};
use azure_pim_cli::json::{parse_json, Json};
use azure_pim_cli::ordset::OrdSet;
use azure_pim_cli::models::roles::{Role, RoleAssignment};
use azure_pim_cli::schedule::{
    activate_request, deactivate_request, extend_request, remove_request, request_body,
    timed_request_body, RequestKind, ScheduleError,
};
use azure_pim_cli::models::scope::Scope;
use azure_pim_cli::ListFilter;

fn pair(a: &str, b: &str) -> (String, String) {
    (a.to_string(), b.to_string())
}

fn assignment(principal: Option<&str>) -> RoleAssignment {
    RoleAssignment {
        role: Role::new("Owner"),
        scope: Scope::new("/subscriptions/s1").unwrap(),
        scope_name: None,
        role_definition_id: "def-1".to_string(),
        principal_id: principal.map(|x| x.to_string()),
        principal_type: None,
        object: None,
    }
}

fn object(id: &str, name: &str) -> Object {
    Object {
        id: id.to_string(),
        display_name: name.to_string(),
        upn: None,
        object_type: PrincipalType::User,
    }
}

const ID: u128 = 0x0123_4567_89ab_cdef_0123_4567_89ab_cdef;
const ID_TEXT: &str = "01234567-89ab-cdef-0123-456789abcdef";

#[test]
fn activation_body_carries_justification_and_duration() {
    let body = timed_request_body(RequestKind::SelfActivate, "me", "def-1", "because", 3661).unwrap();
    let expected = parse_json(
        r#"{"properties": {
            "principalId": "me",
            "roleDefinitionId": "def-1",
            "requestType": "SelfActivate",
            "justification": "because",
            "scheduleInfo": {"expiration": {"duration": "PT1H1M1S", "type": "AfterDuration"}}
        }}"#,
    )
    .unwrap();
    // the members are the same; serde_json sorts them by name
    assert_eq!(sorted(&body), sorted(&expected));
    assert_eq!(
        timed_request_body(RequestKind::SelfExtend, "me", "def-1", "because", 0),
        Err(DurationError::Empty)
    );
}

fn sorted(doc: &Json) -> Json {
    match doc {
        Json::Object(members) => {
            let mut members: Vec<(String, Json)> =
                members.iter().map(|(k, v)| (k.clone(), sorted(v))).collect();
            members.sort_by(|a, b| a.0.cmp(&b.0));
            Json::Object(members)
        }
        Json::Array(items) => Json::Array(items.iter().map(sorted).collect()),
        other => other.clone(),
    }
}

#[test]
fn plain_body_names_principal_definition_and_kind() {
    let body = request_body(RequestKind::SelfDeactivate, "me", "def-1");
    assert_eq!(
        body,
        Json::Object(vec![(
            "properties".to_string(),
            Json::Object(vec![
                ("principalId".to_string(), Json::Text("me".to_string())),
                ("roleDefinitionId".to_string(), Json::Text("def-1".to_string())),
                ("requestType".to_string(), Json::Text("SelfDeactivate".to_string())),
            ])
        )])
    );
    assert_eq!(RequestKind::AdminRemove.as_str(), "AdminRemove");
    assert_eq!(RequestKind::SelfExtend.as_str(), "SelfExtend");
}

#[test]
fn activate_request_is_a_put_of_a_schedule_request() {
    let request = activate_request(&assignment(None), "me", "because", 60, ID).unwrap();
    assert_eq!(request.method, Method::Put);
    assert_eq!(
        request.url,
        format!("https://management.azure.com/subscriptions/s1/providers/Microsoft.Authorization/roleAssignmentScheduleRequests/{ID_TEXT}")
    );
    assert_eq!(request.query, vec![pair("api-version", "2020-10-01")]);
    assert_eq!(request.token_scope, TokenScope::Management);
    assert_eq!(request.validate, Some(Validator::ActivationResponse));
    assert_eq!(
        request.body,
        Some(timed_request_body(RequestKind::SelfActivate, "me", "def-1", "because", 60).unwrap())
    );
    assert_eq!(
        activate_request(&assignment(None), "me", "because", 0, ID),
        Err(ScheduleError::EmptyDuration)
    );
    assert_eq!(ScheduleError::EmptyDuration.message(), "duration must be at least 1 second");
}

#[test]
fn extend_request_asks_for_an_extension() {
    let request = extend_request(&assignment(None), "me", "more", 7200, ID).unwrap();
    assert_eq!(
        request.body,
        Some(timed_request_body(RequestKind::SelfExtend, "me", "def-1", "more", 7200).unwrap())
    );
    assert_eq!(
        extend_request(&assignment(None), "me", "more", 0, ID),
        Err(ScheduleError::EmptyDuration)
    );
}

#[test]
fn deactivate_request_carries_no_duration() {
    let request = deactivate_request(&assignment(None), "me", ID);
    assert_eq!(request.method, Method::Put);
    assert!(request.url.ends_with(&format!("/roleAssignmentScheduleRequests/{ID_TEXT}")));
    assert_eq!(request.body, Some(request_body(RequestKind::SelfDeactivate, "me", "def-1")));
    assert_eq!(request.validate, Some(Validator::ActivationResponse));
}

#[test]
fn remove_request_needs_a_principal() {
    let request = remove_request(&assignment(Some("p-1")), ID).unwrap();
    assert_eq!(
        request.url,
        format!("https://management.azure.com/subscriptions/s1/providers/Microsoft.Authorization/roleEligibilityScheduleRequests/{ID_TEXT}")
    );
    assert_eq!(request.body, Some(request_body(RequestKind::AdminRemove, "p-1", "def-1")));
    assert_eq!(remove_request(&assignment(None), ID), Err(ScheduleError::MissingPrincipal));
    assert_eq!(ScheduleError::MissingPrincipal.message(), "missing principal id");
}

#[test]
fn list_request_carries_the_filter() {
    let request = list_request(
        Operation::RoleEligibilityScheduleInstances,
        Some(Scope::new("/subscriptions/s1").unwrap()),
        Some(ListFilter::AtScope),
    );
    assert_eq!(request.method, Method::Get);
    assert_eq!(
        request.url,
        "https://management.azure.com/subscriptions/s1/providers/Microsoft.Authorization/roleEligibilityScheduleInstances"
    );
    assert_eq!(request.query, vec![pair("api-version", "2020-10-01"), pair("$filter", "atScope()")]);
    let request = list_request(Operation::RoleAssignments, None, None);
    assert_eq!(
        request.url,
        "https://management.azure.com/providers/Microsoft.Authorization/roleAssignments"
    );
    assert_eq!(request.query, vec![pair("api-version", "2022-04-01")]);
    let request =
        list_request(Operation::RoleAssignmentScheduleInstances, None, Some(ListFilter::AsTarget));
    assert_eq!(request.query, vec![pair("api-version", "2020-10-01"), pair("$filter", "asTarget()")]);
}

#[test]
fn delete_request_names_the_assignment() {
    let request = delete_assignment_request(&Scope::new("/subscriptions/s1").unwrap(), "abc");
    assert_eq!(request.method, Method::Delete);
    assert_eq!(
        request.url,
        "https://management.azure.com/subscriptions/s1/providers/Microsoft.Authorization/roleAssignments/abc"
    );
    assert_eq!(request.query, vec![pair("api-version", "2022-04-01")]);
    assert_eq!(request.body, None);
}

#[test]
fn directory_requests_go_to_the_graph() {
    let request = lookup_request(&vec!["a".to_string(), "b".to_string()]);
    assert_eq!(request.method, Method::Post);
    assert_eq!(request.url, "https://graph.microsoft.com/v1.0/directoryObjects/getByIds");
    assert_eq!(request.token_scope, TokenScope::Graph);
    assert_eq!(request.body, Some(parse_json(r#"{"ids": ["a", "b"]}"#).unwrap()));
    let request = members_request("g-1");
    assert_eq!(request.method, Method::Get);
    assert_eq!(request.url, "https://graph.microsoft.com/v1.0/groups/g-1/members");
    assert_eq!(request.body, None);
}

#[test]
fn objects_are_attached_by_principal() {
    let mut set = OrdSet::new();
    set.insert(assignment(Some("p-1")));
    set.insert(assignment(Some("p-2")));
    set.insert(assignment(None));
    let ids = principal_ids(&set);
    assert_eq!(ids.len(), 2);
    assert_eq!(ids.get(0), "p-1");
    assert_eq!(ids.get(1), "p-2");

    let objects = vec![object("p-1", "One"), object("p-1", "Other"), object("p-3", "Three")];
    assert_eq!(find_object(&objects, "p-1"), Some(&object("p-1", "One")));
    assert_eq!(find_object(&objects, "p-2"), None);
    let attached = attach_objects(&set, &objects);
    assert_eq!(attached.len(), 3);
    let mut with_one = assignment(Some("p-1"));
    with_one.object = Some(object("p-1", "One"));
    assert!(attached.contains(&with_one));
    assert!(attached.contains(&assignment(Some("p-2"))));
    assert!(attached.contains(&assignment(None)));
}

#[test]
fn plain_assignments_get_their_objects_in_place() {
    let plain = |name: &str, principal: &str, object: Option<Object>| Assignment {
        id: format!("/id/{name}"),
        name: name.to_string(),
        properties: Properties {
            condition: None,
            condition_version: None,
            created_on: None,
            created_by: None,
            updated_on: None,
            updated_by: None,
            description: None,
            role_definition_id: "def".to_string(),
            delegated_managed_identity_resource_id: None,
            principal_id: principal.to_string(),
            principal_type: "User".to_string(),
            scope: Scope::new("/s").unwrap(),
        },
        type_: "t".to_string(),
        object,
    };
    let list = vec![
        plain("a", "p-1", None),
        plain("b", "p-2", Some(object("stale", "Stale"))),
        plain("c", "p-3", None),
    ];
    let objects = vec![object("p-3", "Three"), object("p-1", "One")];
    let out = attach_to_assignments(list, &objects);
    assert_eq!(
        out,
        vec![
            plain("a", "p-1", Some(object("p-1", "One"))),
            plain("b", "p-2", None),
            plain("c", "p-3", Some(object("p-3", "Three"))),
        ]
    );
    assert!(!out[0].is_orphaned());
    assert!(out[1].is_orphaned());
}
