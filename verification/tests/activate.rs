use azure_pim_cli::activate::{
    aggregate, check_error_response, require_roles, RequestFailed, SetAction, SetError,
};
use azure_pim_cli::json::parse_json;
use azure_pim_cli::ordset::OrdSet;
use azure_pim_cli::models::roles::{Role, RoleAssignment};
use azure_pim_cli::models::scope::Scope;
use azure_pim_cli::{ActivationResult, ListFilter};

fn assignment(role: &str, scope: &str) -> RoleAssignment {
    RoleAssignment {
        role: Role::new(role),
        scope: Scope::new(scope).unwrap(),
        scope_name: None,
        role_definition_id: "d".to_string(),
        principal_id: None,
        principal_type: None,
        object: None,
    }
}

#[test]
fn success_statuses_are_accepted() {
    let body = parse_json("{}").unwrap();
    assert_eq!(check_error_response(200, &body), Ok(()));
    assert_eq!(check_error_response(201, &body), Ok(()));
    assert_eq!(check_error_response(299, &body), Ok(()));
}

#[test]
fn existing_assignments_are_no_failure() {
    let body = parse_json(r#"{"error": {"code": "RoleAssignmentExists", "message": "m"}}"#).unwrap();
    assert_eq!(check_error_response(400, &body), Ok(()));
    let body = parse_json(r#"{"error": {"code": "RoleAssignmentRequestExists"}}"#).unwrap();
    assert_eq!(check_error_response(400, &body), Ok(()));
}

#[test]
fn other_answers_are_failures_with_their_body() {
    let body = parse_json(r#"{"error": {"code": "RoleAssignmentExists"}}"#).unwrap();
    assert_eq!(
        check_error_response(409, &body),
        Err(RequestFailed { status: 409, body: body.clone() })
    );
    let body = parse_json(r#"{"error": {"code": "SomethingElse"}}"#).unwrap();
    assert_eq!(
        check_error_response(400, &body),
        Err(RequestFailed { status: 400, body: body.clone() })
    );
    let body = parse_json(r#"{"error": "RoleAssignmentExists"}"#).unwrap();
    assert!(check_error_response(400, &body).is_err());
    let body = parse_json(r#"{"error": {"code": "roleassignmentexists"}}"#).unwrap();
    assert!(check_error_response(400, &body).is_err());
    let body = parse_json("{}").unwrap();
    assert!(check_error_response(199, &body).is_err());
    assert!(check_error_response(300, &body).is_err());
    assert!(check_error_response(500, &body).is_err());
}

#[test]
fn list_filters_have_two_spellings() {
    assert_eq!(ListFilter::AtScope.as_str(), "atScope()");
    assert_eq!(ListFilter::AsTarget.as_str(), "asTarget()");
    assert_eq!(ListFilter::AtScope.to_string(), "at-scope");
    assert_eq!(ListFilter::AsTarget.to_string(), "as-target");
    assert!(ListFilter::with_principal(None));
    assert!(ListFilter::with_principal(Some(ListFilter::AtScope)));
    assert!(!ListFilter::with_principal(Some(ListFilter::AsTarget)));
}

#[test]
fn empty_batch_is_refused() {
    let empty: OrdSet<RoleAssignment> = OrdSet::new();
    let err = require_roles(&empty).unwrap_err();
    assert_eq!(err, SetError::NoRoles);
    assert_eq!(err.message(), "no roles specified");
    let mut one = OrdSet::new();
    one.insert(assignment("Owner", "/a"));
    assert_eq!(require_roles(&one), Ok(()));
}

#[test]
fn one_failure_of_many_is_named_alone() {
    let items = [assignment("Owner", "/a"), assignment("Reader", "/b"), assignment("Writer", "/c")];
    let results = vec![
        ActivationResult::of(&items[0], true),
        ActivationResult::of(&items[1], false),
        ActivationResult::of(&items[2], true),
    ];
    assert_eq!(results[0], ActivationResult::Success);
    assert_eq!(results[1], ActivationResult::Failed(items[1].clone()));
    let err = aggregate(results, SetAction::Activate).unwrap_err();
    match &err {
        SetError::Failed { action, failed } => {
            assert_eq!(*action, SetAction::Activate);
            assert_eq!(failed.len(), 1);
            assert_eq!(failed.get(0), &items[1]);
        }
        other => panic!("unexpected error {other:?}"),
    }
    assert_eq!(
        err.message(),
        "failed to activate the following roles:\n* \"Reader\" in /b"
    );
}

#[test]
fn failures_are_listed_in_order_and_once() {
    let a = assignment("Owner", "/a");
    let b = assignment("Reader", "/b");
    let results = vec![
        ActivationResult::Failed(b.clone()),
        ActivationResult::Failed(a.clone()),
        ActivationResult::Failed(b.clone()),
    ];
    let err = aggregate(results, SetAction::Deactivate).unwrap_err();
    assert_eq!(
        err.message(),
        "failed to deactivate the following roles:\n* \"Owner\" in /a\n* \"Reader\" in /b"
    );
}

#[test]
fn batch_without_failures_goes_through() {
    assert_eq!(aggregate(vec![], SetAction::Activate), Ok(()));
    assert_eq!(
        aggregate(vec![ActivationResult::Success, ActivationResult::Success], SetAction::Deactivate),
        Ok(())
    );
}
