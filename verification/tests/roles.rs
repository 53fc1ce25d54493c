use azure_pim_cli::graph::{Object, PrincipalType};
use azure_pim_cli::json::parse_json;
use azure_pim_cli::keyval::KeyValError;
use azure_pim_cli::ordset::OrdSet;
use azure_pim_cli::parse_key_val;
use azure_pim_cli::models::roles::{
    find_folded, parse_assignment, Role, RoleAssignment, RoleParseError, RolesExt,
};
use azure_pim_cli::models::scope::{Scope, ScopeError};

fn assignment(role: &str, scope: &str, scope_name: Option<&str>) -> RoleAssignment {
    RoleAssignment {
        role: Role::new(role),
        scope: Scope::new(scope).unwrap(),
        scope_name: scope_name.map(|x| x.to_string()),
        role_definition_id: format!("{scope}/providers/Microsoft.Authorization/roleDefinitions/{role}"),
        principal_id: None,
        principal_type: None,
        object: None,
    }
}

fn set_of(items: Vec<RoleAssignment>) -> OrdSet<RoleAssignment> {
    let mut set = OrdSet::new();
    for item in items {
        set.insert(item);
    }
    set
}

const LISTING: &str = r#"{
  "value": [
    {
      "properties": {
        "roleDefinitionId": "/subscriptions/s1/providers/Microsoft.Authorization/roleDefinitions/r2",
        "principalId": "p-2",
        "principalType": "Group",
        "expandedProperties": {
          "roleDefinition": { "displayName": "Owner" },
          "scope": { "id": "/subscriptions/s1", "displayName": "Sub One" }
        }
      }
    },
    {
      "properties": {
        "roleDefinitionId": "/subscriptions/s1/providers/Microsoft.Authorization/roleDefinitions/r1",
        "principalId": "p-1",
        "principalType": "User",
        "expandedProperties": {
          "roleDefinition": { "displayName": "Contributor" },
          "scope": { "id": "/subscriptions/s1/resourceGroups/rg" }
        }
      }
    }
  ]
}"#;

#[test]
fn role_keeps_its_letter_case() {
    let role = Role::new("Owner");
    assert_eq!(role.as_str(), "Owner");
    assert_eq!(role.to_string(), "Owner");
    assert_eq!(role, Role("Owner".to_string()));
}

#[test]
fn friendly_names_the_role_and_the_scope() {
    assert_eq!(
        assignment("Owner", "/subscriptions/s1", Some("Sub One")).friendly(),
        "\"Owner\" in \"Sub One\" (/subscriptions/s1)"
    );
    assert_eq!(
        assignment("Owner", "/subscriptions/s1", None).friendly(),
        "\"Owner\" in /subscriptions/s1"
    );
}

#[test]
fn friendly_lists_a_set_in_its_order() {
    let set = set_of(vec![
        assignment("Reader", "/b", None),
        assignment("Owner", "/a", Some("A")),
        assignment("Owner", "/a", None),
    ]);
    assert_eq!(
        set.friendly(),
        "* \"Owner\" in /a\n* \"Owner\" in \"A\" (/a)\n* \"Reader\" in /b"
    );
    assert_eq!(set_of(vec![]).friendly(), "");
    assert_eq!(
        set_of(vec![assignment("Owner", "/a", None)]).friendly(),
        "* \"Owner\" in /a"
    );
}

#[test]
fn find_role_folds_the_letter_case_of_the_role_only() {
    let set = set_of(vec![
        assignment("Owner", "/subscriptions/S1", None),
        assignment("Reader", "/subscriptions/s1", None),
        assignment("owner", "/subscriptions/s1", None),
        assignment("Owner", "/subscriptions/s1", None),
    ]);
    let scope = Scope::new("/subscriptions/s1").unwrap();
    // the first in the order of the set: upper case sorts before lower case
    assert_eq!(
        set.find_role(&Role::new("OWNER"), &scope),
        Some(assignment("Owner", "/subscriptions/s1", None))
    );
    assert_eq!(
        set.find_role(&Role::new("reader"), &scope),
        Some(assignment("Reader", "/subscriptions/s1", None))
    );
    assert_eq!(set.find_role(&Role::new("Contributor"), &scope), None);
    assert_eq!(
        set.find_role(&Role::new("Reader"), &Scope::new("/subscriptions/S1").unwrap()),
        None
    );
    // folding follows Unicode
    let set = set_of(vec![assignment("ÄRZTE", "/a", None)]);
    assert!(set.find_role(&Role::new("ärzte"), &Scope::new("/a").unwrap()).is_some());
}

#[test]
fn find_folded_compares_the_names_it_is_given() {
    let set = set_of(vec![assignment("A", "/x", None), assignment("B", "/x", None)]);
    let scope = Scope::new("/x").unwrap();
    let names = vec!["one".to_string(), "two".to_string()];
    assert_eq!(find_folded(&set, &names, "two", &scope), Some(assignment("B", "/x", None)));
    assert_eq!(find_folded(&set, &names, "b", &scope), None);
}

#[test]
fn roles_parse_active() {
    let body = parse_json(LISTING).unwrap();
    let without = RoleAssignment::parse(&body, false).unwrap();
    assert_eq!(without.len(), 2);
    let first = without.get(0);
    assert_eq!(first.role.as_str(), "Contributor");
    assert_eq!(first.scope.as_str(), "/subscriptions/s1/resourceGroups/rg");
    assert_eq!(first.scope_name, None);
    assert_eq!(
        first.role_definition_id,
        "/subscriptions/s1/providers/Microsoft.Authorization/roleDefinitions/r1"
    );
    assert_eq!(first.principal_id, None);
    assert_eq!(first.principal_type, None);
    assert_eq!(first.object, None);
    let second = without.get(1);
    assert_eq!(second.role.as_str(), "Owner");
    assert_eq!(second.scope_name, Some("Sub One".to_string()));

    let with = RoleAssignment::parse(&body, true).unwrap();
    assert_eq!(with.get(0).principal_id, Some("p-1".to_string()));
    assert_eq!(with.get(0).principal_type, Some("User".to_string()));
    assert_eq!(with.get(1).principal_id, Some("p-2".to_string()));
    assert_eq!(with.get(1).principal_type, Some("Group".to_string()));
}

#[test]
fn parse_drops_repeated_entries() {
    let entry = r#"{"properties":{"roleDefinitionId":"d","expandedProperties":{"roleDefinition":{"displayName":"Owner"},"scope":{"id":"/s"}}}}"#;
    let body = parse_json(&format!("{{\"value\":[{entry},{entry}]}}")).unwrap();
    assert_eq!(RoleAssignment::parse(&body, true).unwrap().len(), 1);
}

#[test]
fn parse_refuses_what_it_cannot_read() {
    let body = parse_json(r#"{"values": []}"#).unwrap();
    let err = RoleAssignment::parse(&body, false).unwrap_err();
    assert!(matches!(err, RoleParseError::MissingValueArray { .. }));
    assert_eq!(err.message(), "unable to parse response: missing value array");
    let body = parse_json(r#"{"value": {}}"#).unwrap();
    assert!(matches!(
        RoleAssignment::parse(&body, false),
        Err(RoleParseError::MissingValueArray { .. })
    ));

    let entry = parse_json(r#"{"properties":{"roleDefinitionId":"d"}}"#).unwrap();
    let err = parse_assignment(&entry, false).unwrap_err();
    assert_eq!(err, RoleParseError::NoRoleName { entry: entry.clone() });
    assert_eq!(err.message(), "no role name");

    let entry = parse_json(
        r#"{"properties":{"roleDefinitionId":"d","expandedProperties":{"roleDefinition":{"displayName":"Owner"},"scope":{"id":"s"}}}}"#,
    )
    .unwrap();
    let err = parse_assignment(&entry, false).unwrap_err();
    assert!(matches!(err, RoleParseError::NoScopeId { .. }));
    assert_eq!(err.message(), "no scope id");

    let entry = parse_json(
        r#"{"properties":{"expandedProperties":{"roleDefinition":{"displayName":"Owner"},"scope":{"id":"/s"}}}}"#,
    )
    .unwrap();
    let err = parse_assignment(&entry, false).unwrap_err();
    assert!(matches!(err, RoleParseError::NoRoleDefinitionId { .. }));
    assert_eq!(err.message(), "no role definition id");

    // the first entry that cannot be read decides
    let body = parse_json(
        r#"{"value":[{"properties":{"roleDefinitionId":"d","expandedProperties":{"roleDefinition":{"displayName":"Owner"},"scope":{"id":"/s"}}}}, 1, {}]}"#,
    )
    .unwrap();
    assert!(matches!(
        RoleAssignment::parse(&body, false),
        Err(RoleParseError::NoRoleName { entry }) if entry == parse_json("1").unwrap()
    ));
}

#[test]
fn assignments_are_ordered_by_role_then_scope_then_scope_name() {
    let mut with_object = assignment("Owner", "/a", None);
    with_object.object = Some(Object {
        id: "1".to_string(),
        display_name: "User 1".to_string(),
        upn: None,
        object_type: PrincipalType::User,
    });
    let set = set_of(vec![
        assignment("Reader", "/a", None),
        assignment("Owner", "/b", None),
        with_object.clone(),
        assignment("Owner", "/a", Some("A")),
        assignment("Owner", "/a", None),
        assignment("Own", "/z", None),
    ]);
    let order: Vec<RoleAssignment> = (0..set.len()).map(|i| set.get(i).clone()).collect();
    assert_eq!(
        order,
        vec![
            assignment("Own", "/z", None),
            assignment("Owner", "/a", None),
            with_object,
            assignment("Owner", "/a", Some("A")),
            assignment("Owner", "/b", None),
            assignment("Reader", "/a", None),
        ]
    );
}

#[test]
fn key_value_pairs_part_at_the_first_equals_sign() {
    let (role, scope) = parse_key_val("Owner=/subscriptions/a=b").unwrap();
    assert_eq!(role.as_str(), "Owner");
    assert_eq!(scope.as_str(), "/subscriptions/a=b");
    let (role, _) = parse_key_val("=/x").unwrap();
    assert_eq!(role.as_str(), "");
    let err = parse_key_val("Owner").unwrap_err();
    assert_eq!(err, KeyValError::NoEquals { input: "Owner".to_string() });
    assert_eq!(err.message(), "invalid KEY=value: no `=` found in `Owner`");
    let err = parse_key_val("Owner=subscriptions").unwrap_err();
    assert_eq!(err, KeyValError::Scope(ScopeError::LeadingSlash));
    assert_eq!(err.message(), "scope must start with a /");
    assert_eq!(parse_key_val("Owner="), Err(KeyValError::Scope(ScopeError::LeadingSlash)));
}
