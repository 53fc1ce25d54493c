use azure_pim_cli::models::assignments::{Assignment, Properties};
use azure_pim_cli::models::definitions::{find_definition, Definition, Properties as DefinitionProperties};
use azure_pim_cli::graph::{Object, PrincipalType};
use azure_pim_cli::ordset::OrdSet;
use azure_pim_cli::models::resources::ChildResource;
use azure_pim_cli::orphans::{
    describe_assignment, describe_eligible, find_admin, is_admin_role, no_admin_message,
    orphaned_eligible, plan_admin, plan_sweep, retain_orphaned, scopes_to_sweep, select_roles,
    should_delete, AdminPlan, RoleNotFound,
};
use azure_pim_cli::models::roles::{Role, RoleAssignment};
use azure_pim_cli::models::scope::{Scope, ScopeBuilder};

fn scope(path: &str) -> Scope {
    Scope::new(path).unwrap()
}

fn eligible(role: &str, path: &str) -> RoleAssignment {
    RoleAssignment {
        role: Role::new(role),
        scope: scope(path),
        scope_name: None,
        role_definition_id: "def-1".to_string(),
        principal_id: None,
        principal_type: None,
        object: None,
    }
}

fn set_of(items: &[RoleAssignment]) -> OrdSet<RoleAssignment> {
    let mut set = OrdSet::new();
    for item in items {
        set.insert(item.clone());
    }
    set
}

fn plain(name: &str, definition: &str, object: Option<Object>) -> Assignment {
    Assignment {
        id: format!("/id/{name}"),
        name: name.to_string(),
        properties: Properties {
            condition: None,
            condition_version: None,
            created_on: None,
            created_by: None,
            updated_on: None,
            updated_by: None,
            description: None,
            role_definition_id: definition.to_string(),
            delegated_managed_identity_resource_id: None,
            principal_id: "p-1".to_string(),
            principal_type: "User".to_string(),
            scope: scope("/subscriptions/s"),
        },
        type_: "t".to_string(),
        object,
    }
}

fn definition(id: &str, role_name: &str) -> Definition {
    Definition {
        id: id.to_string(),
        name: "n".to_string(),
        properties: DefinitionProperties {
            assignable_scopes: vec![],
            created_on: None,
            created_by: None,
            updated_on: None,
            updated_by: None,
            description: String::new(),
            permissions: vec![],
            role_name: role_name.to_string(),
            type_: "BuiltInRole".to_string(),
        },
        type_: "t".to_string(),
    }
}

fn someone() -> Object {
    Object {
        id: "p-1".to_string(),
        display_name: "One".to_string(),
        upn: None,
        object_type: PrincipalType::User,
    }
}

const SUB: &str = "/subscriptions/00000000-0000-0000-0000-000000000001";

#[test]
fn orphans_are_the_assignments_without_object() {
    let mut list = vec![
        plain("a", "d", None),
        plain("b", "d", Some(someone())),
        plain("c", "d", Some(someone())),
        plain("d", "d", None),
        plain("e", "d", Some(someone())),
    ];
    retain_orphaned(&mut list);
    assert_eq!(list, vec![plain("a", "d", None), plain("d", "d", None)]);
    let mut none: Vec<Assignment> = vec![plain("b", "d", Some(someone()))];
    retain_orphaned(&mut none);
    assert!(none.is_empty());
}

#[test]
fn descriptions_name_the_role_by_its_definition() {
    let definitions = vec![definition("def-1", "Owner"), definition("def-1", "Shadowed")];
    assert_eq!(find_definition(&definitions, "def-1"), Some(&definitions[0]));
    assert_eq!(find_definition(&definitions, "def-2"), None);
    assert_eq!(
        describe_assignment(&plain("a-name", "def-1", None), &definitions),
        "role:\"Owner\" principal:p-1 (type: User) scope:/subscriptions/s"
    );
    assert_eq!(
        describe_assignment(&plain("a-name", "def-9", None), &definitions),
        "role:\"a-name\" principal:p-1 (type: User) scope:/subscriptions/s"
    );
    let mut entry = eligible("Reader", "/subscriptions/s");
    assert_eq!(
        describe_eligible(&entry, &definitions),
        "role:\"Owner\" principal: (type: ) scope:/subscriptions/s"
    );
    entry.role_definition_id = "def-9".to_string();
    entry.principal_id = Some("p-7".to_string());
    entry.principal_type = Some("Group".to_string());
    entry.scope_name = Some("Sub S".to_string());
    assert_eq!(
        describe_eligible(&entry, &definitions),
        "role:\"def-9\" principal:p-7 (type: Group) scope:Sub S"
    );
}

#[test]
fn deletion_needs_a_yes() {
    assert!(should_delete(true, false));
    assert!(should_delete(false, true));
    assert!(should_delete(true, true));
    assert!(!should_delete(false, false));
}

#[test]
fn admin_roles_are_two() {
    assert!(is_admin_role(&Role::new("Owner")));
    assert!(is_admin_role(&Role::new("Role Based Access Control Administrator")));
    assert!(!is_admin_role(&Role::new("owner")));
    assert!(!is_admin_role(&Role::new("Contributor")));
}

#[test]
fn an_active_admin_role_comes_before_an_eligible_one() {
    let target = scope("/subscriptions/s/resourceGroups/rg");
    let active = set_of(&[
        eligible("Contributor", "/subscriptions/s"),
        eligible("Owner", "/subscriptions/other"),
        eligible("Owner", "/subscriptions/s/resourceGroups/rg/providers/p"),
    ]);
    let candidates = set_of(&[
        eligible("Owner", "/subscriptions/s"),
        eligible("Role Based Access Control Administrator", "/subscriptions/s/resourceGroups/rg"),
    ]);
    assert_eq!(find_admin(&active, &target), None);
    assert_eq!(
        plan_admin(&active, &candidates, &target),
        AdminPlan::Activate(eligible("Owner", "/subscriptions/s"))
    );
    assert_eq!(
        plan_admin(&candidates, &active, &target),
        AdminPlan::AlreadyActive(eligible("Owner", "/subscriptions/s"))
    );
    assert_eq!(plan_admin(&active, &active, &target), AdminPlan::NotFound);
    assert_eq!(
        no_admin_message(&target),
        "unable to find role to administrate RBAC for /subscriptions/s/resourceGroups/rg"
    );
}

#[test]
fn wanted_roles_are_picked_from_the_listing() {
    let listing = set_of(&[
        eligible("Owner", "/subscriptions/a"),
        eligible("Owner", "/subscriptions/b"),
        eligible("Reader", "/subscriptions/a"),
    ]);
    let wanted = vec![
        (Role::new("reader"), scope("/subscriptions/a")),
        (Role::new("OWNER"), scope("/subscriptions/b")),
        (Role::new("reader"), scope("/subscriptions/a")),
    ];
    assert_eq!(
        select_roles(&listing, &wanted),
        Ok(set_of(&[eligible("Owner", "/subscriptions/b"), eligible("Reader", "/subscriptions/a")]))
    );
    let wanted = vec![
        (Role::new("Owner"), scope("/subscriptions/a")),
        (Role::new("Writer"), scope("/subscriptions/a")),
        (Role::new("Nobody"), scope("/subscriptions/a")),
    ];
    let err = select_roles(&listing, &wanted).unwrap_err();
    assert_eq!(err, RoleNotFound { role: Role::new("Writer"), scope: scope("/subscriptions/a") });
    assert_eq!(err.message(), "role not found.  role:Writer scope:/subscriptions/a");
    assert_eq!(select_roles(&listing, &vec![]), Ok(set_of(&[])));
}

#[test]
fn a_sweep_activates_the_admin_roles_that_are_not_active() {
    let active = set_of(&[eligible("Owner", SUB)]);
    let total = set_of(&[
        eligible("Owner", SUB),
        eligible("Owner", "/subscriptions/00000000-0000-0000-0000-000000000002/resourceGroups/rg"),
        eligible("Reader", "/subscriptions/00000000-0000-0000-0000-000000000003"),
        eligible("Owner", "/subscriptions/not-an-id"),
        eligible("Owner", "/providers/p"),
    ]);
    let plan = plan_sweep(&total, &active);
    assert_eq!(
        plan.to_activate,
        set_of(&[eligible(
            "Owner",
            "/subscriptions/00000000-0000-0000-0000-000000000002/resourceGroups/rg"
        )])
    );
    assert_eq!(plan.scopes.len(), 2);
    assert_eq!(plan.scopes.get(0), &scope(SUB));
    assert_eq!(
        plan.scopes.get(1),
        &scope("/subscriptions/00000000-0000-0000-0000-000000000002/resourceGroups/rg")
    );
}

#[test]
fn a_scope_is_built_from_its_parts() {
    let build = |subscription: Option<u128>, group: Option<&str>, provider: Option<&str>, whole: Option<&str>| {
        ScopeBuilder {
            subscription,
            resource_group: group.map(|x| x.to_string()),
            provider: provider.map(|x| x.to_string()),
            scope: whole.map(scope),
        }
        .build()
    };
    assert_eq!(build(None, None, None, None), None);
    assert_eq!(build(None, None, None, Some("/x/y")), Some(scope("/x/y")));
    assert_eq!(build(Some(1), None, None, None), Some(scope(SUB)));
    assert_eq!(
        build(Some(1), Some("rg"), None, None),
        Some(scope(&format!("{SUB}/resourceGroups/rg")))
    );
    assert_eq!(
        build(Some(1), Some("rg"), Some("Microsoft.Storage"), None),
        Some(scope(&format!("{SUB}/resourceGroups/rg/providers/Microsoft.Storage")))
    );
}

#[test]
fn eligible_orphans_are_those_without_object() {
    let mut known = eligible("Owner", "/b");
    known.object = Some(someone());
    let listing = set_of(&[eligible("Reader", "/c"), known, eligible("Owner", "/a")]);
    assert_eq!(orphaned_eligible(&listing), vec![eligible("Owner", "/a"), eligible("Reader", "/c")]);
    assert!(orphaned_eligible(&set_of(&[])).is_empty());
}

#[test]
fn a_nested_sweep_goes_through_the_children() {
    let mut children = OrdSet::new();
    for id in ["/s/b", "/s/a"] {
        children.insert(ChildResource { id: scope(id), name: "n".to_string(), type_: "t".to_string() });
    }
    children.insert(ChildResource { id: scope("/s/a"), name: "other".to_string(), type_: "t".to_string() });
    let nested = scopes_to_sweep(&scope("/s"), true, &children);
    assert_eq!(nested.len(), 2);
    assert_eq!(nested.get(0), &scope("/s/a"));
    assert_eq!(nested.get(1), &scope("/s/b"));
    let flat = scopes_to_sweep(&scope("/s"), false, &children);
    assert_eq!(flat.len(), 1);
    assert_eq!(flat.get(0), &scope("/s"));
}
