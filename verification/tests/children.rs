use azure_pim_cli::children::ChildSearch;
use azure_pim_cli::json::parse_json;
use azure_pim_cli::ordset::OrdSet;
use azure_pim_cli::models::resources::{parse_child, ChildResource, ResourceError};
use azure_pim_cli::models::scope::Scope;

fn scope(path: &str) -> Scope {
    Scope::new(path).unwrap()
}

fn child(id: &str, name: &str, type_: &str) -> ChildResource {
    ChildResource { id: scope(id), name: name.to_string(), type_: type_.to_string() }
}

fn set_of(items: &[ChildResource]) -> OrdSet<ChildResource> {
    let mut set = OrdSet::new();
    for item in items {
        set.insert(item.clone());
    }
    set
}

#[test]
fn test_child_resource_parse() {
    let data = parse_json(
        r#"{"value": [
            {"id": "/subscriptions/s/resourceGroups/b", "name": "b", "type": "resourcegroup"},
            {"id": "/subscriptions/s", "name": "Sub", "type": "subscription", "extra": 1},
            {"id": "/subscriptions/s/resourceGroups/a", "name": "a", "type": "resourcegroup"}
        ]}"#,
    )
    .unwrap();
    let result = ChildResource::parse(&data).unwrap();
    assert_eq!(
        result,
        set_of(&[
            child("/subscriptions/s", "Sub", "subscription"),
            child("/subscriptions/s/resourceGroups/a", "a", "resourcegroup"),
            child("/subscriptions/s/resourceGroups/b", "b", "resourcegroup"),
        ])
    );
    assert_eq!(result.get(0).name, "Sub");
    assert_eq!(result.get(2).name, "b");
}

#[test]
fn a_listing_without_an_array_holds_no_children() {
    assert_eq!(ChildResource::parse(&parse_json("{}").unwrap()).unwrap().len(), 0);
    assert_eq!(ChildResource::parse(&parse_json(r#"{"value": 1}"#).unwrap()).unwrap().len(), 0);
}

#[test]
fn a_malformed_child_makes_the_listing_unreadable() {
    for text in [
        r#"{"name": "n", "type": "t"}"#,
        r#"{"id": "/x", "type": "t"}"#,
        r#"{"id": "/x", "name": "n"}"#,
        r#"{"id": "x", "name": "n", "type": "t"}"#,
        r#"{"id": "/x", "name": 1, "type": "t"}"#,
        r#""/x""#,
    ] {
        let entry = parse_json(text).unwrap();
        let err = parse_child(&entry).unwrap_err();
        assert_eq!(err, ResourceError::Malformed { entry: entry.clone() });
        assert_eq!(err.message(), "unable to parse eligible child resource");
    }
    let data = parse_json(r#"{"value": [{"id": "/x", "name": "n", "type": "t"}, {}]}"#).unwrap();
    assert_eq!(
        ChildResource::parse(&data),
        Err(ResourceError::Malformed { entry: parse_json("{}").unwrap() })
    );
}

#[test]
fn a_flat_search_asks_once() {
    let mut search = ChildSearch::new(&scope("/s"), false);
    assert_eq!(search.begin_round(), vec![scope("/s")]);
    search.absorb(&set_of(&[child("/s/a", "a", "t"), child("/s/b", "b", "t")]));
    assert!(search.begin_round().is_empty());
    assert_eq!(search.finish(), set_of(&[child("/s/a", "a", "t"), child("/s/b", "b", "t")]));
}

#[test]
fn a_nested_search_goes_level_by_level_and_asks_for_no_scope_twice() {
    let mut search = ChildSearch::new(&scope("/s"), true);
    assert_eq!(search.begin_round(), vec![scope("/s")]);
    search.absorb(&set_of(&[child("/s/b", "b", "t"), child("/s/a", "a", "t"), child("/s", "self", "t")]));
    assert_eq!(search.begin_round(), vec![scope("/s/a"), scope("/s/b")]);
    search.absorb(&set_of(&[child("/s/a/x", "x", "t"), child("/s/b", "b", "t")]));
    search.absorb(&set_of(&[child("/s/a", "a", "t")]));
    assert_eq!(search.begin_round(), vec![scope("/s/a/x")]);
    search.absorb(&set_of(&[]));
    assert!(search.begin_round().is_empty());
    assert_eq!(
        search.finish(),
        set_of(&[
            child("/s", "self", "t"),
            child("/s/a", "a", "t"),
            child("/s/a/x", "x", "t"),
            child("/s/b", "b", "t"),
        ])
    );
}
