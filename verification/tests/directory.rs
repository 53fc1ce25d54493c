use azure_pim_cli::directory::{
    cached_members, finish_lookup, note_members, plan_lookup, ObjectCache, CHUNK_SIZE,
};
use azure_pim_cli::graph::{Object, PrincipalType};
use azure_pim_cli::groups::{expand_within, Expansion};
use azure_pim_cli::ordset::OrdSet;
use azure_pim_cli::ExpiringMap;

fn object(id: &str, kind: PrincipalType) -> Object {
    Object {
        id: id.to_string(),
        display_name: format!("name of {id}"),
        upn: None,
        object_type: kind,
    }
}

fn user(id: &str) -> Object {
    object(id, PrincipalType::User)
}

fn group(id: &str) -> Object {
    object(id, PrincipalType::Group)
}

fn ids(items: &[&str]) -> OrdSet<String> {
    let mut set = OrdSet::new();
    for item in items {
        set.insert(item.to_string());
    }
    set
}

fn objects(items: &[Object]) -> OrdSet<Object> {
    let mut set = OrdSet::new();
    for item in items {
        set.insert(item.clone());
    }
    set
}

const MINUTE: u128 = 60_000_000_000;

#[test]
fn the_same_id_is_asked_for_once() {
    let mut cache = ObjectCache::new(600_000);
    let wanted = ids(&["a", "b"]);
    let plan = plan_lookup(&cache, &wanted, 0);
    assert_eq!(plan, vec![vec!["a".to_string(), "b".to_string()]]);
    let found = finish_lookup(&mut cache, &wanted, &vec![user("a"), user("b")], 0);
    assert_eq!(found, vec![user("a"), user("b")]);
    // the second lookup asks the directory for nothing
    assert!(plan_lookup(&cache, &wanted, MINUTE).is_empty());
    let found = finish_lookup(&mut cache, &wanted, &vec![], MINUTE);
    assert_eq!(found, vec![user("a"), user("b")]);
    // once the entries have expired the directory is asked again
    assert_eq!(plan_lookup(&cache, &wanted, 11 * MINUTE).len(), 1);
}

#[test]
fn an_unknown_id_gives_no_entry_and_is_not_asked_for_again() {
    let mut cache = ObjectCache::new(600_000);
    let wanted = ids(&["gone", "here"]);
    assert_eq!(plan_lookup(&cache, &wanted, 5).len(), 1);
    let found = finish_lookup(&mut cache, &wanted, &vec![user("here")], 5);
    assert_eq!(found, vec![user("here")]);
    assert_eq!(cache.get_at("gone", 6), Some(&None));
    assert!(plan_lookup(&cache, &wanted, MINUTE).is_empty());
    assert_eq!(finish_lookup(&mut cache, &wanted, &vec![], MINUTE), vec![user("here")]);
    // a third id is asked for alone
    let more = ids(&["gone", "here", "new"]);
    assert_eq!(plan_lookup(&cache, &more, MINUTE), vec![vec!["new".to_string()]]);
}

#[test]
fn lookups_are_parted_into_chunks_of_fifty() {
    let cache = ObjectCache::new(1);
    let names: Vec<String> = (0..120).map(|i| format!("id-{i:03}")).collect();
    let refs: Vec<&str> = names.iter().map(|x| x.as_str()).collect();
    let plan = plan_lookup(&cache, &ids(&refs), 0);
    assert_eq!(plan.iter().map(|x| x.len()).collect::<Vec<_>>(), vec![50, 50, 20]);
    assert_eq!(plan.concat(), names);
    assert_eq!(CHUNK_SIZE, 50);
    let refs: Vec<&str> = names[..100].iter().map(|x| x.as_str()).collect();
    assert_eq!(plan_lookup(&cache, &ids(&refs), 0).len(), 2);
    assert!(plan_lookup(&cache, &ids(&[]), 0).is_empty());
}

#[test]
fn objects_that_were_not_asked_for_are_cached_too() {
    let mut cache = ObjectCache::new(1_000);
    let found = finish_lookup(&mut cache, &ids(&["a"]), &vec![user("a"), user("z")], 0);
    assert_eq!(found, vec![user("a")]);
    assert_eq!(cache.get_at("z", 1), Some(&Some(user("z"))));
    assert_eq!(cache.len(), 2);
}

#[test]
fn members_of_a_group_are_cached_with_the_group() {
    let mut object_cache = ObjectCache::new(1_000);
    let mut group_cache: ExpiringMap<String, OrdSet<Object>> = ExpiringMap::new(1_000);
    assert_eq!(cached_members(&group_cache, "g", 0), None);
    finish_lookup(&mut object_cache, &ids(&["u1"]), &vec![], 0);
    let members = objects(&[user("u1"), user("u2")]);
    note_members(&mut object_cache, &mut group_cache, "g", &members, 1);
    assert_eq!(cached_members(&group_cache, "g", 2), Some(members));
    assert_eq!(cached_members(&group_cache, "g", 2_000_000_000), None);
    // what the cache answered for already stays as it was
    assert_eq!(object_cache.get_at("u1", 2), Some(&None));
    assert_eq!(object_cache.get_at("u2", 2), Some(&Some(user("u2"))));
}

#[test]
fn expansion_of_a_cycle_ends_with_each_member_once() {
    let dir = vec![
        ("A".to_string(), objects(&[group("B"), user("u1"), user("shared")])),
        ("B".to_string(), objects(&[group("A"), user("u2"), user("shared")])),
        ("C".to_string(), objects(&[user("u3")])),
    ];
    let all = expand_within(&dir, "A", true);
    assert_eq!(
        all,
        objects(&[group("A"), group("B"), user("shared"), user("u1"), user("u2")])
    );
    assert_eq!(all.len(), 5);
    assert_eq!(expand_within(&dir, "C", true), objects(&[user("u3")]));
    assert_eq!(expand_within(&dir, "nowhere", true), objects(&[]));
}

#[test]
fn expansion_follows_groups_that_the_directory_does_not_hold() {
    let dir = vec![("A".to_string(), objects(&[group("ghost"), group("A")]))];
    assert_eq!(expand_within(&dir, "A", true), objects(&[group("A"), group("ghost")]));
    // of two entries for one group the first counts
    let dir = vec![
        ("A".to_string(), objects(&[user("first")])),
        ("A".to_string(), objects(&[user("second")])),
    ];
    assert_eq!(expand_within(&dir, "A", true), objects(&[user("first")]));
}

#[test]
fn the_walk_asks_for_each_group_once() {
    let mut walk = Expansion::new("A", true);
    assert_eq!(walk.next(), Some("A".to_string()));
    walk.absorb(&objects(&[group("B"), group("A"), user("u")]));
    assert_eq!(walk.next(), Some("B".to_string()));
    walk.absorb(&objects(&[group("A"), group("B"), user("v")]));
    assert_eq!(walk.next(), None);
    assert_eq!(walk.next(), None);
    assert_eq!(walk.finish(), objects(&[group("A"), group("B"), user("u"), user("v")]));
}

#[test]
fn a_flat_walk_asks_for_one_group() {
    let dir = vec![
        ("A".to_string(), objects(&[group("B"), user("u1")])),
        ("B".to_string(), objects(&[group("A"), user("u2")])),
    ];
    assert_eq!(expand_within(&dir, "A", false), objects(&[group("B"), user("u1")]));
    assert_eq!(expand_within(&dir, "nowhere", false), objects(&[]));
    let mut walk = Expansion::new("A", false);
    assert_eq!(walk.next(), Some("A".to_string()));
    walk.absorb(&objects(&[group("B"), user("u1")]));
    assert_eq!(walk.next(), None);
    assert_eq!(walk.finish(), objects(&[group("B"), user("u1")]));
}

#[test]
fn an_entry_at_its_expiry_is_asked_for_again_and_not_lost() {
    let mut cache = ObjectCache::new(1);
    let wanted = ids(&["a", "b"]);
    finish_lookup(&mut cache, &ids(&["a"]), &vec![user("a")], 0);
    // at the expiry of the entry for "a" the cache shows it no longer
    assert_eq!(plan_lookup(&cache, &wanted, 1_000_000), vec![vec!["a".to_string(), "b".to_string()]]);
    let found = finish_lookup(&mut cache, &wanted, &vec![user("a"), user("b")], 1_000_000);
    assert_eq!(found, vec![user("a"), user("b")]);
    // just before its expiry the cache shows it, and putting "b" in keeps it
    let mut cache = ObjectCache::new(1);
    finish_lookup(&mut cache, &ids(&["a"]), &vec![user("a")], 0);
    assert_eq!(plan_lookup(&cache, &wanted, 999_999), vec![vec!["b".to_string()]]);
    let found = finish_lookup(&mut cache, &wanted, &vec![user("b")], 999_999);
    assert_eq!(found, vec![user("a"), user("b")]);
}

#[test]
fn a_miss_yields_no_entry_at_the_second_lookup_either() {
    let mut cache = ObjectCache::new(600_000);
    let wanted = ids(&["gone", "here"]);
    assert_eq!(finish_lookup(&mut cache, &wanted, &vec![user("here")], 0), vec![user("here")]);
    assert!(plan_lookup(&cache, &wanted, 1).is_empty());
    let again = finish_lookup(&mut cache, &wanted, &vec![], 1);
    assert_eq!(again, vec![user("here")]);
    assert!(again.iter().all(|o| o.id != "gone"));
    cache.clear();
    assert_eq!(cache.len(), 0);
    assert_eq!(plan_lookup(&cache, &wanted, 2).len(), 1);
}
