use azure_pim_cli::order::{rank_keys, Rank};
use azure_pim_cli::ordset::{Keyed, OrdSet};
use azure_pim_cli::text::{
    chars_of, push_decimal, same_chars, same_text, split_chars, string_of,
};

fn set_of(items: &[&str]) -> OrdSet<String> {
    let mut set = OrdSet::new();
    for item in items {
        set.insert(item.to_string());
    }
    set
}

fn items(set: &OrdSet<String>) -> Vec<String> {
    (0..set.len()).map(|i| set.get(i).clone()).collect()
}

#[test]
fn a_set_holds_its_values_in_order_and_once() {
    let mut set: OrdSet<String> = OrdSet::new();
    assert!(set.is_empty());
    assert!(set.insert("b".to_string()));
    assert!(set.insert("a".to_string()));
    assert!(set.insert("ab".to_string()));
    assert!(!set.insert("a".to_string()));
    assert!(set.insert("".to_string()));
    assert!(set.insert("B".to_string()));
    assert!(set.insert("é".to_string()));
    assert_eq!(items(&set), vec!["", "B", "a", "ab", "b", "é"]);
    assert_eq!(set.len(), 6);
    assert!(set.contains(&"ab".to_string()));
    assert!(!set.contains(&"abc".to_string()));
}

#[test]
fn the_order_of_strings_is_that_of_the_standard_library() {
    let mut words = vec![
        "", "a", "A", "aa", "ab", "b", "Z", "z", "é", "e", "日本", "\u{10FFFF}", "\0", "a\0", "~",
    ];
    let set = set_of(&words);
    words.sort();
    assert_eq!(items(&set), words);
}

#[test]
fn values_leave_a_set_one_by_one() {
    let mut set = set_of(&["c", "a", "b"]);
    assert!(set.remove(&"b".to_string()));
    assert!(!set.remove(&"b".to_string()));
    assert_eq!(items(&set), vec!["a", "c"]);
    assert_eq!(set.pop_first(), Some("a".to_string()));
    assert_eq!(set.pop_first(), Some("c".to_string()));
    assert_eq!(set.pop_first(), None);
    assert!(set.is_empty());
}

#[test]
fn sets_are_joined_and_parted() {
    let mut set = set_of(&["a", "c"]);
    set.extend(&set_of(&["b", "c", "d"]));
    assert_eq!(items(&set), vec!["a", "b", "c", "d"]);
    assert_eq!(items(&set.without(&set_of(&["b", "x", "d"]))), vec!["a", "c"]);
    assert_eq!(set.without(&set), set_of(&[]));
    assert_eq!(set.duplicate(), set);
}

#[test]
fn keys_are_compared_position_by_position() {
    assert_eq!(rank_keys(&vec![1, 2], &vec![1, 3]), Rank::Before);
    assert_eq!(rank_keys(&vec![1, 2], &vec![1, 2]), Rank::Same);
    assert_eq!(rank_keys(&vec![2], &vec![1, 3]), Rank::After);
    assert_eq!(rank_keys(&vec![1], &vec![1, 0]), Rank::Before);
    assert_eq!(rank_keys(&vec![1, 0], &vec![1]), Rank::After);
    assert_eq!(rank_keys(&vec![], &vec![]), Rank::Same);
    assert_eq!("ab".to_string().key(), vec![98, 99, 0]);
}

#[test]
fn texts_are_split_at_every_separator() {
    let split = |s: &str| -> Vec<String> {
        split_chars(&chars_of(s), '/').iter().map(string_of).collect()
    };
    assert_eq!(split(""), vec![""]);
    assert_eq!(split("/"), vec!["", ""]);
    assert_eq!(split("a"), vec!["a"]);
    assert_eq!(split("/a//b/"), vec!["", "a", "", "b", ""]);
    for text in ["", "/", "//", "a/b", "/subscriptions/x/", "é/日本"] {
        let expected: Vec<String> = text.split('/').map(|x| x.to_string()).collect();
        assert_eq!(split(text), expected);
    }
}

#[test]
fn texts_are_compared() {
    assert!(same_chars(&chars_of("é"), &chars_of("é")));
    assert!(!same_chars(&chars_of("a"), &chars_of("ab")));
    assert!(same_text("x", "x"));
    assert!(!same_text("x", "X"));
    assert_eq!(string_of(&chars_of("日本語")), "日本語");
}

#[test]
fn numbers_are_written_in_decimal() {
    for n in [0u64, 7, 10, 99, 100, 12_345, u64::MAX] {
        let mut out = vec!['#'];
        push_decimal(&mut out, n);
        assert_eq!(string_of(&out), format!("#{n}"));
    }
}
