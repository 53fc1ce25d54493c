use azure_pim_cli::models::scope::{Scope, ScopeError};
use uuid::Uuid;

fn scope(path: &str) -> Scope {
    Scope::new(path).unwrap()
}

#[test]
fn test_contains() {
    let with_provider = scope("/subscriptions/00000000-0000-0000-0000-000000000000/resourceGroups/rg/providers/provider");
    let with_rg1 = scope("/subscriptions/00000000-0000-0000-0000-000000000000/resourceGroups/rg");
    let with_rg2 = scope("/subscriptions/00000000-0000-0000-0000-000000000000/resourceGroups/r");
    let with_sub1 = scope("/subscriptions/00000000-0000-0000-0000-000000000000");
    let with_sub2 = scope("/subscriptions/00000000-0000-0000-0000-000000000001");

    assert!(with_rg1.contains(&with_provider));
    assert!(with_rg1.contains(&with_rg1));

    assert!(!with_provider.contains(&with_rg1));
    assert!(!with_rg2.contains(&with_provider));

    assert!(with_sub1.contains(&with_provider));
    assert!(with_sub1.contains(&with_rg1));
    assert!(with_sub1.contains(&with_rg2));
    assert!(with_sub1.contains(&with_sub1));
    assert!(!with_sub1.contains(&with_sub2));
}

#[test]
fn test_scope() {
    let uuid = Uuid::now_v7();
    let scope = Scope::from_subscription(uuid.as_u128());
    assert!(scope.is_subscription());
    assert_eq!(scope.subscription(), Some(uuid.as_u128()));
    let scope = Scope::from_resource_group(uuid.as_u128(), "rg");
    assert!(!scope.is_subscription());
    assert_eq!(scope.subscription(), Some(uuid.as_u128()));
}

#[test]
fn scope_needs_leading_slash() {
    assert_eq!(Scope::new("subscriptions/x"), Err(ScopeError::LeadingSlash));
    assert_eq!(Scope::new(""), Err(ScopeError::LeadingSlash));
    assert_eq!(Scope::new("/").unwrap().as_str(), "/");
    assert_eq!(ScopeError::LeadingSlash.message(), "scope must start with a /");
}

#[test]
fn scope_text_is_hyphenated_lower_case() {
    let id: u128 = 0x0123_4567_89ab_cdef_0123_4567_89ab_cdef;
    assert_eq!(
        Scope::from_subscription(id).as_str(),
        "/subscriptions/01234567-89ab-cdef-0123-456789abcdef"
    );
    assert_eq!(
        Scope::from_provider(id, "rg", "Microsoft.Storage").to_string(),
        "/subscriptions/01234567-89ab-cdef-0123-456789abcdef/resourceGroups/rg/providers/Microsoft.Storage"
    );
}

#[test]
fn subscription_reads_the_third_segment() {
    assert_eq!(scope("/").subscription(), None);
    assert_eq!(scope("/subscriptions").subscription(), None);
    assert_eq!(scope("/subscriptions/not-an-id").subscription(), None);
    assert_eq!(
        scope("/providers/00000000-0000-0000-0000-000000000001").subscription(),
        None
    );
    assert_eq!(
        scope("/subscriptions/00000000-0000-0000-0000-000000000001/resourceGroups/rg").subscription(),
        Some(1)
    );
    // the identifier may be written without hyphens
    assert_eq!(
        scope("/subscriptions/000000000000000000000000000000ff").subscription(),
        Some(255)
    );
}

#[test]
fn contains_compares_whole_segments() {
    assert!(scope("/a").contains(&scope("/a/b")));
    assert!(!scope("/a").contains(&scope("/ab")));
    assert!(!scope("/a/").contains(&scope("/a/b")));
    assert!(scope("/a/").contains(&scope("/a//b")));
    assert!(!scope("/a/b").contains(&scope("/a")));
    // a lone slash splits into two empty segments
    assert!(!scope("/").contains(&scope("/a")));
    assert!(scope("/").contains(&scope("//a")));
}

#[test]
fn is_subscription_holds_of_subscriptions_alone() {
    assert!(scope("/subscriptions/x").is_subscription());
    assert!(scope("/subscriptions/00000000-0000-0000-0000-000000000000").is_subscription());
    assert!(!scope("/subscriptions/x/providers/Microsoft.Storage").is_subscription());
    assert!(!scope("/subscriptions/x/resourceGroups/rg").is_subscription());
    assert!(!scope("/subscriptions/x/").is_subscription());
    assert!(!scope("/subscriptions").is_subscription());
    assert!(!scope("/providers/x").is_subscription());
    assert!(!scope("/Subscriptions/x").is_subscription());
}

#[test]
fn the_subscription_is_named_by_the_third_segment() {
    assert_eq!(scope("/subscriptions/abc/resourceGroups/rg").subscription_text(), Some("abc".to_string()));
    assert_eq!(scope("/subscriptions/").subscription_text(), Some(String::new()));
    assert_eq!(scope("/subscriptions").subscription_text(), None);
    assert_eq!(scope("/Subscriptions/abc").subscription_text(), None);
    assert_eq!(scope("//subscriptions/abc").subscription_text(), None);
}
