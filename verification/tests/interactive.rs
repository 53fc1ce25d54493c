use azure_pim_cli::latest::{
    is_newer, judge_cached, judge_order, CacheVerdict, VersionError, CACHE_EXPIRE_SECS,
};
use azure_pim_cli::logging::{Level, Verbosity};
use azure_pim_cli::order::Rank;
use azure_pim_cli::ordset::OrdSet;
use azure_pim_cli::orphans::{answer_from_word, read_answer};
use azure_pim_cli::models::roles::{Role, RoleAssignment};
use azure_pim_cli::models::scope::Scope;
use azure_pim_cli::interactive::{
    column_widths, InputState, Key, Outcome, Selected, Selection, MAX_MINUTES,
};

fn assignment(role: &str, scope: &str, name: Option<&str>) -> RoleAssignment {
    RoleAssignment {
        role: Role::new(role),
        scope: Scope::new(scope).unwrap(),
        scope_name: name.map(|x| x.to_string()),
        role_definition_id: "d".to_string(),
        principal_id: None,
        principal_type: None,
        object: None,
    }
}

fn set_of(items: &[RoleAssignment]) -> OrdSet<RoleAssignment> {
    let mut set = OrdSet::new();
    for item in items {
        set.insert(item.clone());
    }
    set
}

fn three() -> OrdSet<RoleAssignment> {
    set_of(&[
        assignment("Owner", "/a", None),
        assignment("Reader", "/b", None),
        assignment("Writer", "/c", None),
    ])
}

#[test]
fn the_screen_starts_with_nothing_chosen() {
    let state = Selection::new(&three(), Some(String::new()), Some(60));
    assert_eq!(state.input_state, InputState::Justification);
    assert_eq!(state.selected, 0);
    assert_eq!(state.items.len(), 3);
    assert!(state.items.iter().all(|x| !x.enabled));
    assert_eq!(
        state.warnings,
        vec!["Justification is required", "At least one role must be selected"]
    );
    let state = Selection::new(&three(), None, None);
    assert_eq!(state.input_state, InputState::Scopes);
    assert_eq!(state.warnings, vec!["At least one role must be selected"]);
}

#[test]
fn tab_goes_from_part_to_part() {
    let mut state = Selection::new(&three(), Some("x".to_string()), Some(60));
    for expected in [InputState::Scopes, InputState::Duration, InputState::Justification] {
        assert_eq!(state.on_key(Key::Tab), Outcome::Continue);
        assert_eq!(state.input_state, expected);
    }
    for expected in [InputState::Duration, InputState::Scopes, InputState::Justification] {
        assert_eq!(state.on_key(Key::BackTab), Outcome::Continue);
        assert_eq!(state.input_state, expected);
    }
}

#[test]
fn the_mark_wraps_around() {
    let mut state = Selection::new(&three(), None, None);
    state.on_key(Key::Up);
    assert_eq!(state.selected, 2);
    state.on_key(Key::Down);
    assert_eq!(state.selected, 0);
    state.on_key(Key::Down);
    state.on_key(Key::Down);
    assert_eq!(state.selected, 2);
    state.next();
    assert_eq!(state.selected, 0);
    state.previous();
    assert_eq!(state.selected, 2);
}

#[test]
fn the_duration_stays_between_a_minute_and_the_longest() {
    let mut state = Selection::new(&three(), None, Some(2));
    state.on_key(Key::Tab);
    assert_eq!(state.input_state, InputState::Duration);
    state.on_key(Key::Down);
    assert_eq!(state.duration, Some(1));
    state.on_key(Key::Down);
    assert_eq!(state.duration, Some(1));
    state.on_key(Key::Up);
    assert_eq!(state.duration, Some(2));
    state.duration = Some(MAX_MINUTES - 1);
    state.on_key(Key::Up);
    state.on_key(Key::Up);
    assert_eq!(state.duration, Some(480));
    state.duration = Some(10_000);
    state.on_key(Key::Up);
    assert_eq!(state.duration, Some(480));
    state.duration = Some(0);
    state.on_key(Key::Down);
    assert_eq!(state.duration, Some(1));
    // the mark does not move while the duration takes the keys
    assert_eq!(state.selected, 0);
}

#[test]
fn the_justification_is_typed_and_erased() {
    let mut state = Selection::new(&three(), Some(String::new()), None);
    for c in "why é".chars() {
        state.on_key(Key::Char(c));
    }
    assert_eq!(state.justification, Some("why é".to_string()));
    state.on_key(Key::Backspace);
    assert_eq!(state.justification, Some("why ".to_string()));
    assert_eq!(state.warnings, vec!["At least one role must be selected"]);
    for _ in 0..10 {
        state.on_key(Key::Backspace);
    }
    assert_eq!(state.justification, Some(String::new()));
    assert_eq!(state.warnings.len(), 2);
    // a space is typed here, not taken as a choice
    state.on_key(Key::Char(' '));
    assert_eq!(state.justification, Some(" ".to_string()));
    assert!(state.items.iter().all(|x| !x.enabled));
}

#[test]
fn enter_ends_the_screen_once_the_warnings_are_gone() {
    let mut state = Selection::new(&three(), Some("because".to_string()), Some(30));
    assert_eq!(state.on_key(Key::Enter), Outcome::Continue);
    state.on_key(Key::Tab);
    state.on_key(Key::Char(' '));
    state.on_key(Key::Down);
    state.on_key(Key::Down);
    state.on_key(Key::Char(' '));
    state.on_key(Key::Char('x'));
    assert!(state.warnings.is_empty());
    assert_eq!(
        state.on_key(Key::Enter),
        Outcome::Chosen(Selected {
            assignments: set_of(&[assignment("Owner", "/a", None), assignment("Writer", "/c", None)]),
            justification: "because".to_string(),
            duration: 30,
        })
    );
    // a role that is chosen twice is let go of
    state.on_key(Key::Char(' '));
    assert_eq!(state.chosen_roles(), set_of(&[assignment("Owner", "/a", None)]));
    let mut state = Selection::new(&three(), None, None);
    state.toggle_current();
    state.check();
    assert_eq!(
        state.on_key(Key::Enter),
        Outcome::Chosen(Selected {
            assignments: set_of(&[assignment("Owner", "/a", None)]),
            justification: String::new(),
            duration: 0,
        })
    );
}

#[test]
fn escape_leaves_the_screen() {
    let mut state = Selection::new(&three(), None, None);
    assert_eq!(state.on_key(Key::Esc), Outcome::Cancelled);
    assert_eq!(state.on_key(Key::Other), Outcome::Continue);
}

#[test]
fn columns_are_as_wide_as_their_longest_text() {
    let set = set_of(&[
        assignment("Owner", "/a", Some("A long scope name")),
        assignment("Contributor", "/subscriptions/s", None),
        assignment("é", "/b", None),
    ]);
    assert_eq!(column_widths(&set), Some((11, 17)));
    assert_eq!(column_widths(&set_of(&[])), Some((0, 0)));
    let wide = "x".repeat(70_000);
    assert_eq!(column_widths(&set_of(&[assignment(&wide, "/a", None)])), None);
}

#[test]
fn answers_are_read_leniently() {
    assert_eq!(read_answer("y\n"), Some(true));
    assert_eq!(read_answer("  Y  \r\n"), Some(true));
    assert_eq!(read_answer("n"), Some(false));
    assert_eq!(read_answer("\tN\n"), Some(false));
    assert_eq!(read_answer("yes"), None);
    assert_eq!(read_answer(""), None);
    assert_eq!(read_answer("y n"), None);
    assert_eq!(answer_from_word("y"), Some(true));
    assert_eq!(answer_from_word("Y"), None);
    assert_eq!(answer_from_word(" n"), None);
}

#[test]
fn the_level_follows_the_flags() {
    let level = |verbose: u8, quiet: bool| Verbosity { verbose, quiet }.get_level();
    assert_eq!(level(0, false), Level::Info);
    assert_eq!(level(1, false), Level::Debug);
    assert_eq!(level(2, false), Level::Trace);
    assert_eq!(level(255, false), Level::Trace);
    assert_eq!(level(0, true), Level::Error);
    assert_eq!(level(3, true), Level::Error);
}

#[test]
fn a_remembered_release_is_judged_by_age_and_order() {
    assert_eq!(judge_cached("1.2.3", 10, "1.2.3"), Ok(CacheVerdict::UpToDate));
    assert_eq!(judge_cached("1.3.0", 10, "1.2.3"), Ok(CacheVerdict::NewerAvailable));
    assert_eq!(judge_cached("1.10.0", 10, "1.9.0"), Ok(CacheVerdict::NewerAvailable));
    assert_eq!(judge_cached("1.2.2", 10, "1.2.3"), Ok(CacheVerdict::Refresh));
    assert_eq!(judge_cached("1.2.3-rc.1", 10, "1.2.3"), Ok(CacheVerdict::Refresh));
    assert_eq!(judge_cached("not a version", 10, "1.2.3"), Ok(CacheVerdict::Refresh));
    assert_eq!(judge_cached("2.0.0", 3599, "1.2.3"), Ok(CacheVerdict::NewerAvailable));
    assert_eq!(judge_cached("2.0.0", 3600, "1.2.3"), Ok(CacheVerdict::Refresh));
    assert_eq!(judge_cached("2.0.0", 10, "one"), Err(VersionError::Current));
    assert_eq!(judge_cached("2.0.0", 3600, "one"), Err(VersionError::Current));
    assert_eq!(CACHE_EXPIRE_SECS, 3600);
    assert_eq!(judge_order(Some(Rank::After)), CacheVerdict::NewerAvailable);
    assert_eq!(judge_order(Some(Rank::Same)), CacheVerdict::UpToDate);
    assert_eq!(judge_order(Some(Rank::Before)), CacheVerdict::Refresh);
    assert_eq!(judge_order(None), CacheVerdict::Refresh);
    assert_eq!(is_newer("1.2.4", "1.2.3"), Ok(true));
    assert_eq!(is_newer("1.2.3", "1.2.3"), Ok(false));
    assert_eq!(is_newer("1.2.3+build", "1.2.3"), Ok(true));
    assert_eq!(is_newer("0.9.0", "1.2.3"), Ok(false));
    assert_eq!(is_newer("v1.2.4", "1.2.3"), Err(VersionError::Latest));
    assert_eq!(is_newer("1.2.4", "1.2"), Err(VersionError::Current));
    assert_eq!(is_newer("x", "y"), Err(VersionError::Current));
    assert_eq!(VersionError::Current.message(), "unable to parse current version");
    assert_eq!(VersionError::Latest.message(), "unable to parse tag_name");
}
