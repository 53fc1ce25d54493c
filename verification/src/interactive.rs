//! Choosing roles from a list: the state behind the interactive screen and
//! what each key does to it.

use vstd::prelude::*;
use vstd::string::StringSliceAdditionalSpecFns;
use crate::ordset::{increasing, lemma_placed_members, Keyed, OrdSet};
use crate::models::roles::{RoleAssignment, RoleAssignmentView};
use crate::text::{chars_of, push_char, texts};

verus! {

/// The longest duration that can be chosen, in minutes.
pub const MAX_MINUTES: u64 = 480;

/// The part of the screen that takes the keys.
#[derive(Debug, Clone, Copy, PartialEq, Eq, Structural)]
pub enum InputState {
    Duration,
    Justification,
    Scopes,
}

/// A key, as far as the screen tells keys apart.
#[derive(Debug, Clone, Copy, PartialEq, Eq, Structural)]
pub enum Key {
    Tab,
    BackTab,
    Char(char),
    Backspace,
    Up,
    Down,
    Enter,
    Esc,
    Other,
}

/// One role of the list and whether it is chosen.
#[derive(Debug, PartialEq, Eq)]
pub struct Entry {
    pub value: RoleAssignment,
    pub enabled: bool,
}

/// What the operator chose.
#[derive(Debug, PartialEq, Eq)]
pub struct Selected {
    pub assignments: OrdSet<RoleAssignment>,
    pub justification: String,
    pub duration: u64,
}

/// What a key leads to.
#[derive(Debug, PartialEq, Eq)]
pub enum Outcome {
    /// The screen stays.
    Continue,
    /// The operator left without choosing.
    Cancelled,
    /// The operator chose.
    Chosen(Selected),
}

/// The state of the screen.
#[derive(Debug, PartialEq, Eq)]
pub struct Selection {
    pub duration: Option<u64>,
    pub input_state: InputState,
    pub selected: usize,
    pub justification: Option<String>,
    pub items: Vec<Entry>,
    pub warnings: Vec<String>,
}

/// The part that takes the keys after `Tab`.
pub open spec fn after_tab(state: InputState) -> InputState {
    match state {
        InputState::Justification => InputState::Scopes,
        InputState::Scopes => InputState::Duration,
        InputState::Duration => InputState::Justification,
    }
}

/// The part that takes the keys after `Shift-Tab`.
pub open spec fn after_back_tab(state: InputState) -> InputState {
    match state {
        InputState::Duration => InputState::Scopes,
        InputState::Justification => InputState::Duration,
        InputState::Scopes => InputState::Justification,
    }
}

/// The duration one minute shorter, but no shorter than a minute.
pub open spec fn shorter(minutes: u64) -> u64 {
    if minutes <= 1 {
        1
    } else {
        (minutes - 1) as u64
    }
}

/// The duration one minute longer, but no longer than the longest.
pub open spec fn longer(minutes: u64) -> u64 {
    if minutes >= MAX_MINUTES {
        MAX_MINUTES
    } else {
        (minutes + 1) as u64
    }
}

/// Whether no role of `items` is chosen.
pub open spec fn none_enabled(items: Seq<Entry>) -> bool {
    forall|i: int| 0 <= i < items.len() ==> !(#[trigger] items[i]).enabled
}

/// The warnings that a state calls for.
pub open spec fn warnings_for(justification: Option<String>, items: Seq<Entry>) -> Seq<Seq<char>> {
    (if justification is Some && justification->Some_0@.len() == 0 {
        seq!["Justification is required"@]
    } else {
        Seq::<Seq<char>>::empty()
    }) + (if none_enabled(items) {
        seq!["At least one role must be selected"@]
    } else {
        Seq::<Seq<char>>::empty()
    })
}

/// The roles chosen among the first `n` of `items`.
pub open spec fn chosen(items: Seq<Entry>, n: int) -> Set<RoleAssignmentView> {
    Set::new(
        |a: RoleAssignmentView|
            exists|i: int| 0 <= i < n && (#[trigger] items[i]).enabled && items[i].value@ == a,
    )
}

impl Selection {
    /// Whether the state is sound: there are roles, and the marked one is
    /// among them.
    pub open spec fn valid(&self) -> bool {
        self.items@.len() > 0 && self.selected < self.items@.len()
    }

    /// The screen for a list of roles, none of them chosen, with the first
    /// one marked. The keys go to the justification where one is asked for,
    /// else to the list.
    pub fn new(assignments: &OrdSet<RoleAssignment>, justification: Option<String>, duration: Option<
        u64,
    >) -> (r: Selection)
        requires
            assignments@.len() > 0,
        ensures
            r.valid(),
            r.selected == 0,
            r.duration == duration,
            r.justification == justification,
            r.input_state == (if justification is None {
                InputState::Scopes
            } else {
                InputState::Justification
            }),
            r.items@.len() == assignments@.len(),
            forall|i: int|
                0 <= i < r.items@.len() ==> (#[trigger] r.items@[i]).value@ == assignments@[i]
                    && !r.items@[i].enabled,
            texts(r.warnings@) == warnings_for(justification, r.items@),
    {
        let n = assignments.len();
        let mut items: Vec<Entry> = Vec::new();
        let mut i: usize = 0;
        while i < n
            invariant
                i <= n,
                n == assignments@.len(),
                items@.len() == i,
                forall|k: int|
                    0 <= k < i ==> (#[trigger] items@[k]).value@ == assignments@[k]
                        && !items@[k].enabled,
            decreases n - i,
        {
            items.push(Entry { value: assignments.get(i).duplicate(), enabled: false });
            i += 1;
        }
        let input_state = match &justification {
            None => InputState::Scopes,
            Some(_) => InputState::Justification,
        };
        let mut r = Selection {
            duration,
            input_state,
            selected: 0,
            justification,
            items,
            warnings: Vec::new(),
        };
        r.check();
        r
    }

    /// Marks the next role; after the last comes the first.
    pub fn next(&mut self)
        requires
            old(self).valid(),
        ensures
            final(self).selected == (if old(self).selected + 1 >= old(self).items@.len() {
                0
            } else {
                old(self).selected + 1
            }),
            *final(self) == (Selection { selected: final(self).selected, ..*old(self) }),
    {
        if self.selected >= self.items.len() - 1 {
            self.selected = 0;
        } else {
            self.selected = self.selected + 1;
        }
    }

    /// Marks the role before; before the first comes the last.
    pub fn previous(&mut self)
        requires
            old(self).valid(),
        ensures
            final(self).selected == (if old(self).selected == 0 {
                old(self).items@.len() - 1
            } else {
                old(self).selected - 1
            }),
            *final(self) == (Selection { selected: final(self).selected, ..*old(self) }),
    {
        if self.selected == 0 {
            self.selected = self.items.len() - 1;
        } else {
            self.selected = self.selected - 1;
        }
    }

    /// Chooses the marked role, or lets go of it where it was chosen.
    pub fn toggle_current(&mut self)
        requires
            old(self).valid(),
        ensures
            final(self).items@ == old(self).items@.update(
                old(self).selected as int,
                Entry {
                    value: old(self).items@[old(self).selected as int].value,
                    enabled: !old(self).items@[old(self).selected as int].enabled,
                },
            ),
            *final(self) == (Selection { items: final(self).items, ..*old(self) }),
    {
        let at = self.selected;
        let Entry { value, enabled } = self.items.remove(at);
        self.items.insert(at, Entry { value, enabled: !enabled });
        assert(self.items@ =~= old(self).items@.update(
            at as int,
            Entry {
                value: old(self).items@[at as int].value,
                enabled: !old(self).items@[at as int].enabled,
            },
        ));
    }

    /// Sets the warnings that the state calls for: a justification that is
    /// asked for must not be empty, and one role must be chosen.
    pub fn check(&mut self)
        ensures
            texts(final(self).warnings@) == warnings_for(old(self).justification, old(self).items@),
            *final(self) == (Selection { warnings: final(self).warnings, ..*old(self) }),
    {
        let mut warnings: Vec<String> = Vec::new();
        let empty = match &self.justification {
            Some(text) => chars_of(text.as_str()).len() == 0,
            None => false,
        };
        if empty {
            warnings.push("Justification is required".to_string());
        }
        let mut any = false;
        let mut i: usize = 0;
        while i < self.items.len()
            invariant
                i <= self.items@.len(),
                any <==> exists|k: int| 0 <= k < i && (#[trigger] self.items@[k]).enabled,
            decreases self.items@.len() - i,
        {
            if self.items[i].enabled {
                any = true;
            }
            i += 1;
        }
        let ghost head = texts(warnings@);
        if !any {
            warnings.push("At least one role must be selected".to_string());
            assert(texts(warnings@) =~= head + seq!["At least one role must be selected"@]);
        } else {
            assert(texts(warnings@) =~= head + Seq::<Seq<char>>::empty());
        }
        assert(head =~= (if empty {
            seq!["Justification is required"@]
        } else {
            Seq::<Seq<char>>::empty()
        }));
        self.warnings = warnings;
    }

    /// The roles that are chosen.
    pub fn chosen_roles(&self) -> (r: OrdSet<RoleAssignment>)
        ensures
            r@.to_set() == chosen(self.items@, self.items@.len() as int),
            increasing::<RoleAssignment>(r@),
    {
        let mut out: OrdSet<RoleAssignment> = OrdSet::new();
        let _ = out.len();
        let mut i: usize = 0;
        assert(out@.to_set() =~= chosen(self.items@, 0));
        while i < self.items.len()
            invariant
                i <= self.items@.len(),
                out@.to_set() == chosen(self.items@, i as int),
                increasing::<RoleAssignment>(out@),
            decreases self.items@.len() - i,
        {
            let ghost before = out@;
            if self.items[i].enabled {
                out.insert(self.items[i].value.duplicate());
                proof {
                    lemma_placed_members(before, self.items@[i as int].value@, out@);
                    assert(chosen(self.items@, i + 1) =~= chosen(self.items@, i as int).insert(
                        self.items@[i as int].value@,
                    ));
                }
            } else {
                assert(chosen(self.items@, i + 1) =~= chosen(self.items@, i as int));
            }
            i += 1;
        }
        out
    }

    /// Takes a key. `Esc` leaves the screen; `Enter` ends it with the choice
    /// made, unless there are warnings. The other keys work on the part that
    /// takes the keys: `Tab` and `Shift-Tab` go from part to part, letters
    /// and `Backspace` edit the justification, the arrows change the
    /// duration or move the mark, and the space bar chooses the marked
    /// role. After a key that stays on the screen the warnings are set anew.
    pub fn on_key(&mut self, key: Key) -> (r: Outcome)
        requires
            old(self).valid(),
        ensures
            key == Key::Esc ==> r == Outcome::Cancelled && *final(self) == *old(self),
            key == Key::Enter && old(self).warnings@.len() == 0 ==> *final(self) == *old(self) && (
            r matches Outcome::Chosen(s) && s.assignments@.to_set() == chosen(
                old(self).items@,
                old(self).items@.len() as int,
            ) && s.justification@ == (match old(self).justification {
                Some(j) => j@,
                None => Seq::<char>::empty(),
            }) && s.duration == (match old(self).duration {
                Some(d) => d,
                None => 0,
            })),
            key != Key::Esc && !(key == Key::Enter && old(self).warnings@.len() == 0) ==> {
                &&& r == Outcome::Continue
                &&& final(self).valid()
                &&& texts(final(self).warnings@) == warnings_for(
                    final(self).justification,
                    final(self).items@,
                )
                &&& final(self).input_state == (match key {
                    Key::Tab => after_tab(old(self).input_state),
                    Key::BackTab => after_back_tab(old(self).input_state),
                    _ => old(self).input_state,
                })
                &&& final(self).duration == (match (old(self).input_state, key, old(self).duration) {
                    (InputState::Duration, Key::Down, Some(d)) => Some(shorter(d)),
                    (InputState::Duration, Key::Up, Some(d)) => Some(longer(d)),
                    _ => old(self).duration,
                })
                &&& final(self).selected == (match (old(self).input_state, key) {
                    (InputState::Scopes, Key::Down) => if old(self).selected + 1 >= old(self).items@.len() {
                        0usize
                    } else {
                        (old(self).selected + 1) as usize
                    },
                    (InputState::Scopes, Key::Up) => if old(self).selected == 0 {
                        (old(self).items@.len() - 1) as usize
                    } else {
                        (old(self).selected - 1) as usize
                    },
                    _ => old(self).selected,
                })
                &&& final(self).items@ == (match (old(self).input_state, key) {
                    (InputState::Scopes, Key::Char(' ')) => old(self).items@.update(
                        old(self).selected as int,
                        Entry {
                            value: old(self).items@[old(self).selected as int].value,
                            enabled: !old(self).items@[old(self).selected as int].enabled,
                        },
                    ),
                    _ => old(self).items@,
                })
                &&& (match (old(self).input_state, key, old(self).justification) {
                    (InputState::Justification, Key::Char(c), Some(j)) => final(self).justification is Some && final(self).justification->Some_0@ == j@.push(c),
                    (InputState::Justification, Key::Backspace, Some(j)) => final(self).justification is Some && final(self).justification->Some_0@ == (if j@.len()
                        == 0 {
                        j@
                    } else {
                        j@.drop_last()
                    }),
                    _ => final(self).justification == old(self).justification,
                })
            },
    {
        match key {
            Key::Esc => {
                return Outcome::Cancelled;
            },
            Key::Enter => {
                if self.warnings.len() == 0 {
                    let justification = match &self.justification {
                        Some(j) => j.clone(),
                        None => String::new(),
                    };
                    let duration = match self.duration {
                        Some(d) => d,
                        None => 0,
                    };
                    return Outcome::Chosen(
                        Selected { assignments: self.chosen_roles(), justification, duration },
                    );
                }
            },
            Key::Tab => {
                self.input_state = match self.input_state {
                    InputState::Justification => InputState::Scopes,
                    InputState::Scopes => InputState::Duration,
                    InputState::Duration => InputState::Justification,
                };
            },
            Key::BackTab => {
                self.input_state = match self.input_state {
                    InputState::Duration => InputState::Scopes,
                    InputState::Justification => InputState::Duration,
                    InputState::Scopes => InputState::Justification,
                };
            },
            Key::Char(c) => {
                match self.input_state {
                    InputState::Justification => {
                        let mut taken: Option<String> = None;
                        std::mem::swap(&mut self.justification, &mut taken);
                        match taken {
                            Some(text) => {
                                let mut text = text;
                                push_char(&mut text, c);
                                self.justification = Some(text);
                            },
                            None => {},
                        }
                    },
                    InputState::Scopes => {
                        if c == ' ' {
                            self.toggle_current();
                        }
                    },
                    InputState::Duration => {},
                }
            },
            Key::Backspace => {
                match self.input_state {
                    InputState::Justification => {
                        let mut taken: Option<String> = None;
                        std::mem::swap(&mut self.justification, &mut taken);
                        match taken {
                            Some(text) => {
                                let mut chars = chars_of(text.as_str());
                                if chars.len() > 0 {
                                    chars.pop();
                                }
                                self.justification = Some(crate::text::string_of(&chars));
                            },
                            None => {},
                        }
                    },
                    _ => {},
                }
            },
            Key::Down => {
                match self.input_state {
                    InputState::Duration => {
                        self.duration = match self.duration {
                            Some(d) => Some(if d <= 1 { 1 } else { d - 1 }),
                            None => None,
                        };
                    },
                    InputState::Scopes => {
                        self.next();
                    },
                    InputState::Justification => {},
                }
            },
            Key::Up => {
                match self.input_state {
                    InputState::Duration => {
                        self.duration = match self.duration {
                            Some(d) => Some(if d >= MAX_MINUTES { MAX_MINUTES } else { d + 1 }),
                            None => None,
                        };
                    },
                    InputState::Scopes => {
                        self.previous();
                    },
                    InputState::Justification => {},
                }
            },
            Key::Other => {},
        }
        self.check();
        Outcome::Continue
    }
}

/// The widths of the two columns of the list: that of the longest role
/// name, and that of the longest scope or scope name, in bytes.
pub open spec fn widths(items: Seq<RoleAssignmentView>, n: int) -> (nat, nat)
    decreases n,
{
    if n <= 0 || n > items.len() {
        (0, 0)
    } else {
        let before = widths(items, n - 1);
        let a = items[n - 1];
        let role = byte_len(a.role);
        let scope = byte_len(a.scope);
        let name = match a.scope_name {
            Some(s) => byte_len(s),
            None => 0,
        };
        (max3(before.0, role, 0), max3(before.1, scope, name))
    }
}

/// The length of a text in bytes, as `str::len` counts it.
pub open spec fn byte_len(s: Seq<char>) -> nat {
    (vstd::utf8::encode_utf8(s).len() as usize) as nat
}

/// The largest of three numbers.
pub open spec fn max3(a: nat, b: nat, c: nat) -> nat {
    if a >= b && a >= c {
        a
    } else if b >= c {
        b
    } else {
        c
    }
}

/// The widths of the two columns of the list, or nothing where one does not
/// fit the screen's count of columns.
pub fn column_widths(items: &OrdSet<RoleAssignment>) -> (r: Option<(u16, u16)>)
    ensures
        r matches Some(w) ==> (w.0 as nat, w.1 as nat) == widths(items@, items@.len() as int),
        r is None ==> widths(items@, items@.len() as int).0 > u16::MAX || widths(
            items@,
            items@.len() as int,
        ).1 > u16::MAX,
{
    let n = items.len();
    let mut role_len: usize = 0;
    let mut scope_len: usize = 0;
    let mut i: usize = 0;
    while i < n
        invariant
            i <= n,
            n == items@.len(),
            (role_len as nat, scope_len as nat) == widths(items@, i as int),
        decreases n - i,
    {
        let entry = items.get(i);
        assert(entry@ == items@[i as int]);
        let role = entry.role.as_str().len();
        let scope = entry.scope.as_str().len();
        let name = match &entry.scope_name {
            Some(s) => s.as_str().len(),
            None => 0,
        };
        if role > role_len {
            role_len = role;
        }
        if scope > scope_len {
            scope_len = scope;
        }
        if name > scope_len {
            scope_len = name;
        }
        i += 1;
    }
    if role_len > 65535 || scope_len > 65535 {
        None
    } else {
        Some((role_len as u16, scope_len as u16))
    }
}

} // verus!
