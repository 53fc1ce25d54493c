//! `ROLE=SCOPE` pairs as the operator writes them.

use vstd::prelude::*;
use crate::models::roles::Role;
use crate::models::scope::{valid_path, Scope, ScopeError};
use crate::text::{chars_of, push_text, string_of};

verus! {

/// Why a text is no `ROLE=SCOPE` pair.
#[derive(Debug, PartialEq, Eq)]
pub enum KeyValError {
    /// The text holds no `=`.
    NoEquals { input: String },
    /// What follows the `=` is no scope.
    Scope(ScopeError),
}

impl KeyValError {
    /// The message shown to the operator.
    pub fn message(&self) -> (r: String)
        ensures
            self matches KeyValError::NoEquals { input } ==> r@
                == "invalid KEY=value: no `=` found in `"@ + input@ + "`"@,
            self is Scope ==> r@ == "scope must start with a /"@,
    {
        match self {
            KeyValError::NoEquals { input } => {
                let mut out: Vec<char> = Vec::new();
                push_text(&mut out, "invalid KEY=value: no `=` found in `");
                push_text(&mut out, input.as_str());
                push_text(&mut out, "`");
                string_of(&out)
            },
            KeyValError::Scope(e) => e.message(),
        }
    }
}

/// Whether `i` is the position of the first `=` of `s`.
pub open spec fn first_equals(s: Seq<char>, i: int) -> bool {
    0 <= i < s.len() && s[i] == '=' && forall|j: int| 0 <= j < i ==> s[j] != '='
}

/// Reads a pair of role and scope, written as `ROLE=SCOPE`. The pair is
/// parted at the first `=`.
pub fn parse_key_val(s: &str) -> (r: Result<(Role, Scope), KeyValError>)
    ensures
        (forall|j: int| 0 <= j < s@.len() ==> s@[j] != '=') ==> (r matches Err(
            KeyValError::NoEquals { input },
        ) && input@ == s@),
        forall|i: int|
            first_equals(s@, i) && valid_path(s@.skip(i + 1)) ==> (r matches Ok(pair) && pair.0@
                == s@.take(i) && pair.1@ == s@.skip(i + 1)),
        forall|i: int|
            first_equals(s@, i) && !valid_path(s@.skip(i + 1)) ==> r == Err::<
                (Role, Scope),
                KeyValError,
            >(KeyValError::Scope(ScopeError::LeadingSlash)),
{
    let chars = chars_of(s);
    let mut i: usize = 0;
    while i < chars.len() && chars[i] != '='
        invariant
            i <= chars@.len(),
            forall|j: int| 0 <= j < i ==> chars@[j] != '=',
        decreases chars@.len() - i,
    {
        i += 1;
    }
    if i == chars.len() {
        return Err(KeyValError::NoEquals { input: s.to_string() });
    }
    let mut key: Vec<char> = Vec::new();
    let mut value: Vec<char> = Vec::new();
    let mut k: usize = 0;
    while k < i
        invariant
            k <= i < chars@.len(),
            key@ == chars@.take(k as int),
        decreases i - k,
    {
        key.push(chars[k]);
        k += 1;
    }
    let mut k: usize = i + 1;
    while k < chars.len()
        invariant
            i < k <= chars@.len(),
            value@ == chars@.subrange(i + 1, k as int),
        decreases chars@.len() - k,
    {
        value.push(chars[k]);
        k += 1;
    }
    assert(value@ == chars@.skip(i + 1));
    let role = Role(string_of(&key));
    let value = string_of(&value);
    match Scope::new(value.as_str()) {
        Ok(scope) => Ok((role, scope)),
        Err(e) => Err(KeyValError::Scope(e)),
    }
}

} // verus!
