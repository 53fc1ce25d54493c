//! Hierarchical resource paths.

use vstd::prelude::*;
use crate::ident::{hyphenated, lemma_hyphenated_chars, parsed_uuid, uuid_parse, uuid_text};
use crate::order::{push_text_key, text_key};
use crate::ordset::Keyed;
use crate::text::{
    chars_of, lemma_split_join, lemma_split_plain, push_text, rows, same_chars, split,
    split_chars, string_of,
};

verus! {

/// Why a text is not a scope.
#[derive(Debug, Clone, Copy, PartialEq, Eq)]
pub enum ScopeError {
    /// The text does not begin with `/`.
    LeadingSlash,
}

impl ScopeError {
    /// The message shown to the operator.
    pub fn message(&self) -> (r: String)
        ensures
            r@ == "scope must start with a /"@,
    {
        "scope must start with a /".to_string()
    }
}

/// Whether a text can be a scope: it begins with `/`.
pub open spec fn valid_path(path: Seq<char>) -> bool {
    path.len() > 0 && path[0] == '/'
}

/// Whether the segments of `outer` are the first segments of `inner`.
pub open spec fn path_contains(outer: Seq<char>, inner: Seq<char>) -> bool {
    split(outer, '/').is_prefix_of(split(inner, '/'))
}

/// Whether a path is exactly that of a subscription: `/subscriptions/` and
/// one more segment, with nothing beneath it.
pub open spec fn path_is_subscription(path: Seq<char>) -> bool {
    split(path, '/').len() == 3 && split(path, '/')[1] == "subscriptions"@
}

/// The segment of a path that names its subscription: the third, where the
/// second is `subscriptions`.
pub open spec fn subscription_segment(path: Seq<char>) -> Option<Seq<char>> {
    let parts = split(path, '/');
    if parts.len() >= 3 && parts[1] == "subscriptions"@ {
        Some(parts[2])
    } else {
        None
    }
}

/// The subscription that a path lies in: the segment that names it, read as
/// an identifier.
pub open spec fn path_subscription(path: Seq<char>) -> Option<u128> {
    match subscription_segment(path) {
        Some(segment) => parsed_uuid(segment),
        None => None,
    }
}

/// A path that begins with `/subscriptions/` and a segment `h` has
/// `subscriptions` as its second segment and `h` as its third, whatever
/// follows behind a further slash.
pub proof fn lemma_subscription_segments(h: Seq<char>, tail: Seq<char>)
    requires
        forall|i: int| 0 <= i < h.len() ==> h[i] != '/',
        tail.len() == 0 || tail[0] == '/',
    ensures
        split("/subscriptions/"@ + h + tail, '/').len() >= 3,
        split("/subscriptions/"@ + h + tail, '/').len() == 3 <==> tail.len() == 0,
        split("/subscriptions/"@ + h + tail, '/')[1] == "subscriptions"@,
        split("/subscriptions/"@ + h + tail, '/')[2] == h,
{
    reveal_strlit("/subscriptions/");
    reveal_strlit("subscriptions");
    let e = Seq::<char>::empty();
    let word = "subscriptions"@;
    let p = "/subscriptions/"@ + h + tail;
    lemma_split_plain(e, '/');
    lemma_split_plain(word, '/');
    lemma_split_plain(h, '/');
    if tail.len() == 0 {
        let rest = word + seq!['/'] + h;
        assert(p =~= e + seq!['/'] + rest);
        lemma_split_join(e, rest, '/');
        lemma_split_join(word, h, '/');
        assert(split(p, '/') =~= seq![e, word, h]);
    } else {
        let t = tail.drop_first();
        let deep = h + seq!['/'] + t;
        let rest = word + seq!['/'] + deep;
        assert(tail =~= seq!['/'] + t);
        assert(p =~= e + seq!['/'] + rest);
        lemma_split_join(e, rest, '/');
        lemma_split_join(word, deep, '/');
        lemma_split_join(h, t, '/');
        crate::text::lemma_split_nonempty(t, '/');
        assert(split(p, '/') =~= seq![e, word, h] + split(t, '/'));
    }
}

/// A resource path: a subscription, a resource group, a provider or any
/// resource. It always begins with `/`.
#[derive(Debug, PartialEq, Eq)]
pub struct Scope {
    path: String,
}

impl Clone for Scope {
    fn clone(&self) -> (r: Self)
        ensures
            r@ == self@,
    {
        proof {
            use_type_invariant(self);
        }
        Scope { path: self.path.clone() }
    }
}

impl View for Scope {
    type V = Seq<char>;

    closed spec fn view(&self) -> Seq<char> {
        self.path@
    }
}

impl Scope {
    #[verifier::type_invariant]
    spec fn well_formed(self) -> bool {
        valid_path(self.path@)
    }

    /// Makes a scope of `value`, which must begin with `/`.
    pub fn new(value: &str) -> (r: Result<Scope, ScopeError>)
        ensures
            valid_path(value@) ==> r is Ok && r->Ok_0@ == value@,
            !valid_path(value@) ==> r == Err::<Scope, ScopeError>(ScopeError::LeadingSlash),
    {
        let chars = chars_of(value);
        if chars.len() == 0 || chars[0] != '/' {
            return Err(ScopeError::LeadingSlash);
        }
        Ok(Scope { path: string_of(&chars) })
    }

    /// The path as text.
    pub fn as_str(&self) -> (r: &str)
        ensures
            r@ == self@,
            valid_path(r@),
    {
        proof {
            use_type_invariant(self);
        }
        self.path.as_str()
    }

    /// The path as an owned text.
    pub fn to_string(&self) -> (r: String)
        ensures
            r@ == self@,
    {
        self.path.clone()
    }

    /// The scope of a whole subscription.
    pub fn from_subscription(subscription_id: u128) -> (r: Scope)
        ensures
            r@ == "/subscriptions/"@ + hyphenated(subscription_id),
            path_is_subscription(r@),
            path_subscription(r@) == Some(subscription_id),
    {
        let mut out: Vec<char> = Vec::new();
        push_text(&mut out, "/subscriptions/");
        push_text(&mut out, uuid_text(subscription_id).as_str());
        proof {
            reveal_strlit("/subscriptions/");
            let h = hyphenated(subscription_id);
            assert forall|i: int| 0 <= i < h.len() implies h[i] != '/' by {
                lemma_hyphenated_chars(subscription_id, i);
            }
            lemma_subscription_segments(h, Seq::<char>::empty());
            assert(out@ =~= "/subscriptions/"@ + h + Seq::<char>::empty());
        }
        Scope { path: string_of(&out) }
    }

    /// The scope of a resource group in a subscription.
    pub fn from_resource_group(subscription_id: u128, resource_group: &str) -> (r: Scope)
        ensures
            r@ == "/subscriptions/"@ + hyphenated(subscription_id) + "/resourceGroups/"@
                + resource_group@,
            !path_is_subscription(r@),
            path_subscription(r@) == Some(subscription_id),
    {
        let mut out: Vec<char> = Vec::new();
        push_text(&mut out, "/subscriptions/");
        push_text(&mut out, uuid_text(subscription_id).as_str());
        push_text(&mut out, "/resourceGroups/");
        push_text(&mut out, resource_group);
        proof {
            reveal_strlit("/subscriptions/");
            reveal_strlit("/resourceGroups/");
            let h = hyphenated(subscription_id);
            assert forall|i: int| 0 <= i < h.len() implies h[i] != '/' by {
                lemma_hyphenated_chars(subscription_id, i);
            }
            let tail = "/resourceGroups/"@ + resource_group@;
            lemma_subscription_segments(h, tail);
            assert(out@ =~= "/subscriptions/"@ + h + tail);
        }
        Scope { path: string_of(&out) }
    }

    /// The scope of a resource provider in a resource group.
    pub fn from_provider(subscription_id: u128, resource_group: &str, provider: &str) -> (r: Scope)
        ensures
            r@ == "/subscriptions/"@ + hyphenated(subscription_id) + "/resourceGroups/"@
                + resource_group@ + "/providers/"@ + provider@,
            !path_is_subscription(r@),
            path_subscription(r@) == Some(subscription_id),
    {
        let mut out: Vec<char> = Vec::new();
        push_text(&mut out, "/subscriptions/");
        push_text(&mut out, uuid_text(subscription_id).as_str());
        push_text(&mut out, "/resourceGroups/");
        push_text(&mut out, resource_group);
        push_text(&mut out, "/providers/");
        push_text(&mut out, provider);
        proof {
            reveal_strlit("/subscriptions/");
            reveal_strlit("/resourceGroups/");
            let h = hyphenated(subscription_id);
            assert forall|i: int| 0 <= i < h.len() implies h[i] != '/' by {
                lemma_hyphenated_chars(subscription_id, i);
            }
            let rest = resource_group@ + "/providers/"@ + provider@;
            let tail = "/resourceGroups/"@ + rest;
            lemma_subscription_segments(h, tail);
            assert(out@ =~= "/subscriptions/"@ + h + tail);
        }
        Scope { path: string_of(&out) }
    }

    /// Whether this is exactly the scope of a subscription: the path has
    /// three segments, the second of which is `subscriptions`.
    pub fn is_subscription(&self) -> (r: bool)
        ensures
            r == path_is_subscription(self@),
    {
        let chars = chars_of(self.path.as_str());
        let parts = split_chars(&chars, '/');
        if parts.len() != 3 {
            return false;
        }
        let marker = chars_of("subscriptions");
        assert(rows(parts@)[1] == parts@[1]@);
        same_chars(&parts[1], &marker)
    }

    /// The segment that names the subscription of this scope: the third,
    /// where the second is `subscriptions`.
    pub fn subscription_text(&self) -> (r: Option<String>)
        ensures
            r is Some <==> subscription_segment(self@) is Some,
            r matches Some(text) ==> subscription_segment(self@) == Some(text@),
    {
        let chars = chars_of(self.path.as_str());
        let parts = split_chars(&chars, '/');
        if parts.len() < 3 {
            return None;
        }
        let marker = chars_of("subscriptions");
        assert(rows(parts@)[1] == parts@[1]@);
        assert(rows(parts@)[2] == parts@[2]@);
        if !same_chars(&parts[1], &marker) {
            return None;
        }
        Some(string_of(&parts[2]))
    }

    /// The subscription that this scope lies in, if it lies in one.
    pub fn subscription(&self) -> (r: Option<u128>)
        ensures
            r == path_subscription(self@),
    {
        match self.subscription_text() {
            Some(text) => uuid_parse(text.as_str()),
            None => None,
        }
    }

    /// Whether `other` is this scope or lies beneath it: the segments of this
    /// path are the first segments of the other.
    pub fn contains(&self, other: &Scope) -> (r: bool)
        ensures
            r == path_contains(self@, other@),
    {
        let first = split_chars(&chars_of(self.path.as_str()), '/');
        let second = split_chars(&chars_of(other.path.as_str()), '/');
        if first.len() > second.len() {
            return false;
        }
        let ghost a = split(self@, '/');
        let ghost b = split(other@, '/');
        let mut i: usize = 0;
        while i < first.len()
            invariant
                i <= first.len() <= second.len(),
                a == split(self@, '/'),
                b == split(other@, '/'),
                rows(first@) == a,
                rows(second@) == b,
                a.take(i as int) == b.take(i as int),
            decreases first.len() - i,
        {
            assert(a[i as int] == first@[i as int]@);
            assert(b[i as int] == second@[i as int]@);
            if !same_chars(&first[i], &second[i]) {
                assert(b.subrange(0, a.len() as int)[i as int] == b[i as int]);
                assert(!a.is_prefix_of(b));
                return false;
            }
            assert(a.take(i + 1) == a.take(i as int).push(a[i as int]));
            assert(b.take(i + 1) == b.take(i as int).push(b[i as int]));
            i += 1;
        }
        assert(a.take(a.len() as int) == a);
        assert(b.take(a.len() as int) == b.subrange(0, a.len() as int));
        true
    }
}

/// The parts of a scope as the operator gives them: a subscription with
/// or without a resource group, and that with or without a provider, or
/// else a whole scope.
#[derive(Debug, PartialEq, Eq)]
pub struct ScopeBuilder {
    pub subscription: Option<u128>,
    pub resource_group: Option<String>,
    pub provider: Option<String>,
    pub scope: Option<Scope>,
}

impl ScopeBuilder {
    /// Whether the parts go together: a resource group needs a subscription,
    /// a provider needs a resource group, and a whole scope stands alone.
    pub open spec fn consistent(self) -> bool {
        &&& self.resource_group is Some ==> self.subscription is Some
        &&& self.provider is Some ==> self.resource_group is Some
        &&& self.scope is Some ==> self.subscription is None
    }

    /// The path that the parts name, if they name one.
    pub open spec fn path(self) -> Option<Seq<char>> {
        match (self.subscription, self.resource_group, self.provider, self.scope) {
            (Some(id), Some(group), Some(provider), _) => Some(
                "/subscriptions/"@ + hyphenated(id) + "/resourceGroups/"@ + group@ + "/providers/"@
                    + provider@,
            ),
            (Some(id), Some(group), None, _) => Some(
                "/subscriptions/"@ + hyphenated(id) + "/resourceGroups/"@ + group@,
            ),
            (Some(id), None, _, _) => Some("/subscriptions/"@ + hyphenated(id)),
            (None, _, _, Some(scope)) => Some(scope@),
            (None, _, _, None) => None,
        }
    }

    /// The scope that the parts name, if they name one.
    pub fn build(self) -> (r: Option<Scope>)
        requires
            self.consistent(),
        ensures
            r is Some <==> self.path() is Some,
            r matches Some(scope) ==> self.path() == Some(scope@),
    {
        let ScopeBuilder { subscription, resource_group, provider, scope } = self;
        match (subscription, resource_group, provider, scope) {
            (Some(id), Some(group), Some(provider), _) => Some(
                Scope::from_provider(id, group.as_str(), provider.as_str()),
            ),
            (Some(id), Some(group), None, _) => Some(Scope::from_resource_group(id, group.as_str())),
            (Some(id), None, _, _) => Some(Scope::from_subscription(id)),
            (None, _, _, Some(scope)) => Some(scope),
            (None, _, _, None) => None,
        }
    }
}

impl Keyed for Scope {
    open spec fn key_of(v: Seq<char>) -> Seq<u32> {
        text_key(v)
    }

    proof fn lemma_key_tells(a: Seq<char>, b: Seq<char>) {
        String::lemma_key_tells(a, b);
    }

    fn key(&self) -> (r: Vec<u32>) {
        let mut out: Vec<u32> = Vec::new();
        push_text_key(&mut out, self.as_str());
        assert(out@ =~= text_key(self@));
        out
    }

    fn duplicate(&self) -> (r: Self) {
        self.clone()
    }
}

/// Every scope contains itself.
pub proof fn lemma_contains_reflexive(a: Seq<char>)
    ensures
        path_contains(a, a),
{
    let s = split(a, '/');
    assert(s.subrange(0, s.len() as int) == s);
}

} // verus!
