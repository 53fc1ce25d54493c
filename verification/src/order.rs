//! Sort keys and the order they give.
//!
//! A value that lives in an ordered set has a sort key, a sequence of
//! numbers. Values are ordered as their keys are: position by position, the
//! shorter first where one key begins the other.

use vstd::prelude::*;

verus! {

/// Whether `a` and `b` agree on their first `k` positions.
pub open spec fn agree(a: Seq<u32>, b: Seq<u32>, k: int) -> bool {
    &&& 0 <= k <= a.len()
    &&& k <= b.len()
    &&& forall|j: int| 0 <= j < k ==> a[j] == b[j]
}

/// Whether `a` comes before `b` and position `k` is where that shows: up to
/// `k` they agree, and there `a` ends or holds the smaller number.
pub open spec fn lt_at(a: Seq<u32>, b: Seq<u32>, k: int) -> bool {
    &&& agree(a, b, k)
    &&& k < b.len()
    &&& (k == a.len() || a[k] < b[k])
}

/// Whether key `a` comes strictly before key `b`.
pub open spec fn key_lt(a: Seq<u32>, b: Seq<u32>) -> bool {
    exists|k: int| lt_at(a, b, k)
}

/// No key comes before itself.
pub proof fn lemma_lt_irreflexive(a: Seq<u32>)
    ensures
        !key_lt(a, a),
{
}

/// A key that comes before a second one comes before all that the second
/// comes before.
pub proof fn lemma_lt_transitive(a: Seq<u32>, b: Seq<u32>, c: Seq<u32>)
    requires
        key_lt(a, b),
        key_lt(b, c),
    ensures
        key_lt(a, c),
{
    let k1 = choose|k: int| lt_at(a, b, k);
    let k2 = choose|k: int| lt_at(b, c, k);
    let k = if k1 <= k2 {
        k1
    } else {
        k2
    };
    assert(lt_at(a, c, k));
}

/// Of two keys that come before each other neither does.
pub proof fn lemma_lt_asymmetric(a: Seq<u32>, b: Seq<u32>)
    requires
        key_lt(a, b),
    ensures
        !key_lt(b, a),
{
    if key_lt(b, a) {
        lemma_lt_transitive(a, b, a);
    }
}

proof fn lemma_total_from(a: Seq<u32>, b: Seq<u32>, k: int)
    requires
        agree(a, b, k),
    ensures
        a == b || key_lt(a, b) || key_lt(b, a),
    decreases a.len() - k,
{
    if k == a.len() {
        if k == b.len() {
            assert(a =~= b);
        } else {
            assert(lt_at(a, b, k));
        }
    } else if k == b.len() {
        assert(agree(b, a, k));
        assert(lt_at(b, a, k));
    } else if a[k] < b[k] {
        assert(lt_at(a, b, k));
    } else if b[k] < a[k] {
        assert(agree(b, a, k));
        assert(lt_at(b, a, k));
    } else {
        lemma_total_from(a, b, k + 1);
    }
}

/// Two different keys are ordered one way or the other.
pub proof fn lemma_lt_total(a: Seq<u32>, b: Seq<u32>)
    ensures
        a == b || key_lt(a, b) || key_lt(b, a),
{
    lemma_total_from(a, b, 0);
}

/// How two keys stand to each other.
#[derive(Debug, Clone, Copy, PartialEq, Eq)]
pub enum Rank {
    /// The first comes before the second.
    Before,
    /// The two are the same key.
    Same,
    /// The first comes after the second.
    After,
}

/// Compares two keys.
pub fn rank_keys(a: &Vec<u32>, b: &Vec<u32>) -> (r: Rank)
    ensures
        r == Rank::Before <==> key_lt(a@, b@),
        r == Rank::Same <==> a@ == b@,
        r == Rank::After <==> key_lt(b@, a@),
{
    let mut i: usize = 0;
    while i < a.len() && i < b.len()
        invariant
            agree(a@, b@, i as int),
        decreases a.len() - i,
    {
        if a[i] < b[i] {
            proof {
                assert(lt_at(a@, b@, i as int));
                lemma_lt_asymmetric(a@, b@);
            }
            return Rank::Before;
        }
        if a[i] > b[i] {
            proof {
                assert(agree(b@, a@, i as int));
                assert(lt_at(b@, a@, i as int));
                lemma_lt_asymmetric(b@, a@);
            }
            return Rank::After;
        }
        i += 1;
    }
    if i < b.len() {
        proof {
            assert(lt_at(a@, b@, i as int));
            lemma_lt_asymmetric(a@, b@);
        }
        Rank::Before
    } else if i < a.len() {
        proof {
            assert(agree(b@, a@, i as int));
            assert(lt_at(b@, a@, i as int));
            lemma_lt_asymmetric(b@, a@);
        }
        Rank::After
    } else {
        proof {
            assert(a@ =~= b@);
            lemma_lt_irreflexive(a@);
        }
        Rank::Same
    }
}

/// The number that stands for a character in a key: its code point plus one.
pub open spec fn char_key(c: char) -> u32 {
    (c as u32 + 1) as u32
}

/// Character keys are positive and tell the character.
pub proof fn lemma_char_key(c: char, d: char)
    ensures
        char_key(c) == c as u32 + 1,
        char_key(c) == char_key(d) ==> c == d,
{
    vstd::utf8::char_is_scalar(c);
    vstd::utf8::char_is_scalar(d);
    vstd::utf8::char_u32_cast(c, c as u32);
    vstd::utf8::char_u32_cast(d, d as u32);
}

/// The key of a text: the keys of its characters, then a closing 0, so that
/// a text comes before every text that it begins.
pub open spec fn text_key(s: Seq<char>) -> Seq<u32> {
    Seq::new(s.len(), |i: int| char_key(s[i])).push(0u32)
}

/// The key of an optional text: a missing text comes before every present one.
pub open spec fn opt_text_key(o: Option<Seq<char>>) -> Seq<u32> {
    match o {
        None => seq![0u32],
        Some(s) => seq![1u32] + text_key(s),
    }
}

/// A text key followed by anything tells the text and what follows it.
pub proof fn lemma_text_key_splits(s1: Seq<char>, r1: Seq<u32>, s2: Seq<char>, r2: Seq<u32>)
    requires
        text_key(s1) + r1 == text_key(s2) + r2,
    ensures
        s1 == s2,
        r1 == r2,
{
    let x = text_key(s1) + r1;
    let y = text_key(s2) + r2;
    assert forall|j: int| 0 <= j < s1.len() && j < s2.len() implies s1[j] == s2[j] by {
        assert(x[j] == char_key(s1[j]));
        assert(y[j] == char_key(s2[j]));
        lemma_char_key(s1[j], s2[j]);
    }
    if s1.len() < s2.len() {
        let c = s2[s1.len() as int];
        assert(x[s1.len() as int] == 0u32);
        assert(y[s1.len() as int] == char_key(c));
        lemma_char_key(c, c);
        assert(false);
    }
    if s2.len() < s1.len() {
        let c = s1[s2.len() as int];
        assert(y[s2.len() as int] == 0u32);
        assert(x[s2.len() as int] == char_key(c));
        lemma_char_key(c, c);
        assert(false);
    }
    assert(s1 =~= s2);
    assert(r1 =~= r2) by {
        assert(text_key(s1).len() == s1.len() + 1);
        assert(text_key(s2).len() == s2.len() + 1);
        assert(x.len() == s1.len() + 1 + r1.len());
        assert(y.len() == s2.len() + 1 + r2.len());
        assert(r1.len() == r2.len());
        assert forall|j: int| 0 <= j < r1.len() implies r1[j] == r2[j] by {
            assert(x[s1.len() + 1 + j] == r1[j]);
            assert(y[s2.len() + 1 + j] == r2[j]);
        }
    }
}

/// An optional-text key followed by anything tells the text and what follows it.
pub proof fn lemma_opt_text_key_splits(
    o1: Option<Seq<char>>,
    r1: Seq<u32>,
    o2: Option<Seq<char>>,
    r2: Seq<u32>,
)
    requires
        opt_text_key(o1) + r1 == opt_text_key(o2) + r2,
    ensures
        o1 == o2,
        r1 == r2,
{
    let x = opt_text_key(o1) + r1;
    let y = opt_text_key(o2) + r2;
    assert(x[0] == y[0]);
    assert(x[0] == opt_text_key(o1)[0]);
    assert(y[0] == opt_text_key(o2)[0]);
    match (o1, o2) {
        (None, None) => {
            assert(r1 =~= x.skip(1));
            assert(r2 =~= y.skip(1));
        },
        (Some(s1), Some(s2)) => {
            assert(x.skip(1) =~= text_key(s1) + r1);
            assert(y.skip(1) =~= text_key(s2) + r2);
            lemma_text_key_splits(s1, r1, s2, r2);
        },
        _ => {
            assert(false);
        },
    }
}

/// Joining keys does not depend on how the joins are grouped.
pub proof fn lemma_join_assoc(a: Seq<u32>, b: Seq<u32>, c: Seq<u32>)
    ensures
        (a + b) + c == a + (b + c),
{
    assert((a + b) + c =~= a + (b + c));
}

/// Appends the key of `s` to `out`.
pub fn push_text_key(out: &mut Vec<u32>, s: &str)
    ensures
        final(out)@ == old(out)@ + text_key(s@),
{
    let ghost before = out@;
    for c in it: s.chars()
        invariant
            it.seq() == s@,
            out@ == before + Seq::new(it.index() as nat, |i: int| char_key(s@[i])),
    {
        let code: u32 = c as u32;
        proof {
            lemma_char_key(c, c);
        }
        out.push(code + 1);
    }
    out.push(0);
}

/// Appends the key of an optional text to `out`.
pub fn push_opt_text_key(out: &mut Vec<u32>, o: &Option<String>)
    ensures
        final(out)@ == old(out)@ + opt_text_key(
            match *o {
                Some(s) => Some(s@),
                None => None,
            },
        ),
{
    match o {
        None => {
            out.push(0);
        },
        Some(s) => {
            out.push(1);
            push_text_key(out, s.as_str());
        },
    }
}

} // verus!
