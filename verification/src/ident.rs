//! Subscription identifiers: 128-bit values and their textual form.

use vstd::prelude::*;

verus! {

/// What `uuid::Uuid::parse_str` makes of a text: the 128-bit value it reads,
/// or `None` where it rejects the text.
pub uninterp spec fn parsed_uuid(text: Seq<char>) -> Option<u128>;

/// 16 to the power `e`.
pub open spec fn pow16(e: nat) -> int
    decreases e,
{
    if e == 0 {
        1
    } else {
        16 * pow16((e - 1) as nat)
    }
}

/// The lower-case hexadecimal digit for `n`, for `0 <= n < 16`.
pub open spec fn hex_char(n: int) -> char {
    if n < 10 {
        ('0' as int + n) as char
    } else {
        ('a' as int + n - 10) as char
    }
}

/// The `k`-th of the 32 hexadecimal digits of `id`, the most significant first.
pub open spec fn hex_digit(id: u128, k: int) -> int {
    (id as int / pow16((31 - k) as nat)) % 16
}

/// How many hyphens stand before position `i` of a hyphenated identifier.
pub open spec fn hyphens_before(i: int) -> int {
    (if i > 8 { 1int } else { 0 }) + (if i > 13 { 1int } else { 0 }) + (if i > 18 { 1int } else { 0 })
        + (if i > 23 { 1int } else { 0 })
}

/// The canonical text of an identifier: 32 lower-case hexadecimal digits in
/// groups of 8, 4, 4, 4 and 12, with a hyphen between groups.
pub open spec fn hyphenated(id: u128) -> Seq<char> {
    Seq::new(
        36,
        |i: int|
            if i == 8 || i == 13 || i == 18 || i == 23 {
                '-'
            } else {
                hex_char(hex_digit(id, i - hyphens_before(i)))
            },
    )
}

/// The canonical text of an identifier holds digits, the letters `a` to `f`
/// and hyphens, and so no slash.
pub proof fn lemma_hyphenated_chars(id: u128, i: int)
    requires
        0 <= i < 36,
    ensures
        hyphenated(id).len() == 36,
        hyphenated(id)[i] != '/',
        hyphenated(id)[i] != 'r',
{
    let c = hyphenated(id)[i];
    if !(i == 8 || i == 13 || i == 18 || i == 23) {
        let d = hex_digit(id, i - hyphens_before(i));
        assert(0 <= d < 16);
        assert(c == hex_char(d));
    }
}

/// The canonical text of an identifier.
///
/// Trusted: `uuid::Uuid::from_u128` takes the value big-endian, and the
/// `Display` of `uuid::Uuid` writes it hyphenated in lower case; `parse_str`
/// reads every text that `Display` writes back to the same value.
#[verifier::external_body]
pub(crate) fn uuid_text(id: u128) -> (r: String)
    ensures
        r@ == hyphenated(id),
        parsed_uuid(r@) == Some(id),
{
    uuid::Uuid::from_u128(id).to_string()
}

/// Reads an identifier from its text.
///
/// Trusted: the result is what `uuid::Uuid::parse_str` reads, as a 128-bit
/// value (`as_u128`), and `None` where it fails.
#[verifier::external_body]
pub(crate) fn uuid_parse(text: &str) -> (r: Option<u128>)
    ensures
        r == parsed_uuid(text@),
{
    match uuid::Uuid::parse_str(text) {
        Ok(id) => Some(id.as_u128()),
        Err(_) => None,
    }
}

} // verus!
