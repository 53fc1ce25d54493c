//! Reading the caller's identity out of a bearer token.

use vstd::prelude::*;
use base64::engine::general_purpose::STANDARD_NO_PAD;
use base64::Engine;
use crate::json::{member, parse_json_bytes, parsed_json, text_of, JsonView};
use crate::text::{chars_of, rows, split, split_chars, string_of};

verus! {

/// What the standard base64 alphabet without padding decodes a text to, as
/// `base64` reads it, or `None` where it rejects the text.
pub uninterp spec fn base64_decoded(text: Seq<char>) -> Option<Seq<u8>>;

/// Decodes base64 text that carries no padding.
///
/// Trusted: the result is what `decode` of `base64`'s `STANDARD_NO_PAD`
/// engine returns, and `None` where it fails.
#[verifier::external_body]
fn decode_no_pad(text: &str) -> (r: Option<Vec<u8>>)
    ensures
        r is Some <==> base64_decoded(text@) is Some,
        r matches Some(bytes) ==> base64_decoded(text@) == Some(bytes@),
{
    STANDARD_NO_PAD.decode(text).ok()
}

/// Why a token does not tell the caller's identity.
#[derive(Debug, Clone, Copy, PartialEq, Eq, Structural)]
pub enum TokenError {
    /// The token has no second part.
    NoMarker,
    /// The second part is not base64.
    Base64,
    /// The second part does not hold JSON.
    Json,
    /// The claims hold no `oid`.
    NoOid,
    /// The claim `oid` is not a text.
    NotText,
}

impl TokenError {
    /// The message shown to the operator.
    pub fn message(&self) -> (r: &'static str)
        ensures
            r@ == (match *self {
                TokenError::NoMarker => "unable to find token marker"@,
                TokenError::Base64 => "base64 decoding failed"@,
                TokenError::Json => "json parsing failed"@,
                TokenError::NoOid => "no oid in token"@,
                TokenError::NotText => "oid is not a string"@,
            }),
    {
        match self {
            TokenError::NoMarker => "unable to find token marker",
            TokenError::Base64 => "base64 decoding failed",
            TokenError::Json => "json parsing failed",
            TokenError::NoOid => "no oid in token",
            TokenError::NotText => "oid is not a string",
        }
    }
}

/// The identity that a set of claims names: the text of its member `oid`.
pub open spec fn claimed_oid(claims: JsonView) -> Result<Seq<char>, TokenError> {
    match member(claims, "oid"@) {
        None => Err(TokenError::NoOid),
        Some(oid) => match text_of(oid) {
            Some(s) => Ok(s),
            None => Err(TokenError::NotText),
        },
    }
}

/// The part of a token that holds the claims: the second of the parts
/// between its dots.
pub open spec fn claims_of(token: Seq<char>) -> Option<Seq<char>> {
    let parts = split(token, '.');
    if parts.len() < 2 {
        None
    } else {
        Some(parts[1])
    }
}

/// The identity that a token names. The part that holds the claims is
/// base64 without padding, and the claims are JSON.
pub open spec fn token_oid(token: Seq<char>) -> Result<Seq<char>, TokenError> {
    match claims_of(token) {
        None => Err(TokenError::NoMarker),
        Some(part) => match base64_decoded(part) {
            None => Err(TokenError::Base64),
            Some(bytes) => match parsed_json(bytes) {
                None => Err(TokenError::Json),
                Some(claims) => claimed_oid(claims),
            },
        },
    }
}

/// The part of a token that holds the claims.
pub fn claims_part(token: &str) -> (r: Option<String>)
    ensures
        r is Some <==> claims_of(token@) is Some,
        r matches Some(part) ==> claims_of(token@) == Some(part@),
{
    let parts = split_chars(&chars_of(token), '.');
    if parts.len() < 2 {
        return None;
    }
    assert(rows(parts@)[1] == parts@[1]@);
    Some(string_of(&parts[1]))
}

/// Reads the identity out of the claims of a token.
pub fn oid_of_claims(claims: &crate::json::Json) -> (r: Result<String, TokenError>)
    ensures
        r is Ok <==> claimed_oid(claims@) is Ok,
        r matches Ok(oid) ==> claimed_oid(claims@) == Ok::<Seq<char>, TokenError>(oid@),
        r matches Err(e) ==> claimed_oid(claims@) == Err::<Seq<char>, TokenError>(e),
{
    match claims.get("oid") {
        None => Err(TokenError::NoOid),
        Some(oid) => match oid.as_str() {
            Some(s) => Ok(s.to_string()),
            None => Err(TokenError::NotText),
        },
    }
}

/// Reads the caller's identity out of a bearer token.
pub fn extract_oid(token: &str) -> (r: Result<String, TokenError>)
    ensures
        r is Ok <==> token_oid(token@) is Ok,
        r matches Ok(oid) ==> token_oid(token@) == Ok::<Seq<char>, TokenError>(oid@),
        r matches Err(e) ==> token_oid(token@) == Err::<Seq<char>, TokenError>(e),
{
    let part = match claims_part(token) {
        Some(part) => part,
        None => {
            return Err(TokenError::NoMarker);
        },
    };
    let bytes = match decode_no_pad(part.as_str()) {
        Some(bytes) => bytes,
        None => {
            return Err(TokenError::Base64);
        },
    };
    let claims = match parse_json_bytes(bytes.as_slice()) {
        Some(claims) => claims,
        None => {
            return Err(TokenError::Json);
        },
    };
    oid_of_claims(&claims)
}

} // verus!
