use azure_pim_cli::json::parse_json;
use azure_pim_cli::token::{claims_part, extract_oid, oid_of_claims, TokenError};
use base64::engine::general_purpose::STANDARD_NO_PAD;
use base64::Engine;

fn token(claims: &str) -> String {
    format!("header.{}.signature", STANDARD_NO_PAD.encode(claims))
}

#[test]
fn the_oid_is_read_from_the_second_part() {
    assert_eq!(
        extract_oid(&token(r#"{"oid": "11111111-2222-3333-4444-555555555555", "sub": "x"}"#)),
        Ok("11111111-2222-3333-4444-555555555555".to_string())
    );
    // the text is decoded, not handed back: "eyJvaWQiOiJhIn0" is {"oid":"a"}
    assert_eq!(extract_oid("x.eyJvaWQiOiJhIn0"), Ok("a".to_string()));
    assert_eq!(extract_oid("x.eyJvaWQiOiJhIn0.y.z"), Ok("a".to_string()));
}

#[test]
fn a_token_without_oid_is_refused() {
    assert_eq!(extract_oid("no-dots"), Err(TokenError::NoMarker));
    assert_eq!(extract_oid(""), Err(TokenError::NoMarker));
    assert_eq!(extract_oid("a.!!!.c"), Err(TokenError::Base64));
    // padding is not accepted
    assert_eq!(extract_oid("a.eyJvaWQiOiJhIn0=.c"), Err(TokenError::Base64));
    assert_eq!(extract_oid(&token("not json")), Err(TokenError::Json));
    assert_eq!(extract_oid("a..c"), Err(TokenError::Json));
    assert_eq!(extract_oid(&token(r#"{"sub": "x"}"#)), Err(TokenError::NoOid));
    assert_eq!(extract_oid(&token(r#"[1]"#)), Err(TokenError::NoOid));
    assert_eq!(extract_oid(&token(r#"{"oid": 5}"#)), Err(TokenError::NotText));
    assert_eq!(oid_of_claims(&parse_json(r#"{"oid": null}"#).unwrap()), Err(TokenError::NotText));
}

#[test]
fn token_errors_have_messages() {
    assert_eq!(TokenError::NoMarker.message(), "unable to find token marker");
    assert_eq!(TokenError::Base64.message(), "base64 decoding failed");
    assert_eq!(TokenError::Json.message(), "json parsing failed");
    assert_eq!(TokenError::NoOid.message(), "no oid in token");
    assert_eq!(TokenError::NotText.message(), "oid is not a string");
}

#[test]
fn the_claims_are_the_second_part() {
    assert_eq!(claims_part("a.b.c"), Some("b".to_string()));
    assert_eq!(claims_part("a."), Some(String::new()));
    assert_eq!(claims_part(".b"), Some("b".to_string()));
    assert_eq!(claims_part("ab"), None);
    assert_eq!(oid_of_claims(&parse_json(r#"{"oid": "me"}"#).unwrap()), Ok("me".to_string()));
}
