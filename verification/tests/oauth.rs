use bazmail_core::oauth::{
    authorize_url, callback_can_read, callback_outcome, callback_response, exchange_form,
    metadata_url, pkce, refresh_form, urldecode, urldecode_can_read, urlencode, Endpoints,
    OauthError, CALLBACK_OK,
};
use base64::Engine;
use sha2::{Digest, Sha256};

#[test]
fn pkce_challenge_is_the_sha256_of_the_verifier() {
    let p = pkce().unwrap();
    let expected = base64::engine::general_purpose::URL_SAFE_NO_PAD
        .encode(Sha256::digest(p.verifier.as_bytes()));
    assert_eq!(p.challenge, expected);
    assert!(p.verifier.len() >= 43 && p.verifier.len() <= 128);
}

#[test]
fn each_pkce_pair_is_unique() {
    assert_ne!(pkce().unwrap().verifier, pkce().unwrap().verifier);
}

#[test]
fn authorize_url_escapes_its_parameters() {
    let endpoints = Endpoints {
        registration_endpoint: "https://x/reg".into(),
        authorization_endpoint: "https://x/auth".into(),
        token_endpoint: "https://x/token".into(),
        revocation_endpoint: None,
    };
    let url = authorize_url(&endpoints, "abc", "http://localhost:41789/callback", "st", "ch");
    assert!(url.contains("redirect_uri=http%3A%2F%2Flocalhost%3A41789%2Fcallback"));
    assert!(url.contains("code_challenge_method=S256"));
    assert!(url.contains("resource=https%3A%2F%2Fapi.fastmail.com%2Fjmap%2Fsession"));
    assert!(url.contains("scope=urn%3Aietf%3Aparams%3Aoauth%3Ascope%3Amail%20offline_access"));
}

#[test]
fn urldecode_round_trips_what_urlencode_produces() {
    let raw = "a code/with+odd chars?&=";
    assert_eq!(urldecode(&urlencode(raw)), raw);
}

#[test]
fn encoding_is_uppercase_and_per_byte() {
    assert_eq!(urlencode("a b/\u{e9}~"), "a%20b%2F%C3%A9~");
    assert_eq!(urldecode("a+b%41%4a%zz%"), "a bAJ%zz%");
    assert_eq!(urldecode("%+5"), "\u{5}");
    assert!(urldecode_can_read("%41"));
    assert!(!urldecode_can_read("%a\u{e9}x"));
}

#[test]
fn the_redirect_code_is_taken_only_with_our_state() {
    let ok = b"GET /callback?code=abc%2F1&state=xyz HTTP/1.1\r\nHost: localhost\r\n\r\n";
    assert!(callback_can_read(ok));
    assert_eq!(callback_outcome(ok, "xyz"), Some(Ok("abc/1".to_string())));
    assert_eq!(callback_outcome(ok, "other"), Some(Err(OauthError::StateMismatch)));
    let refused = b"GET /callback?error=access_denied&error_description=no+thanks&state=xyz HTTP/1.1\r\n";
    assert_eq!(
        callback_outcome(refused, "xyz"),
        Some(Err(OauthError::Refused {
            error: "access_denied".into(),
            description: Some("no thanks".into())
        }))
    );
    let no_code = b"GET /callback?state=xyz HTTP/1.1\r\n";
    assert_eq!(callback_outcome(no_code, "xyz"), Some(Err(OauthError::NoCode)));
    assert_eq!(callback_outcome(b"", "xyz"), None);
}

#[test]
fn the_browser_is_told_how_long_the_page_is() {
    let r = callback_response(true);
    assert!(r.starts_with("HTTP/1.1 200 OK\r\n"));
    assert!(r.contains(&format!("Content-Length: {}\r\n", CALLBACK_OK.len())));
    assert!(r.ends_with(CALLBACK_OK));
    assert!(callback_response(false).contains("Sign-in failed."));
}

#[test]
fn forms_and_metadata() {
    assert_eq!(
        metadata_url("https://api.fastmail.com//"),
        "https://api.fastmail.com/.well-known/oauth-authorization-server"
    );
    let f = exchange_form("c", "r", "id", "v");
    assert_eq!(f[0], ("grant_type".to_string(), "authorization_code".to_string()));
    assert_eq!(f[4], ("code_verifier".to_string(), "v".to_string()));
    assert_eq!(f.len(), 6);
    let r = refresh_form("t", "id");
    assert_eq!(r[1], ("refresh_token".to_string(), "t".to_string()));
    assert_eq!(r.len(), 4);
}
