use zenith::auth::{
    authorize, boot_errors, hash_password, judge_claims, login, mint_token, mint_ws_ticket,
    query_ticket, request_credential, validate_token, verify_credentials, ws_ticket, Claim,
    Credential, Grant, DEFAULT_SECRET, TOKEN_TTL_SECS,
};
use zenith::config::AuthSection;

const SECRET: &str = "unit-test-secret-of-decent-length";

fn now() -> i64 {
    chrono::Utc::now().timestamp()
}

/// A hashed password verifies against itself and rejects a wrong password and a
/// wrong username.
#[test]
fn credentials_round_trip() {
    let hash = hash_password("hunter2!").unwrap();
    assert!(verify_credentials("ops", "hunter2!", "ops", &hash));
    assert!(!verify_credentials("ops", "wrong", "ops", &hash));
    assert!(!verify_credentials("admin", "hunter2!", "ops", &hash));
    assert!(!verify_credentials(
        "ops",
        "hunter2!",
        "ops",
        "not-a-phc-string"
    ));
}

/// A minted token validates from the header path and returns its subject; the
/// wrong secret rejects it.
#[test]
fn token_mint_and_validate() {
    let token = mint_token("ops", SECRET, now()).unwrap();
    assert_eq!(validate_token(&token, SECRET, false).unwrap(), "ops");
    assert!(validate_token(&token, "other-secret-that-is-long", false).is_err());
}

/// An expired token is rejected.
#[test]
fn expired_token_rejected() {
    let token = mint_token("ops", SECRET, now() - 2 * TOKEN_TTL_SECS).unwrap();
    assert!(validate_token(&token, SECRET, false).is_err());
}

/// Query-string credentials must be ws tickets: a full bearer token is rejected
/// from the query path but accepted from the header path, and a ws ticket passes
/// the query path.
#[test]
fn query_path_requires_ws_ticket() {
    let bearer = mint_token("ops", SECRET, now()).unwrap();
    assert!(validate_token(&bearer, SECRET, true).is_err());
    assert!(validate_token(&bearer, SECRET, false).is_ok());

    let ticket = mint_ws_ticket("ops", SECRET, now()).unwrap();
    assert_eq!(validate_token(&ticket, SECRET, true).unwrap(), "ops");
}

/// Tokens without required claims are rejected (a token signed correctly but
/// missing sub).
#[test]
fn missing_sub_rejected() {
    let mut claims = serde_json::Map::new();
    claims.insert("exp".to_string(), serde_json::Value::from(now() + 1000));
    let token = jsonwebtoken::encode(
        &jsonwebtoken::Header::default(),
        &claims,
        &jsonwebtoken::EncodingKey::from_secret(SECRET.as_bytes()),
    )
    .unwrap();
    assert!(validate_token(&token, SECRET, false).is_err());
}

/// A token that never expires is refused, though its signature and subject are good.
#[test]
fn missing_expiry_rejected() {
    let mut claims = serde_json::Map::new();
    claims.insert("sub".to_string(), serde_json::Value::from("ops"));
    let token = jsonwebtoken::encode(
        &jsonwebtoken::Header::default(),
        &claims,
        &jsonwebtoken::EncodingKey::from_secret(SECRET.as_bytes()),
    )
    .unwrap();
    let refused = validate_token(&token, SECRET, false).unwrap_err();
    assert_eq!(refused, "invalid token: Missing required claim: exp");
}

/// Nothing but its age is wrong with a minted token, in a header or, for a ticket, on
/// a query string.
#[test]
fn minted_tokens_fail_only_by_age() {
    let old = now() - 2 * TOKEN_TTL_SECS;
    let bearer = mint_token("ops", SECRET, old).unwrap();
    let ticket = mint_ws_ticket("ops", SECRET, old).unwrap();
    let expired = Err("invalid token: ExpiredSignature".to_string());
    assert_eq!(validate_token(&bearer, SECRET, false), expired);
    assert_eq!(validate_token(&ticket, SECRET, false), expired);
    assert_eq!(validate_token(&ticket, SECRET, true), expired);
    let fresh = mint_ws_ticket("ops", SECRET, now()).unwrap();
    assert_eq!(validate_token(&fresh, SECRET, false), Ok("ops".to_string()));
}

/// Boot validation: disabled auth is always fine; enabled auth rejects the default
/// secret, a short secret, an empty hash, and a malformed hash, and passes a
/// proper configuration.
#[test]
fn boot_validation_covers_each_misconfiguration() {
    let good_hash = hash_password("pw").unwrap();

    let mut auth = AuthSection {
        enabled: false,
        secret: DEFAULT_SECRET.to_string(),
        username: "admin".into(),
        password_hash: String::new(),
    };
    assert!(
        boot_errors(&auth).is_empty(),
        "disabled auth is never fatal"
    );

    auth.enabled = true;
    assert_eq!(boot_errors(&auth).len(), 2, "default secret + empty hash");

    auth.secret = "long-enough-secret-value".into();
    auth.password_hash = "garbage".into();
    assert_eq!(boot_errors(&auth).len(), 1, "malformed hash");

    auth.password_hash = good_hash;
    assert!(boot_errors(&auth).is_empty(), "proper config passes");
}

/// A secret of fifteen characters is too short, one of sixteen is not.
#[test]
fn secrets_have_a_least_length() {
    let mut auth = AuthSection {
        enabled: true,
        secret: "123456789012345".into(),
        username: "admin".into(),
        password_hash: hash_password("pw").unwrap(),
    };
    assert_eq!(boot_errors(&auth).len(), 1);
    auth.secret.push('6');
    assert!(boot_errors(&auth).is_empty());
}

/// Two hashes of one password differ, and both accept it.
#[test]
fn hashes_are_salted() {
    let a = hash_password("pw").unwrap();
    let b = hash_password("pw").unwrap();
    assert_ne!(a, b);
    assert!(a.starts_with("$argon2"));
    assert!(verify_credentials("u", "pw", "u", &a));
    assert!(verify_credentials("u", "pw", "u", &b));
}

/// The expiry of a login token is a day away, and the token is not its claims.
#[test]
fn tokens_are_signed_and_dated() {
    let at = now();
    let token = mint_token("ops", SECRET, at).unwrap();
    assert_eq!(token.split('.').count(), 3);
    let data = jsonwebtoken::decode::<serde_json::Value>(
        &token,
        &jsonwebtoken::DecodingKey::from_secret(SECRET.as_bytes()),
        &jsonwebtoken::Validation::default(),
    )
    .unwrap();
    assert_eq!(data.claims["exp"], serde_json::Value::from(at + 86_400));
    assert_eq!(data.claims["sub"], serde_json::Value::from("ops"));
    assert!(data.claims.get("ws").is_none());
}

/// What each set of claims is judged to be.
#[test]
fn claims_are_judged() {
    let bearer = vec![
        ("sub".to_string(), Claim::Text("ops".to_string())),
        ("exp".to_string(), Claim::Number(Some(1))),
    ];
    assert_eq!(judge_claims(&bearer, false).unwrap(), "ops");
    assert!(judge_claims(&bearer, true).is_err());
    let ticket = vec![
        ("sub".to_string(), Claim::Text("ops".to_string())),
        ("ws".to_string(), Claim::Flag(true)),
    ];
    assert_eq!(judge_claims(&ticket, true).unwrap(), "ops");
    let unflagged = vec![
        ("sub".to_string(), Claim::Text("ops".to_string())),
        ("ws".to_string(), Claim::Flag(false)),
    ];
    assert!(judge_claims(&unflagged, true).is_err());
    assert!(judge_claims(&vec![("ws".to_string(), Claim::Flag(true))], true).is_err());
}

/// The ticket of a query string: the first one, whatever else is there.
#[test]
fn tickets_are_found_in_queries() {
    assert_eq!(query_ticket("ticket=abc"), Some("abc".to_string()));
    assert_eq!(query_ticket("a=1&ticket=x=y&ticket=z"), Some("x=y".to_string()));
    assert_eq!(query_ticket("tickets=abc"), None);
    assert_eq!(query_ticket("ticket"), None);
    assert_eq!(query_ticket(""), None);
}

/// What a request may be let in by.
#[test]
fn credentials_are_found() {
    assert!(matches!(
        request_credential("/auth/login", true, None, None),
        Credential::Open
    ));
    assert!(matches!(
        request_credential("/health", true, None, None),
        Credential::Open
    ));
    assert!(matches!(
        request_credential("/targets", false, None, None),
        Credential::Open
    ));
    assert!(matches!(
        request_credential("/targets", true, None, None),
        Credential::Missing
    ));
    assert!(matches!(
        request_credential("/targets", true, Some("Basic abc"), Some("a=b")),
        Credential::Missing
    ));
    match request_credential("/targets", true, Some("Bearer tok"), Some("ticket=t")) {
        Credential::Token { token, from_query } => {
            assert_eq!(token, "tok");
            assert!(!from_query);
        }
        _ => panic!("a bearer header is a credential"),
    }
    match request_credential("/targets", true, None, Some("ticket=t")) {
        Credential::Token { token, from_query } => {
            assert_eq!(token, "t");
            assert!(from_query);
        }
        _ => panic!("a ticket is a credential"),
    }
}

/// Requests run as the token's subject, or as the anonymous operator.
#[test]
fn requests_run_as_someone() {
    assert_eq!(authorize(&Credential::Open, SECRET).unwrap(), "operator");
    assert_eq!(authorize(&Credential::Missing, SECRET).unwrap_err(), "missing token");
    let token = mint_token("ops", SECRET, now()).unwrap();
    let credential = Credential::Token {
        token,
        from_query: false,
    };
    assert_eq!(authorize(&credential, SECRET).unwrap(), "ops");
    assert!(authorize(&credential, "another-secret-of-length").is_err());
}

fn section(enabled: bool) -> AuthSection {
    AuthSection {
        enabled,
        secret: SECRET.to_string(),
        username: "ops".into(),
        password_hash: hash_password("pw").unwrap(),
    }
}

/// A login trades the configured credentials for a token, and nothing else.
#[test]
fn logins_are_decided() {
    assert!(matches!(login(&section(false), "x", "y", now()), Grant::Disabled));
    let auth = section(true);
    assert!(matches!(login(&auth, "ops", "nope", now()), Grant::Refused));
    assert!(matches!(login(&auth, "root", "pw", now()), Grant::Refused));
    match login(&auth, "ops", "pw", now()) {
        Grant::Granted(token) => {
            assert_eq!(validate_token(&token, SECRET, false).unwrap(), "ops");
        }
        _ => panic!("the configured credentials are granted a token"),
    }
}

/// A ticket is good on a query string.
#[test]
fn tickets_are_handed_out() {
    assert!(matches!(ws_ticket(&section(false), "ops", now()), Grant::Disabled));
    match ws_ticket(&section(true), "ops", now()) {
        Grant::Granted(ticket) => {
            assert_eq!(validate_token(&ticket, SECRET, true).unwrap(), "ops");
        }
        _ => panic!("a known caller is granted a ticket"),
    }
}
