//! Authentication primitives: credential verification, token mint/validate,
//! request authentication, and boot-time config validation.

use vstd::prelude::*;

use argon2::password_hash::rand_core::OsRng;
use argon2::password_hash::SaltString;
use argon2::{PasswordHasher, PasswordVerifier};

use crate::config::AuthSection;
use crate::text::{
    before, chars_of, has_prefix, same_text, starts_with_text, text_before, text_of, texts,
};
use crate::text_map::{entries_of, first_is_position, has_key, keys_distinct, lookup, position};

verus! {

/// Token time-to-live for interactive logins.
pub const TOKEN_TTL_SECS: i64 = 86_400;

/// Ticket time-to-live for WebSocket upgrades: long enough to open a socket,
/// short enough that a logged query string is stale before anyone reads the
/// log.
pub const WS_TICKET_TTL_SECS: i64 = 30;

/// The shipped placeholder signing secret; booting with it while auth is
/// enabled is a fatal misconfiguration.
pub const DEFAULT_SECRET: &'static str = "change-me-in-production";

// ----------------------------------------------------------------- passwords

/// Whether a text is a password hash in PHC string format.
pub uninterp spec fn phc_valid(s: Seq<char>) -> bool;

/// Whether a password is the one that a PHC string was made from.
pub uninterp spec fn phc_accepts(password: Seq<char>, hash: Seq<char>) -> bool;

/// `argon2::PasswordHash::new`: parses a PHC string. Whether it succeeds is a
/// function of the text.
#[verifier::external_body]
fn is_phc_string(s: &str) -> (r: bool)
    ensures
        r == phc_valid(s@),
{
    argon2::PasswordHash::new(s).is_ok()
}

/// `argon2::Argon2::verify_password` with the default parameters, on a parsed
/// PHC string: recomputes the hash with the string's own salt and parameters
/// and compares. A function of the password and the string; no password is
/// accepted against text that is no PHC string.
#[verifier::external_body]
fn check_password(password: &str, hash: &str) -> (r: bool)
    ensures
        r == phc_accepts(password@, hash@),
        r ==> phc_valid(hash@),
{
    argon2::PasswordHash::new(hash)
        .map(|parsed| argon2::Argon2::default().verify_password(password.as_bytes(), &parsed))
        .is_ok_and(|verdict| verdict.is_ok())
}

/// The longest password that argon2 hashes, in bytes (`argon2::MAX_PWD_LEN`).
pub const MAX_PASSWORD_BYTES: u64 = 0xFFFF_FFFF;

/// Whether a password is short enough to be hashed.
pub open spec fn is_hashable(password: Seq<char>) -> bool {
    vstd::utf8::encode_utf8(password).len() <= MAX_PASSWORD_BYTES
}

/// `argon2::Argon2::hash_password` with the default parameters and a fresh
/// random salt. Which hash it returns depends on the salt. Whatever the salt, it
/// fails exactly on a password beyond the length limit, with one message, and a
/// hash it returns is a PHC string that accepts the password.
#[verifier::external_body]
fn make_password_hash(password: &str) -> (r: Result<String, String>)
    ensures
        match r {
            Ok(hash) => is_hashable(password@) && phc_valid(hash@) && phc_accepts(
                password@,
                hash@,
            ),
            Err(e) => !is_hashable(password@) && e@ == "invalid password"@,
        },
{
    let salt = SaltString::generate(&mut OsRng);
    argon2::Argon2::default()
        .hash_password(password.as_bytes(), &salt)
        .map(|h| h.to_string())
        .map_err(|e| e.to_string())
}

/// Verify a login against the configured username and argon2 PHC hash. The
/// signing secret is never part of this comparison.
pub fn verify_credentials(
    username: &str,
    password: &str,
    cfg_username: &str,
    cfg_password_hash: &str,
) -> (r: bool)
    ensures
        r == (username@ == cfg_username@ && phc_accepts(password@, cfg_password_hash@)),
{
    same_text(username, cfg_username) && check_password(password, cfg_password_hash)
}

/// Hash a password into an argon2 PHC string for config.toml. The salt is
/// random, so two calls differ; every hash accepts its password. Every password
/// within the length limit is hashed.
pub fn hash_password(password: &str) -> (r: Result<String, String>)
    ensures
        match r {
            Ok(hash) => is_hashable(password@) && phc_valid(hash@) && phc_accepts(
                password@,
                hash@,
            ),
            Err(e) => !is_hashable(password@) && e@ == "invalid password"@,
        },
{
    make_password_hash(password)
}

// -------------------------------------------------------------------- tokens

/// The value of a token claim.
#[derive(Debug, Clone)]
pub enum Claim {
    Text(String),
    Flag(bool),
    /// A number; None when it is no 64-bit integer.
    Number(Option<i64>),
    Other,
}

/// The value of a token claim.
pub enum ClaimView {
    Text(Seq<char>),
    Flag(bool),
    Number(Option<i64>),
    Other,
}

impl View for Claim {
    type V = ClaimView;

    open spec fn view(&self) -> ClaimView {
        match self {
            Claim::Text(s) => ClaimView::Text(s@),
            Claim::Flag(b) => ClaimView::Flag(*b),
            Claim::Number(n) => ClaimView::Number(*n),
            Claim::Other => ClaimView::Other,
        }
    }
}

/// Claims by name.
pub open spec fn claim_map(m: Seq<(Seq<char>, Claim)>) -> Map<Seq<char>, ClaimView> {
    Map::new(|k: Seq<char>| has_key(m, k), |k: Seq<char>| lookup(m, k)->0@)
}

/// The token that `jsonwebtoken::encode` makes of some claims with a secret.
pub uninterp spec fn token_for(claims: Map<Seq<char>, ClaimView>, secret: Seq<char>) -> Seq<char>;

/// The claims of a token whose signature is that of a secret and whose payload states
/// no registered claim twice; None for any other text.
pub uninterp spec fn token_claims(token: Seq<char>, secret: Seq<char>) -> Option<
    Map<Seq<char>, ClaimView>,
>;

/// `jsonwebtoken::encode` with the default header (HS256) and a secret of that
/// family: succeeds, with a function of the claims and the secret. The token carries
/// those claims under that secret, when every number among them is a 64-bit integer.
#[verifier::external_body]
fn encode_claims(claims: &Vec<(String, Claim)>, secret: &str) -> (r: Result<String, String>)
    requires
        keys_distinct(entries_of(claims@)),
        forall|i: int| 0 <= i < claims@.len() ==> (#[trigger] claims@[i]).1 != Claim::Number(None),
    ensures
        r is Ok,
        r matches Ok(token) ==> token@ == token_for(claim_map(entries_of(claims@)), secret@),
        r matches Ok(token) ==> token_claims(token@, secret@) == Some(
            claim_map(entries_of(claims@)),
        ),
{
    let json_of = |c: &Claim| match c {
        Claim::Text(s) => serde_json::Value::from(s.as_str()),
        Claim::Flag(b) => serde_json::Value::from(*b),
        Claim::Number(n) => serde_json::Value::from(*n),
        Claim::Other => serde_json::Value::Null,
    };
    let object: serde_json::Map<String, serde_json::Value> =
        claims.iter().map(|(k, c)| (k.clone(), json_of(c))).collect();
    let key = jsonwebtoken::EncodingKey::from_secret(secret.as_bytes());
    jsonwebtoken::encode(&jsonwebtoken::Header::default(), &object, &key).map_err(|e| e.to_string())
}

/// The message of `jsonwebtoken`'s error for a token that has expired.
pub const EXPIRED: &'static str = "ExpiredSignature";

/// Whether claims state when they expire.
pub open spec fn expires(claims: Map<Seq<char>, ClaimView>) -> bool {
    claims.contains_key("exp"@) && claims["exp"@] is Number
}

/// Whether claims have a subject that is text.
pub open spec fn has_subject(claims: Map<Seq<char>, ClaimView>) -> bool {
    claims.contains_key("sub"@) && claims["sub"@] is Text
}

/// Whether claims have nothing that can be wrong with them but their age: a subject,
/// a whole number of seconds for the expiry, and besides them at most `ws`.
pub open spec fn sound_claims(claims: Map<Seq<char>, ClaimView>) -> bool {
    &&& has_subject(claims)
    &&& expires(claims)
    &&& claims["exp"@]->Number_0 matches Some(exp) && exp >= 0
    &&& forall|k: Seq<char>| #[trigger]
        claims.contains_key(k) ==> k == "sub"@ || k == "exp"@ || k == "ws"@
}

/// Whether a claim is among the required ones.
pub open spec fn requires_claim(required: Seq<&str>, name: Seq<char>) -> bool {
    exists|i: int| 0 <= i < required.len() && (#[trigger] required[i])@ == name
}

/// `jsonwebtoken::decode` with the default validation (HS256, expiry with its
/// leeway) and the given required claims. Whether it succeeds depends on the
/// clock; when it does, the claims are those the token carries under the
/// secret, a required `sub` is there and is text, and a required `exp` is there and
/// is a number. Of another name that a token states twice the last value counts.
/// Where the token carries sound claims and no more than `sub` and `exp` is required,
/// expiry is the one reason to fail. That a token is accepted until it expires and
/// refused from then on is left unsaid: the call reads the clock itself.
#[verifier::external_body]
fn decode_claims(token: &str, secret: &str, required: &[&str]) -> (r: Result<
    Vec<(String, Claim)>,
    String,
>)
    ensures
        r matches Ok(claims) ==> token_claims(token@, secret@) == Some(
            claim_map(entries_of(claims@)),
        ),
        r matches Ok(claims) ==> requires_claim(required@, "sub"@) ==> has_subject(
            claim_map(entries_of(claims@)),
        ),
        r matches Ok(claims) ==> requires_claim(required@, "exp"@) ==> expires(
            claim_map(entries_of(claims@)),
        ),
        r matches Err(e) ==> (token_claims(token@, secret@) matches Some(claims) && sound_claims(
            claims,
        )) ==> (forall|i: int|
            0 <= i < required@.len() ==> (#[trigger] required@[i])@ == "sub"@ || required@[i]@
                == "exp"@) ==> e@ == EXPIRED@,
{
    let mut validation = jsonwebtoken::Validation::default();
    validation.set_required_spec_claims(required);
    let key = jsonwebtoken::DecodingKey::from_secret(secret.as_bytes());
    let claim_of = |v: serde_json::Value| match v {
        serde_json::Value::String(s) => Claim::Text(s),
        serde_json::Value::Bool(b) => Claim::Flag(b),
        serde_json::Value::Number(n) => Claim::Number(n.as_i64()),
        _ => Claim::Other,
    };
    jsonwebtoken::decode::<serde_json::Map<String, serde_json::Value>>(token, &key, &validation)
        .map(|data| data.claims.into_iter().map(|(k, v)| (k, claim_of(v))).collect())
        .map_err(|e| e.to_string())
}

/// The claims of a login token.
pub open spec fn login_claims(sub: Seq<char>, exp: i64) -> Map<Seq<char>, ClaimView> {
    map![
        "sub"@ => ClaimView::Text(sub),
        "exp"@ => ClaimView::Number(Some(exp)),
    ]
}

/// The claims of a WebSocket ticket.
pub open spec fn ticket_claims(sub: Seq<char>, exp: i64) -> Map<Seq<char>, ClaimView> {
    map![
        "sub"@ => ClaimView::Text(sub),
        "ws"@ => ClaimView::Flag(true),
        "exp"@ => ClaimView::Number(Some(exp)),
    ]
}

proof fn claim_names_differ()
    ensures
        "sub"@ != "exp"@,
        "sub"@ != "ws"@,
        "ws"@ != "exp"@,
{
    reveal_strlit("sub");
    reveal_strlit("exp");
    reveal_strlit("ws");
    assert("sub"@[0] == 's' && "exp"@[0] == 'e' && "ws"@[0] == 'w');
}

/// Mint a bearer token for an authenticated subject.
pub fn mint_token(sub: &str, secret: &str, now_epoch: i64) -> (r: Result<String, String>)
    requires
        now_epoch + TOKEN_TTL_SECS <= i64::MAX,
    ensures
        ({
            let claims = login_claims(sub@, (now_epoch + TOKEN_TTL_SECS) as i64);
            r matches Ok(token) && {
                &&& token@ == token_for(claims, secret@)
                &&& token_claims(token@, secret@) == Some(claims)
            }
        }),
        r matches Ok(token) ==> (token_claims(token@, secret@) matches Some(claims) && claims["exp"@]
            == ClaimView::Number(Some((now_epoch + 86_400) as i64))),
{
    let exp: i64 = now_epoch + TOKEN_TTL_SECS;
    let mut claims: Vec<(String, Claim)> = Vec::new();
    claims.push(("sub".to_owned(), Claim::Text(sub.to_owned())));
    claims.push(("exp".to_owned(), Claim::Number(Some(exp))));
    proof {
        claim_names_differ();
        let m = entries_of(claims@);
        assert(m[0].0 == "sub"@ && m[1].0 == "exp"@);
        assert(keys_distinct(m));
        assert forall|k: Seq<char>| true implies #[trigger] position(m, k) == (if k == "sub"@ {
            0int
        } else if k == "exp"@ {
            1
        } else {
            2
        }) by {
            first_is_position(
                m,
                k,
                if k == "sub"@ {
                    0int
                } else if k == "exp"@ {
                    1
                } else {
                    2
                },
            );
        }
        assert(claim_map(m) =~= login_claims(sub@, exp));
    }
    encode_claims(&claims, secret)
}

/// Mint a short-lived WebSocket ticket for an authenticated subject.
pub fn mint_ws_ticket(sub: &str, secret: &str, now_epoch: i64) -> (r: Result<String, String>)
    requires
        now_epoch + WS_TICKET_TTL_SECS <= i64::MAX,
    ensures
        ({
            let claims = ticket_claims(sub@, (now_epoch + WS_TICKET_TTL_SECS) as i64);
            r matches Ok(token) && {
                &&& token@ == token_for(claims, secret@)
                &&& token_claims(token@, secret@) == Some(claims)
            }
        }),
        r matches Ok(token) ==> (token_claims(token@, secret@) matches Some(claims) && claims["exp"@]
            == ClaimView::Number(Some((now_epoch + 30) as i64))),
{
    let exp: i64 = now_epoch + WS_TICKET_TTL_SECS;
    let mut claims: Vec<(String, Claim)> = Vec::new();
    claims.push(("sub".to_owned(), Claim::Text(sub.to_owned())));
    claims.push(("ws".to_owned(), Claim::Flag(true)));
    claims.push(("exp".to_owned(), Claim::Number(Some(exp))));
    proof {
        claim_names_differ();
        let m = entries_of(claims@);
        assert(m[0].0 == "sub"@ && m[1].0 == "ws"@ && m[2].0 == "exp"@);
        assert(keys_distinct(m));
        assert forall|k: Seq<char>| true implies #[trigger] position(m, k) == (if k == "sub"@ {
            0int
        } else if k == "ws"@ {
            1
        } else if k == "exp"@ {
            2
        } else {
            3
        }) by {
            first_is_position(
                m,
                k,
                if k == "sub"@ {
                    0int
                } else if k == "ws"@ {
                    1
                } else if k == "exp"@ {
                    2
                } else {
                    3
                },
            );
        }
        assert(claim_map(m) =~= ticket_claims(sub@, exp));
    }
    encode_claims(&claims, secret)
}

/// What validation makes of a token's claims: its subject, or why it is refused.
/// A claim of the wrong type is refused; an absent `ws` means no ticket.
pub open spec fn judged(claims: Map<Seq<char>, ClaimView>, from_query: bool) -> Result<
    Seq<char>,
    Seq<char>,
> {
    if !(claims.contains_key("sub"@) && claims["sub"@] is Text) {
        Err("invalid token: sub is not a string"@)
    } else if claims.contains_key("ws"@) && !(claims["ws"@] is Flag) {
        Err("invalid token: ws is not a boolean"@)
    } else if from_query && !(claims.contains_key("ws"@) && claims["ws"@] == ClaimView::Flag(true)) {
        Err("query credentials must be ws tickets (POST /api/auth/ws-ticket)"@)
    } else {
        Ok(claims["sub"@]->Text_0)
    }
}

fn find_claim<'a>(claims: &'a Vec<(String, Claim)>, name: &str) -> (r: Option<&'a Claim>)
    ensures
        match r {
            Some(c) => has_key(entries_of(claims@), name@) && lookup(entries_of(claims@), name@)
                == Some(*c),
            None => !has_key(entries_of(claims@), name@),
        },
{
    let ghost m = entries_of(claims@);
    for i in 0..claims.len()
        invariant
            m == entries_of(claims@),
            forall|j: int| 0 <= j < i ==> (#[trigger] m[j]).0 != name@,
    {
        if same_text(claims[i].0.as_str(), name) {
            proof {
                first_is_position(m, name@, i as int);
            }
            return Some(&claims[i].1);
        }
    }
    proof {
        first_is_position(m, name@, m.len() as int);
    }
    None
}

/// Judge the decoded claims of a token: the subject, unless the credential came
/// on a query string and is no ticket.
pub fn judge_claims(claims: &Vec<(String, Claim)>, from_query: bool) -> (r: Result<String, String>)
    ensures
        match r {
            Ok(sub) => judged(claim_map(entries_of(claims@)), from_query) == Ok::<_, Seq<char>>(
                sub@,
            ),
            Err(e) => judged(claim_map(entries_of(claims@)), from_query) == Err::<Seq<char>, _>(
                e@,
            ),
        },
{
    let ghost m = claim_map(entries_of(claims@));
    let sub = match find_claim(claims, "sub") {
        Some(Claim::Text(s)) => s,
        _ => {
            return Err("invalid token: sub is not a string".to_owned());
        },
    };
    assert(m["sub"@] == ClaimView::Text(sub@));
    let ws = match find_claim(claims, "ws") {
        Some(Claim::Flag(b)) => *b,
        None => false,
        _ => {
            return Err("invalid token: ws is not a boolean".to_owned());
        },
    };
    if from_query && !ws {
        return Err(
            "query credentials must be ws tickets (POST /api/auth/ws-ticket)".to_owned(),
        );
    }
    Ok(sub.clone())
}

/// The refusal of a token that has expired.
pub open spec fn expired_text() -> Seq<char> {
    "invalid token: "@ + EXPIRED@
}

/// What validation may come to, whatever the clock says: a subject only for a token
/// that was signed with the secret, that expires and whose claims pass; as the reason of
/// a refusal what is wrong with the claims, or that the token is invalid. Of a token
/// with sound claims nothing can be invalid but its age.
pub open spec fn validated(
    token: Seq<char>,
    secret: Seq<char>,
    from_query: bool,
    r: Result<String, String>,
) -> bool {
    match r {
        Ok(sub) => token_claims(token, secret) matches Some(claims) && expires(claims) && judged(
            claims,
            from_query,
        ) == Ok::<_, Seq<char>>(sub@),
        Err(e) => match token_claims(token, secret) {
            Some(claims) => {
                ||| judged(claims, from_query) == Err::<Seq<char>, _>(e@)
                ||| sound_claims(claims) && e@ == expired_text()
                ||| !sound_claims(claims) && has_prefix(e@, "invalid token: "@)
            },
            None => has_prefix(e@, "invalid token: "@),
        },
    }
}

/// Validate a token and return the authenticated subject.
///
/// `from_query` marks credentials that arrived on a query string: only ws
/// tickets are accepted there, so a long-lived bearer token can never end up
/// in request logs. Whether a token is still valid depends on the clock;
/// whatever it says, a subject is returned only for a token that was signed
/// with the secret, that expires and whose claims pass.
pub fn validate_token(token: &str, secret: &str, from_query: bool) -> (r: Result<String, String>)
    ensures
        validated(token@, secret@, from_query, r),
{
    let required: [&str; 2] = ["exp", "sub"];
    match decode_claims(token, secret, required.as_slice()) {
        Ok(claims) => judge_claims(&claims, from_query),
        Err(e) => {
            let mut t = "invalid token: ".to_owned();
            t.append(e.as_str());
            assert(t@.take("invalid token: "@.len() as int) =~= "invalid token: "@);
            Err(t)
        },
    }
}

// ---------------------------------------------------- request authentication

/// The subject of requests that are not authenticated.
pub const ANONYMOUS: &'static str = "operator";

/// What authentication makes of a request.
#[derive(Debug)]
pub enum Credential {
    /// No authentication needed.
    Open,
    /// A token to validate.
    Token { token: String, from_query: bool },
    /// Nothing to validate.
    Missing,
}

/// What authentication makes of a request.
pub enum CredentialView {
    Open,
    Token { token: Seq<char>, from_query: bool },
    Missing,
}

impl View for Credential {
    type V = CredentialView;

    open spec fn view(&self) -> CredentialView {
        match self {
            Credential::Open => CredentialView::Open,
            Credential::Token { token, from_query } => CredentialView::Token {
                token: token@,
                from_query: *from_query,
            },
            Credential::Missing => CredentialView::Missing,
        }
    }
}

/// The ticket on a query string: the value of the first `ticket=` parameter.
pub open spec fn ticket_in(query: Seq<char>) -> Option<Seq<char>>
    decreases query.len(),
{
    let first = before(query, '&');
    if has_prefix(first, "ticket="@) {
        Some(first.skip("ticket="@.len() as int))
    } else if first.len() >= query.len() {
        None
    } else {
        ticket_in(query.skip(first.len() as int + 1))
    }
}

/// The token of an Authorization header.
pub open spec fn bearer_in(header: Seq<char>) -> Option<Seq<char>> {
    if has_prefix(header, "Bearer "@) {
        Some(header.skip("Bearer "@.len() as int))
    } else {
        None
    }
}

/// Whether a path needs no authentication: logging in, and the health check.
pub open spec fn is_open_path(path: Seq<char>) -> bool {
    path == "/auth/login"@ || path == "/health"@
}

/// What authentication makes of a request. A bearer header comes before a ticket on
/// the query string.
pub open spec fn credential_of(
    path: Seq<char>,
    enabled: bool,
    header: Option<Seq<char>>,
    query: Option<Seq<char>>,
) -> CredentialView {
    let bearer = match header {
        Some(h) => bearer_in(h),
        None => None,
    };
    let ticket = match query {
        Some(q) => ticket_in(q),
        None => None,
    };
    if is_open_path(path) || !enabled {
        CredentialView::Open
    } else {
        match (bearer, ticket) {
            (Some(token), _) => CredentialView::Token { token, from_query: false },
            (None, Some(token)) => CredentialView::Token { token, from_query: true },
            (None, None) => CredentialView::Missing,
        }
    }
}

/// The text behind a prefix.
fn after_prefix(s: &str, prefix: &str) -> (r: Option<String>)
    ensures
        match r {
            Some(t) => has_prefix(s@, prefix@) && t@ == s@.skip(prefix@.len() as int),
            None => !has_prefix(s@, prefix@),
        },
{
    if !starts_with_text(s, prefix) {
        return None;
    }
    let chars = chars_of(s);
    let n: usize = prefix.unicode_len();
    let rest = vstd::slice::slice_subrange(chars.as_slice(), n, chars.len());
    assert(rest@ =~= s@.skip(prefix@.len() as int));
    Some(text_of(rest))
}

proof fn before_is_shorter(s: Seq<char>, c: char)
    ensures
        before(s, c).len() <= s.len(),
        before(s, c).len() < s.len() ==> s[before(s, c).len() as int] == c,
    decreases s.len(),
{
    if s.len() > 0 && s[0] != c {
        before_is_shorter(s.skip(1), c);
    }
}

/// The ticket on a query string.
pub fn query_ticket(query: &str) -> (r: Option<String>)
    ensures
        match r {
            Some(t) => ticket_in(query@) == Some(t@),
            None => ticket_in(query@) is None,
        },
{
    let chars = chars_of(query);
    let mut at: usize = 0;
    assert(chars@.skip(0) =~= chars@);
    loop
        invariant
            chars@ == query@,
            at <= chars@.len(),
            ticket_in(query@) == ticket_in(chars@.skip(at as int)),
        decreases chars@.len() - at,
    {
        let rest = vstd::slice::slice_subrange(chars.as_slice(), at, chars.len());
        assert(rest@ =~= chars@.skip(at as int));
        let text = text_of(rest);
        let first = text_before(text.as_str(), '&');
        match after_prefix(first.as_str(), "ticket=") {
            Some(t) => {
                return Some(t);
            },
            None => {},
        }
        let n: usize = first.as_str().unicode_len();
        proof {
            before_is_shorter(rest@, '&');
        }
        if n >= rest.len() {
            return None;
        }
        assert(chars@.skip(at as int).skip(n + 1) =~= chars@.skip(at + n + 1));
        at = at + n + 1;
    }
}

/// A text, if there is one.
pub open spec fn optional_text(s: Option<&str>) -> Option<Seq<char>> {
    match s {
        Some(t) => Some(t@),
        None => None,
    }
}

/// Find a request's credential: a bearer token from the Authorization header
/// or, for WebSocket upgrades, which cannot set headers from a browser, a
/// ticket on the query string. Paths are those below `/api`.
pub fn request_credential(
    path: &str,
    enabled: bool,
    header: Option<&str>,
    query: Option<&str>,
) -> (r: Credential)
    ensures
        r@ == credential_of(path@, enabled, optional_text(header), optional_text(query)),
{
    if !enabled || same_text(path, "/auth/login") || same_text(path, "/health") {
        return Credential::Open;
    }
    match header {
        Some(h) => match after_prefix(h, "Bearer ") {
            Some(token) => {
                return Credential::Token { token, from_query: false };
            },
            None => {},
        },
        None => {},
    }
    match query {
        Some(q) => match query_ticket(q) {
            Some(token) => {
                return Credential::Token { token, from_query: true };
            },
            None => {},
        },
        None => {},
    }
    Credential::Missing
}

/// Decide a request: the subject it runs as, or why it is refused.
pub fn authorize(credential: &Credential, secret: &str) -> (r: Result<String, String>)
    ensures
        match credential@ {
            CredentialView::Open => r matches Ok(who) && who@ == ANONYMOUS@,
            CredentialView::Missing => r matches Err(e) && e@ == "missing token"@,
            CredentialView::Token { token, from_query } => validated(
                token,
                secret@,
                from_query,
                r,
            ),
        },
{
    match credential {
        Credential::Open => Ok(ANONYMOUS.to_owned()),
        Credential::Missing => Err("missing token".to_owned()),
        Credential::Token { token, from_query } => validate_token(
            token.as_str(),
            secret,
            *from_query,
        ),
    }
}

/// Whether a request is held to the rate limit: only POST requests, and only
/// while auth is enabled.
pub fn is_rate_limited(is_post: bool, auth_enabled: bool) -> (r: bool)
    ensures
        r == (is_post && auth_enabled),
{
    is_post && auth_enabled
}

// ---------------------------------------------------------------------- login

/// What a login or a ticket request hands out while auth is off.
pub const DISABLED_TOKEN: &'static str = "auth-disabled";

/// Outcome of a login or of a request for a ticket.
#[derive(Debug)]
pub enum Grant {
    /// Auth is off: there is nothing to sign.
    Disabled,
    /// A signed token.
    Granted(String),
    /// The credentials are not the configured ones.
    Refused,
    /// Signing failed; the text says why.
    Failed(String),
}

/// Whether a grant is the token that carries some claims under a secret.
pub open spec fn granted(r: Grant, claims: Map<Seq<char>, ClaimView>, secret: Seq<char>) -> bool {
    r matches Grant::Granted(token) && {
        &&& token@ == token_for(claims, secret)
        &&& token_claims(token@, secret) == Some(claims)
    }
}

fn grant_of(signed: Result<String, String>) -> (r: Grant)
    ensures
        match signed {
            Ok(token) => r matches Grant::Granted(t) && t@ == token@,
            Err(e) => r matches Grant::Failed(text) && text@ == "JWT error: "@ + e@,
        },
{
    match signed {
        Ok(token) => Grant::Granted(token),
        Err(e) => {
            let mut text: String = "JWT error: ".to_owned();
            text.append(e.as_str());
            Grant::Failed(text)
        },
    }
}

/// Decide a login: while auth is on, the configured username and a password that
/// its hash accepts are traded for a bearer token, and nothing else is.
pub fn login(auth: &AuthSection, username: &str, password: &str, now_epoch: i64) -> (r: Grant)
    requires
        now_epoch + TOKEN_TTL_SECS <= i64::MAX,
    ensures
        r is Disabled <==> !auth.enabled,
        r is Refused <==> auth.enabled && !(username@ == auth.username@ && phc_accepts(
            password@,
            auth.password_hash@,
        )),
        auth.enabled && username@ == auth.username@ && phc_accepts(password@, auth.password_hash@)
            ==> granted(
            r,
            login_claims(username@, (now_epoch + TOKEN_TTL_SECS) as i64),
            auth.secret@,
        ),
{
    if !auth.enabled {
        return Grant::Disabled;
    }
    if !verify_credentials(
        username,
        password,
        auth.username.as_str(),
        auth.password_hash.as_str(),
    ) {
        return Grant::Refused;
    }
    grant_of(mint_token(username, auth.secret.as_str(), now_epoch))
}

/// Decide a request for a WebSocket ticket by a caller who is already known.
pub fn ws_ticket(auth: &AuthSection, caller: &str, now_epoch: i64) -> (r: Grant)
    requires
        now_epoch + WS_TICKET_TTL_SECS <= i64::MAX,
    ensures
        r is Disabled <==> !auth.enabled,
        !(r is Refused),
        auth.enabled ==> granted(
            r,
            ticket_claims(caller@, (now_epoch + WS_TICKET_TTL_SECS) as i64),
            auth.secret@,
        ),
{
    if !auth.enabled {
        return Grant::Disabled;
    }
    grant_of(mint_ws_ticket(caller, auth.secret.as_str(), now_epoch))
}

// ---------------------------------------------------------------------- boot

/// Every reason the enabled auth config is unusable.
pub open spec fn boot_problems(auth: AuthSection) -> Seq<Seq<char>> {
    let secret = if auth.secret@ == DEFAULT_SECRET@ || vstd::utf8::encode_utf8(auth.secret@).len()
        < 16 {
        seq!["[auth] secret is the default or shorter than 16 chars"@]
    } else {
        Seq::empty()
    };
    let hash = if auth.password_hash@.len() == 0 {
        seq!["[auth] password_hash is empty (generate with zenith --hash-password)"@]
    } else if !phc_valid(auth.password_hash@) {
        seq!["[auth] password_hash is not a valid PHC string"@]
    } else {
        Seq::empty()
    };
    if auth.enabled {
        secret + hash
    } else {
        Seq::empty()
    }
}

/// Boot-time validation: every reason the enabled auth config is unusable.
/// Empty means safe to serve.
pub fn boot_errors(auth: &AuthSection) -> (errors: Vec<String>)
    ensures
        texts(errors@) == boot_problems(*auth),
{
    let mut errors: Vec<String> = Vec::new();
    if auth.enabled {
        if same_text(auth.secret.as_str(), DEFAULT_SECRET) || auth.secret.as_str().as_bytes().len()
            < 16 {
            errors.push("[auth] secret is the default or shorter than 16 chars".to_owned());
        }
        if auth.password_hash.as_str().is_empty() {
            errors.push(
                "[auth] password_hash is empty (generate with zenith --hash-password)".to_owned(),
            );
        } else if !is_phc_string(auth.password_hash.as_str()) {
            errors.push("[auth] password_hash is not a valid PHC string".to_owned());
        }
    }
    assert(texts(errors@) =~= boot_problems(*auth));
    errors
}

// ---------------------------------------------------------------------- laws

/// The config boots exactly when auth is off, or the secret is a real one and
/// the password hash is a PHC string.
pub proof fn boots_iff_usable(auth: AuthSection)
    ensures
        boot_problems(auth).len() == 0 <==> (!auth.enabled || {
            &&& auth.secret@ != DEFAULT_SECRET@
            &&& vstd::utf8::encode_utf8(auth.secret@).len() >= 16
            &&& auth.password_hash@.len() > 0
            &&& phc_valid(auth.password_hash@)
        }),
{
}

/// A minted login token names its subject when it comes in a header and is
/// refused on a query string; a ticket names its subject either way.
pub proof fn credentials_name_their_subject(sub: Seq<char>, exp: i64)
    ensures
        judged(login_claims(sub, exp), false) == Ok::<_, Seq<char>>(sub),
        judged(login_claims(sub, exp), true) is Err,
        judged(ticket_claims(sub, exp), false) == Ok::<_, Seq<char>>(sub),
        judged(ticket_claims(sub, exp), true) == Ok::<_, Seq<char>>(sub),
{
    claim_names_differ();
}

/// What becomes of a minted login token, whatever the clock says: a subject that is
/// returned for it is the one it was minted for, on a query string none is, and where it
/// comes in a header the one reason to refuse it is that it has expired. Stated for
/// expiries from the epoch on.
pub proof fn login_tokens_name_their_subject(
    token: Seq<char>,
    secret: Seq<char>,
    sub: Seq<char>,
    exp: i64,
    from_query: bool,
    r: Result<String, String>,
)
    requires
        exp >= 0,
        token_claims(token, secret) == Some(login_claims(sub, exp)),
        validated(token, secret, from_query, r),
    ensures
        r matches Ok(who) ==> who@ == sub,
        from_query ==> r is Err,
        !from_query ==> (r matches Err(e) ==> e@ == expired_text()),
{
    claim_names_differ();
    credentials_name_their_subject(sub, exp);
    assert(sound_claims(login_claims(sub, exp)));
}

/// What becomes of a minted WebSocket ticket, whatever the clock says: a subject that is
/// returned for it is the one it was minted for, and the one reason to refuse it, on a
/// query string or in a header, is that it has expired. Stated for expiries from the
/// epoch on.
pub proof fn tickets_name_their_subject(
    token: Seq<char>,
    secret: Seq<char>,
    sub: Seq<char>,
    exp: i64,
    from_query: bool,
    r: Result<String, String>,
)
    requires
        exp >= 0,
        token_claims(token, secret) == Some(ticket_claims(sub, exp)),
        validated(token, secret, from_query, r),
    ensures
        match r {
            Ok(who) => who@ == sub,
            Err(e) => e@ == expired_text(),
        },
{
    claim_names_differ();
    credentials_name_their_subject(sub, exp);
    assert(sound_claims(ticket_claims(sub, exp)));
}

/// A token that states no expiry is let in by nothing, whatever else it carries.
pub proof fn accepted_tokens_expire(
    token: Seq<char>,
    secret: Seq<char>,
    from_query: bool,
    r: Result<String, String>,
)
    requires
        validated(token, secret, from_query, r),
        token_claims(token, secret) matches Some(claims) ==> !expires(claims),
    ensures
        r is Err,
{
}

/// A credential on a query string is accepted only as a WebSocket ticket.
pub proof fn query_credentials_are_tickets(claims: Map<Seq<char>, ClaimView>)
    requires
        judged(claims, true) is Ok,
    ensures
        claims.contains_key("ws"@),
        claims["ws"@] == ClaimView::Flag(true),
{
}

/// While auth is enabled nothing but logging in and the health check is open,
/// and a request that carries neither a bearer header nor a ticket has nothing
/// to be let in by.
pub proof fn requests_need_credentials(
    path: Seq<char>,
    header: Option<Seq<char>>,
    query: Option<Seq<char>>,
)
    requires
        !is_open_path(path),
    ensures
        !(credential_of(path, true, header, query) is Open),
        (header matches Some(h) ==> bearer_in(h) is None) && (query matches Some(q) ==> ticket_in(
            q,
        ) is None) ==> credential_of(path, true, header, query) is Missing,
{
}

/// A minted login token lives for a day and a ticket for half a minute: the subject is the
/// one that they were minted for, the expiry is that long after the minting, and only the
/// ticket is marked as one. They carry nothing else.
pub proof fn minted_claims_say_who_and_until_when(sub: Seq<char>, now: i64, k: Seq<char>)
    requires
        now + 86_400 <= i64::MAX,
    ensures
        ({
            let login = login_claims(sub, (now + TOKEN_TTL_SECS) as i64);
            let ticket = ticket_claims(sub, (now + WS_TICKET_TTL_SECS) as i64);
            &&& login.contains_key(k) <==> k == "sub"@ || k == "exp"@
            &&& ticket.contains_key(k) <==> k == "sub"@ || k == "exp"@ || k == "ws"@
            &&& login["sub"@] == ClaimView::Text(sub) && ticket["sub"@] == ClaimView::Text(sub)
            &&& login["exp"@] == ClaimView::Number(Some((now + 24 * 60 * 60) as i64))
            &&& ticket["exp"@] == ClaimView::Number(Some((now + 30) as i64))
            &&& ticket["ws"@] == ClaimView::Flag(true)
        }),
{
    claim_names_differ();
}

/// Claims are let in if and only if they have a subject that is text, a ticket mark that
/// is true or false if they have one at all, and on a query string a ticket mark that is
/// true; who is let in is the subject.
pub proof fn claims_are_judged_by_subject_and_mark(
    claims: Map<Seq<char>, ClaimView>,
    from_query: bool,
)
    ensures
        ({
            let marked = claims.contains_key("ws"@);
            let ticket = marked && claims["ws"@] == ClaimView::Flag(true);
            let bearer = marked && claims["ws"@] == ClaimView::Flag(false) || !marked;
            let named = claims.contains_key("sub"@) && claims["sub"@] is Text;
            &&& judged(claims, from_query) is Ok <==> named && (ticket || bearer && !from_query)
            &&& judged(claims, from_query) matches Ok(who) ==> claims["sub"@] == ClaimView::Text(
                who,
            )
        }),
{
}

/// Whether a text is one parameter of a query string.
pub open spec fn is_parameter(s: Seq<char>) -> bool {
    forall|i: int| 0 <= i < s.len() ==> #[trigger] s[i] != '&'
}

proof fn before_stops_at(s: Seq<char>, rest: Seq<char>)
    requires
        is_parameter(s),
    ensures
        before(s, '&') == s,
        before(s + seq!['&'] + rest, '&') == s,
        (s + seq!['&'] + rest).skip(s.len() as int + 1) == rest,
    decreases s.len(),
{
    let t = s + seq!['&'] + rest;
    assert(t.skip(s.len() as int + 1) =~= rest);
    crate::text::before_ends_at_the_first(s, '&');
    crate::text::before_ends_at_the_first(t, '&');
    let (a, b) = (before(s, '&'), before(t, '&'));
    if a.len() < s.len() {
        assert(s[a.len() as int] != '&');
    }
    assert(s.subrange(0, s.len() as int) =~= s);
    if b.len() < s.len() {
        assert(t[b.len() as int] == s[b.len() as int]);
    }
    if b.len() > s.len() {
        assert(t.subrange(0, b.len() as int)[s.len() as int] == '&');
        assert(b.contains('&'));
    }
    assert(t.subrange(0, s.len() as int) =~= s);
}

/// The ticket of a query string is the value of its first parameter named `ticket`,
/// wherever that stands among the others; without such a parameter there is none.
pub proof fn tickets_are_found_on_the_query(x: Seq<char>, t: Seq<char>, rest: Seq<char>)
    requires
        is_parameter(x),
        is_parameter(t),
        !(x.len() >= 7 && x.take(7) == "ticket="@),
    ensures
        ticket_in("ticket="@ + t) == Some(t),
        ticket_in("ticket="@ + t + seq!['&'] + rest) == Some(t),
        ticket_in(x) is None,
        ticket_in(x + seq!['&'] + rest) == ticket_in(rest),
{
    reveal_strlit("ticket=");
    let p = "ticket="@ + t;
    assert(is_parameter(p)) by {
        assert forall|i: int| 0 <= i < p.len() implies #[trigger] p[i] != '&' by {
            if i >= 7 {
                assert(p[i] == t[i - 7]);
            }
        }
    }
    assert(p.subrange(0, 7) =~= "ticket="@);
    assert(p.skip(7) =~= t);
    before_stops_at(p, rest);
    before_stops_at(x, rest);
    if x.len() >= 7 {
        assert(x.subrange(0, 7) =~= x.take(7));
    }
    assert(!has_prefix(x, "ticket="@));
}

/// What a request is let in by: nothing is needed while auth is off, for logging in and
/// for the health check; otherwise the text behind "Bearer " in the header, and without
/// that the ticket on the query string, which is marked as coming from there.
pub proof fn requests_are_let_in_by(
    path: Seq<char>,
    enabled: bool,
    header: Option<Seq<char>>,
    query: Option<Seq<char>>,
    token: Seq<char>,
)
    ensures
        credential_of(path, enabled, header, query) is Open <==> !enabled || path == "/auth/login"@
            || path == "/health"@,
        enabled && path != "/auth/login"@ && path != "/health"@ ==> {
            &&& credential_of(path, enabled, Some("Bearer "@ + token), query) == (
            CredentialView::Token { token, from_query: false })
            &&& (header is None || !has_prefix(header->0, "Bearer "@)) && query is Some && ticket_in(
                query->0,
            ) == Some(token) ==> credential_of(path, enabled, header, query) == (
            CredentialView::Token { token, from_query: true })
            &&& (header is None || !has_prefix(header->0, "Bearer "@)) && (query is None
                || ticket_in(query->0) is None) ==> credential_of(path, enabled, header, query)
                is Missing
        },
{
    let h = "Bearer "@ + token;
    let n = "Bearer "@.len() as int;
    assert(h.subrange(0, n) =~= "Bearer "@);
    assert(h.skip(n) =~= token);
}

/// The placeholder secret that is shipped never boots while auth is on, and neither does
/// an empty password hash.
pub proof fn placeholders_do_not_boot(auth: AuthSection)
    requires
        auth.enabled,
        auth.secret@ == "change-me-in-production"@ || auth.password_hash@.len() == 0,
    ensures
        boot_problems(auth).len() > 0,
{
}

/// What is granted is let in: a granted login token names its owner where it comes in a
/// header, and a granted ticket names its owner on a query string, until they expire.
pub proof fn grants_name_their_owner(
    r: Grant,
    who: Seq<char>,
    exp: i64,
    secret: Seq<char>,
    v: Result<String, String>,
)
    requires
        exp >= 0,
        r is Granted,
    ensures
        granted(r, login_claims(who, exp), secret) && validated(r->Granted_0@, secret, false, v)
            ==> match v {
            Ok(sub) => sub@ == who,
            Err(e) => e@ == "invalid token: "@ + EXPIRED@,
        },
        granted(r, ticket_claims(who, exp), secret) && validated(r->Granted_0@, secret, true, v)
            ==> match v {
            Ok(sub) => sub@ == who,
            Err(e) => e@ == "invalid token: "@ + EXPIRED@,
        },
        granted(r, login_claims(who, exp), secret) && validated(r->Granted_0@, secret, true, v)
            ==> v is Err,
{
    let token = r->Granted_0@;
    if granted(r, login_claims(who, exp), secret) && validated(token, secret, false, v) {
        login_tokens_name_their_subject(token, secret, who, exp, false, v);
    }
    if granted(r, login_claims(who, exp), secret) && validated(token, secret, true, v) {
        login_tokens_name_their_subject(token, secret, who, exp, true, v);
    }
    if granted(r, ticket_claims(who, exp), secret) && validated(token, secret, true, v) {
        tickets_name_their_subject(token, secret, who, exp, true, v);
    }
}

} // verus!
