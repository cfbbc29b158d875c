//! Session credentials: the claims of an access token, password hashing
//! and checking with argon2id, and opaque refresh tokens kept only as a
//! hash.
use vstd::prelude::*;

use argon2::password_hash::PasswordHasher;
use argon2::PasswordVerifier;

use crate::text::{chars_of, hex, hex_exec, i64_decimal, int_decimal, string_from, utf8, utf8_bytes, utf8_len};
use crate::tool_ctx::{sha256, sha256_digest};
use crate::json::{vget, vget_str, Json, JsonNumber, JsonV, NumV};
use crate::dto::{int_json_of, int_v, push_field};

verus! {

/// The claims of an HS256 access token. `sub` is the user id as decimal
/// text; `tv` is the user's token version when the token was issued, so
/// that raising it revokes older tokens.
pub struct Claims {
    pub sub: String,
    pub username: String,
    pub is_admin: bool,
    pub tv: i32,
    pub jti: String,
    pub iat: i64,
    pub exp: i64,
}

/// The claims issued to a user at `now`, valid for `ttl_secs` seconds,
/// with `jti` as the token's unique id.
pub fn access_claims(
    user_id: i64,
    username: &str,
    is_admin: bool,
    token_version: i32,
    jti: String,
    now: i64,
    ttl_secs: i64,
) -> (c: Claims)
    requires
        i64::MIN <= now + ttl_secs <= i64::MAX,
    ensures
        c.sub@ == int_decimal(user_id as int),
        c.username@ == username@,
        c.is_admin == is_admin,
        c.tv == token_version,
        c.jti@ == jti@,
        c.iat == now,
        c.exp == now + ttl_secs,
{
    Claims {
        sub: string_from(i64_decimal(user_id).as_slice()),
        username: string_from(chars_of(username).as_slice()),
        is_admin,
        tv: token_version,
        jti,
        iat: now,
        exp: now + ttl_secs,
    }
}

/// Name for argon2's answer to whether `password` matches the PHC string
/// `hash` (`false` for a string that does not parse).
pub uninterp spec fn argon2_matches(password: Seq<u8>, hash: Seq<char>) -> bool;

/// Parses `hash` with `PasswordHash::new` and checks the password with
/// `Argon2::default().verify_password`: argon2 hashes the password again
/// with the algorithm, version, parameters and salt that the string names
/// and compares the outputs. The answer is named by `argon2_matches`.
#[verifier::external_body]
fn argon2_verify(password: &[u8], hash: &str) -> (r: bool)
    ensures
        r == argon2_matches(password@, hash@),
{
    match argon2::password_hash::PasswordHash::new(hash) {
        Ok(parsed) => argon2::Argon2::default().verify_password(password, &parsed).is_ok(),
        Err(_) => false,
    }
}

/// Hashes the password with `Argon2::default()` (argon2id) and a fresh
/// random salt from the operating system, and returns the PHC string. The
/// salt is chance, so nothing is said of the string but that checking the
/// same password against it succeeds: the check hashes the password again
/// with the salt and parameters written in the string. argon2 refuses
/// passwords longer than `u32::MAX` bytes.
#[verifier::external_body]
fn argon2_hash(password: &[u8]) -> (r: String)
    requires
        password@.len() <= 0xFFFF_FFFF,
    ensures
        argon2_matches(password@, r@),
{
    let salt = argon2::password_hash::SaltString::generate(&mut argon2::password_hash::rand_core::OsRng);
    argon2::Argon2::default().hash_password(password, &salt).expect("argon2 hashing cannot fail").to_string()
}

/// An argon2id PHC string for a local user's password.
pub fn hash_password(password: &str) -> (r: String)
    requires
        utf8_len(password@) <= 0xFFFF_FFFF,
    ensures
        argon2_matches(utf8(password@), r@),
{
    let bytes = utf8_bytes(chars_of(password).as_slice());
    proof {
        crate::text::lemma_utf8_len(password@);
    }
    argon2_hash(bytes.as_slice())
}

/// Whether the password matches the stored PHC string.
pub fn verify_password(password: &str, hash: &str) -> (r: bool)
    ensures
        r == argon2_matches(utf8(password@), hash@),
{
    let bytes = utf8_bytes(chars_of(password).as_slice());
    argon2_verify(bytes.as_slice(), hash)
}

/// 32 random bytes from the operating system (`rand::rngs::OsRng`).
#[verifier::external_body]
fn os_random_32() -> (r: Vec<u8>)
    ensures
        r@.len() == 32,
{
    let mut buf = [0u8; 32];
    rand::RngCore::fill_bytes(&mut rand::rngs::OsRng, &mut buf);
    buf.to_vec()
}

/// A new opaque refresh token and the hash that is stored for it: the
/// token is 32 random bytes as 64 lowercase hex digits; the hash is the
/// hex SHA-256 of the token's text.
pub fn new_refresh_token() -> (r: (String, String))
    ensures
        exists|b: Seq<u8>| b.len() == 32 && r.0@ == hex(b),
        r.0@.len() == 64,
        r.1@ == hex(sha256_digest(utf8(r.0@))),
{
    let buf = os_random_32();
    let token = hex_exec(buf.as_slice());
    proof {
        crate::text::lemma_hex_len(buf@);
    }
    let token_bytes = utf8_bytes(token.as_slice());
    let digest = sha256(token_bytes.as_slice());
    let hash = hex_exec(digest.as_slice());
    (string_from(token.as_slice()), string_from(hash.as_slice()))
}

} // verus!

verus! {

// ---------------------------------------------------------------------------
// Access tokens
// ---------------------------------------------------------------------------
/// Claims as plain values: sub, username, is_admin, tv, jti, iat, exp.
pub type ClaimsV = (Seq<char>, Seq<char>, bool, i32, Seq<char>, i64, i64);

pub open spec fn claims_tuple(c: Claims) -> ClaimsV {
    (c.sub@, c.username@, c.is_admin, c.tv, c.jti@, c.iat, c.exp)
}

/// Claims as a JSON object, in declaration order.
pub open spec fn claims_object(c: ClaimsV) -> JsonV {
    JsonV::Object(
        seq![
            ("sub"@, JsonV::Str(c.0)),
            ("username"@, JsonV::Str(c.1)),
            ("is_admin"@, JsonV::Bool(c.2)),
            ("tv"@, int_v(c.3 as i64)),
            ("jti"@, JsonV::Str(c.4)),
            ("iat"@, int_v(c.5)),
            ("exp"@, int_v(c.6)),
        ],
    )
}

pub open spec fn claims_v(c: Claims) -> JsonV {
    claims_object(claims_tuple(c))
}

pub fn claims_json(c: &Claims) -> (r: Json)
    ensures
        r@ == claims_v(*c),
{
    let mut f: Vec<(String, Json)> = Vec::new();
    push_field(&mut f, "sub", Json::Str(c.sub.clone()));
    push_field(&mut f, "username", Json::Str(c.username.clone()));
    push_field(&mut f, "is_admin", Json::Bool(c.is_admin));
    push_field(&mut f, "tv", int_json_of(c.tv as i64));
    push_field(&mut f, "jti", Json::Str(c.jti.clone()));
    push_field(&mut f, "iat", int_json_of(c.iat));
    push_field(&mut f, "exp", int_json_of(c.exp));
    proof {
        crate::json::lemma_object_view(f);
    }
    assert(crate::json::fields_view(f@) =~= match claims_v(*c) {
        JsonV::Object(fs) => fs,
        _ => Seq::empty(),
    });
    Json::Object(f)
}

/// A JSON integer as an `i64`.
pub open spec fn json_i64(v: Option<JsonV>) -> Option<i64> {
    match v {
        Some(JsonV::Number(NumV::PosInt(u))) => if u <= i64::MAX {
            Some(u as i64)
        } else {
            None
        },
        Some(JsonV::Number(NumV::NegInt(i))) => Some(i),
        _ => None,
    }
}

/// The claims a token's payload holds: every claim present with its JSON
/// type (`tv` an integer that fits in `i32`); other fields are ignored.
pub open spec fn claims_of(v: JsonV) -> Option<ClaimsV> {
    match (
        vget_str(v, "sub"@),
        vget_str(v, "username"@),
        vget(v, "is_admin"@),
        json_i64(vget(v, "tv"@)),
        vget_str(v, "jti"@),
        json_i64(vget(v, "iat"@)),
        json_i64(vget(v, "exp"@)),
    ) {
        (Some(sub), Some(username), Some(JsonV::Bool(a)), Some(tv), Some(jti), Some(iat), Some(exp)) => if i32::MIN
            <= tv <= i32::MAX {
            Some((sub, username, a, tv as i32, jti, iat, exp))
        } else {
            None
        },
        _ => None,
    }
}

fn json_i64_exec(v: Option<&Json>) -> (r: Option<i64>)
    ensures
        r == json_i64(
            match v {
                Some(x) => Some(x@),
                None => None,
            },
        ),
{
    match v {
        Some(Json::Number(JsonNumber::PosInt(u))) => if *u <= i64::MAX as u64 {
            Some(*u as i64)
        } else {
            None
        },
        Some(Json::Number(JsonNumber::NegInt(i))) => Some(*i),
        _ => None,
    }
}

/// The claims of a token's payload (see `claims_of`).
pub fn claims_from_payload(v: &Json) -> (r: Option<Claims>)
    ensures
        match r {
            Some(c) => claims_of(v@) == Some(claims_tuple(c)),
            None => claims_of(v@) is None,
        },
{
    let sub = match v.get_str("sub") {
        Some(s) => s.clone(),
        None => return None,
    };
    let username = match v.get_str("username") {
        Some(s) => s.clone(),
        None => return None,
    };
    let is_admin = match v.get("is_admin") {
        Some(Json::Bool(b)) => *b,
        _ => return None,
    };
    let tv = match json_i64_exec(v.get("tv")) {
        Some(t) => t,
        None => return None,
    };
    let jti = match v.get_str("jti") {
        Some(s) => s.clone(),
        None => return None,
    };
    let iat = match json_i64_exec(v.get("iat")) {
        Some(t) => t,
        None => return None,
    };
    let exp = match json_i64_exec(v.get("exp")) {
        Some(t) => t,
        None => return None,
    };
    if tv < i32::MIN as i64 || tv > i32::MAX as i64 {
        return None;
    }
    Some(Claims { sub, username, is_admin, tv: tv as i32, jti, iat, exp })
}

/// Name for the HS256 JWT that `jsonwebtoken` writes for a claims object
/// under a secret (header, claims and HMAC-SHA256 signature, each base64url).
pub uninterp spec fn jwt_hs256(claims: JsonV, secret: Seq<u8>) -> Seq<char>;

/// Calls `jsonwebtoken::encode` with an HS256 header, the claims as a
/// serde_json value and `EncodingKey::from_secret`; the token is named by
/// `jwt_hs256`. It always succeeds: the key's family matches HS256,
/// writing a serde_json value cannot fail, and HMAC signing returns `Ok`.
#[verifier::external_body]
fn jwt_encode_hs256(claims: &Json, secret: &[u8; 32]) -> (r: Option<String>)
    ensures
        r is Some,
        r matches Some(t) ==> t@ == jwt_hs256(claims@, secret@),
{
    jsonwebtoken::encode(
        &jsonwebtoken::Header::new(jsonwebtoken::Algorithm::HS256),
        &crate::codec::value_of_json(claims),
        &jsonwebtoken::EncodingKey::from_secret(secret),
    ).ok()
}

/// Name for the claims object of a token whose HS256 signature checks
/// under the secret (`None` for a malformed token or a bad signature).
pub uninterp spec fn jwt_signed_claims(token: Seq<char>, secret: Seq<u8>) -> Option<JsonV>;

/// Calls `jsonwebtoken::decode` into a serde_json value with HS256
/// validation that requires `exp` and `sub`. Whether it succeeds also rests
/// on the clock (expiry, with a minute of leeway); when it does, the claims
/// are those the signature covers.
#[verifier::external_body]
fn jwt_decode_hs256(token: &str, secret: &[u8; 32]) -> (r: Option<Json>)
    ensures
        r matches Some(v) ==> jwt_signed_claims(token@, secret@) == Some(v@),
{
    let mut validation = jsonwebtoken::Validation::new(jsonwebtoken::Algorithm::HS256);
    validation.set_required_spec_claims(&["exp", "sub"]);
    jsonwebtoken::decode::<serde_json::Value>(
        token,
        &jsonwebtoken::DecodingKey::from_secret(secret),
        &validation,
    ).ok().map(|d| crate::codec::json_of_value(d.claims))
}

/// A signed access token for the user, issued at `now` with `jti` as its
/// unique id and valid for `ttl_secs`: the HS256 JWT of `access_claims`.
pub fn issue_access(
    secret: &[u8; 32],
    user_id: i64,
    username: &str,
    is_admin: bool,
    token_version: i32,
    jti: String,
    now: i64,
    ttl_secs: i64,
) -> (r: Result<String, String>)
    requires
        i64::MIN <= now + ttl_secs <= i64::MAX,
    ensures
        r matches Ok(t) && t@ == jwt_hs256(
            claims_object(
                (int_decimal(user_id as int), username@, is_admin, token_version, jti@, now, (now + ttl_secs) as i64),
            ),
            secret@,
        ),
{
    let claims = access_claims(user_id, username, is_admin, token_version, jti, now, ttl_secs);
    let j = claims_json(&claims);
    match jwt_encode_hs256(&j, secret) {
        Some(t) => {
            assert(claims_tuple(claims) == (int_decimal(user_id as int), username@, is_admin, token_version, jti@, now, (now + ttl_secs) as i64));
            Ok(t)
        },
        None => Err(crate::text::owned("access token encoding failed")),
    }
}

/// Checks an access token's signature and expiry; the user's status and
/// token version are checked by the caller against the claims. Any
/// failure is `invalid or expired access token`.
pub fn verify_access(secret: &[u8; 32], token: &str) -> (r: Result<Claims, String>)
    ensures
        r matches Ok(c) ==> jwt_signed_claims(token@, secret@) matches Some(v) && claims_of(v) == Some(
            claims_tuple(c),
        ),
        r matches Err(e) ==> e@ == "invalid or expired access token"@,
{
    match jwt_decode_hs256(token, secret) {
        Some(v) => match claims_from_payload(&v) {
            Some(c) => Ok(c),
            None => Err(crate::text::owned("invalid or expired access token")),
        },
        None => Err(crate::text::owned("invalid or expired access token")),
    }
}

} // verus!
