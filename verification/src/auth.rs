//! JWT-based authentication: claim construction is verified; signing
//! and verification are delegated to the jsonwebtoken crate behind
//! trusted wrappers.

use vstd::prelude::*;
use crate::text::concat;
use jsonwebtoken::errors::Error as JwtError;

verus! {

/// The claims carried by an access or refresh token.
#[derive(Debug, Clone)]
pub struct Claims {
    pub sub: String,
    pub user_id: String,
    pub username: String,
    pub role: String,
    pub iat: i64,
    pub exp: i64,
}

/// The token that signing a claim set with a secret produces.  HS256
/// signing with a fixed header and a canonical claim serialization is
/// a function of the secret and the claim fields alone.
pub uninterp spec fn jwt_token_of(
    secret: Seq<char>,
    sub: Seq<char>,
    user_id: Seq<char>,
    username: Seq<char>,
    role: Seq<char>,
    iat: int,
    exp: int,
) -> Seq<char>;

#[verifier::external_type_specification]
#[verifier::external_body]
pub struct ExJwtError(JwtError);

/// Relies on chrono::Utc::now: the current Unix timestamp in seconds.
/// Nothing is promised of the clock's reading.
#[verifier::external_body]
fn current_timestamp() -> i64 {
    chrono::Utc::now().timestamp()
}

/// Relies on jsonwebtoken::encode with the default HS256 header over a
/// claim object with these six fields: on success the token is the
/// signing function of the secret and the claim values.
#[verifier::external_body]
fn encode_claims(
    secret: &str,
    sub: &str,
    user_id: &str,
    username: &str,
    role: &str,
    iat: i64,
    exp: i64,
) -> (r: Result<String, JwtError>)
    ensures
        r is Ok ==> r->Ok_0@ == jwt_token_of(
            secret@, sub@, user_id@, username@, role@, iat as int, exp as int,
        ),
{
    let mut m = serde_json::Map::new();
    m.insert("sub".to_string(), serde_json::Value::from(sub));
    m.insert("user_id".to_string(), serde_json::Value::from(user_id));
    m.insert("username".to_string(), serde_json::Value::from(username));
    m.insert("role".to_string(), serde_json::Value::from(role));
    m.insert("iat".to_string(), serde_json::Value::from(iat));
    m.insert("exp".to_string(), serde_json::Value::from(exp));
    jsonwebtoken::encode(
        &jsonwebtoken::Header::default(),
        &serde_json::Value::Object(m),
        &jsonwebtoken::EncodingKey::from_secret(secret.as_bytes()),
    )
}

/// Relies on jsonwebtoken::decode with the default validation (HS256,
/// expiry checked against the system clock): returns the six claim
/// fields of a token that verifies under the secret.  The outcome
/// depends on the clock, so nothing is promised of it.
#[verifier::external_body]
fn decode_claims(
    secret: &str,
    token: &str,
) -> Result<(String, String, String, String, i64, i64), JwtError> {
    let data = jsonwebtoken::decode::<serde_json::Value>(
        token,
        &jsonwebtoken::DecodingKey::from_secret(secret.as_bytes()),
        &jsonwebtoken::Validation::default(),
    )?;
    let c = data.claims;
    let s = |k| c.get(k).and_then(|v| v.as_str()).unwrap_or("").to_string();
    let n = |k| c.get(k).and_then(|v| v.as_i64()).unwrap_or(0);
    Ok((s("sub"), s("user_id"), s("username"), s("role"), n("iat"), n("exp")))
}

/// Relies on the Display impl of jsonwebtoken's error type for its
/// human-readable message.
#[verifier::external_body]
fn jwt_error_string(e: &JwtError) -> String {
    e.to_string()
}

/// The claim set issued at `iat` and expiring at `exp`: the subject
/// and user id both carry the user id.
pub fn make_claims(user_id: &str, username: &str, role: &str, iat: i64, exp: i64) -> (c: Claims)
    ensures
        c.sub@ == user_id@,
        c.user_id@ == user_id@,
        c.username@ == username@,
        c.role@ == role@,
        c.iat == iat,
        c.exp == exp,
{
    Claims {
        sub: user_id.to_owned(),
        user_id: user_id.to_owned(),
        username: username.to_owned(),
        role: role.to_owned(),
        iat,
        exp,
    }
}

/// Issues and verifies the service's tokens under one shared secret.
/// Access tokens live two hours, refresh tokens seven days.
pub struct JwtManager {
    pub secret: String,
    pub access_token_expiry_secs: i64,
    pub refresh_token_expiry_secs: i64,
}

impl JwtManager {
    /// A manager with the standard expiries: two hours for access
    /// tokens, seven days for refresh tokens.
    pub fn new(secret: String) -> (m: JwtManager)
        ensures
            m.secret == secret,
            m.access_token_expiry_secs == 7200,
            m.refresh_token_expiry_secs == 604_800,
    {
        JwtManager {
            secret,
            access_token_expiry_secs: 7200,
            refresh_token_expiry_secs: 604_800,
        }
    }

    /// An access token for the user: its claims carry the user id as
    /// subject, the username and role as given, and an expiry one
    /// access-token lifetime past the clock reading taken during the
    /// call.  Failures surface as `InternalServer`.
    pub fn generate_access_token(&self, user_id: &str, username: &str, role: &str) -> (r: Result<
        String,
        crate::error::Error,
    >)
        ensures
            r is Ok ==> exists|now: int, exp: int|
                #![trigger jwt_token_of(self.secret@, user_id@, user_id@, username@, role@, now, exp)]
                exp == now + self.access_token_expiry_secs
                    && r->Ok_0@ == jwt_token_of(
                    self.secret@,
                    user_id@,
                    user_id@,
                    username@,
                    role@,
                    now,
                    exp,
                ),
            r is Err ==> r->Err_0 is InternalServer,
    {
        let now = current_timestamp();
        match now.checked_add(self.access_token_expiry_secs) {
            None => Err(
                crate::error::Error::InternalServer(
                    "Failed to generate token: expiry out of range".to_owned(),
                ),
            ),
            Some(exp) => {
                let claims = make_claims(user_id, username, role, now, exp);
                match encode_claims(
                    self.secret.as_str(),
                    claims.sub.as_str(),
                    claims.user_id.as_str(),
                    claims.username.as_str(),
                    claims.role.as_str(),
                    claims.iat,
                    claims.exp,
                ) {
                    Ok(t) => Ok(t),
                    Err(e) => {
                        let m = jwt_error_string(&e);
                        Err(
                            crate::error::Error::InternalServer(
                                concat("Failed to generate token: ", m.as_str()),
                            ),
                        )
                    },
                }
            },
        }
    }

    /// A refresh token for the user: its claims carry the user id as
    /// subject, an empty username, the fixed role `refresh`, and an
    /// expiry one refresh-token lifetime past the clock reading taken
    /// during the call.  Failures surface as `InternalServer`.
    pub fn generate_refresh_token(&self, user_id: &str, username: &str, role: &str) -> (r: Result<
        String,
        crate::error::Error,
    >)
        ensures
            r is Ok ==> exists|now: int, exp: int|
                #![trigger jwt_token_of(self.secret@, user_id@, user_id@, ""@, "refresh"@, now, exp)]
                exp == now + self.refresh_token_expiry_secs
                    && r->Ok_0@ == jwt_token_of(
                    self.secret@,
                    user_id@,
                    user_id@,
                    ""@,
                    "refresh"@,
                    now,
                    exp,
                ),
            r is Err ==> r->Err_0 is InternalServer,
    {
        let _ = username;
        let _ = role;
        let now = current_timestamp();
        match now.checked_add(self.refresh_token_expiry_secs) {
            None => Err(
                crate::error::Error::InternalServer(
                    "Failed to generate refresh token: expiry out of range".to_owned(),
                ),
            ),
            Some(exp) => {
                let claims = make_claims(user_id, "", "refresh", now, exp);
                match encode_claims(
                    self.secret.as_str(),
                    claims.sub.as_str(),
                    claims.user_id.as_str(),
                    claims.username.as_str(),
                    claims.role.as_str(),
                    claims.iat,
                    claims.exp,
                ) {
                    Ok(t) => Ok(t),
                    Err(e) => {
                        let m = jwt_error_string(&e);
                        Err(
                            crate::error::Error::InternalServer(
                                concat("Failed to generate refresh token: ", m.as_str()),
                            ),
                        )
                    },
                }
            },
        }
    }

    /// The claims of a token that verifies under this manager's secret
    /// and has not expired; a token the crate rejects surfaces as
    /// `Unauthorized`.
    pub fn verify_token(&self, token: &str) -> (r: Result<Claims, crate::error::Error>)
        ensures
            r is Err ==> r->Err_0 is Unauthorized,
    {
        match decode_claims(self.secret.as_str(), token) {
            Ok(fields) => {
                let (sub, user_id, username, role, iat, exp) = fields;
                Ok(Claims { sub, user_id, username, role, iat, exp })
            },
            Err(e) => {
                let m = jwt_error_string(&e);
                Err(crate::error::Error::Unauthorized(concat("Invalid token: ", m.as_str())))
            },
        }
    }
}

/// A registration request.
#[derive(Debug, Clone)]
pub struct RegisterRequest {
    pub username: String,
    pub email: String,
    pub password: String,
}

/// A login request.
#[derive(Debug, Clone)]
pub struct LoginRequest {
    pub email: String,
    pub password: String,
}

/// A token refresh request.
#[derive(Debug, Clone)]
pub struct RefreshRequest {
    pub refresh_token: String,
}

} // verus!
