use crate::base64url::{b64_encoding, b64url_decode, b64url_encode, lemma_b64_injective};
use crate::claims::{parse_session_claims, render_session_claims, session_claims_json};
use crate::jsonfmt::json_plain;
use crate::signing::{hs512_sig_b64, now_unix, sign_hs512, verify_hs512};
use crate::token::{
    find_dot, hs512_header, hs512_header_b64, is_session_token, lemma_session_token_structure,
    session_token, str_eq, token_message,
};
use crate::JWTSecret;
use vstd::prelude::*;
use vstd::string::*;

verus! {

// App session tokens: issuance, validation, and the request-time
// credential-extraction contract layered over them.

/// The decoded claim set of an app session token.
#[derive(Debug)]
pub struct AuthClaims {
    pub sub: String,
    pub role: String,
    pub exp: i64,
}

/// The authenticated principal a gate-only check leaves behind.
pub struct AuthorizedUser(pub String);

/// The two outcomes a failed authentication collapses to: a bad or
/// missing credential, or a broken deployment.
#[derive(Debug)]
pub enum AuthenticationError {
    InvalidTokenError,
    UnexpectedError,
}

impl AuthenticationError {
    /// Status mapping at the request-pipeline boundary.
    pub fn status_code(&self) -> (r: u16)
        ensures
            self is InvalidTokenError ==> r == 401,
            self is UnexpectedError ==> r == 500,
    {
        match self {
            AuthenticationError::InvalidTokenError => 401,
            AuthenticationError::UnexpectedError => 500,
        }
    }
}

/// A subject an app session token may be issued for.
pub open spec fn valid_subject(s: Seq<char>) -> bool {
    json_plain(s) && s.len() > 0
}

pub proof fn lemma_user_role_plain()
    ensures
        json_plain("user"@),
        "user"@.len() == 4,
{
    reveal_strlit("user");
    assert forall|i: int| 0 <= i < "user"@.len() implies crate::jsonfmt::plain_char(
        #[trigger] "user"@[i],
    ) by {
        assert(('u' as u32) == 117 && ('s' as u32) == 115 && ('e' as u32) == 101 && ('r' as u32)
            == 114);
    }
}

/// Issue an app session token whose expiry is the given instant plus
/// one hour, signed under the HMAC-SHA-512 domain.  Issuance always
/// succeeds: the HMAC signing call cannot fail for a secret-bytes
/// key.
pub fn create_jwt_at(store_hash: &str, secret: &JWTSecret, now: i64) -> (r: Result<
    String,
    AuthenticationError,
>)
    requires
        valid_subject(store_hash@),
        now + 3600 <= i64::MAX,
    ensures
        r matches Ok(t) && t@ == session_token(secret@, store_hash@, "user"@, now + 3600)
            && hs512_sig_b64(
            secret@,
            token_message(hs512_header(), session_claims_json(store_hash@, "user"@, now + 3600)),
        ).len() == 86,
{
    proof {
        lemma_user_role_plain();
    }
    let exp = now + 3600;
    let claims = render_session_claims(store_hash, "user", exp);
    let mut msg = hs512_header_b64();
    msg.append(".");
    let c64 = b64url_encode(&claims);
    msg.append(c64.as_str());
    proof {
        reveal_strlit(".");
        assert(msg@ =~= token_message(
            hs512_header(),
            session_claims_json(store_hash@, "user"@, exp as int),
        ));
    }
    let sig = sign_hs512(secret.0.expose_secret().as_str(), msg.as_str()).unwrap();
    let mut token = msg;
    token.append(".");
    token.append(sig.as_str());
    proof {
        reveal_strlit(".");
        assert(token@ =~= session_token(secret@, store_hash@, "user"@, exp as int));
    }
    Ok(token)
}

/// Issue an app session token expiring one hour from the current
/// time; the only failure is a clock reading too near the `i64`
/// expiry limit.
pub fn create_jwt(store_hash: &str, secret: &JWTSecret) -> (r: Result<
    String,
    AuthenticationError,
>)
    requires
        valid_subject(store_hash@),
    ensures
        r matches Ok(t) ==> exists|exp: i64|
            #[trigger] is_session_token(t@, secret@, store_hash@, "user"@, exp)
                && hs512_sig_b64(
                secret@,
                token_message(
                    hs512_header(),
                    session_claims_json(store_hash@, "user"@, exp as int),
                ),
            ).len() == 86,
        r matches Err(e) ==> e is UnexpectedError,
{
    let now = now_unix();
    if now > i64::MAX - 3600 {
        return Err(AuthenticationError::UnexpectedError);
    }
    let t = create_jwt_at(store_hash, secret, now).unwrap();
    proof {
        lemma_user_role_plain();
        assert(is_session_token(t@, secret@, store_hash@, "user"@, (now + 3600) as i64));
    }
    Ok(t)
}

/// Validate an app session token against the given instant: exactly
/// the well-formed tokens signed under `secret` and not yet expired
/// decode, and they decode to their own claim values.  Well-formed
/// means the one fixed rendering that `create_jwt_at` produces;
/// issuer and validator agree byte for byte, so the restriction is
/// invisible for self-issued tokens.
#[verifier::rlimit(80)]
pub fn decode_token_at(token: &str, secret: &JWTSecret, now: i64) -> (r: Result<
    AuthClaims,
    AuthenticationError,
>)
    ensures
        r matches Ok(c) ==> is_session_token(token@, secret@, c.sub@, c.role@, c.exp) && c.exp
            > now,
        r matches Err(e) ==> e is InvalidTokenError,
        forall|sub: Seq<char>, role: Seq<char>, exp: i64|
            is_session_token(token@, secret@, sub, role, exp) && exp > now ==> (r matches Ok(c)
                && c.sub@ == sub && c.role@ == role && c.exp == exp),
        forall|sub: Seq<char>, role: Seq<char>, exp: i64|
            is_session_token(token@, secret@, sub, role, exp) && exp <= now ==> r is Err,
{
    let ghost key = secret@;
    let n = token.unicode_len();
    let i1 = match find_dot(token, 0) {
        Some(i) => i,
        None => {
            proof {
                assert forall|sub: Seq<char>, role: Seq<char>, exp: i64| !is_session_token(
                    token@,
                    key,
                    sub,
                    role,
                    exp,
                ) by {
                    if is_session_token(token@, key, sub, role, exp) {
                        lemma_session_token_structure(token@, key, sub, role, exp);
                        assert(token@[b64_encoding(hs512_header()).len() as int] == '.');
                    }
                }
            }
            return Err(AuthenticationError::InvalidTokenError);
        },
    };
    let i2 = match find_dot(token, i1 + 1) {
        Some(i) => i,
        None => {
            proof {
                assert forall|sub: Seq<char>, role: Seq<char>, exp: i64| !is_session_token(
                    token@,
                    key,
                    sub,
                    role,
                    exp,
                ) by {
                    if is_session_token(token@, key, sub, role, exp) {
                        lemma_session_token_structure(token@, key, sub, role, exp);
                        let lh = b64_encoding(hs512_header()).len() as int;
                        let lc = b64_encoding(
                            session_claims_json(sub, role, exp as int),
                        ).len() as int;
                        assert(i1 == lh);
                        assert(token@[lh + 1 + lc] == '.');
                    }
                }
            }
            return Err(AuthenticationError::InvalidTokenError);
        },
    };
    let header = token.substring_char(0, i1);
    let payload = token.substring_char(i1 + 1, i2);
    let sig = token.substring_char(i2 + 1, n);
    let msg = token.substring_char(0, i2);
    let canon = hs512_header_b64();
    proof {
        assert forall|sub: Seq<char>, role: Seq<char>, exp: i64|
            is_session_token(token@, key, sub, role, exp) implies ({
            let lh = b64_encoding(hs512_header()).len() as int;
            let lc = b64_encoding(session_claims_json(sub, role, exp as int)).len() as int;
            i1 == lh && i2 == lh + 1 + lc
        }) by {
            lemma_session_token_structure(token@, key, sub, role, exp);
            let lh = b64_encoding(hs512_header()).len() as int;
            let lc = b64_encoding(session_claims_json(sub, role, exp as int)).len() as int;
            assert(i1 == lh);
            assert(token@[lh + 1 + lc] == '.');
            assert(i2 <= lh + 1 + lc);
            if i2 < lh + 1 + lc {
                assert(token@[i2 as int] != '.');
            }
        }
    }
    if !str_eq(header, canon.as_str()) {
        proof {
            assert forall|sub: Seq<char>, role: Seq<char>, exp: i64| !is_session_token(
                token@,
                key,
                sub,
                role,
                exp,
            ) by {
                if is_session_token(token@, key, sub, role, exp) {
                    lemma_session_token_structure(token@, key, sub, role, exp);
                    assert(header@ == b64_encoding(hs512_header()));
                }
            }
        }
        return Err(AuthenticationError::InvalidTokenError);
    }
    if !verify_hs512(sig, msg, secret.0.expose_secret().as_str()) {
        proof {
            assert forall|sub: Seq<char>, role: Seq<char>, exp: i64| !is_session_token(
                token@,
                key,
                sub,
                role,
                exp,
            ) by {
                if is_session_token(token@, key, sub, role, exp) {
                    lemma_session_token_structure(token@, key, sub, role, exp);
                    let m = token_message(hs512_header(), session_claims_json(sub, role, exp as int));
                    assert(msg@ == m);
                    assert(sig@ == hs512_sig_b64(key, m));
                }
            }
        }
        return Err(AuthenticationError::InvalidTokenError);
    }
    let bytes = match b64url_decode(payload) {
        Some(v) => v,
        None => {
            proof {
                assert forall|sub: Seq<char>, role: Seq<char>, exp: i64| !is_session_token(
                    token@,
                    key,
                    sub,
                    role,
                    exp,
                ) by {
                    if is_session_token(token@, key, sub, role, exp) {
                        lemma_session_token_structure(token@, key, sub, role, exp);
                        assert(payload@ == b64_encoding(session_claims_json(sub, role, exp as int)));
                    }
                }
            }
            return Err(AuthenticationError::InvalidTokenError);
        },
    };
    let parsed = match parse_session_claims(&bytes) {
        Some(t) => t,
        None => {
            proof {
                assert forall|sub: Seq<char>, role: Seq<char>, exp: i64| !is_session_token(
                    token@,
                    key,
                    sub,
                    role,
                    exp,
                ) by {
                    if is_session_token(token@, key, sub, role, exp) {
                        lemma_session_token_structure(token@, key, sub, role, exp);
                        assert(payload@ == b64_encoding(session_claims_json(sub, role, exp as int)));
                        lemma_b64_injective(bytes@, session_claims_json(sub, role, exp as int));
                    }
                }
            }
            return Err(AuthenticationError::InvalidTokenError);
        },
    };
    let (sub, role, exp) = parsed;
    proof {
        assert forall|sub2: Seq<char>, role2: Seq<char>, exp2: i64|
            is_session_token(token@, key, sub2, role2, exp2) implies sub2 == sub@ && role2
            == role@ && exp2 == exp by {
            lemma_session_token_structure(token@, key, sub2, role2, exp2);
            assert(payload@ == b64_encoding(session_claims_json(sub2, role2, exp2 as int)));
            lemma_b64_injective(bytes@, session_claims_json(sub2, role2, exp2 as int));
        }
    }
    if exp > now {
        let c = AuthClaims { sub, role, exp };
        proof {
            assert(token@ =~= session_token(key, c.sub@, c.role@, c.exp as int)) by {
                assert(header@ == b64_encoding(hs512_header()));
                assert(payload@ == b64_encoding(bytes@));
                assert(bytes@ == session_claims_json(c.sub@, c.role@, c.exp as int));
                assert(msg@ =~= token_message(hs512_header(), bytes@));
                assert(sig@ == hs512_sig_b64(key, msg@));
            }
            assert(is_session_token(token@, key, c.sub@, c.role@, c.exp));
        }
        Ok(c)
    } else {
        Err(AuthenticationError::InvalidTokenError)
    }
}

/// Validate an app session token against the current time.
pub fn decode_token(token: &str, secret: &JWTSecret) -> (r: Result<
    AuthClaims,
    AuthenticationError,
>)
    ensures
        r matches Ok(c) ==> is_session_token(token@, secret@, c.sub@, c.role@, c.exp),
        r matches Err(e) ==> e is InvalidTokenError,
{
    let now = now_unix();
    decode_token_at(token, secret, now)
}

/// The token of an `Authorization` header, when the scheme is
/// `Bearer`.
pub open spec fn bearer_token_of(h: Seq<char>) -> Option<Seq<char>> {
    if h.len() >= 7 && h.take(7) == "Bearer "@ {
        Some(h.skip(7))
    } else {
        None
    }
}

impl AuthClaims {
    /// The principal-extraction contract: a missing or non-`Bearer`
    /// credential is rejected before any cryptographic work, a
    /// missing signing secret is a deployment defect, and otherwise
    /// the bearer token decides.
    pub fn from_request(
        authorization: Option<&str>,
        jwt_secret: Option<&JWTSecret>,
        now: i64,
    ) -> (r: Result<AuthClaims, AuthenticationError>)
        ensures
            jwt_secret is None <==> (r matches Err(e) && e is UnexpectedError),
            jwt_secret is Some && authorization is None ==> (r matches Err(e) && e
                is InvalidTokenError),
            jwt_secret matches Some(ks) && authorization matches Some(h) && bearer_token_of(h@)
                is None ==> (r matches Err(e) && e is InvalidTokenError),
            r matches Ok(c) ==> ({
                &&& jwt_secret matches Some(ks)
                &&& authorization matches Some(h)
                &&& bearer_token_of(h@) matches Some(tok) && is_session_token(
                    tok,
                    ks@,
                    c.sub@,
                    c.role@,
                    c.exp,
                ) && c.exp > now
            }),
            forall|sub: Seq<char>, role: Seq<char>, exp: i64|
                ({
                    &&& jwt_secret is Some
                    &&& authorization is Some
                    &&& bearer_token_of(authorization->0@) is Some
                    &&& #[trigger] is_session_token(
                        bearer_token_of(authorization->0@)->0,
                        jwt_secret->0@,
                        sub,
                        role,
                        exp,
                    )
                    &&& exp > now
                }) ==> ({
                    &&& r matches Ok(c)
                    &&& c.sub@ == sub
                    &&& c.role@ == role
                    &&& c.exp == exp
                }),
    {
        let ks = match jwt_secret {
            Some(ks) => ks,
            None => {
                return Err(AuthenticationError::UnexpectedError);
            },
        };
        let h = match authorization {
            Some(h) => h,
            None => {
                return Err(AuthenticationError::InvalidTokenError);
            },
        };
        let n = h.unicode_len();
        if n < 7 {
            proof {
                reveal_strlit("Bearer ");
            }
            return Err(AuthenticationError::InvalidTokenError);
        }
        let prefix = h.substring_char(0, 7);
        proof {
            reveal_strlit("Bearer ");
        }
        if !str_eq(prefix, "Bearer ") {
            return Err(AuthenticationError::InvalidTokenError);
        }
        let tok = h.substring_char(7, n);
        proof {
            assert(bearer_token_of(h@) == Some(tok@));
        }
        decode_token_at(tok, ks, now)
    }
}

/// Allow or reject a request on its bearer token alone, leaving no
/// principal behind.
pub fn validate_jwt_bearer_token(token: &str, jwt_secret: Option<&JWTSecret>, now: i64) -> (r:
    Result<(), AuthenticationError>)
    ensures
        jwt_secret is None <==> (r matches Err(e) && e is UnexpectedError),
        jwt_secret matches Some(ks) ==> (r is Ok <==> exists|sub: Seq<char>, role: Seq<char>, exp: i64|
            is_session_token(token@, ks@, sub, role, exp) && exp > now),
{
    let ks = match jwt_secret {
        Some(ks) => ks,
        None => {
            return Err(AuthenticationError::UnexpectedError);
        },
    };
    match decode_token_at(token, ks, now) {
        Ok(c) => {
            proof {
                assert(is_session_token(token@, ks@, c.sub@, c.role@, c.exp) && c.exp > now);
            }
            Ok(())
        },
        Err(e) => Err(e),
    }
}

/// The claims of a well-formed token are recovered exactly; combined
/// with the contract of `decode_token_at`, issuing with `create_jwt_at`
/// and validating before the expiry instant returns the subject the
/// token was issued for, with the fixed role and a one-hour lifetime.
pub proof fn lemma_issue_validate_round_trip(key: Seq<char>, sub: Seq<char>, now: i64)
    requires
        valid_subject(sub),
        now + 3600 <= i64::MAX,
    ensures
        is_session_token(
            session_token(key, sub, "user"@, now + 3600),
            key,
            sub,
            "user"@,
            (now + 3600) as i64,
        ),
{
    lemma_user_role_plain();
}

/// Any change to the signature segment of a session token leaves a
/// string that is no session token at all under that key; with the
/// contract of `decode_token_at`, validation rejects it.
pub proof fn lemma_signature_tamper_rejected(
    key: Seq<char>,
    sub: Seq<char>,
    role: Seq<char>,
    exp: i64,
    sig2: Seq<char>,
)
    requires
        json_plain(sub),
        json_plain(role),
        sig2 != hs512_sig_b64(
            key,
            token_message(hs512_header(), session_claims_json(sub, role, exp as int)),
        ),
    ensures
        forall|s2: Seq<char>, r2: Seq<char>, e2: i64| !is_session_token(
            token_message(hs512_header(), session_claims_json(sub, role, exp as int)) + seq!['.']
                + sig2,
            key,
            s2,
            r2,
            e2,
        ),
{
    assert forall|s2: Seq<char>, r2: Seq<char>, e2: i64| !is_session_token(
        token_message(hs512_header(), session_claims_json(sub, role, exp as int)) + seq!['.']
            + sig2,
        key,
        s2,
        r2,
        e2,
    ) by {
        if is_session_token(
            token_message(hs512_header(), session_claims_json(sub, role, exp as int)) + seq!['.']
                + sig2,
            key,
            s2,
            r2,
            e2,
        ) {
            lemma_token_shape_unique(session_claims_json(sub, role, exp as int), sig2, key, s2, r2, e2);
        }
    }
}

/// A token signed under one key is no session token under a key
/// whose tag of the same message differs; with the contract of
/// `decode_token_at`, validation under the second key rejects it.
pub proof fn lemma_wrong_secret_rejected(
    k1: Seq<char>,
    k2: Seq<char>,
    sub: Seq<char>,
    role: Seq<char>,
    exp: i64,
)
    requires
        json_plain(sub),
        json_plain(role),
        hs512_sig_b64(
            k2,
            token_message(hs512_header(), session_claims_json(sub, role, exp as int)),
        ) != hs512_sig_b64(
            k1,
            token_message(hs512_header(), session_claims_json(sub, role, exp as int)),
        ),
    ensures
        forall|s2: Seq<char>, r2: Seq<char>, e2: i64| !is_session_token(
            session_token(k1, sub, role, exp as int),
            k2,
            s2,
            r2,
            e2,
        ),
{
    assert forall|s2: Seq<char>, r2: Seq<char>, e2: i64| !is_session_token(
        session_token(k1, sub, role, exp as int),
        k2,
        s2,
        r2,
        e2,
    ) by {
        if is_session_token(session_token(k1, sub, role, exp as int), k2, s2, r2, e2) {
            lemma_token_shape_unique(
                session_claims_json(sub, role, exp as int),
                hs512_sig_b64(
                    k1,
                    token_message(hs512_header(), session_claims_json(sub, role, exp as int)),
                ),
                k2,
                s2,
                r2,
                e2,
            );
        }
    }
}

/// A string of token shape is a session token only for its own claim
/// document and only with the matching tag.
proof fn lemma_token_shape_unique(
    pay0: Seq<u8>,
    sig0: Seq<char>,
    key: Seq<char>,
    s2: Seq<char>,
    r2: Seq<char>,
    e2: i64,
)
    requires
        is_session_token(token_message(hs512_header(), pay0) + seq!['.'] + sig0, key, s2, r2, e2),
    ensures
        b64_encoding(pay0) == b64_encoding(session_claims_json(s2, r2, e2 as int)),
        sig0 == hs512_sig_b64(key, token_message(hs512_header(), pay0)),
{
    let t = token_message(hs512_header(), pay0) + seq!['.'] + sig0;
    lemma_session_token_structure(t, key, s2, r2, e2);
    let h = b64_encoding(hs512_header());
    let lh = h.len() as int;
    let c0 = b64_encoding(pay0);
    let c2 = b64_encoding(session_claims_json(s2, r2, e2 as int));
    crate::base64url::lemma_b64_no_dot(pay0);
    assert(c0.len() == c2.len()) by {
        if c2.len() < c0.len() {
            assert(t[lh + 1 + c2.len()] == '.');
            assert(t[lh + 1 + c2.len()] == c0[c2.len() as int]);
        }
        if c0.len() < c2.len() {
            assert(t[lh + 1 + c0.len()] == '.');
            assert(t[lh + 1 + c0.len()] == c2[c0.len() as int]);
        }
    }
    assert(c0 =~= t.subrange(lh + 1, lh + 1 + c0.len() as int));
    assert(c0 == c2);
    assert(token_message(hs512_header(), pay0) =~= token_message(
        hs512_header(),
        session_claims_json(s2, r2, e2 as int),
    ));
    assert(sig0 =~= t.subrange(lh + c2.len() + 2, t.len() as int));
}

} // verus!
