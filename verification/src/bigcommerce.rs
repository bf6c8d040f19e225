use crate::authentication::AuthenticationError;
use crate::base64url::{b64_encoding, b64url_decode, lemma_b64_injective, lemma_b64_no_dot};
use crate::claims::{
    oauth_response_json, parse_oauth_response_doc, parse_platform_claims_doc,
    platform_claims_json, render_oauth_request,
};
use crate::jsonfmt::json_plain;
use crate::signing::{hs256_sig_b64, verify_hs256};
use crate::token::{find_dot, hs256_header, hs256_header_b64, str_eq, token_message};
use crate::Secret;
use vstd::prelude::*;
use vstd::string::*;

verus! {

// The host platform's side of the trust layer: its signed load
// tokens, the one-time authorization-code exchange, and the store
// identity both produce.

pub struct BCUser {
    pub id: i32,
    pub email: String,
}

pub struct BCClaims {
    pub user: BCUser,
    pub owner: BCUser,
    pub sub: String,
}

pub struct BCOAuthResponse {
    pub access_token: Secret,
    pub scope: String,
    pub user: BCUser,
    pub context: String,
}

pub struct BCStore {
    pub store_hash: String,
    pub access_token: String,
}

pub struct BCScript {
    pub uuid: String,
    pub api_client_id: String,
    pub enabled: bool,
    pub channel_id: i16,
    pub name: String,
}

pub struct BCListScriptsResponse {
    pub data: Vec<BCScript>,
}

pub struct BCStoreInformationResponse {
    pub secure_url: String,
}

/// A context or subject without the expected '/' separator.
#[derive(Debug)]
pub struct FormatError;

/// A transport failure, or a response of an unexpected shape, during
/// the authorization-code exchange.
#[derive(Debug)]
pub struct TransportError;

/// `i` is the first '/' of `s`.
pub open spec fn first_slash_is(s: Seq<char>, i: int) -> bool {
    &&& 0 <= i < s.len()
    &&& s[i] == '/'
    &&& forall|j: int| 0 <= j < i ==> s[j] != '/'
}

fn find_slash(s: &str) -> (r: Option<usize>)
    ensures
        r matches Some(i) ==> first_slash_is(s@, i as int),
        r is None ==> forall|j: int| 0 <= j < s@.len() ==> s@[j] != '/',
{
    let n = s.unicode_len();
    let mut i: usize = 0;
    while i < n
        invariant
            0 <= i <= n,
            n == s@.len(),
            forall|j: int| 0 <= j < i ==> s@[j] != '/',
        decreases n - i,
    {
        if s.get_char(i) == '/' {
            return Some(i);
        }
        i = i + 1;
    }
    None
}

impl BCClaims {
    /// The store hash is the suffix of `sub` after its first '/'.
    pub fn get_store_hash(&self) -> (r: Result<&str, FormatError>)
        ensures
            r matches Ok(h) ==> exists|i: int|
                #[trigger] first_slash_is(self.sub@, i) && h@ == self.sub@.skip(i + 1),
            r is Err <==> forall|j: int| 0 <= j < self.sub@.len() ==> self.sub@[j] != '/',
    {
        let s = self.sub.as_str();
        let n = s.unicode_len();
        match find_slash(s) {
            Some(i) => {
                let h = s.substring_char(i + 1, n);
                proof {
                    assert(h@ =~= self.sub@.skip(i + 1));
                }
                Ok(h)
            },
            None => Err(FormatError),
        }
    }
}

impl BCOAuthResponse {
    /// Derive the store identity: the store hash from `context`, and
    /// the access token revealed for the one place that stores it.
    pub fn get_bigcommerce_store(&self) -> (r: Result<BCStore, FormatError>)
        ensures
            r matches Ok(st) ==> (exists|i: int|
                #[trigger] first_slash_is(self.context@, i) && st.store_hash@ == self.context@.skip(
                    i + 1,
                )) && st.access_token@ == self.access_token@,
            r is Err <==> forall|j: int|
                0 <= j < self.context@.len() ==> self.context@[j] != '/',
    {
        let s = self.context.as_str();
        let n = s.unicode_len();
        match find_slash(s) {
            Some(i) => {
                let h = s.substring_char(i + 1, n);
                proof {
                    assert(h@ =~= self.context@.skip(i + 1));
                }
                Ok(
                    BCStore {
                        store_hash: h.to_owned(),
                        access_token: self.access_token.expose_secret().clone(),
                    },
                )
            },
            None => Err(FormatError),
        }
    }
}

/// A context of the form `prefix + "/" + hash` with a '/'-free
/// prefix splits at that '/' and yields exactly `hash`; composed
/// with the parse contract of `parse_oauth_response` and the ensures
/// of `get_bigcommerce_store`, the store identity derived from an
/// exchange response is the suffix of its context after the first
/// separator, carrying the response's access token.
pub proof fn lemma_first_slash_split(p: Seq<char>, h: Seq<char>)
    requires
        forall|j: int| 0 <= j < p.len() ==> p[j] != '/',
    ensures
        first_slash_is(p + seq!['/'] + h, p.len() as int),
        (p + seq!['/'] + h).skip(p.len() as int + 1) == h,
        forall|i: int| first_slash_is(p + seq!['/'] + h, i) ==> i == p.len() as int,
{
    let c = p + seq!['/'] + h;
    assert(c[p.len() as int] == '/');
    assert forall|j: int| 0 <= j < p.len() implies c[j] != '/' by {
        assert(c[j] == p[j]);
    }
    assert(c.skip(p.len() as int + 1) =~= h);
    assert forall|i: int| first_slash_is(c, i) implies i == p.len() as int by {
        if i < p.len() {
            assert(c[i] == p[i]);
        }
    }
}

/// The token endpoint of the platform's login host.
pub fn get_oauth2_url(login_base_url: &str) -> (r: String)
    ensures
        r@ == login_base_url@ + "/oauth2/token"@,
{
    let mut r = login_base_url.to_owned();
    r.append("/oauth2/token");
    r
}

/// The install callback this app registers under its own base URL.
pub fn install_callback_url(callback_base_url: &str) -> (r: String)
    ensures
        r@ == callback_base_url@ + "/bigcommerce/install"@,
{
    let mut r = callback_base_url.to_owned();
    r.append("/bigcommerce/install");
    r
}

/// The script collection of a store.
pub fn get_scripts_route(api_base_url: &str, store_hash: &str) -> (r: String)
    ensures
        r@ == api_base_url@ + "/stores/"@ + store_hash@ + "/v3/content/scripts"@,
{
    let mut r = api_base_url.to_owned();
    r.append("/stores/");
    r.append(store_hash);
    r.append("/v3/content/scripts");
    r
}

/// The store-information resource of a store.
pub fn get_store_information_route(api_base_url: &str, store_hash: &str) -> (r: String)
    ensures
        r@ == api_base_url@ + "/stores/"@ + store_hash@ + "/v2/store"@,
{
    let mut r = api_base_url.to_owned();
    r.append("/stores/");
    r.append(store_hash);
    r.append("/v2/store");
    r
}

/// One script of a store's collection.
pub fn get_scripts_route_with_id(api_base_url: &str, store_hash: &str, script_id: &str) -> (r:
    String)
    ensures
        r@ == api_base_url@ + "/stores/"@ + store_hash@ + "/v3/content/scripts"@ + "/"@
            + script_id@,
{
    let mut r = get_scripts_route(api_base_url, store_hash);
    r.append("/");
    r.append(script_id);
    r
}

/// The first script with the given name, if any.
pub fn find_script_with_name(scripts: &BCListScriptsResponse, name: &str) -> (r: Option<usize>)
    ensures
        r matches Some(i) ==> i < scripts.data@.len() && scripts.data@[i as int].name@ == name@
            && forall|j: int| 0 <= j < i ==> scripts.data@[j].name@ != name@,
        r is None ==> forall|j: int|
            0 <= j < scripts.data@.len() ==> scripts.data@[j].name@ != name@,
{
    let n = scripts.data.len();
    let mut i: usize = 0;
    while i < n
        invariant
            0 <= i <= n,
            n == scripts.data@.len(),
            forall|j: int| 0 <= j < i ==> scripts.data@[j].name@ != name@,
        decreases n - i,
    {
        if str_eq(scripts.data[i].name.as_str(), name) {
            return Some(i);
        }
        i = i + 1;
    }
    None
}

/// The JSON body of the authorization-code exchange request.
pub fn oauth_request_body(
    client_id: &str,
    client_secret: &Secret,
    callback_base_url: &str,
    code: &str,
    scope: &str,
    context: &str,
) -> (r: Vec<u8>)
    requires
        json_plain(client_id@),
        json_plain(client_secret@),
        json_plain(callback_base_url@ + "/bigcommerce/install"@),
        json_plain(code@),
        json_plain(scope@),
        json_plain(context@),
    ensures
        r@ == crate::claims::oauth_request_json(
            client_id@,
            client_secret@,
            callback_base_url@ + "/bigcommerce/install"@,
            code@,
            scope@,
            context@,
        ),
{
    let redirect = install_callback_url(callback_base_url);
    render_oauth_request(
        client_id,
        client_secret.expose_secret().as_str(),
        redirect.as_str(),
        code,
        scope,
        context,
    )
}

/// Parse the body of the token endpoint's response; anything but the
/// one fixed rendering of the expected object - including the same
/// object with reordered members, whitespace, escapes or extra
/// members - is a transport-level fault.
pub fn parse_oauth_response(body: &Vec<u8>) -> (r: Result<BCOAuthResponse, TransportError>)
    ensures
        r matches Ok(resp) ==> json_plain(resp.access_token@) && json_plain(resp.scope@)
            && json_plain(resp.user.email@) && json_plain(resp.context@) && body@
            == oauth_response_json(
            resp.access_token@,
            resp.scope@,
            resp.user.id as int,
            resp.user.email@,
            resp.context@,
        ),
        forall|at: Seq<char>, scope: Seq<char>, uid: i64, ue: Seq<char>, ctx: Seq<char>|
            json_plain(at) && json_plain(scope) && json_plain(ue) && json_plain(ctx) && body@
                == oauth_response_json(at, scope, uid as int, ue, ctx) && i32::MIN <= uid
                <= i32::MAX ==> (r matches Ok(resp) && resp.access_token@ == at && resp.scope@
                == scope && resp.user.id == uid && resp.user.email@ == ue && resp.context@ == ctx),
{
    let parsed = match parse_oauth_response_doc(body) {
        Some(t) => t,
        None => {
            return Err(TransportError);
        },
    };
    let (at, scope, uid, uemail, ctx) = parsed;
    if uid < -2147483648i64 || uid > 2147483647i64 {
        proof {
            assert forall|
                at2: Seq<char>,
                scope2: Seq<char>,
                uid2: i64,
                ue2: Seq<char>,
                ctx2: Seq<char>,
            |
                #![trigger oauth_response_json(at2, scope2, uid2 as int, ue2, ctx2)]
                !(json_plain(at2) && json_plain(scope2) && json_plain(ue2) && json_plain(ctx2)
                    && body@ == oauth_response_json(at2, scope2, uid2 as int, ue2, ctx2)
                    && i32::MIN <= uid2 <= i32::MAX) by {}
        }
        return Err(TransportError);
    }
    Ok(
        BCOAuthResponse {
            access_token: Secret::new(at),
            scope,
            user: BCUser { id: uid as i32, email: uemail },
            context: ctx,
        },
    )
}

// Platform load tokens: the same three-segment wire format as app
// session tokens, but signed with HMAC-SHA-256 under the app's
// client secret and carrying the platform's claim document.

/// A platform token for the given claim values under `key`.
pub open spec fn platform_token(
    key: Seq<char>,
    uid: int,
    ue: Seq<char>,
    oid: int,
    oe: Seq<char>,
    sub: Seq<char>,
    exp: int,
) -> Seq<char> {
    let msg = token_message(hs256_header(), platform_claims_json(uid, ue, oid, oe, sub, exp));
    msg + seq!['.'] + hs256_sig_b64(key, msg)
}

/// `tok` is the platform token of exactly these claim values.
pub open spec fn is_platform_token(
    tok: Seq<char>,
    key: Seq<char>,
    uid: i64,
    ue: Seq<char>,
    oid: i64,
    oe: Seq<char>,
    sub: Seq<char>,
    exp: i64,
) -> bool {
    &&& json_plain(ue)
    &&& json_plain(oe)
    &&& json_plain(sub)
    &&& tok == platform_token(key, uid as int, ue, oid as int, oe, sub, exp as int)
}

/// Where each segment of a platform token sits.
proof fn lemma_platform_token_structure(
    tok: Seq<char>,
    key: Seq<char>,
    uid: i64,
    ue: Seq<char>,
    oid: i64,
    oe: Seq<char>,
    sub: Seq<char>,
    exp: i64,
)
    requires
        is_platform_token(tok, key, uid, ue, oid, oe, sub, exp),
    ensures
        ({
            let doc = platform_claims_json(uid as int, ue, oid as int, oe, sub, exp as int);
            let h = b64_encoding(hs256_header());
            let c = b64_encoding(doc);
            let msg = token_message(hs256_header(), doc);
            let sig = hs256_sig_b64(key, msg);
            let lh = h.len() as int;
            let lc = c.len() as int;
            &&& tok.len() == lh + 1 + lc + 1 + sig.len()
            &&& tok.subrange(0, lh) == h
            &&& tok[lh] == '.'
            &&& tok.subrange(lh + 1, lh + 1 + lc) == c
            &&& tok[lh + 1 + lc] == '.'
            &&& tok.subrange(lh + lc + 2, tok.len() as int) == sig
            &&& tok.subrange(0, lh + 1 + lc) == msg
            &&& (forall|j: int| 0 <= j < lh ==> tok[j] != '.')
            &&& (forall|j: int| lh + 1 <= j < lh + 1 + lc ==> tok[j] != '.')
        }),
{
    let doc = platform_claims_json(uid as int, ue, oid as int, oe, sub, exp as int);
    let h = b64_encoding(hs256_header());
    let c = b64_encoding(doc);
    let msg = token_message(hs256_header(), doc);
    let sig = hs256_sig_b64(key, msg);
    let lh = h.len() as int;
    let lc = c.len() as int;
    assert(tok.subrange(0, lh) =~= h);
    assert(tok.subrange(lh + 1, lh + 1 + lc) =~= c);
    assert(tok.subrange(lh + lc + 2, tok.len() as int) =~= sig);
    assert(tok.subrange(0, lh + 1 + lc) =~= msg);
    lemma_b64_no_dot(hs256_header());
    lemma_b64_no_dot(doc);
    assert forall|j: int| 0 <= j < lh implies tok[j] != '.' by {
        assert(tok[j] == h[j]);
    }
    assert forall|j: int| lh + 1 <= j < lh + 1 + lc implies tok[j] != '.' by {
        assert(tok[j] == c[j - lh - 1]);
    }
}

/// Some unexpired platform token under `key` decodes to exactly the
/// claim values of `c`.
pub open spec fn decodes_platform_token(tok: Seq<char>, key: Seq<char>, c: BCClaims, now: i64) -> bool {
    exists|exp: i64|
        #[trigger] is_platform_token(
            tok,
            key,
            c.user.id as i64,
            c.user.email@,
            c.owner.id as i64,
            c.owner.email@,
            c.sub@,
            exp,
        ) && exp > now
}

/// Validate a platform load token against the given instant, under
/// the HMAC-SHA-256 domain keyed by the app's client secret.  The
/// header and claim document are accepted in their one fixed
/// rendering only: a correctly signed token whose JSON is spelled
/// otherwise, or which carries claims beyond user, owner, sub and
/// exp, is rejected as invalid.
#[verifier::rlimit(100)]
pub fn decode_jwt(token: &str, client_secret: &Secret, now: i64) -> (r: Result<
    BCClaims,
    AuthenticationError,
>)
    ensures
        r matches Ok(c) ==> decodes_platform_token(token@, client_secret@, c, now),
        r matches Err(e) ==> e is InvalidTokenError,
        forall|uid: i64, ue: Seq<char>, oid: i64, oe: Seq<char>, sub: Seq<char>, exp: i64|
            (#[trigger] is_platform_token(token@, client_secret@, uid, ue, oid, oe, sub, exp)
                && i32::MIN <= uid <= i32::MAX && i32::MIN <= oid <= i32::MAX && exp > now) ==> (
            r matches Ok(c) && c.user.id == uid && c.user.email@ == ue && c.owner.id == oid
                && c.owner.email@ == oe && c.sub@ == sub),
{
    let ghost key = client_secret@;
    let n = token.unicode_len();
    let i1 = match find_dot(token, 0) {
        Some(i) => i,
        None => {
            proof {
                assert forall|uid: i64, ue: Seq<char>, oid: i64, oe: Seq<char>, sub: Seq<char>, exp: i64|
                    !#[trigger] is_platform_token(token@, key, uid, ue, oid, oe, sub, exp) by {
                    if is_platform_token(token@, key, uid, ue, oid, oe, sub, exp) {
                        lemma_platform_token_structure(token@, key, uid, ue, oid, oe, sub, exp);
                        assert(token@[b64_encoding(hs256_header()).len() as int] == '.');
                    }
                }
            }
            return Err(AuthenticationError::InvalidTokenError);
        },
    };
    let i2 = match find_dot(token, i1 + 1) {
        Some(i) => i,
        None => {
            proof {
                assert forall|uid: i64, ue: Seq<char>, oid: i64, oe: Seq<char>, sub: Seq<char>, exp: i64|
                    !#[trigger] is_platform_token(token@, key, uid, ue, oid, oe, sub, exp) by {
                    if is_platform_token(token@, key, uid, ue, oid, oe, sub, exp) {
                        lemma_platform_token_structure(token@, key, uid, ue, oid, oe, sub, exp);
                        let lh = b64_encoding(hs256_header()).len() as int;
                        let lc = b64_encoding(
                            platform_claims_json(uid as int, ue, oid as int, oe, sub, exp as int),
                        ).len() as int;
                        assert(i1 == lh);
                        assert(token@[lh + 1 + lc] == '.');
                    }
                }
            }
            return Err(AuthenticationError::InvalidTokenError);
        },
    };
    let header = token.substring_char(0, i1);
    let payload = token.substring_char(i1 + 1, i2);
    let sig = token.substring_char(i2 + 1, n);
    let msg = token.substring_char(0, i2);
    let canon = hs256_header_b64();
    proof {
        assert forall|uid: i64, ue: Seq<char>, oid: i64, oe: Seq<char>, sub: Seq<char>, exp: i64|
            #[trigger] is_platform_token(token@, key, uid, ue, oid, oe, sub, exp) implies ({
            let lh = b64_encoding(hs256_header()).len() as int;
            let lc = b64_encoding(
                platform_claims_json(uid as int, ue, oid as int, oe, sub, exp as int),
            ).len() as int;
            i1 == lh && i2 == lh + 1 + lc
        }) by {
            lemma_platform_token_structure(token@, key, uid, ue, oid, oe, sub, exp);
            let lh = b64_encoding(hs256_header()).len() as int;
            let lc = b64_encoding(
                platform_claims_json(uid as int, ue, oid as int, oe, sub, exp as int),
            ).len() as int;
            assert(i1 == lh);
            assert(token@[lh + 1 + lc] == '.');
            assert(i2 <= lh + 1 + lc);
            if i2 < lh + 1 + lc {
                assert(token@[i2 as int] != '.');
            }
        }
    }
    if !str_eq(header, canon.as_str()) {
        proof {
            assert forall|uid: i64, ue: Seq<char>, oid: i64, oe: Seq<char>, sub: Seq<char>, exp: i64|
                !#[trigger] is_platform_token(token@, key, uid, ue, oid, oe, sub, exp) by {
                if is_platform_token(token@, key, uid, ue, oid, oe, sub, exp) {
                    lemma_platform_token_structure(token@, key, uid, ue, oid, oe, sub, exp);
                    assert(header@ == b64_encoding(hs256_header()));
                }
            }
        }
        return Err(AuthenticationError::InvalidTokenError);
    }
    if !verify_hs256(sig, msg, client_secret.expose_secret().as_str()) {
        proof {
            assert forall|uid: i64, ue: Seq<char>, oid: i64, oe: Seq<char>, sub: Seq<char>, exp: i64|
                !#[trigger] is_platform_token(token@, key, uid, ue, oid, oe, sub, exp) by {
                if is_platform_token(token@, key, uid, ue, oid, oe, sub, exp) {
                    lemma_platform_token_structure(token@, key, uid, ue, oid, oe, sub, exp);
                    let m = token_message(
                        hs256_header(),
                        platform_claims_json(uid as int, ue, oid as int, oe, sub, exp as int),
                    );
                    assert(msg@ == m);
                    assert(sig@ == hs256_sig_b64(key, m));
                }
            }
        }
        return Err(AuthenticationError::InvalidTokenError);
    }
    let bytes = match b64url_decode(payload) {
        Some(v) => v,
        None => {
            proof {
                assert forall|uid: i64, ue: Seq<char>, oid: i64, oe: Seq<char>, sub: Seq<char>, exp: i64|
                    !#[trigger] is_platform_token(token@, key, uid, ue, oid, oe, sub, exp) by {
                    if is_platform_token(token@, key, uid, ue, oid, oe, sub, exp) {
                        lemma_platform_token_structure(token@, key, uid, ue, oid, oe, sub, exp);
                        assert(payload@ == b64_encoding(
                            platform_claims_json(uid as int, ue, oid as int, oe, sub, exp as int),
                        ));
                    }
                }
            }
            return Err(AuthenticationError::InvalidTokenError);
        },
    };
    let parsed = match parse_platform_claims_doc(&bytes) {
        Some(t) => t,
        None => {
            proof {
                assert forall|uid: i64, ue: Seq<char>, oid: i64, oe: Seq<char>, sub: Seq<char>, exp: i64|
                    !#[trigger] is_platform_token(token@, key, uid, ue, oid, oe, sub, exp) by {
                    if is_platform_token(token@, key, uid, ue, oid, oe, sub, exp) {
                        lemma_platform_token_structure(token@, key, uid, ue, oid, oe, sub, exp);
                        assert(payload@ == b64_encoding(
                            platform_claims_json(uid as int, ue, oid as int, oe, sub, exp as int),
                        ));
                        lemma_b64_injective(
                            bytes@,
                            platform_claims_json(uid as int, ue, oid as int, oe, sub, exp as int),
                        );
                    }
                }
            }
            return Err(AuthenticationError::InvalidTokenError);
        },
    };
    let (uidv, uemv, oidv, oemv, subv, expv) = parsed;
    proof {
        assert forall|uid: i64, ue: Seq<char>, oid: i64, oe: Seq<char>, sub: Seq<char>, exp: i64|
            #[trigger] is_platform_token(token@, key, uid, ue, oid, oe, sub, exp) implies (uid
            == uidv && ue == uemv@ && oid == oidv && oe == oemv@ && sub == subv@ && exp
            == expv) by {
            lemma_platform_token_structure(token@, key, uid, ue, oid, oe, sub, exp);
            assert(payload@ == b64_encoding(
                platform_claims_json(uid as int, ue, oid as int, oe, sub, exp as int),
            ));
            lemma_b64_injective(
                bytes@,
                platform_claims_json(uid as int, ue, oid as int, oe, sub, exp as int),
            );
        }
    }
    if expv <= now {
        return Err(AuthenticationError::InvalidTokenError);
    }
    if uidv < -2147483648i64 || uidv > 2147483647i64 || oidv < -2147483648i64 || oidv
        > 2147483647i64 {
        return Err(AuthenticationError::InvalidTokenError);
    }
    let c = BCClaims {
        user: BCUser { id: uidv as i32, email: uemv },
        owner: BCUser { id: oidv as i32, email: oemv },
        sub: subv,
    };
    proof {
        assert(token@ =~= platform_token(
            key,
            c.user.id as int,
            c.user.email@,
            c.owner.id as int,
            c.owner.email@,
            c.sub@,
            expv as int,
        )) by {
            assert(header@ == b64_encoding(hs256_header()));
            assert(payload@ == b64_encoding(bytes@));
            assert(bytes@ == platform_claims_json(
                c.user.id as int,
                c.user.email@,
                c.owner.id as int,
                c.owner.email@,
                c.sub@,
                expv as int,
            ));
            assert(msg@ =~= token_message(hs256_header(), bytes@));
            assert(sig@ == hs256_sig_b64(key, msg@));
        }
        assert(is_platform_token(
            token@,
            client_secret@,
            c.user.id as i64,
            c.user.email@,
            c.owner.id as i64,
            c.owner.email@,
            c.sub@,
            expv,
        ));
        assert(decodes_platform_token(token@, client_secret@, c, now));
    }
    Ok(c)
}

} // verus!
