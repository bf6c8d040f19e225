use crate::base64url::{b64_encoding, b64url_encode, lemma_b64_no_dot};
use crate::claims::session_claims_json;
use crate::jsonfmt::{ascii_bytes, json_plain, lit_bytes};
use crate::signing::hs512_sig_b64;
use vstd::prelude::*;
use vstd::string::*;

verus! {

// The three-segment token wire format: base64url header, base64url
// claim document, base64url MAC tag, joined by '.'.

/// The header document of an app session token.
pub open spec fn hs512_header() -> Seq<u8> {
    ascii_bytes("{\"typ\":\"JWT\",\"alg\":\"HS512\"}"@)
}

/// The header document of a platform token.
pub open spec fn hs256_header() -> Seq<u8> {
    ascii_bytes("{\"typ\":\"JWT\",\"alg\":\"HS256\"}"@)
}

/// The signed part of a token: encoded header, '.', encoded claims.
pub open spec fn token_message(header: Seq<u8>, payload: Seq<u8>) -> Seq<char> {
    b64_encoding(header) + seq!['.'] + b64_encoding(payload)
}

/// An app session token for the given claim values under `key`.
pub open spec fn session_token(key: Seq<char>, sub: Seq<char>, role: Seq<char>, exp: int) -> Seq<
    char,
> {
    let msg = token_message(hs512_header(), session_claims_json(sub, role, exp));
    msg + seq!['.'] + hs512_sig_b64(key, msg)
}

/// `tok` is the session token of exactly these claim values.
pub open spec fn is_session_token(
    tok: Seq<char>,
    key: Seq<char>,
    sub: Seq<char>,
    role: Seq<char>,
    exp: i64,
) -> bool {
    &&& json_plain(sub)
    &&& json_plain(role)
    &&& tok == session_token(key, sub, role, exp as int)
}

pub fn hs512_header_b64() -> (r: String)
    ensures
        r@ == b64_encoding(hs512_header()),
{
    proof {
        reveal_strlit("{\"typ\":\"JWT\",\"alg\":\"HS512\"}");
        assert(vstd::utf8::is_ascii_chars("{\"typ\":\"JWT\",\"alg\":\"HS512\"}"@));
    }
    let h = lit_bytes("{\"typ\":\"JWT\",\"alg\":\"HS512\"}");
    b64url_encode(&h)
}

pub fn hs256_header_b64() -> (r: String)
    ensures
        r@ == b64_encoding(hs256_header()),
{
    proof {
        reveal_strlit("{\"typ\":\"JWT\",\"alg\":\"HS256\"}");
        assert(vstd::utf8::is_ascii_chars("{\"typ\":\"JWT\",\"alg\":\"HS256\"}"@));
    }
    let h = lit_bytes("{\"typ\":\"JWT\",\"alg\":\"HS256\"}");
    b64url_encode(&h)
}

/// First '.' at or after `from`.
pub fn find_dot(s: &str, from: usize) -> (r: Option<usize>)
    requires
        from <= s@.len(),
    ensures
        r matches Some(i) ==> from <= i < s@.len() && s@[i as int] == '.' && forall|j: int|
            from <= j < i ==> s@[j] != '.',
        r is None ==> forall|j: int| from <= j < s@.len() ==> s@[j] != '.',
{
    let n = s.unicode_len();
    let mut i = from;
    while i < n
        invariant
            from <= i <= n,
            n == s@.len(),
            forall|j: int| from <= j < i ==> s@[j] != '.',
        decreases n - i,
    {
        if s.get_char(i) == '.' {
            return Some(i);
        }
        i = i + 1;
    }
    None
}

/// Character-for-character string equality.
pub fn str_eq(a: &str, b: &str) -> (r: bool)
    ensures
        r == (a@ == b@),
{
    let na = a.unicode_len();
    let nb = b.unicode_len();
    if na != nb {
        proof {
            assert(a@ != b@);
        }
        return false;
    }
    let mut i: usize = 0;
    while i < na
        invariant
            0 <= i <= na,
            na == a@.len(),
            na == b@.len(),
            forall|j: int| 0 <= j < i ==> a@[j] == b@[j],
        decreases na - i,
    {
        if a.get_char(i) != b.get_char(i) {
            return false;
        }
        i = i + 1;
    }
    proof {
        assert(a@ =~= b@);
    }
    true
}

/// Where each segment of a session token sits.
pub proof fn lemma_session_token_structure(
    tok: Seq<char>,
    key: Seq<char>,
    sub: Seq<char>,
    role: Seq<char>,
    exp: i64,
)
    requires
        is_session_token(tok, key, sub, role, exp),
    ensures
        ({
            let h = b64_encoding(hs512_header());
            let c = b64_encoding(session_claims_json(sub, role, exp as int));
            let msg = token_message(hs512_header(), session_claims_json(sub, role, exp as int));
            let sig = hs512_sig_b64(key, msg);
            let lh = h.len() as int;
            let lc = c.len() as int;
            &&& tok.len() == lh + 1 + lc + 1 + sig.len()
            &&& tok.subrange(0, lh) == h
            &&& tok[lh] == '.'
            &&& tok.subrange(lh + 1, lh + 1 + lc) == c
            &&& tok[lh + 1 + lc] == '.'
            &&& tok.subrange(lh + lc + 2, tok.len() as int) == sig
            &&& tok.subrange(0, lh + 1 + lc) == msg
            &&& (forall|j: int| 0 <= j < lh ==> tok[j] != '.')
            &&& (forall|j: int| lh + 1 <= j < lh + 1 + lc ==> tok[j] != '.')
        }),
{
    let h = b64_encoding(hs512_header());
    let c = b64_encoding(session_claims_json(sub, role, exp as int));
    let msg = token_message(hs512_header(), session_claims_json(sub, role, exp as int));
    let sig = hs512_sig_b64(key, msg);
    let lh = h.len() as int;
    let lc = c.len() as int;
    assert(tok.subrange(0, lh) =~= h);
    assert(tok.subrange(lh + 1, lh + 1 + lc) =~= c);
    assert(tok.subrange(lh + lc + 2, tok.len() as int) =~= sig);
    assert(tok.subrange(0, lh + 1 + lc) =~= msg);
    lemma_b64_no_dot(hs512_header());
    lemma_b64_no_dot(session_claims_json(sub, role, exp as int));
    assert forall|j: int| 0 <= j < lh implies tok[j] != '.' by {
        assert(tok[j] == h[j]);
    }
    assert forall|j: int| lh + 1 <= j < lh + 1 + lc implies tok[j] != '.' by {
        assert(tok[j] == c[j - lh - 1]);
    }
}

/// One token encodes one set of claim values under a key.
pub proof fn lemma_session_token_injective(
    tok: Seq<char>,
    key: Seq<char>,
    s1: Seq<char>,
    r1: Seq<char>,
    e1: i64,
    s2: Seq<char>,
    r2: Seq<char>,
    e2: i64,
)
    requires
        is_session_token(tok, key, s1, r1, e1),
        is_session_token(tok, key, s2, r2, e2),
    ensures
        s1 == s2,
        r1 == r2,
        e1 == e2,
{
    lemma_session_token_structure(tok, key, s1, r1, e1);
    lemma_session_token_structure(tok, key, s2, r2, e2);
    let h = b64_encoding(hs512_header());
    let lh = h.len() as int;
    let c1 = b64_encoding(session_claims_json(s1, r1, e1 as int));
    let c2 = b64_encoding(session_claims_json(s2, r2, e2 as int));
    assert(c1.len() == c2.len()) by {
        if c1.len() < c2.len() {
            assert(tok[lh + 1 + c1.len()] == '.');
            assert(tok[lh + 1 + c1.len()] == c2[c1.len() as int]);
        }
        if c2.len() < c1.len() {
            assert(tok[lh + 1 + c2.len()] == '.');
            assert(tok[lh + 1 + c2.len()] == c1[c2.len() as int]);
        }
    }
    assert(c1 == c2);
    crate::base64url::lemma_b64_injective(
        session_claims_json(s1, r1, e1 as int),
        session_claims_json(s2, r2, e2 as int),
    );
    crate::claims::lemma_session_claims_injective(
        session_claims_json(s1, r1, e1 as int),
        s1,
        r1,
        e1,
        s2,
        r2,
        e2,
    );
}

} // verus!
