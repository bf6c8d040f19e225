use crate::jsonfmt::{
    ascii_bytes, dec_int, expect_lit, is_digit, json_plain, lemma_int_unique, lemma_str_unique,
    lit_bytes, push_int, scan_int, scan_string, valid_int_at, valid_str_at,
};
use vstd::prelude::*;
use vstd::string::*;

verus! {

// The session claim document: `{"sub":S,"role":R,"exp":N}` with the
// keys in that order and nothing else.  `render` and `parse` are
// exact inverses, which the token round trip rests on.

pub open spec fn session_claims_json(sub: Seq<char>, role: Seq<char>, exp: int) -> Seq<u8> {
    ascii_bytes("{\"sub\":\""@) + ascii_bytes(sub) + ascii_bytes("\",\"role\":\""@) + ascii_bytes(
        role,
    ) + ascii_bytes("\",\"exp\":"@) + dec_int(exp) + ascii_bytes("}"@)
}

proof fn lemma_session_lits()
    ensures
        "{\"sub\":\""@.len() == 8,
        "\",\"role\":\""@.len() == 10,
        "\",\"exp\":"@.len() == 8,
        "}"@.len() == 1,
        vstd::utf8::is_ascii_chars("{\"sub\":\""@),
        vstd::utf8::is_ascii_chars("\",\"role\":\""@),
        vstd::utf8::is_ascii_chars("\",\"exp\":"@),
        vstd::utf8::is_ascii_chars("}"@),
        ascii_bytes("\",\"role\":\""@)[0] == 34,
        ascii_bytes("\",\"exp\":"@)[0] == 34,
        ascii_bytes("}"@)[0] == 125,
        !is_digit(ascii_bytes("}"@)[0]),
{
    reveal_strlit("{\"sub\":\"");
    reveal_strlit("\",\"role\":\"");
    reveal_strlit("\",\"exp\":");
    reveal_strlit("}");
}

/// Where each part of the document sits, given a decomposition.
proof fn lemma_session_doc_structure(b: Seq<u8>, sub: Seq<char>, role: Seq<char>, exp: i64)
    requires
        json_plain(sub),
        json_plain(role),
        b == session_claims_json(sub, role, exp as int),
    ensures
        ({
            let ls = sub.len() as int;
            let lr = role.len() as int;
            let ld = dec_int(exp as int).len();
            &&& b.len() == 27 + ls + lr + ld
            &&& b.subrange(0, 8) == ascii_bytes("{\"sub\":\""@)
            &&& valid_str_at(b, 8, sub, 8 + ls)
            &&& b.subrange(8 + ls, 18 + ls) == ascii_bytes("\",\"role\":\""@)
            &&& valid_str_at(b, 18 + ls, role, 18 + ls + lr)
            &&& b.subrange(18 + ls + lr, 26 + ls + lr) == ascii_bytes("\",\"exp\":"@)
            &&& valid_int_at(b, 26 + ls + lr, exp, 26 + ls + lr + ld)
            &&& b.subrange(26 + ls + lr + ld, 27 + ls + lr + ld) == ascii_bytes("}"@)
        }),
{
    lemma_session_lits();
    let ls = sub.len() as int;
    let lr = role.len() as int;
    let ld = dec_int(exp as int).len();
    assert(ascii_bytes(sub).len() == ls);
    assert(ascii_bytes(role).len() == lr);
    assert(b.len() == 27 + ls + lr + ld);
    assert(b.subrange(0, 8) =~= ascii_bytes("{\"sub\":\""@));
    assert(b.subrange(8, 8 + ls) =~= ascii_bytes(sub));
    assert(b.subrange(8 + ls, 18 + ls) =~= ascii_bytes("\",\"role\":\""@));
    assert(b.subrange(18 + ls, 18 + ls + lr) =~= ascii_bytes(role));
    assert(b.subrange(18 + ls + lr, 26 + ls + lr) =~= ascii_bytes("\",\"exp\":"@));
    assert(b.subrange(26 + ls + lr, 26 + ls + lr + ld) =~= dec_int(exp as int));
    assert(b.subrange(26 + ls + lr + ld, 27 + ls + lr + ld) =~= ascii_bytes("}"@));
    assert(b[8 + ls] == ascii_bytes("\",\"role\":\""@)[0]);
    assert(b[18 + ls + lr] == ascii_bytes("\",\"exp\":"@)[0]);
    assert(b[26 + ls + lr + ld] == ascii_bytes("}"@)[0]);
}

/// The bytes of a plain string value, one per character.
pub fn plain_str_bytes(s: &str) -> (v: Vec<u8>)
    requires
        json_plain(s@),
    ensures
        v@ == ascii_bytes(s@),
{
    let n = s.unicode_len();
    let mut v: Vec<u8> = Vec::new();
    let mut i: usize = 0;
    while i < n
        invariant
            0 <= i <= n,
            n == s@.len(),
            json_plain(s@),
            v@ =~= ascii_bytes(s@.take(i as int)),
        decreases n - i,
    {
        let c = s.get_char(i);
        let u = c as u32;
        proof {
            assert(crate::jsonfmt::plain_char(s@[i as int]));
            crate::jsonfmt::lemma_char_byte(c);
        }
        v.push(u as u8);
        proof {
            assert(v@ =~= ascii_bytes(s@.take(i + 1)));
        }
        i = i + 1;
    }
    proof {
        assert(s@.take(n as int) =~= s@);
    }
    v
}

/// Render the session claim document.
pub fn render_session_claims(sub: &str, role: &str, exp: i64) -> (r: Vec<u8>)
    requires
        json_plain(sub@),
        json_plain(role@),
    ensures
        r@ == session_claims_json(sub@, role@, exp as int),
{
    proof {
        lemma_session_lits();
    }
    let mut out = lit_bytes("{\"sub\":\"");
    let mut part = plain_str_bytes(sub);
    out.append(&mut part);
    let mut part = lit_bytes("\",\"role\":\"");
    out.append(&mut part);
    let mut part = plain_str_bytes(role);
    out.append(&mut part);
    let mut part = lit_bytes("\",\"exp\":");
    out.append(&mut part);
    push_int(exp, &mut out);
    let mut part = lit_bytes("}");
    out.append(&mut part);
    proof {
        assert(out@ =~= session_claims_json(sub@, role@, exp as int));
    }
    out
}

/// Parse the session claim document; `None` for any byte sequence
/// that is not the rendering of one.
#[verifier::rlimit(60)]
pub fn parse_session_claims(b: &Vec<u8>) -> (r: Option<(String, String, i64)>)
    ensures
        r matches Some(t) ==> json_plain(t.0@) && json_plain(t.1@) && b@ == session_claims_json(
            t.0@,
            t.1@,
            t.2 as int,
        ),
        forall|sub: Seq<char>, role: Seq<char>, exp: i64|
            json_plain(sub) && json_plain(role) && b@ == session_claims_json(sub, role, exp as int)
                ==> (r matches Some(t) && t.0@ == sub && t.1@ == role && t.2 == exp),
{
    proof {
        lemma_session_lits();
    }
    let l1 = lit_bytes("{\"sub\":\"");
    let p1 = match expect_lit(b, 0, &l1) {
        Some(p) => p,
        None => {
            proof {
                assert forall|sub: Seq<char>, role: Seq<char>, exp: i64|
                    !(json_plain(sub) && json_plain(role) && b@ == session_claims_json(
                        sub,
                        role,
                        exp as int,
                    )) by {
                    if json_plain(sub) && json_plain(role) && b@ == session_claims_json(
                        sub,
                        role,
                        exp as int,
                    ) {
                        lemma_session_doc_structure(b@, sub, role, exp);
                    }
                }
            }
            return None;
        },
    };
    let (sub, q1) = match scan_string(b, p1) {
        Some(t) => t,
        None => {
            proof {
                assert forall|sub: Seq<char>, role: Seq<char>, exp: i64|
                    !(json_plain(sub) && json_plain(role) && b@ == session_claims_json(
                        sub,
                        role,
                        exp as int,
                    )) by {
                    if json_plain(sub) && json_plain(role) && b@ == session_claims_json(
                        sub,
                        role,
                        exp as int,
                    ) {
                        lemma_session_doc_structure(b@, sub, role, exp);
                        assert(valid_str_at(b@, 8, sub, 8 + sub.len() as int));
                    }
                }
            }
            return None;
        },
    };
    let l2 = lit_bytes("\",\"role\":\"");
    let p2 = match expect_lit(b, q1, &l2) {
        Some(p) => p,
        None => {
            proof {
                assert forall|sub2: Seq<char>, role: Seq<char>, exp: i64|
                    !(json_plain(sub2) && json_plain(role) && b@ == session_claims_json(
                        sub2,
                        role,
                        exp as int,
                    )) by {
                    if json_plain(sub2) && json_plain(role) && b@ == session_claims_json(
                        sub2,
                        role,
                        exp as int,
                    ) {
                        lemma_session_doc_structure(b@, sub2, role, exp);
                        assert(valid_str_at(b@, 8, sub2, 8 + sub2.len() as int));
                        assert(q1 == 8 + sub2.len() as int);
                    }
                }
            }
            return None;
        },
    };
    let (role, q2) = match scan_string(b, p2) {
        Some(t) => t,
        None => {
            proof {
                assert forall|sub2: Seq<char>, role: Seq<char>, exp: i64|
                    !(json_plain(sub2) && json_plain(role) && b@ == session_claims_json(
                        sub2,
                        role,
                        exp as int,
                    )) by {
                    if json_plain(sub2) && json_plain(role) && b@ == session_claims_json(
                        sub2,
                        role,
                        exp as int,
                    ) {
                        lemma_session_doc_structure(b@, sub2, role, exp);
                        assert(valid_str_at(b@, 8, sub2, 8 + sub2.len() as int));
                        assert(q1 == 8 + sub2.len() as int);
                        assert(valid_str_at(b@, 18 + sub2.len() as int, role, 18 + sub2.len() as int
                            + role.len() as int));
                    }
                }
            }
            return None;
        },
    };
    let l3 = lit_bytes("\",\"exp\":");
    let p3 = match expect_lit(b, q2, &l3) {
        Some(p) => p,
        None => {
            proof {
                assert forall|sub2: Seq<char>, role2: Seq<char>, exp: i64|
                    !(json_plain(sub2) && json_plain(role2) && b@ == session_claims_json(
                        sub2,
                        role2,
                        exp as int,
                    )) by {
                    if json_plain(sub2) && json_plain(role2) && b@ == session_claims_json(
                        sub2,
                        role2,
                        exp as int,
                    ) {
                        lemma_session_doc_structure(b@, sub2, role2, exp);
                        assert(valid_str_at(b@, 8, sub2, 8 + sub2.len() as int));
                        assert(q1 == 8 + sub2.len() as int);
                        assert(valid_str_at(b@, 18 + sub2.len() as int, role2, 18 + sub2.len() as int
                            + role2.len() as int));
                        assert(q2 == 18 + sub2.len() as int + role2.len() as int);
                    }
                }
            }
            return None;
        },
    };
    let (exp, p4) = match scan_int(b, p3) {
        Some(t) => t,
        None => {
            proof {
                assert forall|sub2: Seq<char>, role2: Seq<char>, exp: i64|
                    !(json_plain(sub2) && json_plain(role2) && b@ == session_claims_json(
                        sub2,
                        role2,
                        exp as int,
                    )) by {
                    if json_plain(sub2) && json_plain(role2) && b@ == session_claims_json(
                        sub2,
                        role2,
                        exp as int,
                    ) {
                        lemma_session_doc_structure(b@, sub2, role2, exp);
                        assert(valid_str_at(b@, 8, sub2, 8 + sub2.len() as int));
                        assert(q1 == 8 + sub2.len() as int);
                        assert(valid_str_at(b@, 18 + sub2.len() as int, role2, 18 + sub2.len() as int
                            + role2.len() as int));
                        assert(q2 == 18 + sub2.len() as int + role2.len() as int);
                        assert(valid_int_at(b@, 26 + sub2.len() as int + role2.len() as int, exp, 26
                            + sub2.len() as int + role2.len() as int + dec_int(exp as int).len() as int));
                    }
                }
            }
            return None;
        },
    };
    let l4 = lit_bytes("}");
    let p5 = match expect_lit(b, p4, &l4) {
        Some(p) => p,
        None => {
            proof {
                assert forall|sub2: Seq<char>, role2: Seq<char>, exp2: i64|
                    !(json_plain(sub2) && json_plain(role2) && b@ == session_claims_json(
                        sub2,
                        role2,
                        exp2 as int,
                    )) by {
                    if json_plain(sub2) && json_plain(role2) && b@ == session_claims_json(
                        sub2,
                        role2,
                        exp2 as int,
                    ) {
                        lemma_session_doc_structure(b@, sub2, role2, exp2);
                        assert(valid_str_at(b@, 8, sub2, 8 + sub2.len() as int));
                        assert(q1 == 8 + sub2.len() as int);
                        assert(valid_str_at(b@, 18 + sub2.len() as int, role2, 18 + sub2.len() as int
                            + role2.len() as int));
                        assert(q2 == 18 + sub2.len() as int + role2.len() as int);
                        let ld = dec_int(exp2 as int).len() as int;
                        assert(valid_int_at(b@, 26 + sub2.len() as int + role2.len() as int, exp2, 26
                            + sub2.len() as int + role2.len() as int + ld));
                        assert(valid_int_at(b@, p3 as int, exp, p4 as int));
                        lemma_int_unique(
                            b@,
                            p3 as int,
                            exp,
                            p4 as int,
                            exp2,
                            26 + sub2.len() as int + role2.len() as int + ld,
                        );
                    }
                }
            }
            return None;
        },
    };
    if p5 != b.len() {
        proof {
            assert forall|sub2: Seq<char>, role2: Seq<char>, exp2: i64|
                !(json_plain(sub2) && json_plain(role2) && b@ == session_claims_json(
                    sub2,
                    role2,
                    exp2 as int,
                )) by {
                if json_plain(sub2) && json_plain(role2) && b@ == session_claims_json(
                    sub2,
                    role2,
                    exp2 as int,
                ) {
                    lemma_session_doc_structure(b@, sub2, role2, exp2);
                    assert(valid_str_at(b@, 8, sub2, 8 + sub2.len() as int));
                    assert(q1 == 8 + sub2.len() as int);
                    assert(valid_str_at(b@, 18 + sub2.len() as int, role2, 18 + sub2.len() as int
                        + role2.len() as int));
                    assert(q2 == 18 + sub2.len() as int + role2.len() as int);
                    let ld = dec_int(exp2 as int).len() as int;
                    assert(valid_int_at(b@, p3 as int, exp, p4 as int));
                    lemma_int_unique(
                        b@,
                        p3 as int,
                        exp,
                        p4 as int,
                        exp2,
                        26 + sub2.len() as int + role2.len() as int + ld,
                    );
                    assert(b@.len() == 27 + sub2.len() as int + role2.len() as int + ld);
                }
            }
        }
        return None;
    }
    proof {
        assert(b@ =~= session_claims_json(sub@, role@, exp as int));
        assert forall|sub2: Seq<char>, role2: Seq<char>, exp2: i64|
            json_plain(sub2) && json_plain(role2) && b@ == session_claims_json(
                sub2,
                role2,
                exp2 as int,
            ) implies sub2 == sub@ && role2 == role@ && exp2 == exp by {
            lemma_session_doc_structure(b@, sub2, role2, exp2);
            assert(valid_str_at(b@, 8, sub2, 8 + sub2.len() as int));
            assert(q1 == 8 + sub2.len() as int && sub2 == sub@);
            assert(valid_str_at(b@, 18 + sub2.len() as int, role2, 18 + sub2.len() as int
                + role2.len() as int));
            assert(q2 == 18 + sub2.len() as int + role2.len() as int && role2 == role@);
            let ld = dec_int(exp2 as int).len() as int;
            assert(valid_int_at(b@, p3 as int, exp, p4 as int));
            lemma_int_unique(
                b@,
                p3 as int,
                exp,
                p4 as int,
                exp2,
                26 + sub2.len() as int + role2.len() as int + ld,
            );
        }
    }
    Some((sub, role, exp))
}

/// No two claim values render to the same document.
pub proof fn lemma_session_claims_injective(
    b: Seq<u8>,
    s1: Seq<char>,
    r1: Seq<char>,
    e1: i64,
    s2: Seq<char>,
    r2: Seq<char>,
    e2: i64,
)
    requires
        json_plain(s1),
        json_plain(r1),
        json_plain(s2),
        json_plain(r2),
        b == session_claims_json(s1, r1, e1 as int),
        b == session_claims_json(s2, r2, e2 as int),
    ensures
        s1 == s2,
        r1 == r2,
        e1 == e2,
{
    lemma_session_doc_structure(b, s1, r1, e1);
    lemma_session_doc_structure(b, s2, r2, e2);
    lemma_str_unique(b, 8, s1, 8 + s1.len() as int, s2, 8 + s2.len() as int);
    lemma_str_unique(
        b,
        18 + s1.len() as int,
        r1,
        18 + s1.len() as int + r1.len() as int,
        r2,
        18 + s2.len() as int + r2.len() as int,
    );
    lemma_int_unique(
        b,
        26 + s1.len() as int + r1.len() as int,
        e1,
        26 + s1.len() as int + r1.len() as int + dec_int(e1 as int).len() as int,
        e2,
        26 + s2.len() as int + r2.len() as int + dec_int(e2 as int).len() as int,
    );
}

// The user identity object of the platform documents:
// `{"id":N,"email":E}`.

pub open spec fn user_json(id: int, email: Seq<char>) -> Seq<u8> {
    ascii_bytes("{\"id\":"@) + dec_int(id) + ascii_bytes(",\"email\":\""@) + ascii_bytes(email)
        + ascii_bytes("\"}"@)
}

/// A user object with these values fills `pos..e`.
pub open spec fn valid_user_at(b: Seq<u8>, pos: int, id: i64, email: Seq<char>, e: int) -> bool {
    &&& 0 <= pos <= e <= b.len()
    &&& json_plain(email)
    &&& b.subrange(pos, e) == user_json(id as int, email)
}

proof fn lemma_user_lits()
    ensures
        "{\"id\":"@.len() == 6,
        ",\"email\":\""@.len() == 10,
        "\"}"@.len() == 2,
        vstd::utf8::is_ascii_chars("{\"id\":"@),
        vstd::utf8::is_ascii_chars(",\"email\":\""@),
        vstd::utf8::is_ascii_chars("\"}"@),
        ascii_bytes(",\"email\":\""@)[0] == 44,
        !is_digit(ascii_bytes(",\"email\":\""@)[0]),
        ascii_bytes("\"}"@)[0] == 34,
{
    reveal_strlit("{\"id\":");
    reveal_strlit(",\"email\":\"");
    reveal_strlit("\"}");
}

/// Where each part of a user object sits.
proof fn lemma_user_structure(b: Seq<u8>, pos: int, id: i64, email: Seq<char>, e: int)
    requires
        valid_user_at(b, pos, id, email, e),
    ensures
        ({
            let ld = dec_int(id as int).len() as int;
            let le = email.len() as int;
            &&& e - pos == 18 + ld + le
            &&& b.subrange(pos, pos + 6) == ascii_bytes("{\"id\":"@)
            &&& valid_int_at(b, pos + 6, id, pos + 6 + ld)
            &&& b.subrange(pos + 6 + ld, pos + 16 + ld) == ascii_bytes(",\"email\":\""@)
            &&& valid_str_at(b, pos + 16 + ld, email, pos + 16 + ld + le)
            &&& b.subrange(pos + 16 + ld + le, pos + 18 + ld + le) == ascii_bytes("\"}"@)
        }),
{
    lemma_user_lits();
    let u = user_json(id as int, email);
    let ld = dec_int(id as int).len() as int;
    let le = email.len() as int;
    assert(ascii_bytes(email).len() == le);
    assert(u.len() == 18 + ld + le);
    assert(b.subrange(pos, pos + 6) =~= u.subrange(0, 6));
    assert(u.subrange(0, 6) =~= ascii_bytes("{\"id\":"@));
    assert(b.subrange(pos + 6, pos + 6 + ld) =~= u.subrange(6, 6 + ld));
    assert(u.subrange(6, 6 + ld) =~= dec_int(id as int));
    assert(b.subrange(pos + 6 + ld, pos + 16 + ld) =~= u.subrange(6 + ld, 16 + ld));
    assert(u.subrange(6 + ld, 16 + ld) =~= ascii_bytes(",\"email\":\""@));
    assert(b.subrange(pos + 16 + ld, pos + 16 + ld + le) =~= u.subrange(16 + ld, 16 + ld + le));
    assert(u.subrange(16 + ld, 16 + ld + le) =~= ascii_bytes(email));
    assert(b.subrange(pos + 16 + ld + le, pos + 18 + ld + le) =~= u.subrange(
        16 + ld + le,
        18 + ld + le,
    ));
    assert(u.subrange(16 + ld + le, 18 + ld + le) =~= ascii_bytes("\"}"@));
    assert(b[pos + 6 + ld] == b.subrange(pos + 6 + ld, pos + 16 + ld)[0]);
    assert(b[pos + 16 + ld + le] == b.subrange(pos + 16 + ld + le, pos + 18 + ld + le)[0]);
}

/// Render a user object.
pub fn render_user(id: i64, email: &str) -> (r: Vec<u8>)
    requires
        json_plain(email@),
    ensures
        r@ == user_json(id as int, email@),
{
    proof {
        lemma_user_lits();
    }
    let mut out = lit_bytes("{\"id\":");
    push_int(id, &mut out);
    let mut part = lit_bytes(",\"email\":\"");
    out.append(&mut part);
    let mut part = plain_str_bytes(email);
    out.append(&mut part);
    let mut part = lit_bytes("\"}");
    out.append(&mut part);
    proof {
        assert(out@ =~= user_json(id as int, email@));
    }
    out
}

/// Parse a user object at `pos`.
#[verifier::rlimit(60)]
pub fn parse_user_at(b: &Vec<u8>, pos: usize) -> (r: Option<(i64, String, usize)>)
    requires
        pos <= b@.len(),
    ensures
        r matches Some(t) ==> valid_user_at(b@, pos as int, t.0, t.1@, t.2 as int),
        r matches Some(t) ==> forall|id2: i64, em2: Seq<char>, e2: int|
            valid_user_at(b@, pos as int, id2, em2, e2) ==> id2 == t.0 && em2 == t.1@ && e2
                == t.2 as int,
        r is None ==> forall|id2: i64, em2: Seq<char>, e2: int|
            !valid_user_at(b@, pos as int, id2, em2, e2),
{
    proof {
        lemma_user_lits();
    }
    let l1 = lit_bytes("{\"id\":");
    let p1 = match expect_lit(b, pos, &l1) {
        Some(p) => p,
        None => {
            proof {
                assert forall|id2: i64, em2: Seq<char>, e2: int| !valid_user_at(
                    b@,
                    pos as int,
                    id2,
                    em2,
                    e2,
                ) by {
                    if valid_user_at(b@, pos as int, id2, em2, e2) {
                        lemma_user_structure(b@, pos as int, id2, em2, e2);
                    }
                }
            }
            return None;
        },
    };
    let (id, q1) = match scan_int(b, p1) {
        Some(t) => t,
        None => {
            proof {
                assert forall|id2: i64, em2: Seq<char>, e2: int| !valid_user_at(
                    b@,
                    pos as int,
                    id2,
                    em2,
                    e2,
                ) by {
                    if valid_user_at(b@, pos as int, id2, em2, e2) {
                        lemma_user_structure(b@, pos as int, id2, em2, e2);
                        assert(valid_int_at(b@, pos + 6, id2, pos + 6 + dec_int(
                            id2 as int,
                        ).len() as int));
                    }
                }
            }
            return None;
        },
    };
    let l2 = lit_bytes(",\"email\":\"");
    let p2 = match expect_lit(b, q1, &l2) {
        Some(p) => p,
        None => {
            proof {
                assert forall|id2: i64, em2: Seq<char>, e2: int| !valid_user_at(
                    b@,
                    pos as int,
                    id2,
                    em2,
                    e2,
                ) by {
                    if valid_user_at(b@, pos as int, id2, em2, e2) {
                        lemma_user_structure(b@, pos as int, id2, em2, e2);
                        let ld = dec_int(id2 as int).len() as int;
                        assert(valid_int_at(b@, pos + 6, id2, pos + 6 + ld));
                        assert(valid_int_at(b@, p1 as int, id, q1 as int));
                        lemma_int_unique(b@, p1 as int, id, q1 as int, id2, pos + 6 + ld);
                    }
                }
            }
            return None;
        },
    };
    let (email, q2) = match scan_string(b, p2) {
        Some(t) => t,
        None => {
            proof {
                assert forall|id2: i64, em2: Seq<char>, e2: int| !valid_user_at(
                    b@,
                    pos as int,
                    id2,
                    em2,
                    e2,
                ) by {
                    if valid_user_at(b@, pos as int, id2, em2, e2) {
                        lemma_user_structure(b@, pos as int, id2, em2, e2);
                        let ld = dec_int(id2 as int).len() as int;
                        assert(valid_int_at(b@, pos + 6, id2, pos + 6 + ld));
                        assert(valid_int_at(b@, p1 as int, id, q1 as int));
                        lemma_int_unique(b@, p1 as int, id, q1 as int, id2, pos + 6 + ld);
                        assert(valid_str_at(b@, pos + 16 + ld, em2, pos + 16 + ld
                            + em2.len() as int));
                    }
                }
            }
            return None;
        },
    };
    let l3 = lit_bytes("\"}");
    let p3 = match expect_lit(b, q2, &l3) {
        Some(p) => p,
        None => {
            proof {
                assert forall|id2: i64, em2: Seq<char>, e2: int| !valid_user_at(
                    b@,
                    pos as int,
                    id2,
                    em2,
                    e2,
                ) by {
                    if valid_user_at(b@, pos as int, id2, em2, e2) {
                        lemma_user_structure(b@, pos as int, id2, em2, e2);
                        let ld = dec_int(id2 as int).len() as int;
                        assert(valid_int_at(b@, pos + 6, id2, pos + 6 + ld));
                        assert(valid_int_at(b@, p1 as int, id, q1 as int));
                        lemma_int_unique(b@, p1 as int, id, q1 as int, id2, pos + 6 + ld);
                        assert(valid_str_at(b@, pos + 16 + ld, em2, pos + 16 + ld
                            + em2.len() as int));
                        assert(q2 == pos + 16 + ld + em2.len());
                    }
                }
            }
            return None;
        },
    };
    proof {
        assert(b@.subrange(pos as int, p3 as int) =~= user_json(id as int, email@));
        assert forall|id2: i64, em2: Seq<char>, e2: int|
            valid_user_at(b@, pos as int, id2, em2, e2) implies id2 == id && em2 == email@ && e2
            == p3 as int by {
            lemma_user_structure(b@, pos as int, id2, em2, e2);
            let ld = dec_int(id2 as int).len() as int;
            assert(valid_int_at(b@, pos + 6, id2, pos + 6 + ld));
            assert(valid_int_at(b@, p1 as int, id, q1 as int));
            lemma_int_unique(b@, p1 as int, id, q1 as int, id2, pos + 6 + ld);
            assert(valid_str_at(b@, pos + 16 + ld, em2, pos + 16 + ld + em2.len() as int));
            assert(q2 == pos + 16 + ld + em2.len() && em2 == email@);
        }
    }
    Some((id, email, p3))
}

pub open spec fn platform_claims_json(uid: int, uemail: Seq<char>, oid: int, oemail: Seq<char>, sub: Seq<char>, exp: int) -> Seq<u8> {
    ascii_bytes("{\"user\":"@)
        + user_json(uid, uemail)
        + ascii_bytes(",\"owner\":"@)
        + user_json(oid, oemail)
        + ascii_bytes(",\"sub\":\""@)
        + ascii_bytes(sub)
        + ascii_bytes("\",\"exp\":"@)
        + dec_int(exp)
        + ascii_bytes("}"@)
}

proof fn lemma_platform_claims_lits()
    ensures
        "\",\"exp\":"@.len() == 8,
        vstd::utf8::is_ascii_chars("\",\"exp\":"@),
        ascii_bytes("\",\"exp\":"@)[0] == 34,
        !is_digit(ascii_bytes("\",\"exp\":"@)[0]),
        ",\"owner\":"@.len() == 9,
        vstd::utf8::is_ascii_chars(",\"owner\":"@),
        ascii_bytes(",\"owner\":"@)[0] == 44,
        !is_digit(ascii_bytes(",\"owner\":"@)[0]),
        ",\"sub\":\""@.len() == 8,
        vstd::utf8::is_ascii_chars(",\"sub\":\""@),
        ascii_bytes(",\"sub\":\""@)[0] == 44,
        !is_digit(ascii_bytes(",\"sub\":\""@)[0]),
        "{\"user\":"@.len() == 8,
        vstd::utf8::is_ascii_chars("{\"user\":"@),
        ascii_bytes("{\"user\":"@)[0] == 123,
        !is_digit(ascii_bytes("{\"user\":"@)[0]),
        "}"@.len() == 1,
        vstd::utf8::is_ascii_chars("}"@),
        ascii_bytes("}"@)[0] == 125,
        !is_digit(ascii_bytes("}"@)[0]),
{
    reveal_strlit("\",\"exp\":");
    reveal_strlit(",\"owner\":");
    reveal_strlit(",\"sub\":\"");
    reveal_strlit("{\"user\":");
    reveal_strlit("}");
}

proof fn lemma_platform_claims_structure(b: Seq<u8>, uid: i64, uemail: Seq<char>, oid: i64, oemail: Seq<char>, sub: Seq<char>, exp: i64)
    requires
        json_plain(uemail),
        json_plain(oemail),
        json_plain(sub),
        b == platform_claims_json(uid as int, uemail, oid as int, oemail, sub, exp as int),
    ensures
        ({
            let ld_uid = dec_int(uid as int).len() as int;
            let lu_uid = 18 + ld_uid + uemail.len() as int;
            let ld_oid = dec_int(oid as int).len() as int;
            let lu_oid = 18 + ld_oid + oemail.len() as int;
            let ld_exp = dec_int(exp as int).len() as int;
            &&& b.len() == 8int + lu_uid + 9 + lu_oid + 8 + sub.len() as int + 8 + ld_exp + 1
            &&& b.subrange(0, 8int) == ascii_bytes("{\"user\":"@)
            &&& valid_user_at(b, 8int, uid, uemail, 8int + lu_uid)
            &&& b.subrange(8int + lu_uid, 8int + lu_uid + 9) == ascii_bytes(",\"owner\":"@)
            &&& valid_user_at(b, 8int + lu_uid + 9, oid, oemail, 8int + lu_uid + 9 + lu_oid)
            &&& b.subrange(8int + lu_uid + 9 + lu_oid, 8int + lu_uid + 9 + lu_oid + 8) == ascii_bytes(",\"sub\":\""@)
            &&& valid_str_at(b, 8int + lu_uid + 9 + lu_oid + 8, sub, 8int + lu_uid + 9 + lu_oid + 8 + sub.len() as int)
            &&& b.subrange(8int + lu_uid + 9 + lu_oid + 8 + sub.len() as int, 8int + lu_uid + 9 + lu_oid + 8 + sub.len() as int + 8) == ascii_bytes("\",\"exp\":"@)
            &&& valid_int_at(b, 8int + lu_uid + 9 + lu_oid + 8 + sub.len() as int + 8, exp, 8int + lu_uid + 9 + lu_oid + 8 + sub.len() as int + 8 + ld_exp)
            &&& b.subrange(8int + lu_uid + 9 + lu_oid + 8 + sub.len() as int + 8 + ld_exp, 8int + lu_uid + 9 + lu_oid + 8 + sub.len() as int + 8 + ld_exp + 1) == ascii_bytes("}"@)
        }),
{
    lemma_platform_claims_lits();
    lemma_user_lits();
    let ld_uid = dec_int(uid as int).len() as int;
    let lu_uid = 18 + ld_uid + uemail.len() as int;
    let ld_oid = dec_int(oid as int).len() as int;
    let lu_oid = 18 + ld_oid + oemail.len() as int;
    let ld_exp = dec_int(exp as int).len() as int;
    assert(ascii_bytes(uemail).len() == uemail.len());
    assert(ascii_bytes(oemail).len() == oemail.len());
    assert(ascii_bytes(sub).len() == sub.len());
    assert(b.subrange(0, 8int) =~= ascii_bytes("{\"user\":"@));
    assert(b.subrange(8int, 8int + lu_uid) =~= user_json(uid as int, uemail));
    assert(b.subrange(8int + lu_uid, 8int + lu_uid + 9) =~= ascii_bytes(",\"owner\":"@));
    assert(b.subrange(8int + lu_uid + 9, 8int + lu_uid + 9 + lu_oid) =~= user_json(oid as int, oemail));
    assert(b.subrange(8int + lu_uid + 9 + lu_oid, 8int + lu_uid + 9 + lu_oid + 8) =~= ascii_bytes(",\"sub\":\""@));
    assert(b.subrange(8int + lu_uid + 9 + lu_oid + 8, 8int + lu_uid + 9 + lu_oid + 8 + sub.len() as int) =~= ascii_bytes(sub));
    assert(b.subrange(8int + lu_uid + 9 + lu_oid + 8 + sub.len() as int, 8int + lu_uid + 9 + lu_oid + 8 + sub.len() as int + 8) =~= ascii_bytes("\",\"exp\":"@));
    assert(b.subrange(8int + lu_uid + 9 + lu_oid + 8 + sub.len() as int + 8, 8int + lu_uid + 9 + lu_oid + 8 + sub.len() as int + 8 + ld_exp) =~= dec_int(exp as int));
    assert(b.subrange(8int + lu_uid + 9 + lu_oid + 8 + sub.len() as int + 8 + ld_exp, 8int + lu_uid + 9 + lu_oid + 8 + sub.len() as int + 8 + ld_exp + 1) =~= ascii_bytes("}"@));
    assert(b[8int + lu_uid + 9 + lu_oid + 8 + sub.len() as int] == b.subrange(8int + lu_uid + 9 + lu_oid + 8 + sub.len() as int, 8int + lu_uid + 9 + lu_oid + 8 + sub.len() as int + 8)[0]);
    assert(b[8int + lu_uid + 9 + lu_oid + 8 + sub.len() as int + 8 + ld_exp] == b.subrange(8int + lu_uid + 9 + lu_oid + 8 + sub.len() as int + 8 + ld_exp, 8int + lu_uid + 9 + lu_oid + 8 + sub.len() as int + 8 + ld_exp + 1)[0]);
}

pub fn render_platform_claims(uid: i64, uemail: &str, oid: i64, oemail: &str, sub: &str, exp: i64) -> (r: Vec<u8>)
    requires
        json_plain(uemail@),
        json_plain(oemail@),
        json_plain(sub@),
    ensures
        r@ == platform_claims_json(uid as int, uemail@, oid as int, oemail@, sub@, exp as int),
{
    proof {
        lemma_platform_claims_lits();
    }
    let mut out = lit_bytes("{\"user\":");
    let mut part = render_user(uid, uemail);
    out.append(&mut part);
    let mut part = lit_bytes(",\"owner\":");
    out.append(&mut part);
    let mut part = render_user(oid, oemail);
    out.append(&mut part);
    let mut part = lit_bytes(",\"sub\":\"");
    out.append(&mut part);
    let mut part = plain_str_bytes(sub);
    out.append(&mut part);
    let mut part = lit_bytes("\",\"exp\":");
    out.append(&mut part);
    push_int(exp, &mut out);
    let mut part = lit_bytes("}");
    out.append(&mut part);
    proof {
        assert(out@ =~= platform_claims_json(uid as int, uemail@, oid as int, oemail@, sub@, exp as int));
    }
    out
}

/// Parse the document; `None` for any byte sequence that is not the
/// one fixed rendering of one - a platform document spelled any
/// other way is rejected here.
#[verifier::rlimit(90)]
pub fn parse_platform_claims_doc(b: &Vec<u8>) -> (r: Option<(i64, String, i64, String, String, i64)>)
    ensures
        r matches Some(t) ==> json_plain(t.1@) && json_plain(t.3@) && json_plain(t.4@) && b@ == platform_claims_json(t.0 as int, t.1@, t.2 as int, t.3@, t.4@, t.5 as int),
        forall|uid2: i64, uemail2: Seq<char>, oid2: i64, oemail2: Seq<char>, sub2: Seq<char>, exp2: i64|
            json_plain(uemail2) && json_plain(oemail2) && json_plain(sub2) && b@ == platform_claims_json(uid2 as int, uemail2, oid2 as int, oemail2, sub2, exp2 as int) ==> (r matches Some(t) && t.0 == uid2 && t.1@ == uemail2 && t.2 == oid2 && t.3@ == oemail2 && t.4@ == sub2 && t.5 == exp2),
{
    proof {
        lemma_platform_claims_lits();
        lemma_user_lits();
    }
    let l0 = lit_bytes("{\"user\":");
    let x0 = match expect_lit(b, 0, &l0) {
        Some(p) => p,
        None => {
            proof {
                assert forall|uid2: i64, uemail2: Seq<char>, oid2: i64, oemail2: Seq<char>, sub2: Seq<char>, exp2: i64| !(json_plain(uemail2) && json_plain(oemail2) && json_plain(sub2) && b@ == platform_claims_json(uid2 as int, uemail2, oid2 as int, oemail2, sub2, exp2 as int)) by {
                    if json_plain(uemail2) && json_plain(oemail2) && json_plain(sub2) && b@ == platform_claims_json(uid2 as int, uemail2, oid2 as int, oemail2, sub2, exp2 as int) {
                        lemma_platform_claims_structure(b@, uid2, uemail2, oid2, oemail2, sub2, exp2);
                        let ld_uid = dec_int(uid2 as int).len() as int;
                        let lu_uid = 18 + ld_uid + uemail2.len() as int;
                        let ld_oid = dec_int(oid2 as int).len() as int;
                        let lu_oid = 18 + ld_oid + oemail2.len() as int;
                        let ld_exp = dec_int(exp2 as int).len() as int;
                    }
                }
            }
            return None;
        },
    };
    let (id1, em1, x1) = match parse_user_at(b, x0) {
        Some(t) => t,
        None => {
            proof {
                assert forall|uid2: i64, uemail2: Seq<char>, oid2: i64, oemail2: Seq<char>, sub2: Seq<char>, exp2: i64| !(json_plain(uemail2) && json_plain(oemail2) && json_plain(sub2) && b@ == platform_claims_json(uid2 as int, uemail2, oid2 as int, oemail2, sub2, exp2 as int)) by {
                    if json_plain(uemail2) && json_plain(oemail2) && json_plain(sub2) && b@ == platform_claims_json(uid2 as int, uemail2, oid2 as int, oemail2, sub2, exp2 as int) {
                        lemma_platform_claims_structure(b@, uid2, uemail2, oid2, oemail2, sub2, exp2);
                        let ld_uid = dec_int(uid2 as int).len() as int;
                        let lu_uid = 18 + ld_uid + uemail2.len() as int;
                        let ld_oid = dec_int(oid2 as int).len() as int;
                        let lu_oid = 18 + ld_oid + oemail2.len() as int;
                        let ld_exp = dec_int(exp2 as int).len() as int;
                        assert(valid_user_at(b@, 8int, uid2, uemail2, 8int + lu_uid));
                    }
                }
            }
            return None;
        },
    };
    let l1 = lit_bytes(",\"owner\":");
    let x2 = match expect_lit(b, x1, &l1) {
        Some(p) => p,
        None => {
            proof {
                assert forall|uid2: i64, uemail2: Seq<char>, oid2: i64, oemail2: Seq<char>, sub2: Seq<char>, exp2: i64| !(json_plain(uemail2) && json_plain(oemail2) && json_plain(sub2) && b@ == platform_claims_json(uid2 as int, uemail2, oid2 as int, oemail2, sub2, exp2 as int)) by {
                    if json_plain(uemail2) && json_plain(oemail2) && json_plain(sub2) && b@ == platform_claims_json(uid2 as int, uemail2, oid2 as int, oemail2, sub2, exp2 as int) {
                        lemma_platform_claims_structure(b@, uid2, uemail2, oid2, oemail2, sub2, exp2);
                        let ld_uid = dec_int(uid2 as int).len() as int;
                        let lu_uid = 18 + ld_uid + uemail2.len() as int;
                        let ld_oid = dec_int(oid2 as int).len() as int;
                        let lu_oid = 18 + ld_oid + oemail2.len() as int;
                        let ld_exp = dec_int(exp2 as int).len() as int;
                        assert(valid_user_at(b@, 8int, uid2, uemail2, 8int + lu_uid));
                        assert(x1 as int == 8int + lu_uid && id1 == uid2 && em1@ == uemail2);
                    }
                }
            }
            return None;
        },
    };
    let (id3, em3, x3) = match parse_user_at(b, x2) {
        Some(t) => t,
        None => {
            proof {
                assert forall|uid2: i64, uemail2: Seq<char>, oid2: i64, oemail2: Seq<char>, sub2: Seq<char>, exp2: i64| !(json_plain(uemail2) && json_plain(oemail2) && json_plain(sub2) && b@ == platform_claims_json(uid2 as int, uemail2, oid2 as int, oemail2, sub2, exp2 as int)) by {
                    if json_plain(uemail2) && json_plain(oemail2) && json_plain(sub2) && b@ == platform_claims_json(uid2 as int, uemail2, oid2 as int, oemail2, sub2, exp2 as int) {
                        lemma_platform_claims_structure(b@, uid2, uemail2, oid2, oemail2, sub2, exp2);
                        let ld_uid = dec_int(uid2 as int).len() as int;
                        let lu_uid = 18 + ld_uid + uemail2.len() as int;
                        let ld_oid = dec_int(oid2 as int).len() as int;
                        let lu_oid = 18 + ld_oid + oemail2.len() as int;
                        let ld_exp = dec_int(exp2 as int).len() as int;
                        assert(valid_user_at(b@, 8int, uid2, uemail2, 8int + lu_uid));
                        assert(x1 as int == 8int + lu_uid && id1 == uid2 && em1@ == uemail2);
                        assert(valid_user_at(b@, 8int + lu_uid + 9, oid2, oemail2, 8int + lu_uid + 9 + lu_oid));
                    }
                }
            }
            return None;
        },
    };
    let l2 = lit_bytes(",\"sub\":\"");
    let x4 = match expect_lit(b, x3, &l2) {
        Some(p) => p,
        None => {
            proof {
                assert forall|uid2: i64, uemail2: Seq<char>, oid2: i64, oemail2: Seq<char>, sub2: Seq<char>, exp2: i64| !(json_plain(uemail2) && json_plain(oemail2) && json_plain(sub2) && b@ == platform_claims_json(uid2 as int, uemail2, oid2 as int, oemail2, sub2, exp2 as int)) by {
                    if json_plain(uemail2) && json_plain(oemail2) && json_plain(sub2) && b@ == platform_claims_json(uid2 as int, uemail2, oid2 as int, oemail2, sub2, exp2 as int) {
                        lemma_platform_claims_structure(b@, uid2, uemail2, oid2, oemail2, sub2, exp2);
                        let ld_uid = dec_int(uid2 as int).len() as int;
                        let lu_uid = 18 + ld_uid + uemail2.len() as int;
                        let ld_oid = dec_int(oid2 as int).len() as int;
                        let lu_oid = 18 + ld_oid + oemail2.len() as int;
                        let ld_exp = dec_int(exp2 as int).len() as int;
                        assert(valid_user_at(b@, 8int, uid2, uemail2, 8int + lu_uid));
                        assert(x1 as int == 8int + lu_uid && id1 == uid2 && em1@ == uemail2);
                        assert(valid_user_at(b@, 8int + lu_uid + 9, oid2, oemail2, 8int + lu_uid + 9 + lu_oid));
                        assert(x3 as int == 8int + lu_uid + 9 + lu_oid && id3 == oid2 && em3@ == oemail2);
                    }
                }
            }
            return None;
        },
    };
    let (s5, x5) = match scan_string(b, x4) {
        Some(t) => t,
        None => {
            proof {
                assert forall|uid2: i64, uemail2: Seq<char>, oid2: i64, oemail2: Seq<char>, sub2: Seq<char>, exp2: i64| !(json_plain(uemail2) && json_plain(oemail2) && json_plain(sub2) && b@ == platform_claims_json(uid2 as int, uemail2, oid2 as int, oemail2, sub2, exp2 as int)) by {
                    if json_plain(uemail2) && json_plain(oemail2) && json_plain(sub2) && b@ == platform_claims_json(uid2 as int, uemail2, oid2 as int, oemail2, sub2, exp2 as int) {
                        lemma_platform_claims_structure(b@, uid2, uemail2, oid2, oemail2, sub2, exp2);
                        let ld_uid = dec_int(uid2 as int).len() as int;
                        let lu_uid = 18 + ld_uid + uemail2.len() as int;
                        let ld_oid = dec_int(oid2 as int).len() as int;
                        let lu_oid = 18 + ld_oid + oemail2.len() as int;
                        let ld_exp = dec_int(exp2 as int).len() as int;
                        assert(valid_user_at(b@, 8int, uid2, uemail2, 8int + lu_uid));
                        assert(x1 as int == 8int + lu_uid && id1 == uid2 && em1@ == uemail2);
                        assert(valid_user_at(b@, 8int + lu_uid + 9, oid2, oemail2, 8int + lu_uid + 9 + lu_oid));
                        assert(x3 as int == 8int + lu_uid + 9 + lu_oid && id3 == oid2 && em3@ == oemail2);
                        assert(valid_str_at(b@, 8int + lu_uid + 9 + lu_oid + 8, sub2, 8int + lu_uid + 9 + lu_oid + 8 + sub2.len() as int));
                    }
                }
            }
            return None;
        },
    };
    let l3 = lit_bytes("\",\"exp\":");
    let x6 = match expect_lit(b, x5, &l3) {
        Some(p) => p,
        None => {
            proof {
                assert forall|uid2: i64, uemail2: Seq<char>, oid2: i64, oemail2: Seq<char>, sub2: Seq<char>, exp2: i64| !(json_plain(uemail2) && json_plain(oemail2) && json_plain(sub2) && b@ == platform_claims_json(uid2 as int, uemail2, oid2 as int, oemail2, sub2, exp2 as int)) by {
                    if json_plain(uemail2) && json_plain(oemail2) && json_plain(sub2) && b@ == platform_claims_json(uid2 as int, uemail2, oid2 as int, oemail2, sub2, exp2 as int) {
                        lemma_platform_claims_structure(b@, uid2, uemail2, oid2, oemail2, sub2, exp2);
                        let ld_uid = dec_int(uid2 as int).len() as int;
                        let lu_uid = 18 + ld_uid + uemail2.len() as int;
                        let ld_oid = dec_int(oid2 as int).len() as int;
                        let lu_oid = 18 + ld_oid + oemail2.len() as int;
                        let ld_exp = dec_int(exp2 as int).len() as int;
                        assert(valid_user_at(b@, 8int, uid2, uemail2, 8int + lu_uid));
                        assert(x1 as int == 8int + lu_uid && id1 == uid2 && em1@ == uemail2);
                        assert(valid_user_at(b@, 8int + lu_uid + 9, oid2, oemail2, 8int + lu_uid + 9 + lu_oid));
                        assert(x3 as int == 8int + lu_uid + 9 + lu_oid && id3 == oid2 && em3@ == oemail2);
                        assert(valid_str_at(b@, 8int + lu_uid + 9 + lu_oid + 8, sub2, 8int + lu_uid + 9 + lu_oid + 8 + sub2.len() as int));
                        assert(x5 as int == 8int + lu_uid + 9 + lu_oid + 8 + sub2.len() as int && sub2 == s5@);
                    }
                }
            }
            return None;
        },
    };
    let (v7, x7) = match scan_int(b, x6) {
        Some(t) => t,
        None => {
            proof {
                assert forall|uid2: i64, uemail2: Seq<char>, oid2: i64, oemail2: Seq<char>, sub2: Seq<char>, exp2: i64| !(json_plain(uemail2) && json_plain(oemail2) && json_plain(sub2) && b@ == platform_claims_json(uid2 as int, uemail2, oid2 as int, oemail2, sub2, exp2 as int)) by {
                    if json_plain(uemail2) && json_plain(oemail2) && json_plain(sub2) && b@ == platform_claims_json(uid2 as int, uemail2, oid2 as int, oemail2, sub2, exp2 as int) {
                        lemma_platform_claims_structure(b@, uid2, uemail2, oid2, oemail2, sub2, exp2);
                        let ld_uid = dec_int(uid2 as int).len() as int;
                        let lu_uid = 18 + ld_uid + uemail2.len() as int;
                        let ld_oid = dec_int(oid2 as int).len() as int;
                        let lu_oid = 18 + ld_oid + oemail2.len() as int;
                        let ld_exp = dec_int(exp2 as int).len() as int;
                        assert(valid_user_at(b@, 8int, uid2, uemail2, 8int + lu_uid));
                        assert(x1 as int == 8int + lu_uid && id1 == uid2 && em1@ == uemail2);
                        assert(valid_user_at(b@, 8int + lu_uid + 9, oid2, oemail2, 8int + lu_uid + 9 + lu_oid));
                        assert(x3 as int == 8int + lu_uid + 9 + lu_oid && id3 == oid2 && em3@ == oemail2);
                        assert(valid_str_at(b@, 8int + lu_uid + 9 + lu_oid + 8, sub2, 8int + lu_uid + 9 + lu_oid + 8 + sub2.len() as int));
                        assert(x5 as int == 8int + lu_uid + 9 + lu_oid + 8 + sub2.len() as int && sub2 == s5@);
                        assert(valid_int_at(b@, 8int + lu_uid + 9 + lu_oid + 8 + sub2.len() as int + 8, exp2, 8int + lu_uid + 9 + lu_oid + 8 + sub2.len() as int + 8 + ld_exp));
                    }
                }
            }
            return None;
        },
    };
    let l4 = lit_bytes("}");
    let x8 = match expect_lit(b, x7, &l4) {
        Some(p) => p,
        None => {
            proof {
                assert forall|uid2: i64, uemail2: Seq<char>, oid2: i64, oemail2: Seq<char>, sub2: Seq<char>, exp2: i64| !(json_plain(uemail2) && json_plain(oemail2) && json_plain(sub2) && b@ == platform_claims_json(uid2 as int, uemail2, oid2 as int, oemail2, sub2, exp2 as int)) by {
                    if json_plain(uemail2) && json_plain(oemail2) && json_plain(sub2) && b@ == platform_claims_json(uid2 as int, uemail2, oid2 as int, oemail2, sub2, exp2 as int) {
                        lemma_platform_claims_structure(b@, uid2, uemail2, oid2, oemail2, sub2, exp2);
                        let ld_uid = dec_int(uid2 as int).len() as int;
                        let lu_uid = 18 + ld_uid + uemail2.len() as int;
                        let ld_oid = dec_int(oid2 as int).len() as int;
                        let lu_oid = 18 + ld_oid + oemail2.len() as int;
                        let ld_exp = dec_int(exp2 as int).len() as int;
                        assert(valid_user_at(b@, 8int, uid2, uemail2, 8int + lu_uid));
                        assert(x1 as int == 8int + lu_uid && id1 == uid2 && em1@ == uemail2);
                        assert(valid_user_at(b@, 8int + lu_uid + 9, oid2, oemail2, 8int + lu_uid + 9 + lu_oid));
                        assert(x3 as int == 8int + lu_uid + 9 + lu_oid && id3 == oid2 && em3@ == oemail2);
                        assert(valid_str_at(b@, 8int + lu_uid + 9 + lu_oid + 8, sub2, 8int + lu_uid + 9 + lu_oid + 8 + sub2.len() as int));
                        assert(x5 as int == 8int + lu_uid + 9 + lu_oid + 8 + sub2.len() as int && sub2 == s5@);
                        assert(valid_int_at(b@, 8int + lu_uid + 9 + lu_oid + 8 + sub2.len() as int + 8, exp2, 8int + lu_uid + 9 + lu_oid + 8 + sub2.len() as int + 8 + ld_exp));
                        assert(valid_int_at(b@, x6 as int, v7, x7 as int));
                        lemma_int_unique(b@, x6 as int, v7, x7 as int, exp2, 8int + lu_uid + 9 + lu_oid + 8 + sub2.len() as int + 8 + ld_exp);
                    }
                }
            }
            return None;
        },
    };
    if x8 != b.len() {
                proof {
                    assert forall|uid2: i64, uemail2: Seq<char>, oid2: i64, oemail2: Seq<char>, sub2: Seq<char>, exp2: i64| !(json_plain(uemail2) && json_plain(oemail2) && json_plain(sub2) && b@ == platform_claims_json(uid2 as int, uemail2, oid2 as int, oemail2, sub2, exp2 as int)) by {
                        if json_plain(uemail2) && json_plain(oemail2) && json_plain(sub2) && b@ == platform_claims_json(uid2 as int, uemail2, oid2 as int, oemail2, sub2, exp2 as int) {
                            lemma_platform_claims_structure(b@, uid2, uemail2, oid2, oemail2, sub2, exp2);
                            let ld_uid = dec_int(uid2 as int).len() as int;
                            let lu_uid = 18 + ld_uid + uemail2.len() as int;
                            let ld_oid = dec_int(oid2 as int).len() as int;
                            let lu_oid = 18 + ld_oid + oemail2.len() as int;
                            let ld_exp = dec_int(exp2 as int).len() as int;
                            assert(valid_user_at(b@, 8int, uid2, uemail2, 8int + lu_uid));
                            assert(x1 as int == 8int + lu_uid && id1 == uid2 && em1@ == uemail2);
                            assert(valid_user_at(b@, 8int + lu_uid + 9, oid2, oemail2, 8int + lu_uid + 9 + lu_oid));
                            assert(x3 as int == 8int + lu_uid + 9 + lu_oid && id3 == oid2 && em3@ == oemail2);
                            assert(valid_str_at(b@, 8int + lu_uid + 9 + lu_oid + 8, sub2, 8int + lu_uid + 9 + lu_oid + 8 + sub2.len() as int));
                            assert(x5 as int == 8int + lu_uid + 9 + lu_oid + 8 + sub2.len() as int && sub2 == s5@);
                            assert(valid_int_at(b@, 8int + lu_uid + 9 + lu_oid + 8 + sub2.len() as int + 8, exp2, 8int + lu_uid + 9 + lu_oid + 8 + sub2.len() as int + 8 + ld_exp));
                            assert(valid_int_at(b@, x6 as int, v7, x7 as int));
                            lemma_int_unique(b@, x6 as int, v7, x7 as int, exp2, 8int + lu_uid + 9 + lu_oid + 8 + sub2.len() as int + 8 + ld_exp);
                        }
                    }
                }
                return None;
    }
    proof {
        assert(b@ =~= platform_claims_json(id1 as int, em1@, id3 as int, em3@, s5@, v7 as int));
        assert forall|uid2: i64, uemail2: Seq<char>, oid2: i64, oemail2: Seq<char>, sub2: Seq<char>, exp2: i64|
            json_plain(uemail2) && json_plain(oemail2) && json_plain(sub2) && b@ == platform_claims_json(uid2 as int, uemail2, oid2 as int, oemail2, sub2, exp2 as int) implies (id1 == uid2 && em1@ == uemail2 && id3 == oid2 && em3@ == oemail2 && s5@ == sub2 && v7 == exp2) by {
            lemma_platform_claims_structure(b@, uid2, uemail2, oid2, oemail2, sub2, exp2);
            let ld_uid = dec_int(uid2 as int).len() as int;
            let lu_uid = 18 + ld_uid + uemail2.len() as int;
            let ld_oid = dec_int(oid2 as int).len() as int;
            let lu_oid = 18 + ld_oid + oemail2.len() as int;
            let ld_exp = dec_int(exp2 as int).len() as int;
            assert(valid_user_at(b@, 8int, uid2, uemail2, 8int + lu_uid));
            assert(x1 as int == 8int + lu_uid && id1 == uid2 && em1@ == uemail2);
            assert(valid_user_at(b@, 8int + lu_uid + 9, oid2, oemail2, 8int + lu_uid + 9 + lu_oid));
            assert(x3 as int == 8int + lu_uid + 9 + lu_oid && id3 == oid2 && em3@ == oemail2);
            assert(valid_str_at(b@, 8int + lu_uid + 9 + lu_oid + 8, sub2, 8int + lu_uid + 9 + lu_oid + 8 + sub2.len() as int));
            assert(x5 as int == 8int + lu_uid + 9 + lu_oid + 8 + sub2.len() as int && sub2 == s5@);
            assert(valid_int_at(b@, 8int + lu_uid + 9 + lu_oid + 8 + sub2.len() as int + 8, exp2, 8int + lu_uid + 9 + lu_oid + 8 + sub2.len() as int + 8 + ld_exp));
            assert(valid_int_at(b@, x6 as int, v7, x7 as int));
            lemma_int_unique(b@, x6 as int, v7, x7 as int, exp2, 8int + lu_uid + 9 + lu_oid + 8 + sub2.len() as int + 8 + ld_exp);
        }
    }
    Some((id1, em1, id3, em3, s5, v7))
}

pub open spec fn oauth_response_json(at: Seq<char>, scope: Seq<char>, uid: int, uemail: Seq<char>, ctx: Seq<char>) -> Seq<u8> {
    ascii_bytes("{\"access_token\":\""@)
        + ascii_bytes(at)
        + ascii_bytes("\",\"scope\":\""@)
        + ascii_bytes(scope)
        + ascii_bytes("\",\"user\":"@)
        + user_json(uid, uemail)
        + ascii_bytes(",\"context\":\""@)
        + ascii_bytes(ctx)
        + ascii_bytes("\"}"@)
}

proof fn lemma_oauth_response_lits()
    ensures
        "\",\"scope\":\""@.len() == 11,
        vstd::utf8::is_ascii_chars("\",\"scope\":\""@),
        ascii_bytes("\",\"scope\":\""@)[0] == 34,
        !is_digit(ascii_bytes("\",\"scope\":\""@)[0]),
        "\",\"user\":"@.len() == 9,
        vstd::utf8::is_ascii_chars("\",\"user\":"@),
        ascii_bytes("\",\"user\":"@)[0] == 34,
        !is_digit(ascii_bytes("\",\"user\":"@)[0]),
        "\"}"@.len() == 2,
        vstd::utf8::is_ascii_chars("\"}"@),
        ascii_bytes("\"}"@)[0] == 34,
        !is_digit(ascii_bytes("\"}"@)[0]),
        ",\"context\":\""@.len() == 12,
        vstd::utf8::is_ascii_chars(",\"context\":\""@),
        ascii_bytes(",\"context\":\""@)[0] == 44,
        !is_digit(ascii_bytes(",\"context\":\""@)[0]),
        "{\"access_token\":\""@.len() == 17,
        vstd::utf8::is_ascii_chars("{\"access_token\":\""@),
        ascii_bytes("{\"access_token\":\""@)[0] == 123,
        !is_digit(ascii_bytes("{\"access_token\":\""@)[0]),
{
    reveal_strlit("\",\"scope\":\"");
    reveal_strlit("\",\"user\":");
    reveal_strlit("\"}");
    reveal_strlit(",\"context\":\"");
    reveal_strlit("{\"access_token\":\"");
}

proof fn lemma_oauth_response_structure(b: Seq<u8>, at: Seq<char>, scope: Seq<char>, uid: i64, uemail: Seq<char>, ctx: Seq<char>)
    requires
        json_plain(at),
        json_plain(scope),
        json_plain(uemail),
        json_plain(ctx),
        b == oauth_response_json(at, scope, uid as int, uemail, ctx),
    ensures
        ({
            let ld_uid = dec_int(uid as int).len() as int;
            let lu_uid = 18 + ld_uid + uemail.len() as int;
            &&& b.len() == 17int + at.len() as int + 11 + scope.len() as int + 9 + lu_uid + 12 + ctx.len() as int + 2
            &&& b.subrange(0, 17int) == ascii_bytes("{\"access_token\":\""@)
            &&& valid_str_at(b, 17int, at, 17int + at.len() as int)
            &&& b.subrange(17int + at.len() as int, 17int + at.len() as int + 11) == ascii_bytes("\",\"scope\":\""@)
            &&& valid_str_at(b, 17int + at.len() as int + 11, scope, 17int + at.len() as int + 11 + scope.len() as int)
            &&& b.subrange(17int + at.len() as int + 11 + scope.len() as int, 17int + at.len() as int + 11 + scope.len() as int + 9) == ascii_bytes("\",\"user\":"@)
            &&& valid_user_at(b, 17int + at.len() as int + 11 + scope.len() as int + 9, uid, uemail, 17int + at.len() as int + 11 + scope.len() as int + 9 + lu_uid)
            &&& b.subrange(17int + at.len() as int + 11 + scope.len() as int + 9 + lu_uid, 17int + at.len() as int + 11 + scope.len() as int + 9 + lu_uid + 12) == ascii_bytes(",\"context\":\""@)
            &&& valid_str_at(b, 17int + at.len() as int + 11 + scope.len() as int + 9 + lu_uid + 12, ctx, 17int + at.len() as int + 11 + scope.len() as int + 9 + lu_uid + 12 + ctx.len() as int)
            &&& b.subrange(17int + at.len() as int + 11 + scope.len() as int + 9 + lu_uid + 12 + ctx.len() as int, 17int + at.len() as int + 11 + scope.len() as int + 9 + lu_uid + 12 + ctx.len() as int + 2) == ascii_bytes("\"}"@)
        }),
{
    lemma_oauth_response_lits();
    lemma_user_lits();
    let ld_uid = dec_int(uid as int).len() as int;
    let lu_uid = 18 + ld_uid + uemail.len() as int;
    assert(ascii_bytes(at).len() == at.len());
    assert(ascii_bytes(scope).len() == scope.len());
    assert(ascii_bytes(uemail).len() == uemail.len());
    assert(ascii_bytes(ctx).len() == ctx.len());
    assert(b.subrange(0, 17int) =~= ascii_bytes("{\"access_token\":\""@));
    assert(b.subrange(17int, 17int + at.len() as int) =~= ascii_bytes(at));
    assert(b.subrange(17int + at.len() as int, 17int + at.len() as int + 11) =~= ascii_bytes("\",\"scope\":\""@));
    assert(b.subrange(17int + at.len() as int + 11, 17int + at.len() as int + 11 + scope.len() as int) =~= ascii_bytes(scope));
    assert(b.subrange(17int + at.len() as int + 11 + scope.len() as int, 17int + at.len() as int + 11 + scope.len() as int + 9) =~= ascii_bytes("\",\"user\":"@));
    assert(b.subrange(17int + at.len() as int + 11 + scope.len() as int + 9, 17int + at.len() as int + 11 + scope.len() as int + 9 + lu_uid) =~= user_json(uid as int, uemail));
    assert(b.subrange(17int + at.len() as int + 11 + scope.len() as int + 9 + lu_uid, 17int + at.len() as int + 11 + scope.len() as int + 9 + lu_uid + 12) =~= ascii_bytes(",\"context\":\""@));
    assert(b.subrange(17int + at.len() as int + 11 + scope.len() as int + 9 + lu_uid + 12, 17int + at.len() as int + 11 + scope.len() as int + 9 + lu_uid + 12 + ctx.len() as int) =~= ascii_bytes(ctx));
    assert(b.subrange(17int + at.len() as int + 11 + scope.len() as int + 9 + lu_uid + 12 + ctx.len() as int, 17int + at.len() as int + 11 + scope.len() as int + 9 + lu_uid + 12 + ctx.len() as int + 2) =~= ascii_bytes("\"}"@));
    assert(b[17int + at.len() as int] == b.subrange(17int + at.len() as int, 17int + at.len() as int + 11)[0]);
    assert(b[17int + at.len() as int + 11 + scope.len() as int] == b.subrange(17int + at.len() as int + 11 + scope.len() as int, 17int + at.len() as int + 11 + scope.len() as int + 9)[0]);
    assert(b[17int + at.len() as int + 11 + scope.len() as int + 9 + lu_uid + 12 + ctx.len() as int] == b.subrange(17int + at.len() as int + 11 + scope.len() as int + 9 + lu_uid + 12 + ctx.len() as int, 17int + at.len() as int + 11 + scope.len() as int + 9 + lu_uid + 12 + ctx.len() as int + 2)[0]);
}

pub fn render_oauth_response(at: &str, scope: &str, uid: i64, uemail: &str, ctx: &str) -> (r: Vec<u8>)
    requires
        json_plain(at@),
        json_plain(scope@),
        json_plain(uemail@),
        json_plain(ctx@),
    ensures
        r@ == oauth_response_json(at@, scope@, uid as int, uemail@, ctx@),
{
    proof {
        lemma_oauth_response_lits();
    }
    let mut out = lit_bytes("{\"access_token\":\"");
    let mut part = plain_str_bytes(at);
    out.append(&mut part);
    let mut part = lit_bytes("\",\"scope\":\"");
    out.append(&mut part);
    let mut part = plain_str_bytes(scope);
    out.append(&mut part);
    let mut part = lit_bytes("\",\"user\":");
    out.append(&mut part);
    let mut part = render_user(uid, uemail);
    out.append(&mut part);
    let mut part = lit_bytes(",\"context\":\"");
    out.append(&mut part);
    let mut part = plain_str_bytes(ctx);
    out.append(&mut part);
    let mut part = lit_bytes("\"}");
    out.append(&mut part);
    proof {
        assert(out@ =~= oauth_response_json(at@, scope@, uid as int, uemail@, ctx@));
    }
    out
}

/// Parse the document; `None` for any byte sequence that is not the
/// one fixed rendering of one - a response body spelled any other
/// way is rejected here.
#[verifier::rlimit(90)]
pub fn parse_oauth_response_doc(b: &Vec<u8>) -> (r: Option<(String, String, i64, String, String)>)
    ensures
        r matches Some(t) ==> json_plain(t.0@) && json_plain(t.1@) && json_plain(t.3@) && json_plain(t.4@) && b@ == oauth_response_json(t.0@, t.1@, t.2 as int, t.3@, t.4@),
        forall|at2: Seq<char>, scope2: Seq<char>, uid2: i64, uemail2: Seq<char>, ctx2: Seq<char>|
            json_plain(at2) && json_plain(scope2) && json_plain(uemail2) && json_plain(ctx2) && b@ == oauth_response_json(at2, scope2, uid2 as int, uemail2, ctx2) ==> (r matches Some(t) && t.0@ == at2 && t.1@ == scope2 && t.2 == uid2 && t.3@ == uemail2 && t.4@ == ctx2),
{
    proof {
        lemma_oauth_response_lits();
        lemma_user_lits();
    }
    let l0 = lit_bytes("{\"access_token\":\"");
    let x0 = match expect_lit(b, 0, &l0) {
        Some(p) => p,
        None => {
            proof {
                assert forall|at2: Seq<char>, scope2: Seq<char>, uid2: i64, uemail2: Seq<char>, ctx2: Seq<char>| !(json_plain(at2) && json_plain(scope2) && json_plain(uemail2) && json_plain(ctx2) && b@ == oauth_response_json(at2, scope2, uid2 as int, uemail2, ctx2)) by {
                    if json_plain(at2) && json_plain(scope2) && json_plain(uemail2) && json_plain(ctx2) && b@ == oauth_response_json(at2, scope2, uid2 as int, uemail2, ctx2) {
                        lemma_oauth_response_structure(b@, at2, scope2, uid2, uemail2, ctx2);
                        let ld_uid = dec_int(uid2 as int).len() as int;
                        let lu_uid = 18 + ld_uid + uemail2.len() as int;
                    }
                }
            }
            return None;
        },
    };
    let (s1, x1) = match scan_string(b, x0) {
        Some(t) => t,
        None => {
            proof {
                assert forall|at2: Seq<char>, scope2: Seq<char>, uid2: i64, uemail2: Seq<char>, ctx2: Seq<char>| !(json_plain(at2) && json_plain(scope2) && json_plain(uemail2) && json_plain(ctx2) && b@ == oauth_response_json(at2, scope2, uid2 as int, uemail2, ctx2)) by {
                    if json_plain(at2) && json_plain(scope2) && json_plain(uemail2) && json_plain(ctx2) && b@ == oauth_response_json(at2, scope2, uid2 as int, uemail2, ctx2) {
                        lemma_oauth_response_structure(b@, at2, scope2, uid2, uemail2, ctx2);
                        let ld_uid = dec_int(uid2 as int).len() as int;
                        let lu_uid = 18 + ld_uid + uemail2.len() as int;
                        assert(valid_str_at(b@, 17int, at2, 17int + at2.len() as int));
                    }
                }
            }
            return None;
        },
    };
    let l1 = lit_bytes("\",\"scope\":\"");
    let x2 = match expect_lit(b, x1, &l1) {
        Some(p) => p,
        None => {
            proof {
                assert forall|at2: Seq<char>, scope2: Seq<char>, uid2: i64, uemail2: Seq<char>, ctx2: Seq<char>| !(json_plain(at2) && json_plain(scope2) && json_plain(uemail2) && json_plain(ctx2) && b@ == oauth_response_json(at2, scope2, uid2 as int, uemail2, ctx2)) by {
                    if json_plain(at2) && json_plain(scope2) && json_plain(uemail2) && json_plain(ctx2) && b@ == oauth_response_json(at2, scope2, uid2 as int, uemail2, ctx2) {
                        lemma_oauth_response_structure(b@, at2, scope2, uid2, uemail2, ctx2);
                        let ld_uid = dec_int(uid2 as int).len() as int;
                        let lu_uid = 18 + ld_uid + uemail2.len() as int;
                        assert(valid_str_at(b@, 17int, at2, 17int + at2.len() as int));
                        assert(x1 as int == 17int + at2.len() as int && at2 == s1@);
                    }
                }
            }
            return None;
        },
    };
    let (s3, x3) = match scan_string(b, x2) {
        Some(t) => t,
        None => {
            proof {
                assert forall|at2: Seq<char>, scope2: Seq<char>, uid2: i64, uemail2: Seq<char>, ctx2: Seq<char>| !(json_plain(at2) && json_plain(scope2) && json_plain(uemail2) && json_plain(ctx2) && b@ == oauth_response_json(at2, scope2, uid2 as int, uemail2, ctx2)) by {
                    if json_plain(at2) && json_plain(scope2) && json_plain(uemail2) && json_plain(ctx2) && b@ == oauth_response_json(at2, scope2, uid2 as int, uemail2, ctx2) {
                        lemma_oauth_response_structure(b@, at2, scope2, uid2, uemail2, ctx2);
                        let ld_uid = dec_int(uid2 as int).len() as int;
                        let lu_uid = 18 + ld_uid + uemail2.len() as int;
                        assert(valid_str_at(b@, 17int, at2, 17int + at2.len() as int));
                        assert(x1 as int == 17int + at2.len() as int && at2 == s1@);
                        assert(valid_str_at(b@, 17int + at2.len() as int + 11, scope2, 17int + at2.len() as int + 11 + scope2.len() as int));
                    }
                }
            }
            return None;
        },
    };
    let l2 = lit_bytes("\",\"user\":");
    let x4 = match expect_lit(b, x3, &l2) {
        Some(p) => p,
        None => {
            proof {
                assert forall|at2: Seq<char>, scope2: Seq<char>, uid2: i64, uemail2: Seq<char>, ctx2: Seq<char>| !(json_plain(at2) && json_plain(scope2) && json_plain(uemail2) && json_plain(ctx2) && b@ == oauth_response_json(at2, scope2, uid2 as int, uemail2, ctx2)) by {
                    if json_plain(at2) && json_plain(scope2) && json_plain(uemail2) && json_plain(ctx2) && b@ == oauth_response_json(at2, scope2, uid2 as int, uemail2, ctx2) {
                        lemma_oauth_response_structure(b@, at2, scope2, uid2, uemail2, ctx2);
                        let ld_uid = dec_int(uid2 as int).len() as int;
                        let lu_uid = 18 + ld_uid + uemail2.len() as int;
                        assert(valid_str_at(b@, 17int, at2, 17int + at2.len() as int));
                        assert(x1 as int == 17int + at2.len() as int && at2 == s1@);
                        assert(valid_str_at(b@, 17int + at2.len() as int + 11, scope2, 17int + at2.len() as int + 11 + scope2.len() as int));
                        assert(x3 as int == 17int + at2.len() as int + 11 + scope2.len() as int && scope2 == s3@);
                    }
                }
            }
            return None;
        },
    };
    let (id5, em5, x5) = match parse_user_at(b, x4) {
        Some(t) => t,
        None => {
            proof {
                assert forall|at2: Seq<char>, scope2: Seq<char>, uid2: i64, uemail2: Seq<char>, ctx2: Seq<char>| !(json_plain(at2) && json_plain(scope2) && json_plain(uemail2) && json_plain(ctx2) && b@ == oauth_response_json(at2, scope2, uid2 as int, uemail2, ctx2)) by {
                    if json_plain(at2) && json_plain(scope2) && json_plain(uemail2) && json_plain(ctx2) && b@ == oauth_response_json(at2, scope2, uid2 as int, uemail2, ctx2) {
                        lemma_oauth_response_structure(b@, at2, scope2, uid2, uemail2, ctx2);
                        let ld_uid = dec_int(uid2 as int).len() as int;
                        let lu_uid = 18 + ld_uid + uemail2.len() as int;
                        assert(valid_str_at(b@, 17int, at2, 17int + at2.len() as int));
                        assert(x1 as int == 17int + at2.len() as int && at2 == s1@);
                        assert(valid_str_at(b@, 17int + at2.len() as int + 11, scope2, 17int + at2.len() as int + 11 + scope2.len() as int));
                        assert(x3 as int == 17int + at2.len() as int + 11 + scope2.len() as int && scope2 == s3@);
                        assert(valid_user_at(b@, 17int + at2.len() as int + 11 + scope2.len() as int + 9, uid2, uemail2, 17int + at2.len() as int + 11 + scope2.len() as int + 9 + lu_uid));
                    }
                }
            }
            return None;
        },
    };
    let l3 = lit_bytes(",\"context\":\"");
    let x6 = match expect_lit(b, x5, &l3) {
        Some(p) => p,
        None => {
            proof {
                assert forall|at2: Seq<char>, scope2: Seq<char>, uid2: i64, uemail2: Seq<char>, ctx2: Seq<char>| !(json_plain(at2) && json_plain(scope2) && json_plain(uemail2) && json_plain(ctx2) && b@ == oauth_response_json(at2, scope2, uid2 as int, uemail2, ctx2)) by {
                    if json_plain(at2) && json_plain(scope2) && json_plain(uemail2) && json_plain(ctx2) && b@ == oauth_response_json(at2, scope2, uid2 as int, uemail2, ctx2) {
                        lemma_oauth_response_structure(b@, at2, scope2, uid2, uemail2, ctx2);
                        let ld_uid = dec_int(uid2 as int).len() as int;
                        let lu_uid = 18 + ld_uid + uemail2.len() as int;
                        assert(valid_str_at(b@, 17int, at2, 17int + at2.len() as int));
                        assert(x1 as int == 17int + at2.len() as int && at2 == s1@);
                        assert(valid_str_at(b@, 17int + at2.len() as int + 11, scope2, 17int + at2.len() as int + 11 + scope2.len() as int));
                        assert(x3 as int == 17int + at2.len() as int + 11 + scope2.len() as int && scope2 == s3@);
                        assert(valid_user_at(b@, 17int + at2.len() as int + 11 + scope2.len() as int + 9, uid2, uemail2, 17int + at2.len() as int + 11 + scope2.len() as int + 9 + lu_uid));
                        assert(x5 as int == 17int + at2.len() as int + 11 + scope2.len() as int + 9 + lu_uid && id5 == uid2 && em5@ == uemail2);
                    }
                }
            }
            return None;
        },
    };
    let (s7, x7) = match scan_string(b, x6) {
        Some(t) => t,
        None => {
            proof {
                assert forall|at2: Seq<char>, scope2: Seq<char>, uid2: i64, uemail2: Seq<char>, ctx2: Seq<char>| !(json_plain(at2) && json_plain(scope2) && json_plain(uemail2) && json_plain(ctx2) && b@ == oauth_response_json(at2, scope2, uid2 as int, uemail2, ctx2)) by {
                    if json_plain(at2) && json_plain(scope2) && json_plain(uemail2) && json_plain(ctx2) && b@ == oauth_response_json(at2, scope2, uid2 as int, uemail2, ctx2) {
                        lemma_oauth_response_structure(b@, at2, scope2, uid2, uemail2, ctx2);
                        let ld_uid = dec_int(uid2 as int).len() as int;
                        let lu_uid = 18 + ld_uid + uemail2.len() as int;
                        assert(valid_str_at(b@, 17int, at2, 17int + at2.len() as int));
                        assert(x1 as int == 17int + at2.len() as int && at2 == s1@);
                        assert(valid_str_at(b@, 17int + at2.len() as int + 11, scope2, 17int + at2.len() as int + 11 + scope2.len() as int));
                        assert(x3 as int == 17int + at2.len() as int + 11 + scope2.len() as int && scope2 == s3@);
                        assert(valid_user_at(b@, 17int + at2.len() as int + 11 + scope2.len() as int + 9, uid2, uemail2, 17int + at2.len() as int + 11 + scope2.len() as int + 9 + lu_uid));
                        assert(x5 as int == 17int + at2.len() as int + 11 + scope2.len() as int + 9 + lu_uid && id5 == uid2 && em5@ == uemail2);
                        assert(valid_str_at(b@, 17int + at2.len() as int + 11 + scope2.len() as int + 9 + lu_uid + 12, ctx2, 17int + at2.len() as int + 11 + scope2.len() as int + 9 + lu_uid + 12 + ctx2.len() as int));
                    }
                }
            }
            return None;
        },
    };
    let l4 = lit_bytes("\"}");
    let x8 = match expect_lit(b, x7, &l4) {
        Some(p) => p,
        None => {
            proof {
                assert forall|at2: Seq<char>, scope2: Seq<char>, uid2: i64, uemail2: Seq<char>, ctx2: Seq<char>| !(json_plain(at2) && json_plain(scope2) && json_plain(uemail2) && json_plain(ctx2) && b@ == oauth_response_json(at2, scope2, uid2 as int, uemail2, ctx2)) by {
                    if json_plain(at2) && json_plain(scope2) && json_plain(uemail2) && json_plain(ctx2) && b@ == oauth_response_json(at2, scope2, uid2 as int, uemail2, ctx2) {
                        lemma_oauth_response_structure(b@, at2, scope2, uid2, uemail2, ctx2);
                        let ld_uid = dec_int(uid2 as int).len() as int;
                        let lu_uid = 18 + ld_uid + uemail2.len() as int;
                        assert(valid_str_at(b@, 17int, at2, 17int + at2.len() as int));
                        assert(x1 as int == 17int + at2.len() as int && at2 == s1@);
                        assert(valid_str_at(b@, 17int + at2.len() as int + 11, scope2, 17int + at2.len() as int + 11 + scope2.len() as int));
                        assert(x3 as int == 17int + at2.len() as int + 11 + scope2.len() as int && scope2 == s3@);
                        assert(valid_user_at(b@, 17int + at2.len() as int + 11 + scope2.len() as int + 9, uid2, uemail2, 17int + at2.len() as int + 11 + scope2.len() as int + 9 + lu_uid));
                        assert(x5 as int == 17int + at2.len() as int + 11 + scope2.len() as int + 9 + lu_uid && id5 == uid2 && em5@ == uemail2);
                        assert(valid_str_at(b@, 17int + at2.len() as int + 11 + scope2.len() as int + 9 + lu_uid + 12, ctx2, 17int + at2.len() as int + 11 + scope2.len() as int + 9 + lu_uid + 12 + ctx2.len() as int));
                        assert(x7 as int == 17int + at2.len() as int + 11 + scope2.len() as int + 9 + lu_uid + 12 + ctx2.len() as int && ctx2 == s7@);
                    }
                }
            }
            return None;
        },
    };
    if x8 != b.len() {
                proof {
                    assert forall|at2: Seq<char>, scope2: Seq<char>, uid2: i64, uemail2: Seq<char>, ctx2: Seq<char>| !(json_plain(at2) && json_plain(scope2) && json_plain(uemail2) && json_plain(ctx2) && b@ == oauth_response_json(at2, scope2, uid2 as int, uemail2, ctx2)) by {
                        if json_plain(at2) && json_plain(scope2) && json_plain(uemail2) && json_plain(ctx2) && b@ == oauth_response_json(at2, scope2, uid2 as int, uemail2, ctx2) {
                            lemma_oauth_response_structure(b@, at2, scope2, uid2, uemail2, ctx2);
                            let ld_uid = dec_int(uid2 as int).len() as int;
                            let lu_uid = 18 + ld_uid + uemail2.len() as int;
                            assert(valid_str_at(b@, 17int, at2, 17int + at2.len() as int));
                            assert(x1 as int == 17int + at2.len() as int && at2 == s1@);
                            assert(valid_str_at(b@, 17int + at2.len() as int + 11, scope2, 17int + at2.len() as int + 11 + scope2.len() as int));
                            assert(x3 as int == 17int + at2.len() as int + 11 + scope2.len() as int && scope2 == s3@);
                            assert(valid_user_at(b@, 17int + at2.len() as int + 11 + scope2.len() as int + 9, uid2, uemail2, 17int + at2.len() as int + 11 + scope2.len() as int + 9 + lu_uid));
                            assert(x5 as int == 17int + at2.len() as int + 11 + scope2.len() as int + 9 + lu_uid && id5 == uid2 && em5@ == uemail2);
                            assert(valid_str_at(b@, 17int + at2.len() as int + 11 + scope2.len() as int + 9 + lu_uid + 12, ctx2, 17int + at2.len() as int + 11 + scope2.len() as int + 9 + lu_uid + 12 + ctx2.len() as int));
                            assert(x7 as int == 17int + at2.len() as int + 11 + scope2.len() as int + 9 + lu_uid + 12 + ctx2.len() as int && ctx2 == s7@);
                        }
                    }
                }
                return None;
    }
    proof {
        assert(b@ =~= oauth_response_json(s1@, s3@, id5 as int, em5@, s7@));
        assert forall|at2: Seq<char>, scope2: Seq<char>, uid2: i64, uemail2: Seq<char>, ctx2: Seq<char>|
            json_plain(at2) && json_plain(scope2) && json_plain(uemail2) && json_plain(ctx2) && b@ == oauth_response_json(at2, scope2, uid2 as int, uemail2, ctx2) implies (s1@ == at2 && s3@ == scope2 && id5 == uid2 && em5@ == uemail2 && s7@ == ctx2) by {
            lemma_oauth_response_structure(b@, at2, scope2, uid2, uemail2, ctx2);
            let ld_uid = dec_int(uid2 as int).len() as int;
            let lu_uid = 18 + ld_uid + uemail2.len() as int;
            assert(valid_str_at(b@, 17int, at2, 17int + at2.len() as int));
            assert(x1 as int == 17int + at2.len() as int && at2 == s1@);
            assert(valid_str_at(b@, 17int + at2.len() as int + 11, scope2, 17int + at2.len() as int + 11 + scope2.len() as int));
            assert(x3 as int == 17int + at2.len() as int + 11 + scope2.len() as int && scope2 == s3@);
            assert(valid_user_at(b@, 17int + at2.len() as int + 11 + scope2.len() as int + 9, uid2, uemail2, 17int + at2.len() as int + 11 + scope2.len() as int + 9 + lu_uid));
            assert(x5 as int == 17int + at2.len() as int + 11 + scope2.len() as int + 9 + lu_uid && id5 == uid2 && em5@ == uemail2);
            assert(valid_str_at(b@, 17int + at2.len() as int + 11 + scope2.len() as int + 9 + lu_uid + 12, ctx2, 17int + at2.len() as int + 11 + scope2.len() as int + 9 + lu_uid + 12 + ctx2.len() as int));
            assert(x7 as int == 17int + at2.len() as int + 11 + scope2.len() as int + 9 + lu_uid + 12 + ctx2.len() as int && ctx2 == s7@);
        }
    }
    Some((s1, s3, id5, em5, s7))
}

// The JSON body of the authorization-code exchange request.

pub open spec fn oauth_request_json(
    client_id: Seq<char>,
    client_secret: Seq<char>,
    redirect_uri: Seq<char>,
    code: Seq<char>,
    scope: Seq<char>,
    context: Seq<char>,
) -> Seq<u8> {
    ascii_bytes("{\"client_id\":\""@) + ascii_bytes(client_id) + ascii_bytes(
        "\",\"client_secret\":\""@,
    ) + ascii_bytes(client_secret) + ascii_bytes("\",\"redirect_uri\":\""@) + ascii_bytes(
        redirect_uri,
    ) + ascii_bytes("\",\"grant_type\":\"authorization_code\",\"code\":\""@) + ascii_bytes(code)
        + ascii_bytes("\",\"scope\":\""@) + ascii_bytes(scope) + ascii_bytes("\",\"context\":\""@)
        + ascii_bytes(context) + ascii_bytes("\"}"@)
}

/// Render the exchange request body.
pub fn render_oauth_request(
    client_id: &str,
    client_secret: &str,
    redirect_uri: &str,
    code: &str,
    scope: &str,
    context: &str,
) -> (r: Vec<u8>)
    requires
        json_plain(client_id@),
        json_plain(client_secret@),
        json_plain(redirect_uri@),
        json_plain(code@),
        json_plain(scope@),
        json_plain(context@),
    ensures
        r@ == oauth_request_json(
            client_id@,
            client_secret@,
            redirect_uri@,
            code@,
            scope@,
            context@,
        ),
{
    proof {
        reveal_strlit("{\"client_id\":\"");
        reveal_strlit("\",\"client_secret\":\"");
        reveal_strlit("\",\"redirect_uri\":\"");
        reveal_strlit("\",\"grant_type\":\"authorization_code\",\"code\":\"");
        reveal_strlit("\",\"scope\":\"");
        reveal_strlit("\",\"context\":\"");
        reveal_strlit("\"}");
        assert(vstd::utf8::is_ascii_chars("{\"client_id\":\""@));
        assert(vstd::utf8::is_ascii_chars("\",\"client_secret\":\""@));
        assert(vstd::utf8::is_ascii_chars("\",\"redirect_uri\":\""@));
        assert(vstd::utf8::is_ascii_chars("\",\"grant_type\":\"authorization_code\",\"code\":\""@));
        assert(vstd::utf8::is_ascii_chars("\",\"scope\":\""@));
        assert(vstd::utf8::is_ascii_chars("\",\"context\":\""@));
        assert(vstd::utf8::is_ascii_chars("\"}"@));
    }
    let mut out = lit_bytes("{\"client_id\":\"");
    let mut part = plain_str_bytes(client_id);
    out.append(&mut part);
    let mut part = lit_bytes("\",\"client_secret\":\"");
    out.append(&mut part);
    let mut part = plain_str_bytes(client_secret);
    out.append(&mut part);
    let mut part = lit_bytes("\",\"redirect_uri\":\"");
    out.append(&mut part);
    let mut part = plain_str_bytes(redirect_uri);
    out.append(&mut part);
    let mut part = lit_bytes("\",\"grant_type\":\"authorization_code\",\"code\":\"");
    out.append(&mut part);
    let mut part = plain_str_bytes(code);
    out.append(&mut part);
    let mut part = lit_bytes("\",\"scope\":\"");
    out.append(&mut part);
    let mut part = plain_str_bytes(scope);
    out.append(&mut part);
    let mut part = lit_bytes("\",\"context\":\"");
    out.append(&mut part);
    let mut part = plain_str_bytes(context);
    out.append(&mut part);
    let mut part = lit_bytes("\"}");
    out.append(&mut part);
    proof {
        assert(out@ =~= oauth_request_json(
            client_id@,
            client_secret@,
            redirect_uri@,
            code@,
            scope@,
            context@,
        ));
    }
    out
}

} // verus!
