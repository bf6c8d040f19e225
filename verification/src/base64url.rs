use vstd::prelude::*;
use vstd::string::*;

verus! {

// Unpadded, URL-safe base64: the segment encoding of the token wire
// format.  Three input bytes become four symbols; a two-byte tail
// becomes three symbols and a one-byte tail two, with the unused low
// bits of the last symbol required to be zero, so every byte sequence
// has exactly one encoding.

/// Symbol for a sextet of the URL-safe alphabet.
pub open spec fn b64_char(v: u8) -> char
    recommends
        v < 64,
{
    if v < 26 {
        ((v + 65) as u8) as char  // 'A'..='Z'
    } else if v < 52 {
        ((v + 71) as u8) as char  // 'a'..='z'
    } else if v < 62 {
        ((v - 4) as u8) as char  // '0'..='9'
    } else if v == 62 {
        '-'
    } else {
        '_'
    }
}

/// Sextet of a symbol, or -1 for a character outside the alphabet.
pub open spec fn b64_val(c: char) -> int {
    let u = c as u32;
    if 65 <= u <= 90 {
        u - 65
    } else if 97 <= u <= 122 {
        u - 71
    } else if 48 <= u <= 57 {
        u + 4
    } else if u == 45 {
        62
    } else if u == 95 {
        63
    } else {
        -1
    }
}

pub open spec fn is_b64_char(c: char) -> bool {
    b64_val(c) >= 0
}

pub open spec fn enc3(b0: u8, b1: u8, b2: u8) -> Seq<char> {
    seq![
        b64_char(b0 >> 2),
        b64_char(((b0 & 3) << 4) | (b1 >> 4)),
        b64_char(((b1 & 15) << 2) | (b2 >> 6)),
        b64_char(b2 & 63),
    ]
}

pub open spec fn enc2(b0: u8, b1: u8) -> Seq<char> {
    seq![b64_char(b0 >> 2), b64_char(((b0 & 3) << 4) | (b1 >> 4)), b64_char((b1 & 15) << 2)]
}

pub open spec fn enc1(b0: u8) -> Seq<char> {
    seq![b64_char(b0 >> 2), b64_char((b0 & 3) << 4)]
}

/// The one encoding of a byte sequence.
pub open spec fn b64_encoding(b: Seq<u8>) -> Seq<char>
    decreases b.len(),
{
    if b.len() == 0 {
        Seq::empty()
    } else if b.len() == 1 {
        enc1(b[0])
    } else if b.len() == 2 {
        enc2(b[0], b[1])
    } else {
        enc3(b[0], b[1], b[2]) + b64_encoding(b.skip(3))
    }
}

proof fn lemma_b64_char_val(v: u8)
    requires
        v < 64,
    ensures
        b64_val(b64_char(v)) == v as int,
{
}

proof fn lemma_b64_val_char(c: char)
    requires
        b64_val(c) >= 0,
    ensures
        b64_val(c) < 64,
        b64_char(b64_val(c) as u8) == c,
{
    vstd::utf8::char_u32_cast(c, c as u32);
}

proof fn lemma_group_vals_small(b0: u8, b1: u8, b2: u8)
    ensures
        b0 >> 2 < 64,
        ((b0 & 3) << 4) | (b1 >> 4) < 64,
        ((b1 & 15) << 2) | (b2 >> 6) < 64,
        b2 & 63 < 64,
        (b1 & 15) << 2 < 64,
        (b0 & 3) << 4 < 64,
{
    assert(b0 >> 2 < 64 && ((b0 & 3) << 4) | (b1 >> 4) < 64 && ((b1 & 15) << 2) | (b2 >> 6) < 64
        && b2 & 63 < 64 && (b1 & 15) << 2 < 64 && (b0 & 3) << 4 < 64) by (bit_vector);
}

/// Splitting an encoding at a group boundary splits the input at the
/// matching byte boundary.
pub proof fn lemma_b64_split(b: Seq<u8>, k: int)
    requires
        0 <= k,
        3 * k <= b.len(),
    ensures
        b64_encoding(b) == b64_encoding(b.take(3 * k)) + b64_encoding(b.skip(3 * k)),
    decreases k,
{
    if k == 0 {
        assert(b.take(0) =~= Seq::<u8>::empty());
        assert(b.skip(0) =~= b);
        assert(b64_encoding(b) =~= b64_encoding(b.take(0)) + b64_encoding(b.skip(0)));
    } else {
        let rest = b.skip(3);
        lemma_b64_split(rest, k - 1);
        assert(rest.take(3 * k - 3) =~= b.take(3 * k).skip(3));
        assert(rest.skip(3 * k - 3) =~= b.skip(3 * k));
        assert(b.take(3 * k)[0] == b[0] && b.take(3 * k)[1] == b[1] && b.take(3 * k)[2] == b[2]);
        assert(b64_encoding(b.take(3 * k)) == enc3(b[0], b[1], b[2]) + b64_encoding(
            b.take(3 * k).skip(3),
        ));
        assert(b64_encoding(b) =~= b64_encoding(b.take(3 * k)) + b64_encoding(b.skip(3 * k)));
    }
}

/// Length of an encoding, determined by the input length alone.
pub open spec fn b64_len(n: int) -> int {
    4 * (n / 3) + (if n % 3 == 0 {
        0int
    } else if n % 3 == 1 {
        2int
    } else {
        3int
    })
}

pub proof fn lemma_b64_len(b: Seq<u8>)
    ensures
        b64_encoding(b).len() == b64_len(b.len() as int),
    decreases b.len(),
{
    if b.len() >= 3 {
        lemma_b64_len(b.skip(3));
    }
}

/// Every symbol of an encoding belongs to the alphabet.
pub proof fn lemma_b64_chars(b: Seq<u8>)
    ensures
        forall|i: int|
            0 <= i < b64_encoding(b).len() ==> #[trigger] is_b64_char(b64_encoding(b)[i]),
    decreases b.len(),
{
    if b.len() == 0 {
    } else if b.len() == 1 {
        lemma_group_vals_small(b[0], 0, 0);
        lemma_b64_char_val(b[0] >> 2);
        lemma_b64_char_val((b[0] & 3) << 4);
    } else if b.len() == 2 {
        lemma_group_vals_small(b[0], b[1], 0);
        lemma_b64_char_val(b[0] >> 2);
        lemma_b64_char_val(((b[0] & 3) << 4) | (b[1] >> 4));
        lemma_b64_char_val((b[1] & 15) << 2);
    } else {
        lemma_group_vals_small(b[0], b[1], b[2]);
        lemma_b64_char_val(b[0] >> 2);
        lemma_b64_char_val(((b[0] & 3) << 4) | (b[1] >> 4));
        lemma_b64_char_val(((b[1] & 15) << 2) | (b[2] >> 6));
        lemma_b64_char_val(b[2] & 63);
        lemma_b64_chars(b.skip(3));
        assert forall|i: int| 0 <= i < b64_encoding(b).len() implies #[trigger] is_b64_char(
            b64_encoding(b)[i],
        ) by {
            if i >= 4 {
                assert(b64_encoding(b)[i] == b64_encoding(b.skip(3))[i - 4]);
            }
        }
    }
}

/// The alphabet does not contain '.', so a segment encoding never
/// holds the separator of the token format.
pub proof fn lemma_b64_no_dot(b: Seq<u8>)
    ensures
        forall|i: int| 0 <= i < b64_encoding(b).len() ==> b64_encoding(b)[i] != '.',
{
    lemma_b64_chars(b);
    assert forall|i: int| 0 <= i < b64_encoding(b).len() implies b64_encoding(b)[i] != '.' by {
        assert(is_b64_char(b64_encoding(b)[i]));
        assert(('.' as u32) == 46);
    }
}

/// No two byte sequences share an encoding.
pub proof fn lemma_b64_injective(x: Seq<u8>, y: Seq<u8>)
    requires
        b64_encoding(x) == b64_encoding(y),
    ensures
        x == y,
    decreases x.len(),
{
    lemma_b64_len(x);
    lemma_b64_len(y);
    lemma_b64_len_injective(x.len() as int, y.len() as int);
    if x.len() == 0 {
        assert(x =~= y);
    } else if x.len() == 1 {
        lemma_enc1_injective(x[0], y[0]);
        assert(x =~= y);
    } else if x.len() == 2 {
        lemma_enc2_injective(x[0], x[1], y[0], y[1]);
        assert(x =~= y);
    } else {
        assert(y.len() >= 3);
        assert(enc3(x[0], x[1], x[2]) =~= enc3(y[0], y[1], y[2])) by {
            assert forall|i: int| 0 <= i < 4 implies enc3(x[0], x[1], x[2])[i] == enc3(
                y[0],
                y[1],
                y[2],
            )[i] by {
                assert(b64_encoding(x)[i] == enc3(x[0], x[1], x[2])[i]);
                assert(b64_encoding(y)[i] == enc3(y[0], y[1], y[2])[i]);
            }
        }
        lemma_enc3_injective(x[0], x[1], x[2], y[0], y[1], y[2]);
        assert(b64_encoding(x.skip(3)) =~= b64_encoding(y.skip(3))) by {
            assert forall|i: int| 0 <= i < b64_encoding(x.skip(3)).len() implies b64_encoding(
                x.skip(3),
            )[i] == b64_encoding(y.skip(3))[i] by {
                assert(b64_encoding(x)[i + 4] == b64_encoding(x.skip(3))[i]);
                assert(b64_encoding(y)[i + 4] == b64_encoding(y.skip(3))[i]);
            }
            lemma_b64_len(x.skip(3));
            lemma_b64_len(y.skip(3));
        }
        lemma_b64_injective(x.skip(3), y.skip(3));
        assert forall|i: int| 0 <= i < x.len() implies x[i] == y[i] by {
            if i >= 3 {
                assert(x.skip(3)[i - 3] == y.skip(3)[i - 3]);
            }
        }
        assert(x =~= y);
    }
}

proof fn lemma_b64_len_injective(n: int, m: int)
    requires
        0 <= n,
        0 <= m,
        b64_len(n) == b64_len(m),
    ensures
        n == m,
{
    assert(n == 3 * (n / 3) + n % 3 && 0 <= n % 3 < 3) by (nonlinear_arith)
        requires
            n >= 0,
    ;
    assert(m == 3 * (m / 3) + m % 3 && 0 <= m % 3 < 3) by (nonlinear_arith)
        requires
            m >= 0,
    ;
}

proof fn lemma_char_inj(a: u8, b: u8)
    requires
        a < 64,
        b < 64,
        b64_char(a) == b64_char(b),
    ensures
        a == b,
{
    lemma_b64_char_val(a);
    lemma_b64_char_val(b);
}

proof fn lemma_enc1_injective(a: u8, b: u8)
    requires
        enc1(a) == enc1(b),
    ensures
        a == b,
{
    lemma_group_vals_small(a, 0, 0);
    lemma_group_vals_small(b, 0, 0);
    assert(enc1(a)[0] == enc1(b)[0] && enc1(a)[1] == enc1(b)[1]);
    lemma_char_inj(a >> 2, b >> 2);
    lemma_char_inj((a & 3) << 4, (b & 3) << 4);
    assert(a >> 2 == b >> 2 && (a & 3) << 4 == (b & 3) << 4 ==> a == b) by (bit_vector);
}

proof fn lemma_enc2_injective(a0: u8, a1: u8, b0: u8, b1: u8)
    requires
        enc2(a0, a1) == enc2(b0, b1),
    ensures
        a0 == b0,
        a1 == b1,
{
    lemma_group_vals_small(a0, a1, 0);
    lemma_group_vals_small(b0, b1, 0);
    assert(enc2(a0, a1)[0] == enc2(b0, b1)[0] && enc2(a0, a1)[1] == enc2(b0, b1)[1] && enc2(
        a0,
        a1,
    )[2] == enc2(b0, b1)[2]);
    lemma_char_inj(a0 >> 2, b0 >> 2);
    lemma_char_inj(((a0 & 3) << 4) | (a1 >> 4), ((b0 & 3) << 4) | (b1 >> 4));
    lemma_char_inj((a1 & 15) << 2, (b1 & 15) << 2);
    assert((a0 >> 2 == b0 >> 2 && ((a0 & 3) << 4) | (a1 >> 4) == ((b0 & 3) << 4) | (b1 >> 4) && (a1
        & 15) << 2 == (b1 & 15) << 2) ==> (a0 == b0 && a1 == b1)) by (bit_vector);
}

proof fn lemma_enc3_injective(a0: u8, a1: u8, a2: u8, b0: u8, b1: u8, b2: u8)
    requires
        enc3(a0, a1, a2) == enc3(b0, b1, b2),
    ensures
        a0 == b0,
        a1 == b1,
        a2 == b2,
{
    lemma_group_vals_small(a0, a1, a2);
    lemma_group_vals_small(b0, b1, b2);
    assert(enc3(a0, a1, a2)[0] == enc3(b0, b1, b2)[0] && enc3(a0, a1, a2)[1] == enc3(b0, b1, b2)[1]
        && enc3(a0, a1, a2)[2] == enc3(b0, b1, b2)[2] && enc3(a0, a1, a2)[3] == enc3(
        b0,
        b1,
        b2,
    )[3]);
    lemma_char_inj(a0 >> 2, b0 >> 2);
    lemma_char_inj(((a0 & 3) << 4) | (a1 >> 4), ((b0 & 3) << 4) | (b1 >> 4));
    lemma_char_inj(((a1 & 15) << 2) | (a2 >> 6), ((b1 & 15) << 2) | (b2 >> 6));
    lemma_char_inj(a2 & 63, b2 & 63);
    assert((a0 >> 2 == b0 >> 2 && ((a0 & 3) << 4) | (a1 >> 4) == ((b0 & 3) << 4) | (b1 >> 4) && ((a1
        & 15) << 2) | (a2 >> 6) == ((b1 & 15) << 2) | (b2 >> 6) && a2 & 63 == b2 & 63) ==> (a0 == b0
        && a1 == b1 && a2 == b2)) by (bit_vector);
}

/// Bytes whose values are ASCII, read as characters.
pub open spec fn ascii_chars(b: Seq<u8>) -> Seq<char> {
    b.map_values(|x: u8| x as char)
}

/// Relies on String::from_utf8: bytes below 128 are valid UTF-8 and
/// decode to exactly those code points.
#[verifier::external_body]
pub(crate) fn ascii_to_string(b: Vec<u8>) -> (r: String)
    requires
        forall|i: int| 0 <= i < b@.len() ==> b@[i] < 128,
    ensures
        r@ == ascii_chars(b@),
{
    String::from_utf8(b).unwrap_or_default()
}

fn b64_byte(v: u8) -> (x: u8)
    requires
        v < 64,
    ensures
        x as char == b64_char(v),
        x < 128,
{
    if v < 26 {
        v + 65
    } else if v < 52 {
        v + 71
    } else if v < 62 {
        v - 4
    } else if v == 62 {
        45
    } else {
        95
    }
}

/// Encode bytes as an unpadded URL-safe base64 string.
pub fn b64url_encode(bytes: &Vec<u8>) -> (r: String)
    ensures
        r@ == b64_encoding(bytes@),
{
    let n = bytes.len();
    let mut out: Vec<u8> = Vec::new();
    let mut i: usize = 0;
    while n - i >= 3
        invariant
            i % 3 == 0,
            i <= n,
            n == bytes@.len(),
            forall|j: int| 0 <= j < out@.len() ==> out@[j] < 128,
            ascii_chars(out@) =~= b64_encoding(bytes@.take(i as int)),
        decreases n - i,
    {
        let b0 = bytes[i];
        let b1 = bytes[i + 1];
        let b2 = bytes[i + 2];
        proof {
            lemma_group_vals_small(b0, b1, b2);
        }
        out.push(b64_byte(b0 >> 2));
        out.push(b64_byte(((b0 & 3) << 4) | (b1 >> 4)));
        out.push(b64_byte(((b1 & 15) << 2) | (b2 >> 6)));
        out.push(b64_byte(b2 & 63));
        proof {
            lemma_b64_split(bytes@.take(i + 3), i as int / 3);
            assert(bytes@.take(i + 3).take(3 * (i as int / 3)) =~= bytes@.take(i as int));
            assert(bytes@.take(i + 3).skip(3 * (i as int / 3)) =~= seq![b0, b1, b2]);
            assert(b64_encoding(seq![b0, b1, b2]) =~= enc3(b0, b1, b2) + b64_encoding(
                seq![b0, b1, b2].skip(3),
            ));
            assert(seq![b0, b1, b2].skip(3) =~= Seq::<u8>::empty());
            assert(ascii_chars(out@) =~= b64_encoding(bytes@.take(i + 3)));
        }
        i = i + 3;
    }
    if n - i == 1 {
        let b0 = bytes[i];
        proof {
            lemma_group_vals_small(b0, 0, 0);
        }
        out.push(b64_byte(b0 >> 2));
        out.push(b64_byte((b0 & 3) << 4));
        proof {
            lemma_b64_split(bytes@, i as int / 3);
            assert(bytes@.take(3 * (i as int / 3)) =~= bytes@.take(i as int));
            assert(bytes@.skip(3 * (i as int / 3)) =~= seq![b0]);
            assert(ascii_chars(out@) =~= b64_encoding(bytes@));
        }
    } else if n - i == 2 {
        let b0 = bytes[i];
        let b1 = bytes[i + 1];
        proof {
            lemma_group_vals_small(b0, b1, 0);
        }
        out.push(b64_byte(b0 >> 2));
        out.push(b64_byte(((b0 & 3) << 4) | (b1 >> 4)));
        out.push(b64_byte((b1 & 15) << 2));
        proof {
            lemma_b64_split(bytes@, i as int / 3);
            assert(bytes@.take(3 * (i as int / 3)) =~= bytes@.take(i as int));
            assert(bytes@.skip(3 * (i as int / 3)) =~= seq![b0, b1]);
            assert(ascii_chars(out@) =~= b64_encoding(bytes@));
        }
    } else {
        proof {
            assert(bytes@.take(i as int) =~= bytes@);
        }
    }
    ascii_to_string(out)
}

fn b64_val_x(c: char) -> (v: i8)
    ensures
        v as int == b64_val(c),
{
    let u = c as u32;
    if 65 <= u && u <= 90 {
        (u - 65) as i8
    } else if 97 <= u && u <= 122 {
        (u - 71) as i8
    } else if 48 <= u && u <= 57 {
        (u + 4) as i8
    } else if u == 45 {
        62
    } else if u == 95 {
        63
    } else {
        -1
    }
}

/// Decode an unpadded URL-safe base64 string; `None` for any string
/// that is not the encoding of a byte sequence.
pub fn b64url_decode(s: &str) -> (r: Option<Vec<u8>>)
    ensures
        r matches Some(b) ==> s@ == b64_encoding(b@),
        r is None ==> forall|x: Seq<u8>| s@ != b64_encoding(x),
{
    let n = s.unicode_len();
    let mut out: Vec<u8> = Vec::new();
    let mut i: usize = 0;
    if n % 4 == 1 {
        proof {
            assert forall|x: Seq<u8>| s@ != b64_encoding(x) by {
                lemma_b64_len(x);
            }
        }
        return None;
    }
    while n - i >= 4
        invariant
            i % 4 == 0,
            i <= n,
            n % 4 != 1,
            n == s@.len(),
            out@.len() == 3 * (i as int / 4),
            s@.take(i as int) =~= b64_encoding(out@),
        decreases n - i,
    {
        let v0 = b64_val_x(s.get_char(i));
        let v1 = b64_val_x(s.get_char(i + 1));
        let v2 = b64_val_x(s.get_char(i + 2));
        let v3 = b64_val_x(s.get_char(i + 3));
        if v0 < 0 || v1 < 0 || v2 < 0 || v3 < 0 {
            proof {
                lemma_reject_bad_char(s@, out@, i as int);
            }
            return None;
        }
        let w0 = v0 as u8;
        let w1 = v1 as u8;
        let w2 = v2 as u8;
        let w3 = v3 as u8;
        proof {
            lemma_b64_val_char(s@[i as int]);
            lemma_b64_val_char(s@[i as int + 1]);
            lemma_b64_val_char(s@[i as int + 2]);
            lemma_b64_val_char(s@[i as int + 3]);
        }
        let d0 = (w0 << 2) | (w1 >> 4);
        let d1 = ((w1 & 15) << 4) | (w2 >> 2);
        let d2 = ((w2 & 3) << 6) | w3;
        let ghost gold = out@;
        proof {
            lemma_decode_group(w0, w1, w2, w3);
            assert(gold.len() % 3 == 0 && 3 * ((i + 4) as int / 4) == gold.len() + 3)
                by (nonlinear_arith)
                requires
                    gold.len() == 3 * (i as int / 4),
                    i as int % 4 == 0,
                    i >= 0,
            ;
            lemma_append_group(gold, d0, d1, d2);
            assert(s@.take(i + 4) =~= b64_encoding(gold) + enc3(d0, d1, d2));
        }
        out.push(d0);
        out.push(d1);
        out.push(d2);
        proof {
            assert(out@ =~= gold + seq![d0, d1, d2]);
        }
        i = i + 4;
    }
    proof {
        assert((i + (n - i)) % 4 == (n - i) % 4) by (nonlinear_arith)
            requires
                i as int % 4 == 0,
                0 <= i <= n,
        ;
        assert(out@.len() % 3 == 0) by (nonlinear_arith)
            requires
                out@.len() == 3 * (i as int / 4),
        ;
    }
    if n - i == 2 {
        let v0 = b64_val_x(s.get_char(i));
        let v1 = b64_val_x(s.get_char(i + 1));
        if v0 < 0 || v1 < 0 {
            proof {
                lemma_reject_bad_char(s@, out@, i as int);
            }
            return None;
        }
        let w0 = v0 as u8;
        let w1 = v1 as u8;
        if w1 & 15 != 0 {
            proof {
                lemma_reject_tail1(s@, out@, w0, w1);
            }
            return None;
        }
        proof {
            lemma_b64_val_char(s@[i as int]);
            lemma_b64_val_char(s@[i as int + 1]);
        }
        let d0 = (w0 << 2) | (w1 >> 4);
        let ghost gold = out@;
        proof {
            lemma_decode_tail1(w0, w1);
            lemma_append_tail1(gold, d0);
            assert(s@ =~= b64_encoding(gold) + enc1(d0));
        }
        out.push(d0);
        proof {
            assert(out@ =~= gold + seq![d0]);
        }
        return Some(out);
    }
    if n - i == 3 {
        let v0 = b64_val_x(s.get_char(i));
        let v1 = b64_val_x(s.get_char(i + 1));
        let v2 = b64_val_x(s.get_char(i + 2));
        if v0 < 0 || v1 < 0 || v2 < 0 {
            proof {
                lemma_reject_bad_char(s@, out@, i as int);
            }
            return None;
        }
        let w0 = v0 as u8;
        let w1 = v1 as u8;
        let w2 = v2 as u8;
        if w2 & 3 != 0 {
            proof {
                lemma_reject_tail2(s@, out@, w0, w1, w2);
            }
            return None;
        }
        proof {
            lemma_b64_val_char(s@[i as int]);
            lemma_b64_val_char(s@[i as int + 1]);
            lemma_b64_val_char(s@[i as int + 2]);
        }
        let d0 = (w0 << 2) | (w1 >> 4);
        let d1 = ((w1 & 15) << 4) | (w2 >> 2);
        let ghost gold = out@;
        proof {
            lemma_decode_tail2(w0, w1, w2);
            lemma_append_tail2(gold, d0, d1);
            assert(s@ =~= b64_encoding(gold) + enc2(d0, d1));
        }
        out.push(d0);
        out.push(d1);
        proof {
            assert(out@ =~= gold + seq![d0, d1]);
        }
        return Some(out);
    }
    proof {
        assert(s@.take(i as int) =~= s@);
    }
    Some(out)
}

proof fn lemma_decode_group(w0: u8, w1: u8, w2: u8, w3: u8)
    requires
        w0 < 64,
        w1 < 64,
        w2 < 64,
        w3 < 64,
    ensures
        ((w0 << 2) | (w1 >> 4)) >> 2 == w0,
        (((w0 << 2) | (w1 >> 4)) & 3) << 4 | ((((w1 & 15) << 4) | (w2 >> 2)) >> 4) == w1,
        ((((w1 & 15) << 4) | (w2 >> 2)) & 15) << 2 | ((((w2 & 3) << 6) | w3) >> 6) == w2,
        (((w2 & 3) << 6) | w3) & 63 == w3,
{
    assert((w0 < 64 && w1 < 64 && w2 < 64 && w3 < 64) ==> (((w0 << 2) | (w1 >> 4)) >> 2 == w0 && ((
    (w0 << 2) | (w1 >> 4)) & 3) << 4 | ((((w1 & 15) << 4) | (w2 >> 2)) >> 4) == w1 && ((((w1 & 15)
        << 4) | (w2 >> 2)) & 15) << 2 | ((((w2 & 3) << 6) | w3) >> 6) == w2 && (((w2 & 3) << 6)
        | w3) & 63 == w3)) by (bit_vector);
}

proof fn lemma_decode_tail1(w0: u8, w1: u8)
    requires
        w0 < 64,
        w1 < 64,
        w1 & 15 == 0,
    ensures
        ((w0 << 2) | (w1 >> 4)) >> 2 == w0,
        (((w0 << 2) | (w1 >> 4)) & 3) << 4 == w1,
{
    assert((w0 < 64 && w1 < 64 && w1 & 15 == 0) ==> (((w0 << 2) | (w1 >> 4)) >> 2 == w0 && (((w0
        << 2) | (w1 >> 4)) & 3) << 4 == w1)) by (bit_vector);
}

proof fn lemma_decode_tail2(w0: u8, w1: u8, w2: u8)
    requires
        w0 < 64,
        w1 < 64,
        w2 < 64,
        w2 & 3 == 0,
    ensures
        ((w0 << 2) | (w1 >> 4)) >> 2 == w0,
        (((w0 << 2) | (w1 >> 4)) & 3) << 4 | ((((w1 & 15) << 4) | (w2 >> 2)) >> 4) == w1,
        ((((w1 & 15) << 4) | (w2 >> 2)) & 15) << 2 == w2,
{
    assert((w0 < 64 && w1 < 64 && w2 < 64 && w2 & 3 == 0) ==> (((w0 << 2) | (w1 >> 4)) >> 2 == w0
        && (((w0 << 2) | (w1 >> 4)) & 3) << 4 | ((((w1 & 15) << 4) | (w2 >> 2)) >> 4) == w1 && ((((
    w1 & 15) << 4) | (w2 >> 2)) & 15) << 2 == w2)) by (bit_vector);
}

proof fn lemma_append_group(y: Seq<u8>, d0: u8, d1: u8, d2: u8)
    requires
        y.len() % 3 == 0,
    ensures
        b64_encoding(y + seq![d0, d1, d2]) == b64_encoding(y) + enc3(d0, d1, d2),
{
    let w = y + seq![d0, d1, d2];
    assert(y.len() == 3 * (y.len() as int / 3)) by (nonlinear_arith)
        requires
            y.len() % 3 == 0,
    ;
    lemma_b64_split(w, y.len() as int / 3);
    assert(w.take(3 * (y.len() as int / 3)) =~= y);
    assert(w.skip(3 * (y.len() as int / 3)) =~= seq![d0, d1, d2]);
    let g = seq![d0, d1, d2];
    assert(g.skip(3) =~= Seq::<u8>::empty());
    assert(g[0] == d0 && g[1] == d1 && g[2] == d2);
    assert(b64_encoding(Seq::<u8>::empty()) == Seq::<char>::empty());
    assert(b64_encoding(g) =~= enc3(d0, d1, d2));
}

proof fn lemma_append_tail1(y: Seq<u8>, d0: u8)
    requires
        y.len() % 3 == 0,
    ensures
        b64_encoding(y + seq![d0]) == b64_encoding(y) + enc1(d0),
{
    let w = y + seq![d0];
    assert(y.len() == 3 * (y.len() as int / 3)) by (nonlinear_arith)
        requires
            y.len() % 3 == 0,
    ;
    lemma_b64_split(w, y.len() as int / 3);
    assert(w.take(3 * (y.len() as int / 3)) =~= y);
    assert(w.skip(3 * (y.len() as int / 3)) =~= seq![d0]);
    let g = seq![d0];
    assert(g[0] == d0 && g.len() == 1);
    assert(b64_encoding(g) =~= enc1(d0));
}

proof fn lemma_append_tail2(y: Seq<u8>, d0: u8, d1: u8)
    requires
        y.len() % 3 == 0,
    ensures
        b64_encoding(y + seq![d0, d1]) == b64_encoding(y) + enc2(d0, d1),
{
    let w = y + seq![d0, d1];
    assert(y.len() == 3 * (y.len() as int / 3)) by (nonlinear_arith)
        requires
            y.len() % 3 == 0,
    ;
    lemma_b64_split(w, y.len() as int / 3);
    assert(w.take(3 * (y.len() as int / 3)) =~= y);
    assert(w.skip(3 * (y.len() as int / 3)) =~= seq![d0, d1]);
    let g = seq![d0, d1];
    assert(g[0] == d0 && g[1] == d1 && g.len() == 2);
    assert(b64_encoding(g) =~= enc2(d0, d1));
}

/// A prefix of `s` is the encoding of `y`, and the next character of
/// `s` is outside the alphabet: `s` encodes nothing.
proof fn lemma_reject_bad_char(s: Seq<char>, y: Seq<u8>, i: int)
    requires
        0 <= i,
        i + 1 <= s.len(),
        y.len() % 3 == 0,
        y.len() == 3 * (i / 4),
        i % 4 == 0,
        s.take(i) == b64_encoding(y),
        exists|j: int| i <= j < s.len() && b64_val(s[j]) < 0,
    ensures
        forall|x: Seq<u8>| s != b64_encoding(x),
{
    assert forall|x: Seq<u8>| s != b64_encoding(x) by {
        if s == b64_encoding(x) {
            lemma_b64_chars(x);
            let j = choose|j: int| i <= j < s.len() && b64_val(s[j]) < 0;
            assert(is_b64_char(b64_encoding(x)[j]));
        }
    }
}

proof fn lemma_take_prefix(s: Seq<char>, x: Seq<u8>, i: int)
    requires
        0 <= i,
        i % 4 == 0,
        i <= s.len(),
        s == b64_encoding(x),
        3 * (i / 4) <= x.len(),
    ensures
        s.take(i) == b64_encoding(x.take(3 * (i / 4))),
        s.skip(i) == b64_encoding(x.skip(3 * (i / 4))),
{
    let k = i / 4;
    lemma_b64_split(x, k);
    lemma_b64_len(x.take(3 * k));
    assert(b64_encoding(x.take(3 * k)).len() == i);
    assert(s.take(i) =~= b64_encoding(x.take(3 * k)));
    assert(s.skip(i) =~= b64_encoding(x.skip(3 * k)));
}

/// A two-symbol tail whose second symbol keeps spare bits encodes
/// nothing.
proof fn lemma_reject_tail1(s: Seq<char>, y: Seq<u8>, w0: u8, w1: u8)
    requires
        y.len() % 3 == 0,
        s.len() % 4 == 2,
        y.len() == 3 * ((s.len() - 2) / 4),
        s.take(s.len() - 2) == b64_encoding(y),
        w0 < 64,
        w1 < 64,
        b64_val(s[s.len() - 2]) == w0 as int,
        b64_val(s[s.len() - 1]) == w1 as int,
        w1 & 15 != 0,
    ensures
        forall|x: Seq<u8>| s != b64_encoding(x),
{
    assert forall|x: Seq<u8>| s != b64_encoding(x) by {
        if s == b64_encoding(x) {
            let i = s.len() - 2;
            lemma_b64_len(x);
            assert(x.len() % 3 == 1) by {
                assert(b64_len(x.len() as int) == s.len());
                assert(x.len() == 3 * (x.len() as int / 3) + x.len() as int % 3);
            }
            assert(3 * (i / 4) == x.len() - 1) by {
                assert(b64_len(x.len() as int) == s.len());
                assert(x.len() == 3 * (x.len() as int / 3) + x.len() as int % 3);
            }
            lemma_take_prefix(s, x, i);
            let b0 = x[x.len() - 1];
            assert(x.skip(3 * (i / 4)) =~= seq![b0]);
            assert(s.skip(i) == enc1(b0));
            lemma_group_vals_small(b0, 0, 0);
            assert(s[i + 1] == b64_char((b0 & 3) << 4));
            lemma_b64_char_val((b0 & 3) << 4);
            assert(w1 == (b0 & 3) << 4);
            assert(((b0 & 3) << 4) & 15 == 0) by (bit_vector);
        }
    }
}

/// A three-symbol tail whose last symbol keeps spare bits encodes
/// nothing.
proof fn lemma_reject_tail2(s: Seq<char>, y: Seq<u8>, w0: u8, w1: u8, w2: u8)
    requires
        y.len() % 3 == 0,
        s.len() % 4 == 3,
        y.len() == 3 * ((s.len() - 3) / 4),
        s.take(s.len() - 3) == b64_encoding(y),
        w0 < 64,
        w1 < 64,
        w2 < 64,
        b64_val(s[s.len() - 3]) == w0 as int,
        b64_val(s[s.len() - 2]) == w1 as int,
        b64_val(s[s.len() - 1]) == w2 as int,
        w2 & 3 != 0,
    ensures
        forall|x: Seq<u8>| s != b64_encoding(x),
{
    assert forall|x: Seq<u8>| s != b64_encoding(x) by {
        if s == b64_encoding(x) {
            let i = s.len() - 3;
            lemma_b64_len(x);
            assert(x.len() % 3 == 2) by {
                assert(b64_len(x.len() as int) == s.len());
                assert(x.len() == 3 * (x.len() as int / 3) + x.len() as int % 3);
            }
            assert(3 * (i / 4) == x.len() - 2) by {
                assert(b64_len(x.len() as int) == s.len());
                assert(x.len() == 3 * (x.len() as int / 3) + x.len() as int % 3);
            }
            lemma_take_prefix(s, x, i);
            let b0 = x[x.len() - 2];
            let b1 = x[x.len() - 1];
            assert(x.skip(3 * (i / 4)) =~= seq![b0, b1]);
            assert(s.skip(i) == enc2(b0, b1));
            lemma_group_vals_small(b0, b1, 0);
            assert(s[i + 2] == b64_char((b1 & 15) << 2));
            lemma_b64_char_val((b1 & 15) << 2);
            assert(w2 == (b1 & 15) << 2);
            assert(((b1 & 15) << 2) & 3 == 0) by (bit_vector);
        }
    }
}

} // verus!
