use crate::base64url::ascii_chars;
use vstd::prelude::*;
use vstd::string::*;

verus! {

// The claim documents of the token formats, and the body of the OAuth
// exchange, are JSON with a fixed key order, no spare whitespace, and
// string values restricted to printable ASCII without escapes.  Under
// those rules every document has exactly one rendering, so rendering
// and parsing are inverse and are both verified here.

/// A character that may stand unescaped inside a JSON string value.
pub open spec fn plain_char(c: char) -> bool {
    32 <= (c as u32) && (c as u32) < 127 && c != '"' && c != '\\'
}

/// A string value all of whose characters are plain.
pub open spec fn json_plain(s: Seq<char>) -> bool {
    forall|i: int| 0 <= i < s.len() ==> plain_char(#[trigger] s[i])
}

/// The bytes of an ASCII string, one byte per character.
pub open spec fn ascii_bytes(s: Seq<char>) -> Seq<u8> {
    s.map_values(|c: char| c as u8)
}

pub open spec fn plain_byte(x: u8) -> bool {
    32 <= x < 127 && x != 34 && x != 92
}

/// An ASCII character survives the round trip through its byte.
pub proof fn lemma_char_byte(c: char)
    requires
        (c as u32) < 128,
    ensures
        ((c as u8) as char) == c,
        (c as u8) as u32 == c as u32,
        (c as u8) < 128,
{
    let x = c as u32;
    assert(x < 128 ==> ((x as u8) as u32 == x && (x as u8) < 128)) by (bit_vector);
    assert(c as u8 == x as u8);
    vstd::utf8::char_u32_cast(c, x);
    vstd::utf8::char_u32_cast(((c as u8) as char), ((c as u8) as char) as u32);
}

pub proof fn lemma_ascii_bytes_injective(s1: Seq<char>, s2: Seq<char>)
    requires
        json_plain(s1),
        json_plain(s2),
        ascii_bytes(s1) == ascii_bytes(s2),
    ensures
        s1 == s2,
{
    assert(ascii_bytes(s1).len() == s1.len());
    assert(ascii_bytes(s2).len() == s2.len());
    assert forall|i: int| 0 <= i < s1.len() implies s1[i] == s2[i] by {
        assert(plain_char(s1[i]));
        assert(plain_char(s2[i]));
        assert(ascii_bytes(s1)[i] == s1[i] as u8);
        assert(ascii_bytes(s2)[i] == s2[i] as u8);
        lemma_char_byte(s1[i]);
        lemma_char_byte(s2[i]);
    }
    assert(s1 =~= s2);
}

/// Decimal digits of a natural number, most significant first.
pub open spec fn digits_nat(n: int) -> Seq<u8>
    recommends
        n >= 0,
    decreases n,
{
    if n < 10 {
        seq![(48 + if n >= 0 {
            n
        } else {
            0
        }) as u8]
    } else {
        digits_nat(n / 10) + seq![(48 + n % 10) as u8]
    }
}

/// Canonical decimal rendering of an integer.
pub open spec fn dec_int(v: int) -> Seq<u8> {
    if v >= 0 {
        digits_nat(v)
    } else {
        seq![45u8] + digits_nat(-v)
    }
}

pub open spec fn is_digit(x: u8) -> bool {
    48 <= x <= 57
}

/// Value of a digit string, most significant first.
pub open spec fn val_of_digits(d: Seq<u8>) -> int
    decreases d.len(),
{
    if d.len() == 0 {
        0
    } else {
        val_of_digits(d.take(d.len() - 1)) * 10 + (d[d.len() - 1] - 48)
    }
}

proof fn lemma_digits_nat_shape(n: int)
    requires
        n >= 0,
    ensures
        digits_nat(n).len() >= 1,
        forall|i: int| 0 <= i < digits_nat(n).len() ==> is_digit(#[trigger] digits_nat(n)[i]),
        digits_nat(n).len() > 1 ==> digits_nat(n)[0] != 48,
        n >= 10 ==> digits_nat(n).len() > 1,
        n < 10 ==> digits_nat(n).len() == 1,
    decreases n,
{
    if n >= 10 {
        assert(n / 10 >= 1 && n / 10 < n && n % 10 < 10 && n % 10 >= 0) by (nonlinear_arith)
            requires
                n >= 10,
        ;
        lemma_digits_nat_shape(n / 10);
        assert(digits_nat(n) == digits_nat(n / 10) + seq![(48 + n % 10) as u8]);
        if digits_nat(n / 10).len() == 1 {
            assert(n / 10 >= 1);
            assert(digits_nat(n)[0] == digits_nat(n / 10)[0]);
            if n / 10 < 10 {
                assert(digits_nat(n / 10)[0] == (48 + n / 10) as u8);
            }
        }
    }
}

proof fn lemma_val_of_digits_nat(n: int)
    requires
        n >= 0,
    ensures
        val_of_digits(digits_nat(n)) == n,
    decreases n,
{
    if n < 10 {
        let d = digits_nat(n);
        assert(d.take(0) =~= Seq::<u8>::empty());
        assert(val_of_digits(Seq::<u8>::empty()) == 0);
        assert(val_of_digits(d) == (d[0] - 48));
    } else {
        assert(n / 10 >= 1 && n / 10 < n && 0 <= n % 10 < 10 && n == (n / 10) * 10 + n % 10)
            by (nonlinear_arith)
            requires
                n >= 10,
        ;
        lemma_val_of_digits_nat(n / 10);
        let d = digits_nat(n);
        assert(d == digits_nat(n / 10) + seq![(48 + n % 10) as u8]);
        assert(d.take(d.len() - 1) =~= digits_nat(n / 10));
        assert(d[d.len() - 1] == (48 + n % 10) as u8);
    }
}

/// A digit string in canonical shape is the rendering of its value.
proof fn lemma_digits_of_val(d: Seq<u8>)
    requires
        d.len() >= 1,
        forall|i: int| 0 <= i < d.len() ==> is_digit(#[trigger] d[i]),
        d.len() > 1 ==> d[0] != 48,
    ensures
        val_of_digits(d) >= 0,
        d.len() > 1 ==> val_of_digits(d) >= 10,
        digits_nat(val_of_digits(d)) == d,
    decreases d.len(),
{
    if d.len() == 1 {
        assert(d.take(0) =~= Seq::<u8>::empty());
        assert(val_of_digits(Seq::<u8>::empty()) == 0);
        assert(val_of_digits(d) == d[0] - 48 < 10);
        assert(digits_nat(val_of_digits(d)) =~= d);
    } else {
        let head = d.take(d.len() - 1);
        assert(forall|i: int| 0 <= i < head.len() ==> head[i] == d[i]);
        lemma_digits_of_val(head);
        let hv = val_of_digits(head);
        let v = hv * 10 + (d[d.len() - 1] - 48);
        assert(hv >= 1) by {
            if head.len() == 1 {
                assert(head.take(0) =~= Seq::<u8>::empty());
                assert(val_of_digits(Seq::<u8>::empty()) == 0);
                assert(hv == head[0] - 48);
                assert(head[0] != 48);
            }
        }
        assert(v >= 10 && v / 10 == hv && v % 10 == d[d.len() - 1] - 48) by (nonlinear_arith)
            requires
                hv >= 1,
                0 <= d[d.len() - 1] - 48 < 10,
                v == hv * 10 + (d[d.len() - 1] - 48),
        ;
        assert(digits_nat(v) == digits_nat(hv) + seq![(48 + v % 10) as u8]);
        assert(digits_nat(v) =~= d);
    }
}

/// The value of a digit string dominates the value of any prefix.
proof fn lemma_val_prefix(d: Seq<u8>, k: int)
    requires
        0 <= k <= d.len(),
        forall|i: int| 0 <= i < d.len() ==> is_digit(#[trigger] d[i]),
    ensures
        val_of_digits(d) >= val_of_digits(d.take(k)),
        val_of_digits(d) >= 0,
    decreases d.len() - k,
{
    if k == d.len() {
        assert(d.take(k) =~= d);
        lemma_val_nonneg(d);
    } else {
        lemma_val_prefix(d, k + 1);
        let p = d.take(k + 1);
        assert(p.take(k) =~= d.take(k));
        lemma_val_nonneg(d.take(k));
        assert(val_of_digits(p) == val_of_digits(d.take(k)) * 10 + (p[k] - 48));
        assert(val_of_digits(d.take(k)) * 10 >= val_of_digits(d.take(k))) by (nonlinear_arith)
            requires
                val_of_digits(d.take(k)) >= 0,
        ;
    }
}

proof fn lemma_val_nonneg(d: Seq<u8>)
    requires
        forall|i: int| 0 <= i < d.len() ==> is_digit(#[trigger] d[i]),
    ensures
        val_of_digits(d) >= 0,
    decreases d.len(),
{
    if d.len() > 0 {
        assert(forall|i: int|
            0 <= i < d.len() - 1 ==> is_digit(#[trigger] d.take(d.len() - 1)[i]));
        lemma_val_nonneg(d.take(d.len() - 1));
        assert(val_of_digits(d.take(d.len() - 1)) * 10 >= 0) by (nonlinear_arith)
            requires
                val_of_digits(d.take(d.len() - 1)) >= 0,
        ;
    }
}

/// Append the canonical digits of `m` to `out`.
fn push_digits(m: u64, out: &mut Vec<u8>)
    ensures
        final(out)@ == old(out)@ + digits_nat(m as int),
    decreases m,
{
    if m < 10 {
        out.push(48 + m as u8);
        assert(out@ =~= old(out)@ + digits_nat(m as int));
    } else {
        assert(m as int / 10 == (m / 10) as int && m as int % 10 == (m % 10) as int)
            by (nonlinear_arith)
            requires
                m >= 10,
        ;
        push_digits(m / 10, out);
        out.push(48 + (m % 10) as u8);
        assert(out@ =~= old(out)@ + digits_nat(m as int));
    }
}

/// Append the canonical rendering of `v` to `out`.
pub fn push_int(v: i64, out: &mut Vec<u8>)
    ensures
        final(out)@ == old(out)@ + dec_int(v as int),
{
    if v >= 0 {
        push_digits(v as u64, out);
    } else {
        out.push(45);
        let m: u64 = if v == i64::MIN {
            9223372036854775808u64
        } else {
            (-v) as u64
        };
        let ghost mid = out@;
        push_digits(m, out);
        assert(out@ =~= old(out)@ + dec_int(v as int));
    }
}

/// Scan a canonical integer at `pos`: an optional minus, then digits
/// with no spare leading zero, ending before the first non-digit.
/// `None` when no canonical integer within the `i64` range sits there.
pub fn scan_int(b: &Vec<u8>, pos: usize) -> (r: Option<(i64, usize)>)
    requires
        pos <= b@.len(),
    ensures
        r matches Some(t) ==> ({
            &&& pos < t.1 <= b@.len()
            &&& b@.subrange(pos as int, t.1 as int) == dec_int(t.0 as int)
            &&& (t.1 == b@.len() || !is_digit(b@[t.1 as int]))
        }),
        r is None ==> forall|v: i64, e: int|
            !valid_int_at(b@, pos as int, v, e),
{
    let n = b.len();
    let neg = pos < n && b[pos] == 45;
    let start = if neg {
        pos + 1
    } else {
        pos
    };
    if start >= n || !(48 <= b[start] && b[start] <= 57) {
        proof {
            assert forall|v: i64, e: int| !valid_int_at(b@, pos as int, v, e) by {
                reject_no_digit(b@, pos as int, v, e, neg);
            }
        }
        return None;
    }
    if b[start] == 48 && start + 1 < n && 48 <= b[start + 1] && b[start + 1] <= 57 {
        proof {
            assert forall|v: i64, e: int| !valid_int_at(b@, pos as int, v, e) by {
                reject_leading_zero(b@, pos as int, v, e, neg);
            }
        }
        return None;
    }
    if neg && b[start] == 48 {
        proof {
            assert forall|v: i64, e: int| !valid_int_at(b@, pos as int, v, e) by {
                reject_minus_zero(b@, pos as int, v, e);
            }
        }
        return None;
    }
    let mut m: u64 = 0;
    let mut j = start;
    while j < n && 48 <= b[j] && b[j] <= 57
        invariant
            pos <= start <= j <= n,
            start <= pos + 1,
            n == b@.len(),
            start < n,
            neg ==> pos < b@.len() && b@[pos as int] == 45 && start == pos + 1,
            !neg ==> start == pos && !(pos < b@.len() && b@[pos as int] == 45),
            is_digit(b@[start as int]),
            b@[start as int] == 48 ==> !(start + 1 < n && is_digit(b@[start as int + 1])),
            b@[start as int] == 48 ==> j <= start + 1,
            m as int == val_of_digits(b@.subrange(start as int, j as int)),
            m <= 9999999999999999999u64,
            forall|i: int| start <= i < j ==> is_digit(#[trigger] b@[i]),
        decreases n - j,
    {
        let d = b[j] - 48;
        if m >= 1000000000000000000u64 {
            proof {
                assert forall|v: i64, e: int| !valid_int_at(b@, pos as int, v, e) by {
                    reject_run_too_long(b@, pos as int, v, e, neg, start as int, j as int, m as int);
                }
            }
            return None;
        }
        proof {
            let run = b@.subrange(start as int, j + 1);
            assert(run.take(run.len() - 1) =~= b@.subrange(start as int, j as int));
            assert(run[run.len() - 1] == b@[j as int]);
        }
        m = m * 10 + d as u64;
        j = j + 1;
    }
    let digit_count = j - start;
    proof {
        lemma_digits_of_val(b@.subrange(start as int, j as int));
        lemma_val_of_digits_nat(m as int);
        if b@[start as int] == 48 && digit_count > 1 {
            assert(false);
        }
    }
    if neg {
        if m > 9223372036854775808u64 {
            proof {
                assert forall|v: i64, e: int| !valid_int_at(b@, pos as int, v, e) by {
                    reject_out_of_range(b@, pos as int, v, e, neg, start as int, j as int, m as int);
                }
            }
            return None;
        }
        let v: i64 = if m == 9223372036854775808u64 {
            i64::MIN
        } else {
            -(m as i64)
        };
        proof {
            assert(m >= 1) by {
                if m == 0 {
                    assert(digits_nat(0) =~= seq![48u8]);
                    assert(b@.subrange(start as int, j as int)[0] == 48);
                }
            }
            assert(b@.subrange(pos as int, j as int) =~= seq![45u8] + digits_nat(m as int));
        }
        Some((v, j))
    } else {
        if m > 9223372036854775807u64 {
            proof {
                assert forall|v: i64, e: int| !valid_int_at(b@, pos as int, v, e) by {
                    reject_out_of_range(b@, pos as int, v, e, neg, start as int, j as int, m as int);
                }
            }
            return None;
        }
        proof {
            assert(b@.subrange(pos as int, j as int) =~= digits_nat(m as int));
        }
        Some((m as i64, j))
    }
}

/// Two canonical integers at one place are the same integer.
/// A canonical integer with value `v` fills `pos..e` and is not
/// followed by a digit.
pub open spec fn valid_int_at(b: Seq<u8>, pos: int, v: i64, e: int) -> bool {
    &&& pos < e <= b.len()
    &&& b.subrange(pos, e) == dec_int(v as int)
    &&& (e == b.len() || !is_digit(b[e]))
}

/// Two canonical integers at one place are the same integer.
pub proof fn lemma_int_unique(b: Seq<u8>, pos: int, v1: i64, e1: int, v2: i64, e2: int)
    requires
        0 <= pos,
        valid_int_at(b, pos, v1, e1),
        valid_int_at(b, pos, v2, e2),
    ensures
        e1 == e2,
        v1 == v2,
{
    lemma_int_decomp(b, pos, v1, e1);
    lemma_int_decomp(b, pos, v2, e2);
    assert(e1 == e2) by {
        if e1 < e2 {
            lemma_dec_digit_at(b, pos, v2, e2, e1);
        } else if e2 < e1 {
            lemma_dec_digit_at(b, pos, v1, e1, e2);
        }
    }
    assert(b.subrange(pos, e1) == dec_int(v1 as int) && b.subrange(pos, e1) == dec_int(v2 as int));
    lemma_dec_int_injective(v1 as int, v2 as int);
}

/// What a canonical integer at `pos..e` pins down: its sign byte and
/// its digit run.
proof fn lemma_int_decomp(b: Seq<u8>, pos: int, v: i64, e: int)
    requires
        0 <= pos,
        valid_int_at(b, pos, v, e),
    ensures
        v < 0 ==> b[pos] == 45,
        v >= 0 ==> is_digit(b[pos]),
        (if v >= 0 { pos } else { pos + 1 }) < e,
        b.subrange((if v >= 0 { pos } else { pos + 1 }), e) =~= digits_nat(
            (if v >= 0 { v as int } else { -(v as int) }),
        ),
        forall|i: int| pos + (if v >= 0 { 0int } else { 1int }) <= i < e ==> is_digit(#[trigger] b[i]),
{
    let mv: int = if v >= 0 { v as int } else { -(v as int) };
    let dstart: int = if v >= 0 { pos } else { pos + 1 };
    lemma_digits_nat_shape(mv);
    let d = dec_int(v as int);
    assert(b.subrange(pos, e) == d);
    assert(e - pos == d.len());
    if v >= 0 {
        assert(b[pos] == b.subrange(pos, e)[0]);
        assert(is_digit(digits_nat(mv)[0]));
    } else {
        assert(d == seq![45u8] + digits_nat(mv));
        assert(b[pos] == b.subrange(pos, e)[0]);
        assert(d[0] == 45);
    }
    assert forall|i: int| 0 <= i < e - dstart implies b.subrange(dstart, e)[i] == digits_nat(mv)[i]
        by {
        if v >= 0 {
            assert(b.subrange(pos, e)[i] == b[pos + i]);
            assert(b.subrange(dstart, e)[i] == b[dstart + i]);
        } else {
            assert(b.subrange(dstart, e)[i] == b[dstart + i]);
            assert(b.subrange(pos, e)[i + 1] == b[pos + i + 1]);
            assert(d[i + 1] == digits_nat(mv)[i]);
        }
    }
    assert(b.subrange(dstart, e).len() == digits_nat(mv).len());
    assert forall|i: int| dstart <= i < e implies is_digit(#[trigger] b[i]) by {
        assert(b[i] == b.subrange(dstart, e)[i - dstart]);
        assert(is_digit(digits_nat(mv)[i - dstart]));
    }
}

/// Inside a canonical integer every byte after the sign is a digit.
proof fn lemma_dec_digit_at(b: Seq<u8>, pos: int, v: i64, e: int, p: int)
    requires
        0 <= pos,
        valid_int_at(b, pos, v, e),
        pos < p < e,
    ensures
        is_digit(b[p]),
{
    lemma_int_decomp(b, pos, v, e);
}

proof fn lemma_dec_int_injective(v1: int, v2: int)
    requires
        dec_int(v1) == dec_int(v2),
    ensures
        v1 == v2,
{
    lemma_digits_nat_shape(if v1 >= 0 {
        v1
    } else {
        -v1
    });
    lemma_digits_nat_shape(if v2 >= 0 {
        v2
    } else {
        -v2
    });
    if v1 >= 0 && v2 >= 0 {
        lemma_val_of_digits_nat(v1);
        lemma_val_of_digits_nat(v2);
    } else if v1 < 0 && v2 < 0 {
        let a = digits_nat(-v1);
        let c = digits_nat(-v2);
        assert(dec_int(v1) == seq![45u8] + a);
        assert(dec_int(v2) == seq![45u8] + c);
        assert(a =~= (seq![45u8] + a).skip(1));
        assert(c =~= (seq![45u8] + c).skip(1));
        assert(a == c);
        lemma_val_of_digits_nat(-v1);
        lemma_val_of_digits_nat(-v2);
    } else if v1 >= 0 && v2 < 0 {
        assert(dec_int(v1)[0] == digits_nat(v1)[0]);
        assert(is_digit(digits_nat(v1)[0]));
        assert(dec_int(v2)[0] == (seq![45u8] + digits_nat(-v2))[0]);
    } else {
        assert(dec_int(v2)[0] == digits_nat(v2)[0]);
        assert(is_digit(digits_nat(v2)[0]));
        assert(dec_int(v1)[0] == (seq![45u8] + digits_nat(-v1))[0]);
    }
}

/// A digit run longer than any `i64` rendering admits no valid
/// integer.
proof fn reject_run_too_long(
    b: Seq<u8>,
    pos: int,
    v: i64,
    e: int,
    neg: bool,
    start: int,
    j: int,
    m: int,
)
    requires
        0 <= pos <= start <= j < b.len(),
        neg ==> b[pos] == 45 && start == pos + 1,
        !neg ==> start == pos && !(pos < b.len() && b[pos] == 45),
        m == val_of_digits(b.subrange(start, j)),
        m >= 1000000000000000000,
        is_digit(b[j]),
        forall|i: int| start <= i < j ==> is_digit(#[trigger] b[i]),
    ensures
        !valid_int_at(b, pos, v, e),
{
    if valid_int_at(b, pos, v, e) {
        lemma_int_decomp(b, pos, v, e);
        let mv: int = if v >= 0 { v as int } else { -(v as int) };
        let dstart: int = if v >= 0 { pos } else { pos + 1 };
        assert(dstart == start);
        assert(e > j) by {
            if e <= j {
                assert(e == b.len() || !is_digit(b[e]));
            }
        }
        let d = b.subrange(start, e);
        assert(d =~= digits_nat(mv));
        lemma_val_of_digits_nat(mv);
        assert(val_of_digits(d) == mv);
        assert(forall|i: int| 0 <= i < d.len() ==> is_digit(#[trigger] d[i]));
        lemma_val_prefix(d, j + 1 - start);
        assert(d.take(j + 1 - start) =~= b.subrange(start, j + 1));
        let run1 = b.subrange(start, j + 1);
        assert(run1.take(run1.len() - 1) =~= b.subrange(start, j));
        assert(val_of_digits(run1) == m * 10 + (b[j] - 48));
        assert(mv >= m * 10) by (nonlinear_arith)
            requires
                mv >= val_of_digits(run1),
                val_of_digits(run1) == m * 10 + (b[j] - 48),
                b[j] >= 48,
        ;
        assert(mv >= 10000000000000000000);
        assert(mv <= 9223372036854775808);
    }
}

/// A completed digit run whose value leaves the `i64` range admits no
/// valid integer.
proof fn reject_out_of_range(
    b: Seq<u8>,
    pos: int,
    v: i64,
    e: int,
    neg: bool,
    start: int,
    j: int,
    m: int,
)
    requires
        0 <= pos <= start <= j <= b.len(),
        start < j,
        neg ==> b[pos] == 45 && start == pos + 1,
        !neg ==> start == pos && !(pos < b.len() && b[pos] == 45),
        m == val_of_digits(b.subrange(start, j)),
        j == b.len() || !is_digit(b[j]),
        forall|i: int| start <= i < j ==> is_digit(#[trigger] b[i]),
        neg ==> m > 9223372036854775808,
        !neg ==> m > 9223372036854775807,
    ensures
        !valid_int_at(b, pos, v, e),
{
    if valid_int_at(b, pos, v, e) {
        lemma_int_decomp(b, pos, v, e);
        let mv: int = if v >= 0 { v as int } else { -(v as int) };
        let dstart: int = if v >= 0 { pos } else { pos + 1 };
        assert(dstart == start);
        assert(e == j) by {
            if e < j {
                assert(is_digit(b[e]));
                assert(e == b.len() || !is_digit(b[e]));
            }
            if e > j {
                assert(is_digit(b[j]));
            }
        }
        let d = b.subrange(start, e);
        assert(d =~= digits_nat(mv));
        lemma_val_of_digits_nat(mv);
        assert(mv == m);
        assert(mv <= 9223372036854775808);
        if v >= 0 {
            assert(mv <= 9223372036854775807);
        }
    }
}

proof fn reject_no_digit(b: Seq<u8>, pos: int, v: i64, e: int, neg: bool)
    requires
        0 <= pos <= b.len(),
        neg == (pos < b.len() && b[pos] == 45),
        ({
            let s = pos + (if neg { 1int } else { 0int });
            !(s < b.len() && is_digit(b[s]))
        }),
    ensures
        !valid_int_at(b, pos, v, e),
{
    if valid_int_at(b, pos, v, e) {
        lemma_int_decomp(b, pos, v, e);
        let dstart: int = if v >= 0 { pos } else { pos + 1 };
        let s = pos + (if neg { 1int } else { 0int });
        assert(dstart == s);
        assert(dstart < e <= b.len());
        assert(is_digit(b[dstart]));
    }
}

proof fn reject_leading_zero(b: Seq<u8>, pos: int, v: i64, e: int, neg: bool)
    requires
        0 <= pos <= b.len(),
        neg == (pos < b.len() && b[pos] == 45),
        ({
            let s = pos + (if neg { 1int } else { 0int });
            s < b.len() && b[s] == 48 && s + 1 < b.len() && is_digit(b[s + 1])
        }),
    ensures
        !valid_int_at(b, pos, v, e),
{
    if valid_int_at(b, pos, v, e) {
        lemma_int_decomp(b, pos, v, e);
        let mv: int = if v >= 0 { v as int } else { -(v as int) };
        let dstart: int = if v >= 0 { pos } else { pos + 1 };
        let s = pos + (if neg { 1int } else { 0int });
        assert(dstart == s);
        let d = b.subrange(dstart, e);
        assert(d =~= digits_nat(mv));
        lemma_digits_nat_shape(mv);
        assert(b[s] == digits_nat(mv)[0]);
        if e - dstart > 1 {
            assert(digits_nat(mv)[0] != 48);
        } else {
            assert(e == s + 1);
            assert(is_digit(b[e]));
            assert(e == b.len() || !is_digit(b[e]));
        }
    }
}

proof fn reject_minus_zero(b: Seq<u8>, pos: int, v: i64, e: int)
    requires
        0 <= pos < b.len(),
        b[pos] == 45,
        pos + 1 < b.len(),
        b[pos + 1] == 48,
        !(pos + 2 < b.len() && is_digit(b[pos + 2])),
    ensures
        !valid_int_at(b, pos, v, e),
{
    if valid_int_at(b, pos, v, e) {
        lemma_int_decomp(b, pos, v, e);
        let mv: int = if v >= 0 { v as int } else { -(v as int) };
        lemma_digits_nat_shape(mv);
        if v >= 0 {
            assert(is_digit(b[pos]));
        } else {
            let d = b.subrange(pos + 1, e);
            assert(d =~= digits_nat(mv));
            assert(digits_nat(mv)[0] == 48);
            assert(digits_nat(mv).len() == 1) by {
                if digits_nat(mv).len() > 1 {
                    assert(digits_nat(mv)[0] != 48);
                }
            }
            assert(mv < 10);
            assert(mv == digits_nat(mv)[0] - 48) by {
                lemma_val_of_digits_nat(mv);
                assert(digits_nat(mv).take(0) =~= Seq::<u8>::empty());
                assert(val_of_digits(Seq::<u8>::empty()) == 0);
            }
            assert(v == 0);
        }
    }
}

/// The bytes of an ASCII string literal, for matching and rendering.
pub fn lit_bytes(s: &str) -> (v: Vec<u8>)
    requires
        vstd::utf8::is_ascii_chars(s@),
    ensures
        v@ == ascii_bytes(s@),
{
    let v = s.as_bytes_vec();
    proof {
        assert(s.is_ascii());
        vstd::string::is_ascii_spec_bytes(s);
        assert(v@ =~= ascii_bytes(s@));
    }
    v
}

/// A plain string value rendered at `pos..e`, with the closing quote
/// at `e`.
pub open spec fn valid_str_at(b: Seq<u8>, pos: int, s: Seq<char>, e: int) -> bool {
    &&& pos <= e < b.len()
    &&& json_plain(s)
    &&& b.subrange(pos, e) == ascii_bytes(s)
    &&& b[e] == 34
}

/// Scan a plain string value at `pos`, stopping at the closing quote.
pub fn scan_string(b: &Vec<u8>, pos: usize) -> (r: Option<(String, usize)>)
    requires
        pos <= b@.len(),
    ensures
        r matches Some(t) ==> valid_str_at(b@, pos as int, t.0@, t.1 as int),
        r matches Some(t) ==> forall|s2: Seq<char>, e2: int|
            valid_str_at(b@, pos as int, s2, e2) ==> e2 == t.1 as int && s2 == t.0@,
        r is None ==> forall|s2: Seq<char>, e2: int| !valid_str_at(b@, pos as int, s2, e2),
{
    let n = b.len();
    let mut content: Vec<u8> = Vec::new();
    let mut j = pos;
    loop
        invariant
            pos <= j <= n,
            n == b@.len(),
            content@ == b@.subrange(pos as int, j as int),
            forall|i: int| pos <= i < j ==> plain_byte(#[trigger] b@[i]),
        decreases n - j,
    {
        if j >= n {
            proof {
                assert forall|s2: Seq<char>, e2: int| !valid_str_at(
                    b@,
                    pos as int,
                    s2,
                    e2,
                ) by {
                    if valid_str_at(b@, pos as int, s2, e2) {
                        assert(plain_byte(b@[e2]));
                    }
                }
            }
            return None;
        }
        let x = b[j];
        if x == 34 {
            proof {
                assert forall|i: int| 0 <= i < content@.len() implies content@[i] < 128 by {
                    assert(content@[i] == b@[pos + i]);
                    assert(plain_byte(b@[pos + i]));
                }
            }
            let s = crate::base64url::ascii_to_string(content);
            proof {
                lemma_plain_bytes_chars(b@.subrange(pos as int, j as int));
                assert forall|s2: Seq<char>, e2: int|
                    valid_str_at(b@, pos as int, s2, e2) implies e2 == j as int && s2 == s@ by {
                    assert(e2 == j as int) by {
                        if e2 < j {
                            assert(plain_byte(b@[e2]));
                        }
                        if e2 > j {
                            assert(ascii_bytes(s2).len() == s2.len());
                            assert(s2.len() == e2 - pos);
                            let c2 = s2[j - pos];
                            assert(b@.subrange(pos as int, e2)[j - pos] == b@[j as int]);
                            assert(ascii_bytes(s2)[j - pos] == c2 as u8);
                            assert(plain_char(c2));
                            lemma_char_byte(c2);
                            assert(c2 as u32 == 34);
                            vstd::utf8::char_u32_cast('"', 34);
                            vstd::utf8::char_u32_cast(c2, 34);
                        }
                    }
                    assert(s@ == ascii_chars(b@.subrange(pos as int, j as int)));
                    assert(ascii_bytes(s@) == b@.subrange(pos as int, j as int));
                    assert(ascii_bytes(s2) == ascii_bytes(s@));
                    lemma_ascii_bytes_injective(s2, s@);
                }
            }
            return Some((s, j));
        }
        if !(32 <= x && x < 127) || x == 92 {
            proof {
                assert forall|s2: Seq<char>, e2: int| !valid_str_at(
                    b@,
                    pos as int,
                    s2,
                    e2,
                ) by {
                    if valid_str_at(b@, pos as int, s2, e2) {
                        if e2 < j {
                            assert(plain_byte(b@[e2]));
                        } else {
                            assert(e2 > j);
                            assert(ascii_bytes(s2).len() == s2.len());
                            assert(s2.len() == e2 - pos);
                            let c2 = s2[j - pos];
                            assert(b@.subrange(pos as int, e2)[j - pos] == b@[j as int]);
                            assert(ascii_bytes(s2)[j - pos] == c2 as u8);
                            assert(plain_char(c2));
                            lemma_char_byte(c2);
                            assert(c2 as u32 == x as u32);
                            if x == 92 {
                                vstd::utf8::char_u32_cast('\\', 92);
                                vstd::utf8::char_u32_cast(c2, 92);
                            }
                        }
                    }
                }
            }
            return None;
        }
        content.push(x);
        proof {
            assert(content@ =~= b@.subrange(pos as int, j + 1));
        }
        j = j + 1;
    }
}

/// Plain bytes read back as characters give a plain string with the
/// same bytes.
proof fn lemma_plain_bytes_chars(c: Seq<u8>)
    requires
        forall|i: int| 0 <= i < c.len() ==> plain_byte(#[trigger] c[i]),
    ensures
        forall|i: int| 0 <= i < c.len() ==> c[i] < 128,
        json_plain(ascii_chars(c)),
        ascii_bytes(ascii_chars(c)) == c,
{
    assert forall|i: int| 0 <= i < c.len() implies plain_char(#[trigger] ascii_chars(c)[i]) by {
        assert(ascii_chars(c)[i] == c[i] as char);
        assert(('"' as u32) == 34 && ('\\' as u32) == 92);
    }
    assert(ascii_bytes(ascii_chars(c)) =~= c) by {
        assert forall|i: int| 0 <= i < c.len() implies ascii_bytes(ascii_chars(c))[i] == c[i] by {
            assert(ascii_chars(c)[i] == c[i] as char);
        }
    }
}

/// Two plain strings at one place are the same string.
pub proof fn lemma_str_unique(b: Seq<u8>, pos: int, s1: Seq<char>, e1: int, s2: Seq<char>, e2: int)
    requires
        0 <= pos,
        valid_str_at(b, pos, s1, e1),
        valid_str_at(b, pos, s2, e2),
    ensures
        e1 == e2,
        s1 == s2,
{
    assert(ascii_bytes(s1).len() == s1.len());
    assert(ascii_bytes(s2).len() == s2.len());
    assert(e1 == e2) by {
        if e1 < e2 {
            lemma_quote_free(b, pos, s2, e2, e1);
        }
        if e2 < e1 {
            lemma_quote_free(b, pos, s1, e1, e2);
        }
    }
    assert(ascii_bytes(s1) == ascii_bytes(s2));
    lemma_ascii_bytes_injective(s1, s2);
}

/// No byte inside a plain string region is a quote.
proof fn lemma_quote_free(b: Seq<u8>, pos: int, s: Seq<char>, e: int, p: int)
    requires
        0 <= pos,
        valid_str_at(b, pos, s, e),
        pos <= p < e,
    ensures
        b[p] != 34,
{
    assert(ascii_bytes(s).len() == s.len());
    let c = s[p - pos];
    assert(b.subrange(pos, e)[p - pos] == b[p]);
    assert(ascii_bytes(s)[p - pos] == c as u8);
    assert(plain_char(c));
    lemma_char_byte(c);
    if c as u8 == 34 {
        assert(c as u32 == 34);
        vstd::utf8::char_u32_cast('"', 34);
        vstd::utf8::char_u32_cast(c, 34);
    }
}

/// Match the exact bytes of `lit` at `pos`.
pub fn expect_lit(b: &Vec<u8>, pos: usize, lit: &Vec<u8>) -> (r: Option<usize>)
    requires
        pos <= b@.len(),
    ensures
        r matches Some(p) ==> p == pos + lit@.len() && p <= b@.len() && b@.subrange(
            pos as int,
            p as int,
        ) == lit@,
        r is None ==> !(pos + lit@.len() <= b@.len() && b@.subrange(
            pos as int,
            pos + lit@.len(),
        ) =~= lit@),
{
    let n = b.len();
    let m = lit.len();
    if n - pos < m {
        return None;
    }
    let mut k: usize = 0;
    while k < m
        invariant
            0 <= k <= m,
            m == lit@.len(),
            n == b@.len(),
            pos + m <= n,
            forall|i: int| 0 <= i < k ==> b@[pos + i] == lit@[i],
        decreases m - k,
    {
        if b[pos + k] != lit[k] {
            proof {
                assert(b@.subrange(pos as int, pos + lit@.len())[k as int] == b@[pos + k]);
            }
            return None;
        }
        k = k + 1;
    }
    proof {
        assert(b@.subrange(pos as int, pos + lit@.len()) =~= lit@);
    }
    Some(pos + m)
}

} // verus!
