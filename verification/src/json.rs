//! Byte-level JSON primitives for the mapping-file codec.
//!
//! The store is persisted in a canonical JSON shape, written compactly and
//! read back byte for byte: strings escape only `"` and `\`, numbers are
//! plain decimals.  Each primitive comes as a spec-level serializer, a
//! spec-level parser, an executable mirror of each, and a round-trip lemma
//! showing that parsing undoes serializing.

use vstd::prelude::*;

verus! {

pub const QUOTE: u8 = 34;

pub const BACKSLASH: u8 = 92;

pub const DIGIT_ZERO: u8 = 48;

pub const DIGIT_NINE: u8 = 57;

/// The fixed byte string `tok` occurs in `s` at position `i`.
pub open spec fn spec_match_at(s: Seq<u8>, i: int, tok: Seq<u8>) -> bool {
    &&& 0 <= i
    &&& i + tok.len() <= s.len()
    &&& s.subrange(i, i + tok.len()) == tok
}

/// Consumes the fixed byte string `tok` at position `i`.
pub fn expect_bytes(s: &Vec<u8>, i: usize, tok: &Vec<u8>) -> (r: Option<usize>)
    ensures
        match r {
            Some(j) => spec_match_at(s@, i as int, tok@) && j == i + tok@.len(),
            None => !spec_match_at(s@, i as int, tok@),
        },
{
    let n = s.len();
    let m = tok.len();
    if i > n || m > n - i {
        return None;
    }
    let mut j: usize = 0;
    while j < m
        invariant
            m == tok@.len(),
            i + m <= n == s@.len(),
            j <= m,
            forall|m: int| 0 <= m < j ==> s@[i + m] == tok@[m],
        decreases tok@.len() - j,
    {
        if s[i + j] != tok[j] {
            proof {
                assert(s@.subrange(i as int, i + tok@.len())[j as int] == s@[i + j]);
            }
            return None;
        }
        j = j + 1;
    }
    proof {
        assert(s@.subrange(i as int, i + tok@.len()) =~= tok@);
    }
    Some(i + m)
}

/// How one byte is written inside a JSON string.
pub open spec fn esc_byte(b: u8) -> Seq<u8> {
    if b == QUOTE || b == BACKSLASH {
        seq![BACKSLASH, b]
    } else {
        seq![b]
    }
}

/// The escaped body of a JSON string.
pub open spec fn esc(s: Seq<u8>) -> Seq<u8>
    decreases s.len(),
{
    if s.len() == 0 {
        Seq::empty()
    } else {
        esc_byte(s[0]) + esc(s.skip(1))
    }
}

/// A whole serialized JSON string: quote, escaped body, quote.
pub open spec fn spec_ser_string(s: Seq<u8>) -> Seq<u8> {
    seq![QUOTE] + esc(s) + seq![QUOTE]
}

/// Escaping distributes over appending one byte.
pub proof fn lemma_esc_snoc(a: Seq<u8>, x: u8)
    ensures
        esc(a.push(x)) == esc(a) + esc_byte(x),
    decreases a.len(),
{
    if a.len() == 0 {
        assert(a.push(x)[0] == x);
        assert(a.push(x).skip(1) =~= Seq::<u8>::empty());
        assert(esc(a) == Seq::<u8>::empty());
        assert(esc(a.push(x)) == esc_byte(x) + esc(a.push(x).skip(1)));
        assert(esc(a.push(x).skip(1)) == Seq::<u8>::empty());
        assert(esc_byte(x) + Seq::<u8>::empty() =~= Seq::<u8>::empty() + esc_byte(x));
    } else {
        assert(a.push(x).skip(1) =~= a.skip(1).push(x));
        lemma_esc_snoc(a.skip(1), x);
        assert(a.push(x)[0] == a[0]);
        assert(esc(a.push(x)) == esc_byte(a[0]) + (esc(a.skip(1)) + esc_byte(x)));
        assert(esc_byte(a[0]) + (esc(a.skip(1)) + esc_byte(x)) =~= (esc_byte(a[0]) + esc(
            a.skip(1),
        )) + esc_byte(x));
    }
}

/// Scans the body of a JSON string from `i`, `acc` holding the bytes already
/// unescaped; ends at the closing quote.
pub open spec fn spec_parse_string_body(s: Seq<u8>, i: int, acc: Seq<u8>) -> Option<(Seq<u8>, int)>
    decreases s.len() - i,
{
    if i < 0 || i >= s.len() {
        None
    } else if s[i] == QUOTE {
        Some((acc, i + 1))
    } else if s[i] == BACKSLASH {
        if i + 1 < s.len() && (s[i + 1] == QUOTE || s[i + 1] == BACKSLASH) {
            spec_parse_string_body(s, i + 2, acc.push(s[i + 1]))
        } else {
            None
        }
    } else {
        spec_parse_string_body(s, i + 1, acc.push(s[i]))
    }
}

/// Parses a JSON string at `i`: the unescaped bytes and the position after
/// the closing quote.
pub open spec fn spec_parse_string(s: Seq<u8>, i: int) -> Option<(Seq<u8>, int)> {
    if 0 <= i < s.len() && s[i] == QUOTE {
        spec_parse_string_body(s, i + 1, Seq::empty())
    } else {
        None
    }
}

proof fn lemma_parse_string_body_after_esc(s: Seq<u8>, i: int, acc: Seq<u8>, v: Seq<u8>)
    requires
        0 <= i,
        i + esc(v).len() + 1 <= s.len(),
        s.subrange(i, i + esc(v).len()) == esc(v),
        s[i + esc(v).len()] == QUOTE,
    ensures
        spec_parse_string_body(s, i, acc) == Some((acc + v, i + esc(v).len() + 1)),
    decreases v.len(),
{
    assert forall|j: int| 0 <= j < esc(v).len() implies s[i + j] == esc(v)[j] by {
        assert(s.subrange(i, i + esc(v).len())[j] == s[i + j]);
    }
    if v.len() == 0 {
        assert(esc(v).len() == 0);
        assert(s[i] == QUOTE);
        assert(acc + v =~= acc);
    } else {
        let b = v[0];
        let v2 = v.skip(1);
        assert(esc(v) == esc_byte(b) + esc(v2));
        assert(esc(v).len() == esc_byte(b).len() + esc(v2).len());
        if b == QUOTE || b == BACKSLASH {
            assert(esc(v)[0] == BACKSLASH && esc(v)[1] == b);
            assert(s[i] == BACKSLASH && s[i + 1] == b);
            assert forall|j: int| 0 <= j < esc(v2).len() implies s[i + 2 + j] == esc(v2)[j] by {
                assert(esc(v)[2 + j] == esc(v2)[j]);
            }
            assert(s.subrange(i + 2, i + 2 + esc(v2).len()) =~= esc(v2));
            lemma_parse_string_body_after_esc(s, i + 2, acc.push(b), v2);
            assert(acc.push(b) + v2 =~= acc + v);
        } else {
            assert(esc(v)[0] == b);
            assert(s[i] == b);
            assert forall|j: int| 0 <= j < esc(v2).len() implies s[i + 1 + j] == esc(v2)[j] by {
                assert(esc(v)[1 + j] == esc(v2)[j]);
            }
            assert(s.subrange(i + 1, i + 1 + esc(v2).len()) =~= esc(v2));
            lemma_parse_string_body_after_esc(s, i + 1, acc.push(b), v2);
            assert(acc.push(b) + v2 =~= acc + v);
        }
    }
}

/// Parsing a serialized string out of any surrounding context gives back
/// exactly the bytes that were serialized.
pub proof fn lemma_parse_string_after_ser(s: Seq<u8>, i: int, v: Seq<u8>)
    requires
        0 <= i,
        i + spec_ser_string(v).len() <= s.len(),
        s.subrange(i, i + spec_ser_string(v).len()) == spec_ser_string(v),
    ensures
        spec_parse_string(s, i) == Some((v, i + spec_ser_string(v).len())),
{
    let w = spec_ser_string(v);
    assert(w.len() == esc(v).len() + 2);
    assert forall|j: int| 0 <= j < w.len() implies s[i + j] == w[j] by {
        assert(s.subrange(i, i + w.len())[j] == s[i + j]);
    }
    assert(w[0] == QUOTE);
    assert(s[i] == QUOTE);
    assert forall|j: int| 0 <= j < esc(v).len() implies s[i + 1 + j] == esc(v)[j] by {
        assert(w[1 + j] == esc(v)[j]);
    }
    assert(s.subrange(i + 1, i + 1 + esc(v).len()) =~= esc(v));
    assert(w[1 + esc(v).len() as int] == QUOTE);
    assert(s[i + 1 + esc(v).len() as int] == QUOTE);
    lemma_parse_string_body_after_esc(s, i + 1, Seq::empty(), v);
    assert(Seq::empty() + v =~= v);
}

/// Appends the serialized form of `s` (quotes and escapes included).
pub fn write_string(out: &mut Vec<u8>, s: &Vec<u8>)
    ensures
        final(out)@ == old(out)@ + spec_ser_string(s@),
{
    let ghost base = out@;
    out.push(QUOTE);
    let mut i: usize = 0;
    proof {
        assert(s@.take(0) =~= Seq::<u8>::empty());
        assert(out@ =~= base + seq![QUOTE] + esc(s@.take(0)));
    }
    while i < s.len()
        invariant
            i <= s@.len(),
            out@ == base + seq![QUOTE] + esc(s@.take(i as int)),
        decreases s@.len() - i,
    {
        let b = s[i];
        let ghost pre = s@.take(i as int);
        if b == QUOTE || b == BACKSLASH {
            out.push(BACKSLASH);
        }
        out.push(b);
        i = i + 1;
        proof {
            lemma_esc_snoc(pre, b);
            assert(s@.take(i as int) =~= pre.push(b));
            assert(out@ =~= base + seq![QUOTE] + esc(s@.take(i as int)));
        }
    }
    out.push(QUOTE);
    proof {
        assert(s@.take(s@.len() as int) =~= s@);
        assert(out@ =~= base + spec_ser_string(s@));
    }
}

/// Parses a JSON string at `i`, mirroring [`spec_parse_string`] exactly.
pub fn parse_string_at(s: &Vec<u8>, i: usize) -> (r: Option<(Vec<u8>, usize)>)
    ensures
        match r {
            Some(p) => spec_parse_string(s@, i as int) == Some((p.0@, p.1 as int)) && i < p.1
                <= s@.len(),
            None => spec_parse_string(s@, i as int) is None,
        },
{
    if i >= s.len() || s[i] != QUOTE {
        return None;
    }
    let mut acc: Vec<u8> = Vec::new();
    let mut p: usize = i + 1;
    proof {
        assert(acc@ =~= Seq::<u8>::empty());
    }
    while p < s.len()
        invariant
            i + 1 <= p <= s@.len(),
            i < s@.len() && s@[i as int] == QUOTE,
            spec_parse_string_body(s@, i as int + 1, Seq::empty()) == spec_parse_string_body(
                s@,
                p as int,
                acc@,
            ),
        decreases s@.len() - p,
    {
        let b = s[p];
        if b == QUOTE {
            return Some((acc, p + 1));
        } else if b == BACKSLASH {
            if p + 1 < s.len() && (s[p + 1] == QUOTE || s[p + 1] == BACKSLASH) {
                acc.push(s[p + 1]);
                p = p + 2;
            } else {
                return None;
            }
        } else {
            acc.push(b);
            p = p + 1;
        }
    }
    None
}

/// A decimal digit byte.
pub open spec fn is_digit(b: u8) -> bool {
    DIGIT_ZERO <= b <= DIGIT_NINE
}

/// The decimal digits of `n`, most significant first.
pub open spec fn dec_digits(n: nat) -> Seq<u8>
    decreases n,
{
    if n < 10 {
        seq![(DIGIT_ZERO + n) as u8]
    } else {
        dec_digits(n / 10) + seq![(DIGIT_ZERO + n % 10) as u8]
    }
}

pub proof fn lemma_dec_digits_are_digits(n: nat)
    ensures
        dec_digits(n).len() >= 1,
        forall|j: int| 0 <= j < dec_digits(n).len() ==> is_digit(#[trigger] dec_digits(n)[j]),
    decreases n,
{
    if n >= 10 {
        lemma_dec_digits_are_digits(n / 10);
        let a = dec_digits(n / 10);
        assert forall|j: int| 0 <= j < dec_digits(n).len() implies is_digit(
            #[trigger] dec_digits(n)[j],
        ) by {
            if j < a.len() {
                assert(dec_digits(n)[j] == a[j]);
            }
        }
    }
}

/// Left-to-right accumulation of digit bytes, as the parser performs it.
pub open spec fn horner(acc: int, ds: Seq<u8>) -> int
    decreases ds.len(),
{
    if ds.len() == 0 {
        acc
    } else {
        horner(acc * 10 + (ds[0] - DIGIT_ZERO), ds.skip(1))
    }
}

pub proof fn lemma_horner_snoc(acc: int, ds: Seq<u8>, x: u8)
    ensures
        horner(acc, ds.push(x)) == horner(acc, ds) * 10 + (x - DIGIT_ZERO),
    decreases ds.len(),
{
    if ds.len() == 0 {
        assert(ds.push(x)[0] == x);
        assert(ds.push(x).skip(1) =~= Seq::<u8>::empty());
        let a2 = acc * 10 + (x - DIGIT_ZERO);
        assert(horner(acc, ds.push(x)) == horner(a2, ds.push(x).skip(1)));
        assert(horner(a2, ds.push(x).skip(1)) == a2);
        assert(horner(acc, ds) == acc);
    } else {
        assert(ds.push(x)[0] == ds[0]);
        assert(ds.push(x).skip(1) =~= ds.skip(1).push(x));
        let a2 = acc * 10 + (ds[0] - DIGIT_ZERO);
        lemma_horner_snoc(a2, ds.skip(1), x);
        assert(horner(acc, ds.push(x)) == horner(a2, ds.skip(1).push(x)));
        assert(horner(acc, ds) == horner(a2, ds.skip(1)));
    }
}

pub proof fn lemma_horner_lower_bound(acc: int, ds: Seq<u8>)
    requires
        acc >= 0,
        forall|j: int| 0 <= j < ds.len() ==> is_digit(#[trigger] ds[j]),
    ensures
        horner(acc, ds) >= acc,
    decreases ds.len(),
{
    if ds.len() > 0 {
        assert(is_digit(ds[0]));
        assert forall|j: int| 0 <= j < ds.skip(1).len() implies is_digit(
            #[trigger] ds.skip(1)[j],
        ) by {
            assert(ds.skip(1)[j] == ds[j + 1]);
        }
        lemma_horner_lower_bound(acc * 10 + (ds[0] - DIGIT_ZERO), ds.skip(1));
    }
}

/// Powers of ten.
pub open spec fn ten_pow(k: nat) -> nat
    decreases k,
{
    if k == 0 {
        1nat
    } else {
        10 * ten_pow((k - 1) as nat)
    }
}

/// Accumulating through the digits of `n` appends `n` below `acc` shifted by
/// as many decimal places as `n` has digits.
pub proof fn lemma_horner_dec_digits(acc: int, n: nat)
    requires
        acc >= 0,
    ensures
        horner(acc, dec_digits(n)) == acc * ten_pow(dec_digits(n).len()) + n,
    decreases n,
{
    if n < 10 {
        let d = (DIGIT_ZERO + n) as u8;
        assert(dec_digits(n) == seq![d]);
        assert(seq![d].skip(1) =~= Seq::<u8>::empty());
        assert(d - DIGIT_ZERO == n);
        assert(horner(acc, seq![d]) == horner(acc * 10 + n, seq![d].skip(1)));
        assert(horner(acc * 10 + n, seq![d].skip(1)) == acc * 10 + n);
        assert(ten_pow(0) == 1);
        assert(ten_pow(1) == 10 * ten_pow(0));
    } else {
        let a = dec_digits(n / 10);
        let x = (DIGIT_ZERO + n % 10) as u8;
        assert(dec_digits(n) =~= a.push(x));
        lemma_horner_snoc(acc, a, x);
        lemma_horner_dec_digits(acc, n / 10);
        assert(n / 10 * 10 + n % 10 == n) by {
            vstd::arithmetic::div_mod::lemma_fundamental_div_mod(n as int, 10);
        }
        assert((acc * ten_pow(a.len()) + n / 10) * 10 == acc * (10 * ten_pow(a.len())) + (n / 10)
            * 10) by (nonlinear_arith);
        assert(ten_pow(dec_digits(n).len()) == 10 * ten_pow(a.len()));
    }
}

/// Scans digits from `i`, accumulating into `acc`; stops at the first
/// non-digit.  A value that would not fit a `u64` is a parse failure.
pub open spec fn spec_parse_u64_body(s: Seq<u8>, i: int, acc: u64) -> Option<(u64, int)>
    decreases s.len() - i,
{
    if i < 0 || i > s.len() {
        None
    } else if i == s.len() || !is_digit(s[i]) {
        Some((acc, i))
    } else {
        let v = acc * 10 + (s[i] - DIGIT_ZERO);
        if v > u64::MAX {
            None
        } else {
            spec_parse_u64_body(s, i + 1, v as u64)
        }
    }
}

/// Parses a decimal `u64` at `i`: at least one digit, no sign, no overflow.
pub open spec fn spec_parse_u64(s: Seq<u8>, i: int) -> Option<(u64, int)> {
    if 0 <= i < s.len() && is_digit(s[i]) {
        spec_parse_u64_body(s, i, 0)
    } else {
        None
    }
}

proof fn lemma_parse_u64_body_after_digits(s: Seq<u8>, i: int, acc: u64, ds: Seq<u8>)
    requires
        0 <= i,
        i + ds.len() <= s.len(),
        s.subrange(i, i + ds.len()) == ds,
        forall|j: int| 0 <= j < ds.len() ==> is_digit(#[trigger] ds[j]),
        i + ds.len() == s.len() || !is_digit(s[i + ds.len()]),
        0 <= horner(acc as int, ds) <= u64::MAX,
    ensures
        spec_parse_u64_body(s, i, acc) == Some((horner(acc as int, ds) as u64, i + ds.len())),
    decreases ds.len(),
{
    assert forall|j: int| 0 <= j < ds.len() implies s[i + j] == ds[j] by {
        assert(s.subrange(i, i + ds.len())[j] == s[i + j]);
    }
    if ds.len() == 0 {
    } else {
        let d = ds[0];
        assert(s[i] == d && is_digit(d));
        let v = acc * 10 + (d - DIGIT_ZERO);
        let t = ds.skip(1);
        assert forall|j: int| 0 <= j < t.len() implies is_digit(#[trigger] t[j]) by {
            assert(t[j] == ds[j + 1]);
        }
        assert(horner(acc as int, ds) == horner(v, t));
        lemma_horner_lower_bound(v, t);
        assert(v <= u64::MAX);
        assert(s.subrange(i + 1, i + 1 + t.len()) =~= t);
        lemma_parse_u64_body_after_digits(s, i + 1, v as u64, t);
    }
}

/// Parsing the serialized digits of `n` out of any surrounding context gives
/// back exactly `n`, provided the next byte is not a digit.
pub proof fn lemma_parse_u64_after_ser(s: Seq<u8>, i: int, n: u64)
    requires
        0 <= i,
        i + dec_digits(n as nat).len() <= s.len(),
        s.subrange(i, i + dec_digits(n as nat).len()) == dec_digits(n as nat),
        i + dec_digits(n as nat).len() == s.len() || !is_digit(s[i + dec_digits(n as nat).len()]),
    ensures
        spec_parse_u64(s, i) == Some((n, i + dec_digits(n as nat).len())),
{
    let ds = dec_digits(n as nat);
    lemma_dec_digits_are_digits(n as nat);
    lemma_horner_dec_digits(0, n as nat);
    assert(horner(0, ds) == n);
    lemma_parse_u64_body_after_digits(s, i, 0, ds);
    assert(s.subrange(i, i + ds.len())[0] == s[i]);
    assert(s[i] == ds[0]);
}

/// Appends the decimal digits of `n`.
pub fn write_u64(out: &mut Vec<u8>, n: u64)
    ensures
        final(out)@ == old(out)@ + dec_digits(n as nat),
    decreases n,
{
    if n < 10 {
        out.push(DIGIT_ZERO + (n as u8));
        assert(out@ =~= old(out)@ + dec_digits(n as nat));
    } else {
        let ghost base = out@;
        write_u64(out, n / 10);
        out.push(DIGIT_ZERO + ((n % 10) as u8));
        assert(out@ =~= base + dec_digits(n as nat));
    }
}

/// Parses a decimal `u64` at `i`, mirroring [`spec_parse_u64`] exactly.
pub fn parse_u64_at(s: &Vec<u8>, i: usize) -> (r: Option<(u64, usize)>)
    ensures
        match r {
            Some(p) => spec_parse_u64(s@, i as int) == Some((p.0, p.1 as int)) && i < p.1
                <= s@.len(),
            None => spec_parse_u64(s@, i as int) is None,
        },
{
    if i >= s.len() || s[i] < DIGIT_ZERO || s[i] > DIGIT_NINE {
        return None;
    }
    let mut acc: u64 = 0;
    let mut p: usize = i;
    while p < s.len() && s[p] >= DIGIT_ZERO && s[p] <= DIGIT_NINE
        invariant
            i <= p <= s@.len(),
            i < s@.len() && is_digit(s@[i as int]),
            spec_parse_u64_body(s@, i as int, 0) == spec_parse_u64_body(s@, p as int, acc),
        decreases s@.len() - p,
    {
        let d = s[p] - DIGIT_ZERO;
        let acc10 = match acc.checked_mul(10) {
            Some(x) => x,
            None => {
                return None;
            },
        };
        acc = match acc10.checked_add(d as u64) {
            Some(x) => x,
            None => {
                return None;
            },
        };
        p = p + 1;
    }
    assert(p != i);
    Some((acc, p))
}

} // verus!
