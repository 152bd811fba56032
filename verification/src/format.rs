//! Numbers written with two decimals, trimmed.
//!
//! A number is rounded to hundredths, to nearest with ties to even, on its
//! exact value; trailing zeros after the point are dropped, and the point
//! with them when nothing follows it.

use crate::decimal::{
    decimal_text, digit_char, digits_of, digits_text, double_digits, le_value, lemma_digits_text,
    proper,
};
use crate::number::{bits_nan, magnitude, Binary64, INFINITY_BITS, SIGN_BIT};
use vstd::arithmetic::power2::{
    lemma2_to64, lemma2_to64_rest, lemma_pow2_pos, lemma_pow2_strictly_increases,
    lemma_pow2_unfold, pow2,
};
use vstd::prelude::*;
use vstd::string::StringExecFns;

verus! {

/// Two to the 52nd: the weight of the lowest exponent bit in a bit pattern.
pub const FRACTION_SPAN: u64 = 0x10_0000_0000_0000;

/// The exponent field of a bit pattern.
pub open spec fn exponent_field(bits: u64) -> int {
    magnitude(bits) / (FRACTION_SPAN as int)
}

/// The significand of a finite bit pattern, as a whole number.
pub open spec fn significand(bits: u64) -> nat {
    let f = magnitude(bits) % (FRACTION_SPAN as int);
    if exponent_field(bits) == 0 {
        f as nat
    } else {
        (f + FRACTION_SPAN) as nat
    }
}

/// The power of two that scales the significand of a finite bit pattern:
/// the number is `significand * 2^binary_exponent`.
pub open spec fn binary_exponent(bits: u64) -> int {
    if exponent_field(bits) == 0 {
        -1074
    } else {
        exponent_field(bits) - 1075
    }
}

/// `m / 2^k`, rounded to nearest with ties to even.
pub open spec fn halved(m: nat, k: nat) -> nat {
    let d = pow2(k);
    let q = m / d;
    let r = m % d;
    if 2 * r > d || (2 * r == d && q % 2 == 1) {
        q + 1
    } else {
        q
    }
}

/// The magnitude of a finite bit pattern in hundredths, rounded to nearest
/// with ties to even.
pub open spec fn hundredths(bits: u64) -> nat {
    let e = binary_exponent(bits);
    if e >= 0 {
        significand(bits) * 100 * pow2(e as nat)
    } else {
        halved(significand(bits) * 100, (-e) as nat)
    }
}

/// The sign as text.
pub open spec fn sign_text(bits: u64) -> Seq<char> {
    if bits >= SIGN_BIT {
        seq!['-']
    } else {
        Seq::<char>::empty()
    }
}

/// A count of hundredths written with a point and two decimals.
pub open spec fn hundredths_text(h: nat) -> Seq<char> {
    decimal_text(h / 100) + seq!['.', digit_char(((h / 10) % 10) as int), digit_char((h % 10) as int)]
}

/// A bit pattern written with exactly two decimals.
pub open spec fn fixed_text(bits: u64) -> Seq<char> {
    if bits_nan(bits) {
        seq!['N', 'a', 'N']
    } else if magnitude(bits) == INFINITY_BITS {
        sign_text(bits) + seq!['i', 'n', 'f']
    } else {
        sign_text(bits) + hundredths_text(hundredths(bits))
    }
}

/// A text without its trailing zeros.
pub open spec fn strip_zeros(s: Seq<char>) -> Seq<char>
    decreases s.len(),
{
    if s.len() > 0 && s.last() == '0' {
        strip_zeros(s.drop_last())
    } else {
        s
    }
}

/// A text without its last character, where that is a point.
pub open spec fn strip_point(s: Seq<char>) -> Seq<char> {
    if s.len() > 0 && s.last() == '.' {
        s.drop_last()
    } else {
        s
    }
}

/// A bit pattern written with two decimals, then trimmed.
pub open spec fn float_text(bits: u64) -> Seq<char> {
    strip_point(strip_zeros(fixed_text(bits)))
}

/// The trimmed form of a count of hundredths behind a prefix.
pub open spec fn trimmed_text(prefix: Seq<char>, h: nat) -> Seq<char> {
    let whole = prefix + decimal_text(h / 100);
    if h % 100 == 0 {
        whole
    } else if h % 10 == 0 {
        whole + seq!['.', digit_char(((h / 10) % 10) as int)]
    } else {
        whole + seq!['.', digit_char(((h / 10) % 10) as int), digit_char((h % 10) as int)]
    }
}

proof fn lemma_trim(prefix: Seq<char>, h: nat)
    ensures
        strip_point(strip_zeros(prefix + hundredths_text(h))) == trimmed_text(prefix, h),
{
    let whole = prefix + decimal_text(h / 100);
    let c1 = digit_char(((h / 10) % 10) as int);
    let c2 = digit_char((h % 10) as int);
    let full = prefix + hundredths_text(h);
    assert(full =~= whole + seq!['.', c1, c2]);
    let s2 = whole + seq!['.', c1];
    let s1 = whole + seq!['.'];
    assert(full.drop_last() =~= s2);
    assert(s2.drop_last() =~= s1);
    assert(s1.drop_last() =~= whole);
    assert(full.last() == c2);
    assert(s2.last() == c1);
    assert(s1.last() == '.');
    if h % 10 == 0 {
        assert(c2 == '0');
        if h % 100 == 0 {
            assert((h / 10) % 10 == 0);
            assert(c1 == '0');
            assert(strip_zeros(s1) == s1);
            assert(strip_zeros(s2) == s1);
            assert(strip_zeros(full) == s1);
        } else {
            assert((h / 10) % 10 != 0);
            assert(strip_zeros(s2) == s2);
            assert(strip_zeros(full) == s2);
        }
    } else {
        assert(strip_zeros(full) == full);
    }
}

/// `m / 2^k`, rounded to nearest with ties to even.
fn round_halved(m: u64, k: u64) -> (r: u64)
    requires
        m < 0x1000_0000_0000_0000,
        k >= 1,
    ensures
        r == halved(m as nat, k as nat),
        r <= m,
{
    proof {
        lemma2_to64();
        lemma2_to64_rest();
    }
    if k >= 61 {
        proof {
            if k > 61 {
                lemma_pow2_strictly_increases(61, k as nat);
            }
            let d = pow2(k as nat);
            assert(d >= 0x2000_0000_0000_0000);
            assert((m as nat) / d == 0) by (nonlinear_arith)
                requires
                    (m as nat) < d,
            ;
            assert((m as nat) % d == m as nat) by (nonlinear_arith)
                requires
                    (m as nat) < d,
            ;
        }
        return 0;
    }
    let mut p: u64 = 1;
    let mut j: u64 = 0;
    while j < k
        invariant
            j <= k <= 60,
            p == pow2(j as nat),
            p <= 0x1000_0000_0000_0000,
            pow2(60) == 0x1000_0000_0000_0000,
        decreases k - j,
    {
        proof {
            lemma_pow2_unfold((j + 1) as nat);
            if j + 1 < 60 {
                lemma_pow2_strictly_increases((j + 1) as nat, 60);
            }
        }
        p = p * 2;
        j = j + 1;
    }
    let q = m / p;
    let r = m % p;
    proof {
        assert(q <= m) by (nonlinear_arith)
            requires
                q == m / p,
                p >= 1,
        ;
        assert(p >= 2) by {
            lemma_pow2_unfold(k as nat);
            lemma_pow2_pos((k - 1) as nat);
        }
        if q == m {
            assert(m == 0) by (nonlinear_arith)
                requires
                    m / p == m,
                    p >= 2,
                    m >= 0,
            ;
            assert(r == 0) by (nonlinear_arith)
                requires
                    r == m % p,
                    m == 0,
                    p >= 2,
            ;
        }
    }
    if r > p - r || (r == p - r && q % 2 == 1) {
        q + 1
    } else {
        q
    }
}

/// Appends one decimal digit.
fn push_digit(s: &mut String, d: u8)
    requires
        d < 10,
    ensures
        final(s)@ == old(s)@.push(digit_char(d as int)),
{
    proof {
        reveal_strlit("0");
        reveal_strlit("1");
        reveal_strlit("2");
        reveal_strlit("3");
        reveal_strlit("4");
        reveal_strlit("5");
        reveal_strlit("6");
        reveal_strlit("7");
        reveal_strlit("8");
        reveal_strlit("9");
    }
    let ghost before = s@;
    let lit = if d == 0 {
        "0"
    } else if d == 1 {
        "1"
    } else if d == 2 {
        "2"
    } else if d == 3 {
        "3"
    } else if d == 4 {
        "4"
    } else if d == 5 {
        "5"
    } else if d == 6 {
        "6"
    } else if d == 7 {
        "7"
    } else if d == 8 {
        "8"
    } else {
        "9"
    };
    s.append(lit);
    assert(s@ =~= before.push(digit_char(d as int)));
}

/// Appends digits, most significant first, from a list that holds them
/// least significant first.
pub(crate) fn push_digits(s: &mut String, d: &Vec<u8>)
    requires
        forall|i: int| 0 <= i < d@.len() ==> #[trigger] d@[i] < 10,
    ensures
        final(s)@ == old(s)@ + digits_text(d@),
{
    let n = d.len();
    let mut i: usize = 0;
    while i < n
        invariant
            i <= n,
            n == d@.len(),
            forall|i: int| 0 <= i < d@.len() ==> #[trigger] d@[i] < 10,
            s@ == old(s)@ + digits_text(d@).take(i as int),
        decreases n - i,
    {
        let ghost before = s@;
        push_digit(s, d[n - 1 - i]);
        proof {
            assert(digits_text(d@).take(i + 1) =~= digits_text(d@).take(i as int).push(
                digit_char(d@[n - 1 - i] as int),
            ));
            assert(s@ =~= old(s)@ + digits_text(d@).take(i + 1));
        }
        i = i + 1;
    }
    proof {
        assert(digits_text(d@).take(n as int) =~= digits_text(d@));
    }
}

/// A proper list of digits of a positive number has a nonzero top digit.
proof fn lemma_top_nonzero(d: Seq<u8>)
    requires
        proper(d),
        le_value(d) > 0,
    ensures
        d.last() != 0,
{
    if d.len() == 1 {
        assert(le_value(d.drop_first()) == 0);
    }
}

/// Appends `mant * 2^steps` in decimal.
fn push_scaled(out: &mut String, mant: u64, steps: u64)
    requires
        mant > 0,
    ensures
        final(out)@ == old(out)@ + decimal_text(mant as nat * pow2(steps as nat)),
{
    let mut digits = digits_of(mant);
    let mut j: u64 = 0;
    proof {
        lemma2_to64();
        assert(mant * pow2(0) == mant) by (nonlinear_arith)
            requires
                pow2(0) == 1,
        ;
    }
    while j < steps
        invariant
            j <= steps,
            mant > 0,
            proper(digits@),
            le_value(digits@) == mant * pow2(j as nat),
        decreases steps - j,
    {
        proof {
            lemma_pow2_pos(j as nat);
            assert(mant * pow2(j as nat) > 0) by (nonlinear_arith)
                requires
                    mant > 0,
                    pow2(j as nat) > 0,
            ;
            lemma_top_nonzero(digits@);
            lemma_pow2_unfold((j + 1) as nat);
            assert(2 * (mant * pow2(j as nat)) == mant * (2 * pow2(j as nat)))
                by (nonlinear_arith);
        }
        digits = double_digits(&digits);
        j = j + 1;
    }
    push_digits(out, &digits);
    proof {
        lemma_digits_text(digits@);
    }
}

/// Appends a count of hundredths, trimmed.
fn push_hundredths(out: &mut String, h: u64)
    ensures
        final(out)@ == trimmed_text(old(out)@, h as nat),
{
    let digits = digits_of(h / 100);
    push_digits(out, &digits);
    proof {
        lemma_digits_text(digits@);
    }
    let frac = h % 100;
    if frac != 0 {
        proof {
            reveal_strlit(".");
        }
        out.append(".");
        push_digit(out, (frac / 10) as u8);
        if frac % 10 != 0 {
            push_digit(out, (frac % 10) as u8);
        }
    }
    assert(out@ =~= trimmed_text(old(out)@, h as nat));
}

/// A whole number of hundreds of hundredths trims to the whole number.
proof fn lemma_whole(prefix: Seq<char>, mant: nat, p: nat)
    ensures
        trimmed_text(prefix, mant * 100 * p) == prefix + decimal_text(mant * p),
{
    let h = mant * 100 * p;
    let whole = mant * p;
    assert(h == whole * 100) by (nonlinear_arith)
        requires
            h == mant * 100 * p,
            whole == mant * p,
    ;
    assert(h / 100 == whole && h % 100 == 0) by (nonlinear_arith)
        requires
            h == whole * 100,
    ;
}

/// A number with two decimals, without trailing zeros after the point and
/// without the point where nothing is left behind it: `40` for 40.001,
/// `40.01` for 40.009, `40.1` for 40.104.
pub fn float_string(val: &Binary64) -> (r: String)
    ensures
        r@ == float_text(val.bits),
{
    let bits = val.bits;
    let negative = bits >= SIGN_BIT;
    let mag: u64 = if negative { bits - SIGN_BIT } else { bits };
    if mag > INFINITY_BITS {
        proof {
            reveal_strlit("NaN");
            let t = seq!['N', 'a', 'N'];
            assert(t.last() == 'N');
            assert(strip_zeros(t) == t);
        }
        return String::from_str("NaN");
    }
    let mut out = String::new();
    if negative {
        proof {
            reveal_strlit("-");
        }
        out.append("-");
    }
    assert(out@ =~= sign_text(bits));
    if mag == INFINITY_BITS {
        proof {
            reveal_strlit("inf");
            let t = sign_text(bits) + seq!['i', 'n', 'f'];
            assert(t.last() == 'f');
            assert(strip_zeros(t) == t);
        }
        out.append("inf");
        return out;
    }
    let e = mag / FRACTION_SPAN;
    let f = mag % FRACTION_SPAN;
    let mant: u64 = if e == 0 { f } else { f + FRACTION_SPAN };
    proof {
        lemma_trim(sign_text(bits), hundredths(bits));
    }
    if e >= 1075 {
        proof {
            lemma_whole(sign_text(bits), mant as nat, pow2((e - 1075) as nat));
        }
        push_scaled(&mut out, mant, e - 1075);
        out
    } else {
        let k: u64 = if e == 0 { 1074 } else { 1075 - e };
        let h = round_halved(mant * 100, k);
        push_hundredths(&mut out, h);
        out
    }
}

} // verus!
