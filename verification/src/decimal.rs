//! Natural numbers of any size written out in decimal.
//!
//! A number is held as its decimal digits, least significant first, so that
//! it can be doubled in place however large it is.

use vstd::prelude::*;

verus! {

/// The character of a decimal digit.
pub open spec fn digit_char(d: int) -> char {
    if d == 0 {
        '0'
    } else if d == 1 {
        '1'
    } else if d == 2 {
        '2'
    } else if d == 3 {
        '3'
    } else if d == 4 {
        '4'
    } else if d == 5 {
        '5'
    } else if d == 6 {
        '6'
    } else if d == 7 {
        '7'
    } else if d == 8 {
        '8'
    } else {
        '9'
    }
}

/// A natural number written in decimal, without leading zeros.
pub open spec fn decimal_text(n: nat) -> Seq<char>
    decreases n,
{
    if n < 10 {
        seq![digit_char(n as int)]
    } else {
        decimal_text(n / 10).push(digit_char((n % 10) as int))
    }
}

/// The number that a list of digits stands for, least significant first.
pub open spec fn le_value(d: Seq<u8>) -> nat
    decreases d.len(),
{
    if d.len() == 0 {
        0
    } else {
        d[0] as nat + 10 * le_value(d.drop_first())
    }
}

/// Every entry is a decimal digit.
pub open spec fn all_digits(d: Seq<u8>) -> bool {
    forall|i: int| 0 <= i < d.len() ==> #[trigger] d[i] < 10
}

/// A list of digits in its one proper form: at least one digit, and no zero
/// in the most significant place unless the number is zero.
pub open spec fn proper(d: Seq<u8>) -> bool {
    &&& d.len() >= 1
    &&& all_digits(d)
    &&& (d.len() == 1 || d.last() != 0)
}

/// The digits read from the most significant end, as characters.
pub open spec fn digits_text(d: Seq<u8>) -> Seq<char> {
    Seq::new(d.len(), |i: int| digit_char(d[d.len() - 1 - i] as int))
}

/// The digits of a natural number, least significant first.
pub open spec fn le_digits(n: nat) -> Seq<u8>
    decreases n,
{
    if n < 10 {
        seq![n as u8]
    } else {
        seq![(n % 10) as u8] + le_digits(n / 10)
    }
}

/// The digits of twice a number plus a carry, least significant first.
pub open spec fn doubled(d: Seq<u8>, carry: nat) -> Seq<u8>
    decreases d.len(),
{
    if d.len() == 0 {
        if carry > 0 {
            seq![carry as u8]
        } else {
            Seq::<u8>::empty()
        }
    } else {
        let t = 2 * (d[0] as nat) + carry;
        seq![(t % 10) as u8] + doubled(d.drop_first(), t / 10)
    }
}

proof fn lemma_proper_positive(d: Seq<u8>)
    requires
        d.len() >= 1,
        all_digits(d),
        d.last() != 0,
    ensures
        le_value(d) > 0,
    decreases d.len(),
{
    if d.len() > 1 {
        let rest = d.drop_first();
        assert(rest.last() == d.last());
        assert forall|i: int| 0 <= i < rest.len() implies #[trigger] rest[i] < 10 by {
            assert(rest[i] == d[i + 1]);
        }
        lemma_proper_positive(rest);
    } else {
        assert(le_value(d.drop_first()) == 0);
    }
}

/// A proper list of digits, read from the top, is the decimal text of its
/// number.
pub proof fn lemma_digits_text(d: Seq<u8>)
    requires
        proper(d),
    ensures
        decimal_text(le_value(d)) == digits_text(d),
    decreases d.len(),
{
    let rest = d.drop_first();
    if d.len() == 1 {
        assert(le_value(rest) == 0);
        assert(decimal_text(le_value(d)) =~= digits_text(d));
    } else {
        assert(rest.last() == d.last());
        assert forall|i: int| 0 <= i < rest.len() implies #[trigger] rest[i] < 10 by {
            assert(rest[i] == d[i + 1]);
        }
        lemma_proper_positive(rest);
        lemma_digits_text(rest);
        let n = le_value(d);
        assert(n == d[0] as nat + 10 * le_value(rest));
        assert(d[0] < 10);
        assert(n / 10 == le_value(rest));
        assert(n % 10 == d[0] as nat);
        assert(decimal_text(n) == decimal_text(le_value(rest)).push(digit_char(d[0] as int)));
        assert forall|i: int| 0 <= i < d.len() implies digits_text(rest).push(
            digit_char(d[0] as int),
        )[i] == digits_text(d)[i] by {
            if i < rest.len() {
                assert(rest[rest.len() - 1 - i] == d[d.len() - 1 - i]);
            }
        }
        assert(digits_text(rest).push(digit_char(d[0] as int)) =~= digits_text(d));
    }
}

proof fn lemma_le_digits(n: nat)
    ensures
        proper(le_digits(n)),
        le_value(le_digits(n)) == n,
    decreases n,
{
    if n < 10 {
        let d = le_digits(n);
        assert(d.len() == 1);
        assert(le_value(d.drop_first()) == 0);
    } else {
        lemma_le_digits(n / 10);
        let rest = le_digits(n / 10);
        let d = le_digits(n);
        assert(d.drop_first() =~= rest);
        assert(d.last() == rest.last());
        if rest.len() == 1 {
            assert(le_value(rest.drop_first()) == 0);
            assert(rest[0] as nat == n / 10);
        }
        assert forall|i: int| 0 <= i < d.len() implies #[trigger] d[i] < 10 by {
            if i > 0 {
                assert(d[i] == rest[i - 1]);
            }
        }
    }
}

/// Doubling the digits doubles the number, keeps them digits, and keeps a
/// nonzero most significant digit nonzero.
proof fn lemma_doubled(d: Seq<u8>, carry: nat)
    requires
        all_digits(d),
        carry <= 1,
    ensures
        all_digits(doubled(d, carry)),
        le_value(doubled(d, carry)) == 2 * le_value(d) + carry,
        d.len() <= doubled(d, carry).len() <= d.len() + 1,
        d.len() >= 1 && d.last() != 0 ==> doubled(d, carry).last() != 0,
    decreases d.len(),
{
    let r = doubled(d, carry);
    if d.len() == 0 {
        if carry > 0 {
            assert(le_value(r.drop_first()) == 0);
        }
    } else {
        let t = 2 * (d[0] as nat) + carry;
        let rest = d.drop_first();
        assert forall|i: int| 0 <= i < rest.len() implies #[trigger] rest[i] < 10 by {
            assert(rest[i] == d[i + 1]);
        }
        assert(d[0] < 10);
        lemma_doubled(rest, t / 10);
        let tail = doubled(rest, t / 10);
        assert(r.drop_first() =~= tail);
        assert(r[0] == (t % 10) as u8);
        assert forall|i: int| 0 <= i < r.len() implies #[trigger] r[i] < 10 by {
            if i > 0 {
                assert(r[i] == tail[i - 1]);
            }
        }
        if d.last() != 0 {
            if rest.len() >= 1 {
                assert(rest.last() == d.last());
                assert(r.last() == tail.last());
            } else {
                assert(d[0] != 0);
                if t / 10 > 0 {
                    assert(tail =~= seq![(t / 10) as u8]);
                    assert(r.last() == tail.last());
                } else {
                    assert(tail =~= Seq::<u8>::empty());
                    assert(r =~= seq![(t % 10) as u8]);
                }
            }
        }
    }
}

/// The digits of a number, least significant first.
pub fn digits_of(n: u64) -> (r: Vec<u8>)
    ensures
        r@ == le_digits(n as nat),
        proper(r@),
        le_value(r@) == n,
{
    let mut out: Vec<u8> = Vec::new();
    let mut m: u64 = n;
    while m >= 10
        invariant
            out@ + le_digits(m as nat) == le_digits(n as nat),
        decreases m,
    {
        let ghost before = out@;
        out.push((m % 10) as u8);
        proof {
            assert(le_digits(m as nat) == seq![(m % 10) as u8] + le_digits((m / 10) as nat));
            assert(out@ + le_digits((m / 10) as nat) =~= before + le_digits(m as nat));
        }
        m = m / 10;
    }
    let ghost before = out@;
    out.push(m as u8);
    proof {
        assert(out@ =~= before + le_digits(m as nat));
        lemma_le_digits(n as nat);
    }
    out
}

/// Doubles a number held as digits.
pub(crate) fn double_digits(d: &Vec<u8>) -> (r: Vec<u8>)
    requires
        all_digits(d@),
    ensures
        r@ == doubled(d@, 0),
        all_digits(r@),
        le_value(r@) == 2 * le_value(d@),
        d@.len() >= 1 && d@.last() != 0 ==> proper(r@),
{
    let mut out: Vec<u8> = Vec::with_capacity(d.len());
    let mut carry: u8 = 0;
    let mut i: usize = 0;
    proof {
        assert(d@.skip(0) =~= d@);
        assert(out@ + doubled(d@, 0) =~= doubled(d@, 0));
    }
    while i < d.len()
        invariant
            i <= d.len(),
            carry <= 1,
            all_digits(d@),
            out@ + doubled(d@.skip(i as int), carry as nat) == doubled(d@, 0),
        decreases d.len() - i,
    {
        let t: u8 = 2 * d[i] + carry;
        let ghost before = out@;
        let ghost rest = d@.skip(i as int);
        out.push(t % 10);
        proof {
            assert(rest[0] == d@[i as int]);
            assert(rest.drop_first() =~= d@.skip(i + 1));
            assert(out@ + doubled(d@.skip(i + 1), (t / 10) as nat) =~= before + doubled(
                rest,
                carry as nat,
            ));
        }
        carry = t / 10;
        i = i + 1;
    }
    let ghost before = out@;
    proof {
        assert(d@.skip(i as int).len() == 0);
    }
    if carry > 0 {
        out.push(carry);
    }
    proof {
        assert(out@ =~= before + doubled(d@.skip(i as int), carry as nat));
        lemma_doubled(d@, 0);
    }
    out
}

} // verus!
