//! Decimal numbers written as ASCII digits.
use vstd::arithmetic::power::pow;
use vstd::prelude::*;

verus! {

/// `b` is an ASCII digit `0`..`9`.
pub open spec fn is_digit(b: u8) -> bool {
    48 <= b <= 57
}

/// Every byte of `s` is an ASCII digit.
pub open spec fn all_digits(s: Seq<u8>) -> bool {
    forall|i: int| 0 <= i < s.len() ==> is_digit(#[trigger] s[i])
}

/// The number the ASCII digits `s` denote (leading zeros allowed; 0 for
/// no digits).
pub open spec fn decimal_value(s: Seq<u8>) -> nat
    decreases s.len(),
{
    if s.len() == 0 {
        0
    } else {
        decimal_value(s.drop_last()) * 10 + (s.last() - 48) as nat
    }
}

/// The shortest decimal spelling of `n`.
pub open spec fn decimal_digits(n: nat) -> Seq<u8>
    decreases n,
{
    if n < 10 {
        seq![(48 + n) as u8]
    } else {
        decimal_digits(n / 10).push((48 + n % 10) as u8)
    }
}

/// Appends the decimal spelling of `n` to `out`.
pub fn push_decimal(n: usize, out: &mut Vec<u8>)
    ensures
        final(out)@ == old(out)@ + decimal_digits(n as nat),
    decreases n,
{
    if n >= 10 {
        push_decimal(n / 10, out);
    }
    out.push((48 + n % 10) as u8);
    assert(final(out)@ =~= old(out)@ + decimal_digits(n as nat));
}

/// The decimal spelling of a number reads back as that number, uses only
/// digits, and has no leading zero (but for 0 itself).
pub proof fn law_decimal_digits_read_back(n: nat)
    ensures
        decimal_value(decimal_digits(n)) == n,
        all_digits(decimal_digits(n)),
        decimal_digits(n).len() >= 1,
        n > 0 ==> decimal_digits(n)[0] != 48,
    decreases n,
{
    if n >= 10 {
        law_decimal_digits_read_back(n / 10);
        let d = decimal_digits(n);
        assert(d.drop_last() =~= decimal_digits(n / 10));
        assert(d[0] == decimal_digits(n / 10)[0]);
        assert(d.last() == (48 + n % 10) as u8);
        assert(n == (n / 10) * 10 + n % 10);
        assert(decimal_value(d.drop_last()) == n / 10);
        assert(decimal_value(d) == decimal_value(d.drop_last()) * 10 + (d.last() - 48) as nat);
        assert forall|i: int| 0 <= i < d.len() implies is_digit(#[trigger] d[i]) by {
            if i < d.len() - 1 {
                assert(d[i] == decimal_digits(n / 10)[i]);
            }
        }
    } else {
        let d = decimal_digits(n);
        assert(d.drop_last() =~= Seq::<u8>::empty());
        assert(decimal_value(d.drop_last()) == 0);
        assert(decimal_value(d) == decimal_value(d.drop_last()) * 10 + (d.last() - 48) as nat);
    }
}

/// The decimal spelling of `n` is its positional notation: with `k`
/// digits, `10^(k-1) <= n < 10^k` (no leading zero, `0` spelled `0`) and
/// digit `i` is `(n / 10^(k-1-i)) mod 10`.
pub proof fn law_decimal_digits_positional(n: nat)
    ensures
        ({
            let d = decimal_digits(n);
            let k = d.len();
            &&& k >= 1
            &&& n < pow(10, k)
            &&& (k == 1 || pow(10, (k - 1) as nat) <= n)
            &&& forall|i: int| 0 <= i < k ==> #[trigger] d[i] == 48 + (n as int / pow(10, (k - 1 - i) as nat)) % 10
        }),
    decreases n,
{
    reveal(pow);
    let d = decimal_digits(n);
    let k = d.len();
    if n < 10 {
        assert(pow(10, 0) == 1);
        assert(pow(10, 1) == 10 * pow(10, 0));
        assert(d[0] == 48 + (n as int / pow(10, 0)) % 10);
    } else {
        law_decimal_digits_positional(n / 10);
        let e = decimal_digits(n / 10);
        let k1 = e.len();
        assert(k == k1 + 1);
        assert(pow(10, k) == 10 * pow(10, k1));
        vstd::arithmetic::power::lemma_pow_positive(10, k1);
        if k1 > 1 {
            assert(pow(10, k1) == 10 * pow(10, (k1 - 1) as nat));
        } else {
            assert(pow(10, 1) == 10 * pow(10, 0));
        }
        assert forall|i: int| 0 <= i < k implies #[trigger] d[i] == 48 + (n as int / pow(
            10,
            (k - 1 - i) as nat,
        )) % 10 by {
            if i < k1 {
                assert(d[i] == e[i]);
                let p = pow(10, (k1 - 1 - i) as nat);
                vstd::arithmetic::power::lemma_pow_positive(10, (k1 - 1 - i) as nat);
                assert(pow(10, (k - 1 - i) as nat) == 10 * p);
                vstd::arithmetic::div_mod::lemma_div_denominator(n as int, 10, p);
            } else {
                assert(i == k1);
                assert(pow(10, 0) == 1);
                assert(d[i] == (48 + n % 10) as u8);
                assert(n as int / 1 == n);
            }
        }
        assert(n < pow(10, k));
        assert(pow(10, (k - 1) as nat) <= n);
    }
}

} // verus!
