//! Small helpers shared by the game.
use vstd::prelude::*;
use vstd::std_specs::cmp::PartialEqSpec;

verus! {

/// Comparison of two optional values that only disagrees when both are present.
pub trait OptionCompare<T> {
    fn content_equals(self, other: Option<T>) -> bool;
}

impl<T: PartialEq> OptionCompare<T> for Option<T> {
    /// `true` when either side is `None`, otherwise whether the two contents are equal.
    fn content_equals(self, other: Option<T>) -> (r: bool)
        ensures
            match (self, other) {
                (Some(a), Some(b)) => T::obeys_eq_spec() ==> r == a.eq_spec(&b),
                _ => r,
            },
    {
        match self {
            None => true,
            Some(a) => match other {
                None => true,
                Some(b) => a == b,
            },
        }
    }
}

/// Decimal digits of `n`, most significant first; `0` has the single digit 0.
pub open spec fn decimal_digits(n: nat) -> Seq<u32>
    decreases n,
{
    if n < 10 {
        seq![n as u32]
    } else {
        decimal_digits(n / 10).push((n % 10) as u32)
    }
}

/// The number that a sequence of decimal digits (most significant first) denotes.
pub open spec fn digits_value(digits: Seq<u32>) -> nat
    decreases digits.len(),
{
    if digits.len() == 0 {
        0
    } else {
        digits_value(digits.drop_last()) * 10 + digits.last() as nat
    }
}

/// The decimal digits of `n`, most significant first.
pub fn to_digits(n: u64) -> (r: Vec<u32>)
    ensures
        r@ == decimal_digits(n as nat),
    decreases n,
{
    if n < 10 {
        let mut v: Vec<u32> = Vec::new();
        v.push(n as u32);
        v
    } else {
        let mut v = to_digits(n / 10);
        v.push((n % 10) as u32);
        v
    }
}

/// Law: the digits of `n` are decimal digits without leading zeros, and they
/// read back as `n`.
pub proof fn lemma_decimal_digits_read_back(n: nat)
    ensures
        digits_value(decimal_digits(n)) == n,
        decimal_digits(n).len() >= 1,
        forall|i: int| 0 <= i < decimal_digits(n).len() ==> #[trigger] decimal_digits(n)[i] < 10,
        n > 0 ==> decimal_digits(n)[0] != 0,
    decreases n,
{
    if n < 10 {
        assert(decimal_digits(n) =~= seq![n as u32]);
        assert(decimal_digits(n).drop_last() =~= Seq::<u32>::empty());
        assert(digits_value(Seq::<u32>::empty()) == 0);
        assert(decimal_digits(n).last() as nat == n);
    } else {
        lemma_decimal_digits_read_back(n / 10);
        let d = decimal_digits(n / 10);
        assert(decimal_digits(n).drop_last() =~= d);
        assert(n == (n / 10) * 10 + n % 10) by (nonlinear_arith);
        assert(decimal_digits(n).last() as nat == n % 10);
        assert(digits_value(decimal_digits(n)) == digits_value(d) * 10 + n % 10);
        assert forall|i: int| 0 <= i < decimal_digits(n).len() implies #[trigger] decimal_digits(
            n,
        )[i] < 10 by {
            if i < d.len() {
                assert(decimal_digits(n)[i] == d[i]);
            }
        }
        assert(decimal_digits(n)[0] == d[0]);
        assert(n / 10 > 0);
    }
}

} // verus!
