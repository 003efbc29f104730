//! Exact decimal money arithmetic.
//!
//! An [`Amount`] is a decimal number `mantissa * 10^(-scale)`, the
//! representation that monetary columns and JSON bodies carry: a 96-bit
//! signed mantissa and a scale of at most 28 fractional digits. Sums are
//! exact — two amounts are added by aligning their scales, never through
//! binary floating point — and every overflow is reported, never wrapped.

use vstd::prelude::*;
use vstd::arithmetic::power::{
    pow, lemma_pow_adds, lemma_pow_positive, lemma_pow_increases,
};
use vstd::arithmetic::mul::{
    lemma_mul_inequality, lemma_mul_is_associative, lemma_mul_is_distributive_add_other_way,
};
use vstd::arithmetic::div_mod::{
    lemma_fundamental_div_mod, lemma_mod_division_less_than_divisor, lemma_div_is_ordered,
    lemma_div_multiples_vanish,
};

verus! {

/// Greatest number of fractional digits an [`Amount`] can carry.
pub const MAX_SCALE: u32 = 28;

/// Greatest mantissa magnitude an [`Amount`] can carry: `2^96 - 1`.
pub const MAX_MANTISSA: i128 = 79228162514264337593543950335;

/// `10^e` as a mathematical integer.
pub open spec fn pow10(e: nat) -> int {
    pow(10, e)
}

/// A decimal number `mantissa * 10^(-scale)`.
#[derive(Clone, Copy, Debug, PartialEq, Eq, Structural)]
pub struct Amount {
    pub mantissa: i128,
    pub scale: u32,
}

impl Amount {
    /// The representation invariant: the scale has at most
    /// [`MAX_SCALE`] digits and the mantissa fits in 96 bits.
    pub open spec fn wf(self) -> bool {
        &&& self.scale <= MAX_SCALE
        &&& -MAX_MANTISSA <= self.mantissa <= MAX_MANTISSA
    }

    /// The number this amount denotes, scaled to a common grid of
    /// `10^(-MAX_SCALE)`: an integer count of `10^(-28)` units.
    pub open spec fn value(self) -> int
        recommends
            self.wf(),
    {
        self.mantissa * pow10((MAX_SCALE - self.scale) as nat)
    }

    /// The zero amount.
    pub fn zero() -> (r: Amount)
        ensures
            r.wf(),
            r.value() == 0,
            r == (Amount { mantissa: 0, scale: 0 }),
    {
        Amount { mantissa: 0, scale: 0 }
    }

    /// Builds an amount from a mantissa and a scale; `None` exactly when
    /// the pair lies outside the representable range.
    pub fn new(mantissa: i128, scale: u32) -> (r: Option<Amount>)
        ensures
            r is Some <==> (Amount { mantissa, scale }).wf(),
            r is Some ==> r->Some_0 == (Amount { mantissa, scale }),
    {
        if scale <= MAX_SCALE && -MAX_MANTISSA <= mantissa && mantissa <= MAX_MANTISSA {
            Some(Amount { mantissa, scale })
        } else {
            None
        }
    }
}

/// The larger of the two scales: the scale an exact sum is carried at.
pub open spec fn spec_max_scale(a: Amount, b: Amount) -> u32 {
    if a.scale >= b.scale {
        a.scale
    } else {
        b.scale
    }
}

/// The mantissa of `a` rewritten at the coarser-grained scale `s`.
pub open spec fn spec_aligned(a: Amount, s: u32) -> int
    recommends
        a.scale <= s,
{
    a.mantissa * pow10((s - a.scale) as nat)
}

/// The mantissa of the exact sum of `a` and `b`, at their common scale.
pub open spec fn spec_aligned_sum(a: Amount, b: Amount) -> int {
    spec_aligned(a, spec_max_scale(a, b)) + spec_aligned(b, spec_max_scale(a, b))
}

/// Whether the exact sum of `a` and `b` is representable by the addition
/// algorithm: the lower-scale mantissa can be aligned without leaving the
/// 96-bit range, and so can the aligned sum itself.
pub open spec fn spec_addable(a: Amount, b: Amount) -> bool {
    let lo = if a.scale <= b.scale {
        a
    } else {
        b
    };
    let s = spec_max_scale(a, b);
    &&& -MAX_MANTISSA <= spec_aligned(lo, s) <= MAX_MANTISSA
    &&& -MAX_MANTISSA <= spec_aligned_sum(a, b) <= MAX_MANTISSA
}

/// The exact sum of `a` and `b`, meaningful when `spec_addable(a, b)`.
pub open spec fn spec_add(a: Amount, b: Amount) -> Amount {
    Amount { mantissa: spec_aligned_sum(a, b) as i128, scale: spec_max_scale(a, b) }
}

/// What [`Amount::checked_add`] returns.
pub open spec fn spec_checked_add(a: Amount, b: Amount) -> Option<Amount> {
    if spec_addable(a, b) {
        Some(spec_add(a, b))
    } else {
        None
    }
}

/// `10^28` written out.
pub proof fn lemma_pow10_max()
    ensures
        pow10(MAX_SCALE as nat) == 10000000000000000000000000000,
{
    reveal_with_fuel(pow, 29);
}

/// `10^e` for `e` up to the scale bound stays below the mantissa bound.
pub proof fn lemma_pow10_bounds(e: nat)
    requires
        e <= MAX_SCALE,
    ensures
        1 <= pow10(e) <= 10000000000000000000000000000,
{
    lemma_pow_positive(10, e);
    lemma_pow_increases(10, e, MAX_SCALE as nat);
    lemma_pow10_max();
}

/// Rescaling preserves the denoted number: aligning a mantissa to a
/// coarser scale and then reading it on the common grid gives the
/// amount's own value.
pub proof fn lemma_rescale_value(a: Amount, s: u32)
    requires
        a.scale <= s <= MAX_SCALE,
    ensures
        spec_aligned(a, s) * pow10((MAX_SCALE - s) as nat) == a.value(),
{
    let d = (s - a.scale) as nat;
    let r = (MAX_SCALE - s) as nat;
    lemma_pow_adds(10, d, r);
    lemma_mul_is_associative(a.mantissa as int, pow10(d), pow10(r));
}

/// A representable sum denotes exactly the sum of the two values.
pub proof fn lemma_add_value(a: Amount, b: Amount)
    requires
        a.wf(),
        b.wf(),
        spec_addable(a, b),
    ensures
        spec_add(a, b).wf(),
        spec_add(a, b).value() == a.value() + b.value(),
{
    let s = spec_max_scale(a, b);
    let r = (MAX_SCALE - s) as nat;
    lemma_rescale_value(a, s);
    lemma_rescale_value(b, s);
    lemma_mul_is_distributive_add_other_way(pow10(r), spec_aligned(a, s), spec_aligned(b, s));
}

impl Amount {
    /// The exact sum of two amounts, at the larger of the two scales.
    /// `None` exactly when the sum cannot be represented; no rounding
    /// and no wrapping ever happens.
    pub fn checked_add(self, other: Amount) -> (r: Option<Amount>)
        requires
            self.wf(),
            other.wf(),
        ensures
            r == spec_checked_add(self, other),
            r is Some ==> r->Some_0.wf() && r->Some_0.value() == self.value() + other.value(),
    {
        let (lo, hi) = if self.scale <= other.scale {
            (self, other)
        } else {
            (other, self)
        };
        let d = hi.scale - lo.scale;
        let p = pow10_i128(d);
        proof {
            lemma_pow10_bounds(d as nat);
        }
        let neg = lo.mantissa < 0;
        let mag: u128 = if neg {
            (-lo.mantissa) as u128
        } else {
            lo.mantissa as u128
        };
        let limit: u128 = (MAX_MANTISSA as u128) / (p as u128);
        proof {
            assert(limit == (MAX_MANTISSA as int) / (p as int));
            vstd::arithmetic::mul::lemma_mul_unary_negation(mag as int, p as int);
        }
        if mag > limit {
            proof {
                lemma_alignment_impossible(mag as int, p as int);
                assert(spec_aligned(lo, hi.scale) == lo.mantissa * (p as int));
                assert(!spec_addable(self, other));
            }
            return None;
        }
        proof {
            lemma_alignment_fits(mag as int, p as int);
        }
        let scaled_mag: u128 = mag * (p as u128);
        let scaled: i128 = if neg {
            -(scaled_mag as i128)
        } else {
            scaled_mag as i128
        };
        proof {
            assert(scaled == lo.mantissa * (p as int));
            assert(scaled == spec_aligned(lo, hi.scale));
        }
        let sum = scaled + hi.mantissa;
        proof {
            vstd::arithmetic::power::lemma_pow0(10);
            assert(spec_aligned(hi, hi.scale) == hi.mantissa * pow10(0));
            assert(sum == spec_aligned_sum(self, other));
        }
        if sum < -MAX_MANTISSA || sum > MAX_MANTISSA {
            return None;
        }
        proof {
            lemma_add_value(self, other);
        }
        Some(Amount { mantissa: sum, scale: hi.scale })
    }
}

/// A magnitude at most `MAX_MANTISSA / p` can be multiplied by `p`
/// without leaving the mantissa range.
proof fn lemma_alignment_fits(mag: int, p: int)
    requires
        1 <= p,
        0 <= mag,
        mag <= (MAX_MANTISSA as int) / p,
    ensures
        mag * p <= MAX_MANTISSA,
{
    let m = MAX_MANTISSA as int;
    lemma_mul_inequality(mag, m / p, p);
    lemma_fundamental_div_mod(m, p);
    lemma_mod_division_less_than_divisor(m, p);
}

/// A magnitude above `MAX_MANTISSA / p` cannot be aligned: the product
/// leaves the mantissa range.
proof fn lemma_alignment_impossible(mag: int, p: int)
    requires
        1 <= p,
        mag > (MAX_MANTISSA as int) / p,
    ensures
        mag * p > MAX_MANTISSA,
{
    let m = MAX_MANTISSA as int;
    if mag * p <= m {
        lemma_div_is_ordered(mag * p, m, p);
        lemma_div_multiples_vanish(mag, p);
        assert(false);
    }
}

/// Whether every amount of a sequence satisfies the representation
/// invariant.
pub open spec fn all_wf(s: Seq<Amount>) -> bool {
    forall|i: int| 0 <= i < s.len() ==> s[i].wf()
}

/// The exact running sum of a sequence of amounts, folded left to right
/// from zero; `None` as soon as one step is not representable.
pub open spec fn spec_sum(s: Seq<Amount>) -> Option<Amount>
    decreases s.len(),
{
    if s.len() == 0 {
        Some(Amount { mantissa: 0, scale: 0 })
    } else {
        match spec_sum(s.drop_last()) {
            None => None,
            Some(acc) => spec_checked_add(acc, s.last()),
        }
    }
}

/// The number denoted by a sequence of amounts: the sum of their values.
pub open spec fn spec_value_sum(s: Seq<Amount>) -> int
    decreases s.len(),
{
    if s.len() == 0 {
        0
    } else {
        spec_value_sum(s.drop_last()) + s.last().value()
    }
}

/// A representable running sum denotes exactly the sum of the values.
pub proof fn lemma_sum_value(s: Seq<Amount>)
    requires
        all_wf(s),
        spec_sum(s) is Some,
    ensures
        spec_sum(s)->Some_0.wf(),
        spec_sum(s)->Some_0.value() == spec_value_sum(s),
    decreases s.len(),
{
    if s.len() > 0 {
        assert(all_wf(s.drop_last())) by {
            assert(forall|i: int|
                0 <= i < s.drop_last().len() ==> s.drop_last()[i] == s[i]);
        }
        lemma_sum_value(s.drop_last());
        let acc = spec_sum(s.drop_last())->Some_0;
        lemma_add_value(acc, s.last());
    }
}

/// Once a prefix of the running sum has failed, the whole sum fails.
pub proof fn lemma_sum_prefix_none(s: Seq<Amount>, i: int)
    requires
        0 <= i <= s.len(),
        spec_sum(s.take(i)) is None,
    ensures
        spec_sum(s) is None,
    decreases s.len() - i,
{
    if i < s.len() {
        assert(s.take(i + 1).drop_last() =~= s.take(i));
        lemma_sum_prefix_none(s, i + 1);
    } else {
        assert(s.take(i) =~= s);
    }
}

/// The exact sum of a list of amounts, folded left to right from zero.
/// `None` exactly when some step of the fold is not representable; no
/// rounding and no wrapping ever happens.
pub fn checked_sum(v: &Vec<Amount>) -> (r: Option<Amount>)
    requires
        all_wf(v@),
    ensures
        r == spec_sum(v@),
        r is Some ==> r->Some_0.wf() && r->Some_0.value() == spec_value_sum(v@),
{
    let mut acc = Amount::zero();
    let mut i: usize = 0;
    proof {
        assert(v@.take(0) =~= Seq::<Amount>::empty());
    }
    while i < v.len()
        invariant
            0 <= i <= v@.len(),
            all_wf(v@),
            acc.wf(),
            spec_sum(v@.take(i as int)) == Some(acc),
        decreases v@.len() - i,
    {
        proof {
            assert(v@.take(i + 1).drop_last() =~= v@.take(i as int));
            assert(v@.take(i + 1).last() == v@[i as int]);
        }
        match acc.checked_add(v[i]) {
            None => {
                proof {
                    lemma_sum_prefix_none(v@, i + 1);
                }
                return None;
            },
            Some(a) => {
                acc = a;
            },
        }
        i = i + 1;
    }
    proof {
        assert(v@.take(v@.len() as int) =~= v@);
        lemma_sum_value(v@);
    }
    Some(acc)
}

/// `10^d` as a machine integer, for `d` within the scale bound.
fn pow10_i128(d: u32) -> (r: i128)
    requires
        d <= MAX_SCALE,
    ensures
        r == pow10(d as nat),
        1 <= r <= 10000000000000000000000000000,
{
    proof {
        lemma_pow10_bounds(0);
    }
    let mut acc: i128 = 1;
    let mut i: u32 = 0;
    proof {
        reveal_with_fuel(pow, 1);
    }
    while i < d
        invariant
            i <= d <= MAX_SCALE,
            acc == pow10(i as nat),
            1 <= acc,
        decreases d - i,
    {
        proof {
            lemma_pow10_bounds((i + 1) as nat);
            lemma_pow_adds(10, i as nat, 1);
            reveal_with_fuel(pow, 2);
            assert(pow10((i + 1) as nat) == pow10(i as nat) * 10);
        }
        acc = acc * 10;
        i = i + 1;
    }
    proof {
        lemma_pow10_bounds(d as nat);
    }
    acc
}

} // verus!
