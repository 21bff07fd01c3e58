//! Single-precision measurements and thresholds, held as IEEE 754 bit patterns.
//!
//! Comparing two such values, taking the larger one, flipping or clearing the sign all depend
//! on the bit pattern alone, so they are decided here on integers.
use vstd::prelude::*;

verus! {

/// A single-precision number, given by its IEEE 754 bit pattern.
///
/// `==` on this type compares bit patterns. [`Scalar::differs`] compares values.
#[derive(Clone, Copy, PartialEq, Eq, Structural, Debug)]
pub struct Scalar {
    pub bits: u32,
}

/// Bit pattern of negative infinity.
pub const NEG_INFINITY: u32 = 0xff80_0000;

impl Scalar {
    /// The pattern without its sign bit.
    pub open spec fn magnitude(self) -> int {
        self.bits as int % 0x8000_0000
    }

    /// Whether the sign bit is set.
    pub open spec fn is_negative(self) -> bool {
        self.bits >= 0x8000_0000
    }

    /// Whether the pattern stands for no number.
    pub open spec fn nan(self) -> bool {
        self.magnitude() > 0x7f80_0000
    }

    /// The place of the number in the order of all numbers: both zeros rank alike, and a number
    /// is smaller than another exactly when its rank is.
    pub open spec fn rank(self) -> int {
        if self.is_negative() {
            -self.magnitude()
        } else {
            self.magnitude()
        }
    }

    /// `self < other` on the numbers that the patterns stand for.
    pub open spec fn below(self, other: Scalar) -> bool {
        !self.nan() && !other.nan() && self.rank() < other.rank()
    }

    /// `self >= other` on the numbers that the patterns stand for.
    pub open spec fn reaches(self, other: Scalar) -> bool {
        !self.nan() && !other.nan() && self.rank() >= other.rank()
    }

    /// The bit pattern of the number with its sign cleared.
    pub open spec fn spec_abs(self) -> Scalar {
        Scalar { bits: self.magnitude() as u32 }
    }

    /// The bit pattern of the number with its sign flipped.
    pub open spec fn spec_neg(self) -> Scalar {
        if self.is_negative() {
            Scalar { bits: (self.bits - 0x8000_0000) as u32 }
        } else {
            Scalar { bits: (self.bits + 0x8000_0000) as u32 }
        }
    }

    /// Whether the two patterns do not stand for one and the same number.
    pub open spec fn spec_differs(self, other: Scalar) -> bool {
        self.nan() || other.nan() || self.rank() != other.rank()
    }

    /// The number rounded towards zero to a 32-bit unsigned one. What is negative or no number
    /// becomes zero, and what is too large becomes the largest.
    ///
    /// A pattern holds an exponent in its bits 23 to 30 and the digits behind a leading one
    /// below them: the number is `(2^23 + digits) * 2^(exponent - 150)`.
    pub open spec fn spec_truncate(self) -> int {
        let exponent = self.magnitude() / 0x80_0000;
        let digits = 0x80_0000 + self.magnitude() % 0x80_0000;
        if self.is_negative() || self.nan() || exponent < 127 {
            0
        } else if exponent >= 159 {
            u32::MAX as int
        } else if exponent >= 150 {
            digits * vstd::arithmetic::power2::pow2((exponent - 150) as nat)
        } else {
            digits / (vstd::arithmetic::power2::pow2((150 - exponent) as nat) as int)
        }
    }

    /// Makes a value from its bit pattern.
    pub fn from_bits(bits: u32) -> (r: Scalar)
        ensures
            r.bits == bits,
    {
        Scalar { bits }
    }

    /// Whether the pattern stands for no number.
    pub fn is_nan(self) -> (r: bool)
        ensures
            r == self.nan(),
    {
        self.bits % 0x8000_0000 > 0x7f80_0000
    }

    /// The number rounded towards zero to a 32-bit unsigned one.
    pub fn truncate(self) -> (r: u32)
        ensures
            r == self.spec_truncate(),
    {
        let magnitude: u32 = self.bits % 0x8000_0000;
        let exponent: u32 = magnitude / 0x80_0000;
        let digits: u32 = 0x80_0000 + magnitude % 0x80_0000;
        if self.bits >= 0x8000_0000 || self.is_nan() || exponent < 127 {
            0
        } else if exponent >= 159 {
            u32::MAX
        } else if exponent >= 150 {
            let up: u32 = exponent - 150;
            let factor: u32 = power_of_two(up);
            assert(digits * factor <= 0xff_ffff * 256) by (nonlinear_arith)
                requires
                    digits <= 0xff_ffff,
                    factor <= 256,
            ;
            digits * factor
        } else {
            digits / power_of_two(150 - exponent)
        }
    }

    /// `self < other`.
    pub fn lt(self, other: Scalar) -> (r: bool)
        ensures
            r == self.below(other),
    {
        if self.is_nan() || other.is_nan() {
            return false;
        }
        let a: u32 = self.bits % 0x8000_0000;
        let b: u32 = other.bits % 0x8000_0000;
        if self.bits >= 0x8000_0000 {
            if other.bits >= 0x8000_0000 {
                b < a
            } else {
                a != 0 || b != 0
            }
        } else {
            other.bits < 0x8000_0000 && a < b
        }
    }

    /// `self > other`.
    pub fn gt(self, other: Scalar) -> (r: bool)
        ensures
            r == other.below(self),
    {
        other.lt(self)
    }

    /// `self >= other`.
    pub fn ge(self, other: Scalar) -> (r: bool)
        ensures
            r == self.reaches(other),
    {
        !self.is_nan() && !other.is_nan() && !self.lt(other)
    }

    /// `self <= other`.
    pub fn le(self, other: Scalar) -> (r: bool)
        ensures
            r == other.reaches(self),
    {
        other.ge(self)
    }

    /// `self != other`.
    pub fn differs(self, other: Scalar) -> (r: bool)
        ensures
            r == self.spec_differs(other),
    {
        !(self.ge(other) && self.le(other))
    }

    /// The absolute value.
    pub fn abs(self) -> (r: Scalar)
        ensures
            r == self.spec_abs(),
    {
        Scalar { bits: self.bits % 0x8000_0000 }
    }

    /// The number with the opposite sign.
    pub fn neg(self) -> (r: Scalar)
        ensures
            r == self.spec_neg(),
    {
        if self.bits >= 0x8000_0000 {
            Scalar { bits: self.bits - 0x8000_0000 }
        } else {
            Scalar { bits: self.bits + 0x8000_0000 }
        }
    }
}

/// Two to the power of `n`.
fn power_of_two(n: u32) -> (r: u32)
    requires
        n <= 23,
    ensures
        r == vstd::arithmetic::power2::pow2(n as nat),
        r > 0,
        n <= 8 ==> r <= 256,
{
    let mut r: u32 = 1;
    let mut i: u32 = 0;
    proof {
        vstd::arithmetic::power2::lemma2_to64();
    }
    while i < n
        invariant
            i <= n <= 23,
            r == vstd::arithmetic::power2::pow2(i as nat),
            r <= 0x80_0000,
        decreases n - i,
    {
        proof {
            vstd::arithmetic::power2::lemma_pow2_unfold((i + 1) as nat);
            vstd::arithmetic::power2::lemma2_to64();
            if i < 22 {
                vstd::arithmetic::power2::lemma_pow2_strictly_increases((i + 1) as nat, 23);
            }
        }
        r = r * 2;
        i += 1;
    }
    proof {
        vstd::arithmetic::power2::lemma2_to64();
        vstd::arithmetic::power2::lemma_pow2_pos(n as nat);
        if n < 8 {
            vstd::arithmetic::power2::lemma_pow2_strictly_increases(n as nat, 8);
        }
    }
    r
}

/// Whether `best` is what remains of a running maximum that starts at `floor` and takes in
/// `values`: no number in `values` exceeds it, and it is `floor` or one of them. Patterns that
/// stand for no number are passed over.
pub open spec fn is_maximum(best: Scalar, floor: Scalar, values: Seq<Scalar>) -> bool {
    &&& !best.nan()
    &&& best.rank() >= floor.rank()
    &&& forall|i: int|
        0 <= i < values.len() && !(#[trigger] values[i]).nan() ==> values[i].rank() <= best.rank()
    &&& best == floor || exists|i: int| 0 <= i < values.len() && #[trigger] values[i] == best
}

/// The largest of `values`, or `floor` where none exceeds it. Of equal numbers the first counts.
pub open spec fn spec_maximum(floor: Scalar, values: Seq<Scalar>) -> Scalar
    decreases values.len(),
{
    if values.len() == 0 {
        floor
    } else {
        let best = spec_maximum(floor, values.drop_last());
        if best.below(values.last()) {
            values.last()
        } else {
            best
        }
    }
}

/// The largest of `values`, or `floor` where none exceeds it.
pub fn maximum(floor: Scalar, values: &Vec<Scalar>) -> (best: Scalar)
    requires
        !floor.nan(),
    ensures
        best == spec_maximum(floor, values@),
        is_maximum(best, floor, values@),
{
    let mut best = floor;
    let mut i: usize = 0;
    assert(values@.take(0) == Seq::<Scalar>::empty());
    while i < values.len()
        invariant
            i <= values.len(),
            best == spec_maximum(floor, values@.take(i as int)),
            is_maximum(best, floor, values@.take(i as int)),
        decreases values.len() - i,
    {
        let ghost seen = values@.take(i as int);
        let v = values[i];
        if best.lt(v) {
            best = v;
        }
        proof {
            let now = values@.take(i + 1);
            assert(now == seen.push(v));
            assert(now.drop_last() == seen);
            assert(now[i as int] == v);
            if best != floor && best != v {
                let k = choose|k: int| 0 <= k < seen.len() && #[trigger] seen[k] == best;
                assert(now[k] == best);
            }
            assert forall|k: int| 0 <= k < now.len() && !(#[trigger] now[k]).nan() implies now[k].rank()
                <= best.rank() by {
                if k < i {
                    assert(now[k] == seen[k]);
                }
            }
        }
        i += 1;
    }
    assert(values@.take(values@.len() as int) == values@);
    best
}

/// The order of values is the order of their ranks: of two numbers exactly one of
/// "smaller", "larger" and "alike" holds.
pub proof fn trichotomy(a: Scalar, b: Scalar)
    requires
        !a.nan(),
        !b.nan(),
    ensures
        a.below(b) || b.below(a) || !a.spec_differs(b),
        a.below(b) ==> !b.below(a) && a.spec_differs(b),
        a.reaches(b) <==> !a.below(b),
{
}

/// Flipping the sign turns the order round.
pub proof fn negation_reverses(a: Scalar, b: Scalar)
    ensures
        a.below(b) <==> b.spec_neg().below(a.spec_neg()),
        a.spec_neg().spec_neg() == a,
{
}

/// The number of a pattern without its sign, in units of the smallest number that there is (2^-149).
pub open spec fn units(s: Scalar) -> nat {
    let exponent = s.magnitude() / 0x80_0000;
    let digits = s.magnitude() % 0x80_0000;
    if exponent == 0 {
        digits as nat
    } else {
        ((0x80_0000 + digits) * vstd::arithmetic::power2::pow2((exponent - 1) as nat)) as nat
    }
}

/// The number of a pattern, in units of the smallest number that there is.
pub open spec fn number(s: Scalar) -> int {
    if s.is_negative() {
        -(units(s) as int)
    } else {
        units(s) as int
    }
}

/// Whether a pattern stands for a number that is not infinite.
pub open spec fn is_finite(s: Scalar) -> bool {
    s.magnitude() < 0x7f80_0000
}

proof fn lemma_units_grow(a: Scalar, b: Scalar)
    requires
        a.magnitude() < b.magnitude(),
    ensures
        units(a) < units(b),
{
    let (x, y) = (a.magnitude(), b.magnitude());
    let (e, f) = (x / 0x80_0000, y / 0x80_0000);
    let (c, d) = (x % 0x80_0000, y % 0x80_0000);
    assert(e <= f);
    if f == 0 {
    } else if e == f {
        let p = vstd::arithmetic::power2::pow2((e - 1) as nat) as int;
        vstd::arithmetic::power2::lemma_pow2_pos((e - 1) as nat);
        assert((0x80_0000 + c) * p < (0x80_0000 + d) * p) by (nonlinear_arith)
            requires
                c < d,
                0 < p,
        ;
    } else if e == 0 {
        let q = vstd::arithmetic::power2::pow2((f - 1) as nat) as int;
        vstd::arithmetic::power2::lemma_pow2_pos((f - 1) as nat);
        assert(0x80_0000 <= (0x80_0000 + d) * q) by (nonlinear_arith)
            requires
                0 <= d,
                1 <= q,
        ;
    } else {
        let p = vstd::arithmetic::power2::pow2((e - 1) as nat) as int;
        let q = vstd::arithmetic::power2::pow2((f - 1) as nat) as int;
        vstd::arithmetic::power2::lemma_pow2_pos((e - 1) as nat);
        vstd::arithmetic::power2::lemma_pow2_unfold(e as nat);
        if e < f - 1 {
            vstd::arithmetic::power2::lemma_pow2_strictly_increases(e as nat, (f - 1) as nat);
        }
        assert(2 * p <= q);
        assert((0x80_0000 + c) * p < (0x80_0000 + d) * q) by (nonlinear_arith)
            requires
                0 <= c < 0x80_0000,
                0 <= d,
                0 < p,
                2 * p <= q,
        ;
    }
}

/// The order of the patterns is that of the numbers that they stand for.
pub proof fn order_is_that_of_the_numbers(a: Scalar, b: Scalar)
    requires
        is_finite(a),
        is_finite(b),
    ensures
        a.below(b) <==> number(a) < number(b),
        a.reaches(b) <==> number(a) >= number(b),
        a.spec_differs(b) <==> number(a) != number(b),
        number(a.spec_neg()) == -number(a),
        number(a.spec_abs()) == if number(a) < 0 {
            -number(a)
        } else {
            number(a)
        },
{
    let zero = Scalar { bits: 0 };
    assert(units(zero) == 0);
    if a.magnitude() > 0 {
        lemma_units_grow(zero, a);
    }
    if b.magnitude() > 0 {
        lemma_units_grow(zero, b);
    }
    if a.magnitude() < b.magnitude() {
        lemma_units_grow(a, b);
    } else if b.magnitude() < a.magnitude() {
        lemma_units_grow(b, a);
    }
    assert(a.spec_neg().magnitude() == a.magnitude());
    assert(a.spec_abs().magnitude() == a.magnitude());
}

/// Whatever is no number is neither smaller nor larger than anything, and reaches nothing. Infinity is
/// above every number, and negative infinity below.
pub proof fn no_number_compares(a: Scalar, b: Scalar)
    ensures
        a.nan() ==> !a.below(b) && !b.below(a) && !a.reaches(b) && !b.reaches(a),
        is_finite(a) ==> a.below(Scalar { bits: 0x7f80_0000 }) && (Scalar { bits: 0xff80_0000 }).below(a),
        is_finite(a) ==> !a.nan(),
{
}

/// Rounding towards zero gives the whole part of a number, as far as 32 bits hold it.
pub proof fn rounding_gives_the_whole_part(s: Scalar)
    requires
        is_finite(s),
    ensures
        ({
            let one = vstd::arithmetic::power2::pow2(149) as int;
            let t = s.spec_truncate();
            &&& 0 <= t <= u32::MAX
            &&& number(s) < one ==> t == 0
            &&& number(s) >= one ==> t * one <= number(s)
            &&& number(s) >= one && t < u32::MAX ==> number(s) < (t + 1) * one
        }),
{
    let one = vstd::arithmetic::power2::pow2(149) as int;
    let e = s.magnitude() / 0x80_0000;
    let d = 0x80_0000 + s.magnitude() % 0x80_0000;
    let t = s.spec_truncate();
    vstd::arithmetic::power2::lemma2_to64();
    vstd::arithmetic::power2::lemma_pow2_pos(149);
    vstd::arithmetic::power2::lemma_pow2_adds(23, 126);
    let base = vstd::arithmetic::power2::pow2(126) as int;
    assert(one == 0x80_0000 * base);
    if s.is_negative() {
    } else if e < 127 {
        if e == 0 {
            vstd::arithmetic::power2::lemma_pow2_pos(126);
            assert(0x80_0000 * base >= 0x80_0000) by (nonlinear_arith)
                requires
                    base >= 1,
            ;
        } else {
            let p = vstd::arithmetic::power2::pow2((e - 1) as nat) as int;
            vstd::arithmetic::power2::lemma_pow2_unfold(126);
            vstd::arithmetic::power2::lemma_pow2_pos((e - 1) as nat);
            if e - 1 < 125 {
                vstd::arithmetic::power2::lemma_pow2_strictly_increases((e - 1) as nat, 125);
            }
            assert(2 * p <= base);
            assert(d * p < 0x80_0000 * base) by (nonlinear_arith)
                requires
                    0 <= d < 0x100_0000,
                    2 * p <= base,
                    0 < p,
            ;
        }
    } else {
        let p = vstd::arithmetic::power2::pow2((e - 1) as nat) as int;
        assert(number(s) == d * p);
        if e > 127 {
            vstd::arithmetic::power2::lemma_pow2_strictly_increases(126, (e - 1) as nat);
        }
        assert(d * p >= one) by (nonlinear_arith)
            requires
                d >= 0x80_0000,
                p >= base,
                base > 0,
                one == 0x80_0000 * base,
        ;
        if e >= 159 {
            let big = vstd::arithmetic::power2::pow2(158) as int;
            if e > 159 {
                vstd::arithmetic::power2::lemma_pow2_strictly_increases(158, (e - 1) as nat);
            }
            vstd::arithmetic::power2::lemma_pow2_adds(32, 126);
            assert(u32::MAX * one <= d * p) by (nonlinear_arith)
                requires
                    d >= 0x80_0000,
                    p >= big,
                    big == 0x1_0000_0000 * base,
                    one == 0x80_0000 * base,
                    base > 0,
            ;
        } else if e >= 150 {
            let f = vstd::arithmetic::power2::pow2((e - 150) as nat) as int;
            vstd::arithmetic::power2::lemma_pow2_adds(149, (e - 150) as nat);
            assert(p == one * f);
            assert(t == d * f);
            if e - 150 < 8 {
                vstd::arithmetic::power2::lemma_pow2_strictly_increases((e - 150) as nat, 8);
            }
            assert(t * one == d * p) by (nonlinear_arith)
                requires
                    t == d * f,
                    p == one * f,
            ;
            assert(d * f <= 0xff_ffff * 256) by (nonlinear_arith)
                requires
                    0 <= d <= 0xff_ffff,
                    0 <= f <= 256,
            ;
            assert((t + 1) * one == t * one + one) by (nonlinear_arith);
        } else {
            let f = vstd::arithmetic::power2::pow2((150 - e) as nat) as int;
            vstd::arithmetic::power2::lemma_pow2_pos((150 - e) as nat);
            vstd::arithmetic::power2::lemma_pow2_adds((e - 1) as nat, (150 - e) as nat);
            assert(one == p * f);
            vstd::arithmetic::div_mod::lemma_fundamental_div_mod(d, f);
            assert(t == d / f);
            assert(t * one <= d * p && d * p < (t + 1) * one && 0 <= t <= d) by (nonlinear_arith)
                requires
                    one == p * f,
                    d == f * t + d % f,
                    0 <= d % f < f,
                    0 < p,
                    0 < f,
                    0 <= d,
            ;
        }
    }
}

/// The largest number is not below any other, and is one of them, or the floor.
pub proof fn maximum_is_the_largest(floor: Scalar, values: Seq<Scalar>)
    requires
        !floor.nan(),
    ensures
        ({
            let best = spec_maximum(floor, values);
            &&& !best.below(floor)
            &&& forall|i: int| 0 <= i < values.len() ==> !best.below(#[trigger] values[i])
            &&& best == floor || values.contains(best)
            &&& !best.nan()
        }),
    decreases values.len(),
{
    if values.len() > 0 {
        let prior = values.drop_last();
        maximum_is_the_largest(floor, prior);
        let best = spec_maximum(floor, values);
        assert forall|i: int| 0 <= i < values.len() implies !best.below(#[trigger] values[i]) by {
            if i < prior.len() {
                assert(values[i] == prior[i]);
            }
        }
        if best == values.last() {
            assert(values[values.len() - 1] == best);
        } else if best != floor {
            let k = choose|k: int| 0 <= k < prior.len() && prior[k] == best;
            assert(values[k] == best);
        }
    }
}

} // verus!
