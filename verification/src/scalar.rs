//! Scalars held by their IEEE-754 binary64 bit pattern.
//!
//! The library decides about scalars (are they finite, which is smaller, is a
//! zero negative) and never computes with them; the bit pattern is all it needs.
use vstd::prelude::*;

verus! {

/// The magnitude bits of positive infinity; larger magnitudes are NaNs.
pub const INFINITE_MAGNITUDE: u64 = 0x7ff0_0000_0000_0000;

/// The weight of the sign bit.
pub const SIGN_BIT: u64 = 0x8000_0000_0000_0000;

/// The bit pattern of the number one.
pub const ONE_BITS: u64 = 0x3ff0_0000_0000_0000;

/// A binary64 scalar.
#[derive(Clone, Copy, Debug, PartialEq, Eq, Structural)]
pub struct Scalar {
    bits: u64,
}

impl Scalar {
    /// The bit pattern.
    pub closed spec fn bits(self) -> u64 {
        self.bits
    }

    /// Whether the sign bit is set.
    pub open spec fn negative(self) -> bool {
        self.bits() >= SIGN_BIT
    }

    /// The pattern without its sign bit. Non-NaN magnitudes order as the
    /// absolute values do.
    pub open spec fn magnitude(self) -> int {
        self.bits() as int % SIGN_BIT as int
    }

    pub open spec fn finite(self) -> bool {
        self.magnitude() < INFINITE_MAGNITUDE
    }

    pub open spec fn nan(self) -> bool {
        self.magnitude() > INFINITE_MAGNITUDE
    }

    pub open spec fn negative_zero(self) -> bool {
        self.bits() == SIGN_BIT
    }

    /// A number that orders non-NaN scalars as their values; both zeros have rank zero.
    pub open spec fn rank(self) -> int {
        if self.negative() {
            -self.magnitude()
        } else {
            self.magnitude()
        }
    }

    /// The value order: false when either side is NaN.
    pub open spec fn below(self, other: Scalar) -> bool {
        !self.nan() && !other.nan() && self.rank() < other.rank()
    }

    /// Equality of values: NaN equals nothing, the two zeros are equal.
    pub open spec fn same_value(self, other: Scalar) -> bool {
        !self.nan() && !other.nan() && self.rank() == other.rank()
    }

    /// The value order with equality: false when either side is NaN.
    pub open spec fn at_most(self, other: Scalar) -> bool {
        !self.nan() && !other.nan() && self.rank() <= other.rank()
    }

    /// The larger value; a NaN gives way to the other.
    pub open spec fn maximum(self, other: Scalar) -> Scalar {
        if self.nan() || self.below(other) {
            other
        } else {
            self
        }
    }

    /// Whether the absolute value is at most `bound`: false when either side is NaN.
    pub open spec fn vanishes_within(self, bound: Scalar) -> bool {
        !self.nan() && !bound.nan() && self.magnitude() <= bound.rank()
    }

    pub open spec fn strictly_positive(self) -> bool {
        !self.nan() && self.rank() > 0
    }

    pub fn from_bits(bits: u64) -> (result: Scalar)
        ensures
            result.bits() == bits,
    {
        Scalar { bits }
    }

    pub fn to_bits(&self) -> (result: u64)
        ensures
            result == self.bits(),
    {
        self.bits
    }

    /// The positive zero.
    pub closed spec fn nil() -> Scalar {
        Scalar { bits: 0 }
    }

    pub proof fn lemma_nil()
        ensures
            Scalar::nil().bits() == 0,
            Scalar::nil().finite(),
            Scalar::nil().rank() == 0,
    {
    }

    /// Positive zero.
    pub fn zero() -> (result: Scalar)
        ensures
            result == Scalar::nil(),
            result.bits() == 0,
            result.finite(),
            result.rank() == 0,
            !result.negative_zero(),
    {
        Scalar { bits: 0 }
    }

    /// The number one.
    pub closed spec fn unit() -> Scalar {
        Scalar { bits: ONE_BITS }
    }

    pub proof fn lemma_unit()
        ensures
            Scalar::unit().bits() == 0x3ff0_0000_0000_0000,
            Scalar::unit().finite(),
            Scalar::unit().rank() == 0x3ff0_0000_0000_0000,
    {
    }

    /// A scalar that equals another in value and is not zero has its bit pattern.
    pub proof fn lemma_value_is_bits(self, other: Scalar)
        requires
            self.same_value(other),
            other.rank() != 0,
        ensures
            self.bits() == other.bits(),
    {
    }

    /// The number one.
    pub fn one() -> (result: Scalar)
        ensures
            result == Scalar::unit(),
            result.bits() == ONE_BITS,
            result.finite(),
            result.strictly_positive(),
    {
        Scalar { bits: ONE_BITS }
    }

    fn magnitude_bits(&self) -> (result: u64)
        ensures
            result == self.magnitude(),
            self.negative() <==> self.bits >= SIGN_BIT,
    {
        if self.bits >= SIGN_BIT {
            self.bits - SIGN_BIT
        } else {
            self.bits
        }
    }

    /// Whether the scalar is neither infinite nor NaN.
    pub fn is_finite(&self) -> (result: bool)
        ensures
            result == self.finite(),
    {
        self.magnitude_bits() < INFINITE_MAGNITUDE
    }

    /// Whether the scalar is the zero with its sign bit set.
    pub fn is_negative_zero(&self) -> (result: bool)
        ensures
            result == self.negative_zero(),
    {
        self.bits == SIGN_BIT
    }

    /// Whether the scalar is greater than zero.
    pub fn is_positive(&self) -> (result: bool)
        ensures
            result == self.strictly_positive(),
    {
        self.bits < SIGN_BIT && 0 < self.bits && self.bits <= INFINITE_MAGNITUDE
    }

    /// Whether the scalar is less than `other` in value.
    pub fn is_below(&self, other: &Scalar) -> (result: bool)
        ensures
            result == self.below(*other),
    {
        let mine: u64 = self.magnitude_bits();
        let theirs: u64 = other.magnitude_bits();
        if mine > INFINITE_MAGNITUDE || theirs > INFINITE_MAGNITUDE {
            false
        } else if self.bits >= SIGN_BIT {
            if other.bits >= SIGN_BIT {
                mine > theirs
            } else {
                mine > 0 || theirs > 0
            }
        } else {
            other.bits < SIGN_BIT && mine < theirs
        }
    }

    /// Whether the scalar equals `other` in value.
    pub fn is_equal(&self, other: &Scalar) -> (result: bool)
        ensures
            result == self.same_value(*other),
    {
        let mine: u64 = self.magnitude_bits();
        let theirs: u64 = other.magnitude_bits();
        mine <= INFINITE_MAGNITUDE && mine == theirs && (mine == 0 || (self.bits >= SIGN_BIT) == (
        other.bits >= SIGN_BIT))
    }

    /// Whether the scalar is less than or equal to `other` in value.
    pub fn is_at_most(&self, other: &Scalar) -> (result: bool)
        ensures
            result == self.at_most(*other),
    {
        self.is_below(other) || self.is_equal(other)
    }

    /// The larger of two scalars; a NaN gives way to the other.
    pub fn larger(&self, other: &Scalar) -> (result: Scalar)
        ensures
            result == self.maximum(*other),
    {
        if self.magnitude_bits() > INFINITE_MAGNITUDE || self.is_below(other) {
            *other
        } else {
            *self
        }
    }

    /// Whether the absolute value is at most `bound`.
    pub fn is_within(&self, bound: &Scalar) -> (result: bool)
        ensures
            result == self.vanishes_within(*bound),
    {
        let mine: u64 = self.magnitude_bits();
        let theirs: u64 = bound.magnitude_bits();
        mine <= INFINITE_MAGNITUDE && theirs <= INFINITE_MAGNITUDE && (if bound.bits >= SIGN_BIT {
            mine == 0 && theirs == 0
        } else {
            mine <= theirs
        })
    }
}

/// The first position that holds a scalar that is not finite.
pub open spec fn first_non_finite(values: Seq<Scalar>, index: int) -> bool {
    &&& 0 <= index < values.len()
    &&& !values[index].finite()
    &&& forall|i: int| 0 <= i < index ==> (#[trigger] values[i]).finite()
}

pub open spec fn all_finite(values: Seq<Scalar>) -> bool {
    forall|i: int| 0 <= i < values.len() ==> (#[trigger] values[i]).finite()
}

/// Finds the first scalar that is not finite.
pub fn find_non_finite(values: &Vec<Scalar>) -> (result: Option<usize>)
    ensures
        match result {
            Some(index) => first_non_finite(values@, index as int),
            None => all_finite(values@),
        },
{
    let mut index: usize = 0;
    while index < values.len()
        invariant
            index <= values.len(),
            forall|i: int| 0 <= i < index ==> (#[trigger] values@[i]).finite(),
        decreases values.len() - index,
    {
        if !values[index].is_finite() {
            return Some(index);
        }
        index += 1;
    }
    None
}

/// A copy of a scalar sequence.
pub fn copy_scalars(values: &Vec<Scalar>) -> (result: Vec<Scalar>)
    ensures
        result@ == values@,
{
    let mut result: Vec<Scalar> = Vec::new();
    let mut index: usize = 0;
    while index < values.len()
        invariant
            index <= values.len(),
            result@ == values@.take(index as int),
        decreases values.len() - index,
    {
        result.push(values[index]);
        index += 1;
    }
    assert(result@ == values@);
    result
}

/// A copy of the scalars of a range.
pub fn copy_range(values: &Vec<Scalar>, start: usize, end: usize) -> (result: Vec<Scalar>)
    requires
        start <= end <= values.len(),
    ensures
        result@ == values@.subrange(start as int, end as int),
{
    let mut result: Vec<Scalar> = Vec::new();
    let mut index: usize = start;
    while index < end
        invariant
            start <= index <= end <= values.len(),
            result@ == values@.subrange(start as int, index as int),
        decreases end - index,
    {
        result.push(values[index]);
        index += 1;
        assert(result@ =~= values@.subrange(start as int, index as int));
    }
    result
}

/// Appends a copy of scalars.
pub fn append_scalars(target: &mut Vec<Scalar>, values: &Vec<Scalar>)
    ensures
        final(target)@ == old(target)@ + values@,
{
    let ghost before = target@;
    let mut index: usize = 0;
    while index < values.len()
        invariant
            index <= values.len(),
            target@ == before + values@.take(index as int),
        decreases values.len() - index,
    {
        target.push(values[index]);
        index += 1;
        assert(target@ =~= before + values@.take(index as int));
    }
    assert(values@.take(index as int) =~= values@);
}

/// `count` positive zeros.
pub fn zeros(count: usize) -> (result: Vec<Scalar>)
    ensures
        result@.len() == count,
        forall|i: int| 0 <= i < count ==> (#[trigger] result@[i]).bits() == 0,
{
    let mut result: Vec<Scalar> = Vec::new();
    while result.len() < count
        invariant
            result.len() <= count,
            forall|i: int| 0 <= i < result@.len() ==> (#[trigger] result@[i]).bits() == 0,
        decreases count - result.len(),
    {
        result.push(Scalar::zero());
    }
    result
}

} // verus!
