//! What the scalar predicates say of bit patterns and of each other.
use crate::scalar::Scalar;
use vstd::prelude::*;

verus! {

proof fn lemma_fields(bits: u64)
    ensures
        (bits as int % 0x8000_0000_0000_0000) == (bits & 0x7fff_ffff_ffff_ffff),
        (bits & 0x7fff_ffff_ffff_ffff) < 0x7ff0_0000_0000_0000 <==> (bits >> 52) & 0x7ff != 0x7ff,
        (bits & 0x7fff_ffff_ffff_ffff) > 0x7ff0_0000_0000_0000 <==> (bits >> 52) & 0x7ff == 0x7ff
            && bits & 0x000f_ffff_ffff_ffff != 0,
        bits >= 0x8000_0000_0000_0000 <==> bits >> 63 == 1,
{
    assert(bits % 0x8000_0000_0000_0000 == (bits & 0x7fff_ffff_ffff_ffff)) by (bit_vector);
    assert((bits & 0x7fff_ffff_ffff_ffff) < 0x7ff0_0000_0000_0000 <==> (bits >> 52) & 0x7ff
        != 0x7ff) by (bit_vector);
    assert((bits & 0x7fff_ffff_ffff_ffff) > 0x7ff0_0000_0000_0000 <==> ((bits >> 52) & 0x7ff
        == 0x7ff && bits & 0x000f_ffff_ffff_ffff != 0)) by (bit_vector);
    assert(bits >= 0x8000_0000_0000_0000 <==> bits >> 63 == 1) by (bit_vector);
}

/// A scalar is finite unless its exponent bits are all set; it is a NaN where they are and a
/// fraction bit is set too; its top bit is its sign.
pub proof fn law_pattern_tells_the_class(value: Scalar)
    ensures
        value.finite() <==> (value.bits() >> 52) & 0x7ff != 0x7ff,
        value.nan() <==> (value.bits() >> 52) & 0x7ff == 0x7ff && value.bits()
            & 0x000f_ffff_ffff_ffff != 0,
        value.negative() <==> value.bits() >> 63 == 1,
        value.negative_zero() <==> value.bits() == 0x8000_0000_0000_0000,
        value.finite() ==> !value.nan(),
{
    lemma_fields(value.bits());
}

/// Two scalars that are no NaN order by their patterns: upwards where neither has its sign
/// bit, downwards where both have, and one with the bit is below one without it unless both
/// are zeros.
pub proof fn law_patterns_tell_the_order(left: Scalar, right: Scalar)
    requires
        !left.nan(),
        !right.nan(),
    ensures
        !left.negative() && !right.negative() ==> (left.below(right) <==> left.bits()
            < right.bits()),
        left.negative() && right.negative() ==> (left.below(right) <==> left.bits()
            > right.bits()),
        left.negative() && !right.negative() ==> (left.below(right) <==> left.bits()
            != 0x8000_0000_0000_0000 || right.bits() != 0),
        !left.negative() && right.negative() ==> !left.below(right),
{
}

/// Of two scalars that are no NaN exactly one of three holds: the first is below, they are
/// equal, or the second is below. A NaN is in no relation to anything.
pub proof fn law_values_compare(left: Scalar, right: Scalar)
    ensures
        left.nan() || right.nan() ==> !left.below(right) && !left.same_value(right)
            && !left.at_most(right) && !left.vanishes_within(right),
        !left.nan() && !right.nan() ==> left.below(right) || left.same_value(right)
            || right.below(left),
        left.below(right) ==> !right.below(left) && !left.same_value(right),
        left.same_value(right) <==> right.same_value(left),
        left.at_most(right) <==> left.below(right) || left.same_value(right),
        left.strictly_positive() <==> Scalar::nil().below(left),
{
    Scalar::lemma_nil();
}

/// The value order is transitive.
pub proof fn law_order_is_transitive(first: Scalar, second: Scalar, third: Scalar)
    requires
        first.at_most(second),
        second.at_most(third),
    ensures
        first.at_most(third),
        first.below(second) || second.below(third) ==> first.below(third),
{
}

/// A scalar vanishes within a bound where it lies between the bound's opposite and the
/// bound.
pub proof fn law_within_lies_between(value: Scalar, bound: Scalar, opposite: Scalar)
    requires
        opposite.bits() == bound.bits() ^ 0x8000_0000_0000_0000,
    ensures
        value.vanishes_within(bound) <==> opposite.at_most(value) && value.at_most(bound),
{
    let bits = bound.bits();
    assert(bits >= 0x8000_0000_0000_0000 ==> bits ^ 0x8000_0000_0000_0000 == bits
        - 0x8000_0000_0000_0000) by (bit_vector);
    assert(bits < 0x8000_0000_0000_0000 ==> bits ^ 0x8000_0000_0000_0000 == bits
        + 0x8000_0000_0000_0000) by (bit_vector);
}

/// The larger of two scalars is one of them; neither exceeds it, and a NaN gives way.
pub proof fn law_maximum_is_the_larger(left: Scalar, right: Scalar)
    ensures
        left.maximum(right) == left || left.maximum(right) == right,
        !left.nan() && !right.nan() ==> left.at_most(left.maximum(right)) && right.at_most(
            left.maximum(right),
        ),
        left.nan() ==> left.maximum(right) == right,
        right.nan() && !left.nan() ==> left.maximum(right) == left,
{
}

} // verus!
