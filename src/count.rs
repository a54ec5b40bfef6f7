//! The numeric values that a counter can hold.
use vstd::prelude::*;

verus! {

/// A numeric type that counts can be kept in: it has a zero, a one, and an
/// in-place addition. Each value stands for a mathematical integer, `value`,
/// which lies between `min_value` and `max_value`.
pub trait CountValue: Sized + Copy {
    /// The integer that this value stands for.
    spec fn value(&self) -> int;

    /// The least integer the type can hold.
    spec fn min_value() -> int;

    /// The greatest integer the type can hold.
    spec fn max_value() -> int;

    /// Zero and one are both representable.
    proof fn lemma_bounds()
        ensures
            Self::min_value() <= 0,
            1 <= Self::max_value(),
    ;

    /// Every value lies within the type's range.
    proof fn lemma_in_range(&self)
        ensures
            Self::min_value() <= self.value() <= Self::max_value(),
    ;

    /// The additive identity.
    fn zero() -> (r: Self)
        ensures
            r.value() == 0,
    ;

    /// The count of a single occurrence.
    fn one() -> (r: Self)
        ensures
            r.value() == 1,
    ;

    /// Adds `other` in place; the sum must fit in the type.
    fn add_to(&mut self, other: Self)
        requires
            Self::min_value() <= old(self).value() + other.value() <= Self::max_value(),
        ensures
            final(self).value() == old(self).value() + other.value(),
    ;
}

/// Relies on `num_traits::Zero::zero` for `u64`, which returns `0`.
#[verifier::external_body]
fn u64_zero() -> (r: u64)
    ensures
        r == 0,
{
    <u64 as num_traits::Zero>::zero()
}

/// Relies on `num_traits::One::one` for `u64`, which returns `1`.
#[verifier::external_body]
fn u64_one() -> (r: u64)
    ensures
        r == 1,
{
    <u64 as num_traits::One>::one()
}

impl CountValue for u64 {
    open spec fn value(&self) -> int {
        *self as int
    }

    open spec fn min_value() -> int {
        0
    }

    open spec fn max_value() -> int {
        u64::MAX as int
    }

    proof fn lemma_bounds() {
    }

    proof fn lemma_in_range(&self) {
    }

    fn zero() -> (r: u64) {
        u64_zero()
    }

    fn one() -> (r: u64) {
        u64_one()
    }

    fn add_to(&mut self, other: u64) {
        *self += other;
    }
}

/// Relies on `num_traits::Zero::zero` for `usize`, which returns `0`.
#[verifier::external_body]
fn usize_zero() -> (r: usize)
    ensures
        r == 0,
{
    <usize as num_traits::Zero>::zero()
}

/// Relies on `num_traits::One::one` for `usize`, which returns `1`.
#[verifier::external_body]
fn usize_one() -> (r: usize)
    ensures
        r == 1,
{
    <usize as num_traits::One>::one()
}

impl CountValue for usize {
    open spec fn value(&self) -> int {
        *self as int
    }

    open spec fn min_value() -> int {
        0
    }

    open spec fn max_value() -> int {
        usize::MAX as int
    }

    proof fn lemma_bounds() {
    }

    proof fn lemma_in_range(&self) {
    }

    fn zero() -> (r: usize) {
        usize_zero()
    }

    fn one() -> (r: usize) {
        usize_one()
    }

    fn add_to(&mut self, other: usize) {
        *self += other;
    }
}

/// Relies on `num_traits::Zero::zero` for `i64`, which returns `0`.
#[verifier::external_body]
fn i64_zero() -> (r: i64)
    ensures
        r == 0,
{
    <i64 as num_traits::Zero>::zero()
}

/// Relies on `num_traits::One::one` for `i64`, which returns `1`.
#[verifier::external_body]
fn i64_one() -> (r: i64)
    ensures
        r == 1,
{
    <i64 as num_traits::One>::one()
}

impl CountValue for i64 {
    open spec fn value(&self) -> int {
        *self as int
    }

    open spec fn min_value() -> int {
        i64::MIN as int
    }

    open spec fn max_value() -> int {
        i64::MAX as int
    }

    proof fn lemma_bounds() {
    }

    proof fn lemma_in_range(&self) {
    }

    fn zero() -> (r: i64) {
        i64_zero()
    }

    fn one() -> (r: i64) {
        i64_one()
    }

    fn add_to(&mut self, other: i64) {
        *self += other;
    }
}

} // verus!
