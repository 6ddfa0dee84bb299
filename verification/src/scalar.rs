//! The arithmetic that the renderer needs from its number type.
//!
//! The renderer is written once, against this trait, and contains no number
//! format of its own. Nothing is assumed about what an operation returns:
//! what the generic routines guarantee holds for every implementation.
//!
//! What a routine computes is stated over the operations themselves: the
//! predicates below say that a value is what an operation gives for given
//! operands, whatever the implementation promises of it.

use vstd::prelude::*;

verus! {

/// A real-number type the renderer can compute with.
pub trait Scalar: Copy {
    /// The number nearest to the integer `v`.
    fn from_index(v: usize) -> Self;

    /// `self + rhs`.
    fn plus(self, rhs: Self) -> Self;

    /// `self - rhs`.
    fn minus(self, rhs: Self) -> Self;

    /// `self * rhs`.
    fn times(self, rhs: Self) -> Self;

    /// `self / rhs`.
    fn over(self, rhs: Self) -> Self;

    /// Whether `self < rhs`.
    fn less(self, rhs: Self) -> bool;

    /// `-self`.
    fn negated(self) -> Self;

    /// The absolute value.
    fn abs(self) -> Self;

    /// Whether the sign is positive; true of a positive zero.
    fn is_sign_positive(self) -> bool;

    /// The square root.
    fn sqrt(self) -> Self;

    /// The logarithm to base 2.
    fn log2(self) -> Self;

    /// The integer part as a signed integer, saturating at the type's ends.
    fn trunc(self) -> i32;

    /// The integer part as an index, saturating at the type's ends, so that
    /// a negative number gives 0.
    fn to_index(self) -> usize;

    /// A key that orders inverse depths: a nearer depth has a larger key, and
    /// whatever is not in front of the camera has key 0.
    fn depth_key(self) -> u32;
}

/// `r` is what the scalar gives for the integer `v`.
pub open spec fn is_from_index<N: Scalar>(v: usize, r: N) -> bool {
    call_ensures(N::from_index, (v,), r)
}

/// `r` is what the scalar gives for `a + b`.
pub open spec fn is_plus<N: Scalar>(a: N, b: N, r: N) -> bool {
    call_ensures(N::plus, (a, b), r)
}

/// `r` is what the scalar gives for `a - b`.
pub open spec fn is_minus<N: Scalar>(a: N, b: N, r: N) -> bool {
    call_ensures(N::minus, (a, b), r)
}

/// `r` is what the scalar gives for `a * b`.
pub open spec fn is_times<N: Scalar>(a: N, b: N, r: N) -> bool {
    call_ensures(N::times, (a, b), r)
}

/// `r` is what the scalar gives for `a / b`.
pub open spec fn is_over<N: Scalar>(a: N, b: N, r: N) -> bool {
    call_ensures(N::over, (a, b), r)
}

/// `r` is what the scalar answers to `a < b`.
pub open spec fn is_less<N: Scalar>(a: N, b: N, r: bool) -> bool {
    call_ensures(N::less, (a, b), r)
}

/// `r` is what the scalar gives for `-a`.
pub open spec fn is_negated<N: Scalar>(a: N, r: N) -> bool {
    call_ensures(N::negated, (a,), r)
}

/// `r` is what the scalar gives for the absolute value of `a`.
pub open spec fn is_abs<N: Scalar>(a: N, r: N) -> bool {
    call_ensures(N::abs, (a,), r)
}

/// `r` is what the scalar answers to "is the sign of `a` positive".
pub open spec fn is_sign_positive<N: Scalar>(a: N, r: bool) -> bool {
    call_ensures(N::is_sign_positive, (a,), r)
}

/// `r` is what the scalar gives for the square root of `a`.
pub open spec fn is_sqrt<N: Scalar>(a: N, r: N) -> bool {
    call_ensures(N::sqrt, (a,), r)
}

/// `r` is what the scalar gives for the logarithm of `a` to base 2.
pub open spec fn is_log2<N: Scalar>(a: N, r: N) -> bool {
    call_ensures(N::log2, (a,), r)
}

/// `r` is what the scalar gives for the integer part of `a`.
pub open spec fn is_trunc<N: Scalar>(a: N, r: i32) -> bool {
    call_ensures(N::trunc, (a,), r)
}

/// `r` is what the scalar gives for the integer part of `a` as an index.
pub open spec fn is_to_index<N: Scalar>(a: N, r: usize) -> bool {
    call_ensures(N::to_index, (a,), r)
}

/// `r` is the depth key that the scalar gives for the inverse depth `a`.
pub open spec fn is_depth_key<N: Scalar>(a: N, r: u32) -> bool {
    call_ensures(N::depth_key, (a,), r)
}

/// `r` is what the scalar gives for the integer `n` divided by the integer
/// `d`.
pub open spec fn is_ratio<N: Scalar>(n: usize, d: usize, r: N) -> bool {
    exists|a: N, b: N| is_from_index(n, a) && is_from_index(d, b) && #[trigger] is_over(a, b, r)
}

/// `r` is the larger of `a` and `b` as the scalar compares them: `b` where
/// it answers that `a < b`, else `a`.
pub open spec fn is_larger<N: Scalar>(a: N, b: N, r: N) -> bool {
    ||| is_less(a, b, true) && r == b
    ||| is_less(a, b, false) && r == a
}

/// Whether the operations that decide where a triangle lands are functions
/// of their operands: each gives one result for given operands. Nothing in
/// this library assumes it; laws that need it take it as a condition.
pub open spec fn is_functional<N: Scalar>() -> bool {
    &&& forall|v: usize, r: N, s: N|
        #![trigger is_from_index(v, r), is_from_index(v, s)]
        is_from_index(v, r) && is_from_index(v, s) ==> r == s
    &&& forall|a: N, b: N, r: N, s: N|
        #![trigger is_plus(a, b, r), is_plus(a, b, s)]
        is_plus(a, b, r) && is_plus(a, b, s) ==> r == s
    &&& forall|a: N, b: N, r: N, s: N|
        #![trigger is_minus(a, b, r), is_minus(a, b, s)]
        is_minus(a, b, r) && is_minus(a, b, s) ==> r == s
    &&& forall|a: N, b: N, r: N, s: N|
        #![trigger is_times(a, b, r), is_times(a, b, s)]
        is_times(a, b, r) && is_times(a, b, s) ==> r == s
    &&& forall|a: N, b: N, r: N, s: N|
        #![trigger is_over(a, b, r), is_over(a, b, s)]
        is_over(a, b, r) && is_over(a, b, s) ==> r == s
    &&& forall|a: N, b: N, r: bool, s: bool|
        #![trigger is_less(a, b, r), is_less(a, b, s)]
        is_less(a, b, r) && is_less(a, b, s) ==> r == s
    &&& forall|a: N, r: N, s: N|
        #![trigger is_abs(a, r), is_abs(a, s)]
        is_abs(a, r) && is_abs(a, s) ==> r == s
    &&& forall|a: N, r: i32, s: i32|
        #![trigger is_trunc(a, r), is_trunc(a, s)]
        is_trunc(a, r) && is_trunc(a, s) ==> r == s
    &&& forall|a: N, r: u32, s: u32|
        #![trigger is_depth_key(a, r), is_depth_key(a, s)]
        is_depth_key(a, r) && is_depth_key(a, s) ==> r == s
}

/// Whether `bits` is the pattern of a single-precision number greater than
/// zero: the sign bit is clear, the pattern is not that of zero, and it is
/// at most that of positive infinity, beyond which no pattern is a number.
pub open spec fn is_positive_single(bits: u32) -> bool {
    0 < bits <= 0x7F80_0000
}

/// The depth key of a single-precision inverse depth, from its bit pattern.
/// Among numbers greater than zero the patterns are ordered as the numbers
/// are, so such a number is its own key; every other pattern, that of a
/// zero, of a negative number or of no number at all, gets key 0 and so
/// never passes a depth test.
pub fn single_depth_key(bits: u32) -> (key: u32)
    ensures
        key == if is_positive_single(bits) {
            bits
        } else {
            0
        },
{
    if 0 < bits && bits <= 0x7F80_0000 {
        bits
    } else {
        0
    }
}

/// The number 1.
pub(crate) fn one<N: Scalar>() -> (r: N)
    ensures
        is_from_index(1, r),
{
    N::from_index(1)
}

/// The number 1/2.
pub(crate) fn half<N: Scalar>() -> (r: N)
    ensures
        is_ratio(1, 2, r),
{
    let a: N = N::from_index(1);
    let b: N = N::from_index(2);
    let r: N = a.over(b);
    assert(is_from_index(1, a) && is_from_index(2, b) && is_over(a, b, r));
    r
}

/// The larger of two numbers; `a` where neither is less.
pub(crate) fn larger<N: Scalar>(a: N, b: N) -> (r: N)
    ensures
        is_larger(a, b, r),
{
    if a.less(b) {
        b
    } else {
        a
    }
}

} // verus!
