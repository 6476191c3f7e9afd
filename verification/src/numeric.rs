//! Sums, means and variances over any number type.

use crate::selection::lemma_folds;
use std::ops::{Add, Div, Mul, Sub};
use vstd::prelude::*;
use vstd::std_specs::ops::{AddSpec, DivSpec, MulSpec, SubSpec};

verus! {

/// The sum of the first `n` terms, in whole numbers.
pub open spec fn total(n: nat, term: spec_fn(int) -> int) -> int
    decreases n,
{
    if n == 0 {
        0
    } else {
        total((n - 1) as nat, term) + term(n - 1)
    }
}

/// The sum of the first `n` values, from `zero` on.
pub open spec fn sum_of<T: Add<Output = T>>(values: Seq<T>, zero: T, n: int) -> T
    decreases n,
{
    if n <= 0 {
        zero
    } else {
        sum_of(values, zero, n - 1).add_spec(values[n - 1])
    }
}

/// The mean of `values`, where `count` stands for their number.
pub open spec fn mean_of<T: Add<Output = T> + Div<Output = T>>(
    values: Seq<T>,
    zero: T,
    count: T,
) -> T {
    sum_of(values, zero, values.len() as int).div_spec(count)
}

/// Each of the first `n` sums is defined and computed as specified.
pub open spec fn sum_defined<T: Add<Output = T>>(values: Seq<T>, zero: T, n: int) -> bool {
    &&& T::obeys_add_spec()
    &&& forall|j: int| 0 <= j < n ==> sum_of(values, zero, j).add_req(#[trigger] values[j])
}

/// Computes the sum of the first `n` values.
pub fn sum<T: Copy + Add<Output = T>>(values: &[T], zero: T, n: usize) -> (value: T)
    requires
        n <= values@.len(),
        sum_defined(values@, zero, n as int),
    ensures
        value == sum_of(values@, zero, n as int),
{
    let mut sum: T = zero;
    let mut i: usize = 0;
    while i < n
        invariant
            i <= n <= values@.len(),
            sum_defined(values@, zero, n as int),
            sum == sum_of(values@, zero, i as int),
        decreases n - i,
    {
        assert(sum.add_req(values@[i as int]));
        sum = sum + values[i];
        i = i + 1;
    }
    sum
}

/// Each sum and the quotient of the mean is defined and computed as specified.
pub open spec fn mean_defined<T: Add<Output = T> + Div<Output = T>>(
    values: Seq<T>,
    zero: T,
    count: T,
) -> bool {
    &&& sum_defined(values, zero, values.len() as int)
    &&& T::obeys_div_spec()
    &&& sum_of(values, zero, values.len() as int).div_req(count)
}

/// Computes the mean of `values`.
pub fn mean<T: Copy + Add<Output = T> + Div<Output = T>>(values: &[T], zero: T, count: T) -> (value:
    T)
    requires
        mean_defined(values@, zero, count),
    ensures
        value == mean_of(values@, zero, count),
{
    sum(values, zero, values.len()) / count
}

/// The sum of the squared deviations from `mean` of the first `n` values.
pub open spec fn squares_of<T: Add<Output = T> + Sub<Output = T> + Mul<Output = T>>(
    values: Seq<T>,
    mean: T,
    zero: T,
    n: int,
) -> T
    decreases n,
{
    if n <= 0 {
        zero
    } else {
        squares_of(values, mean, zero, n - 1).add_spec(
            values[n - 1].sub_spec(mean).mul_spec(values[n - 1].sub_spec(mean)),
        )
    }
}

/// The variance of `values` around `mean`, where `degrees` stands for their number less one.
pub open spec fn variance_of<
    T: Add<Output = T> + Sub<Output = T> + Mul<Output = T> + Div<Output = T>,
>(values: Seq<T>, mean: T, zero: T, degrees: T) -> T {
    squares_of(values, mean, zero, values.len() as int).div_spec(degrees)
}

/// Each difference, product, sum and the quotient of the variance is defined and computed as
/// specified.
pub open spec fn variance_defined<
    T: Add<Output = T> + Sub<Output = T> + Mul<Output = T> + Div<Output = T>,
>(values: Seq<T>, mean: T, zero: T, degrees: T) -> bool {
    &&& T::obeys_add_spec()
    &&& T::obeys_sub_spec()
    &&& T::obeys_mul_spec()
    &&& T::obeys_div_spec()
    &&& forall|j: int|
        0 <= j < values.len() ==> {
            let deviation = (#[trigger] values[j]).sub_spec(mean);
            &&& values[j].sub_req(mean)
            &&& deviation.mul_req(deviation)
            &&& squares_of(values, mean, zero, j).add_req(deviation.mul_spec(deviation))
        }
    &&& squares_of(values, mean, zero, values.len() as int).div_req(degrees)
}

/// Computes the variance of `values` around `mean`.
pub fn variance<
    T: Copy + Add<Output = T> + Sub<Output = T> + Mul<Output = T> + Div<Output = T>,
>(values: &[T], mean: T, zero: T, degrees: T) -> (value: T)
    requires
        variance_defined(values@, mean, zero, degrees),
    ensures
        value == variance_of(values@, mean, zero, degrees),
{
    let mut sum: T = zero;
    let mut i: usize = 0;
    while i < values.len()
        invariant
            i <= values@.len(),
            variance_defined(values@, mean, zero, degrees),
            sum == squares_of(values@, mean, zero, i as int),
        decreases values@.len() - i,
    {
        assert(values@[i as int].sub_req(mean));
        let deviation: T = values[i] - mean;
        sum = sum + deviation * deviation;
        i = i + 1;
    }
    sum / degrees
}

/// A sum takes in one value after the other, from `zero` on; the mean divides it by `count`.
pub proof fn sums_take_in_every_value<T: Add<Output = T> + Div<Output = T>>(
    values: Seq<T>,
    zero: T,
    count: T,
    n: nat,
)
    requires
        n <= values.len(),
    ensures
        sum_of(values, zero, n as int) == values.take(n as int).fold_left(
            zero,
            |sum: T, value: T| sum.add_spec(value),
        ),
        mean_of(values, zero, count) == values.fold_left(
            zero,
            |sum: T, value: T| sum.add_spec(value),
        ).div_spec(count),
{
    let step = |sum: T, value: T| sum.add_spec(value);
    let grown = |k: int| sum_of(values, zero, k);
    lemma_folds(values, zero, step, grown, n);
    lemma_folds(values, zero, step, grown, values.len());
    assert(values.take(values.len() as int) =~= values);
}

/// The variance sums the squares of all deviations from the mean, from `zero` on, and divides by
/// `degrees`.
pub proof fn variance_sums_squared_deviations<
    T: Add<Output = T> + Sub<Output = T> + Mul<Output = T> + Div<Output = T>,
>(values: Seq<T>, mean: T, zero: T, degrees: T)
    ensures
        variance_of(values, mean, zero, degrees) == values.fold_left(
            zero,
            |sum: T, value: T|
                sum.add_spec(value.sub_spec(mean).mul_spec(value.sub_spec(mean))),
        ).div_spec(degrees),
{
    lemma_folds(
        values,
        zero,
        |sum: T, value: T| sum.add_spec(value.sub_spec(mean).mul_spec(value.sub_spec(mean))),
        |k: int| squares_of(values, mean, zero, k),
        values.len(),
    );
    assert(values.take(values.len() as int) =~= values);
}

/// With whole numbers whose sums do not overflow, the sum is the plain sum.
pub proof fn whole_sums_are_plain(values: Seq<i64>, n: nat)
    requires
        n <= values.len(),
        sum_defined(values, 0i64, n as int),
    ensures
        sum_of(values, 0i64, n as int) == total(n, |i: int| values[i] as int),
    decreases n,
{
    if n > 0 {
        let m = (n - 1) as nat;
        assert(sum_defined(values, 0i64, m as int)) by {
            assert forall|j: int| 0 <= j < m implies sum_of(values, 0i64, j).add_req(
                #[trigger] values[j],
            ) by {}
        }
        whole_sums_are_plain(values, m);
        assert(sum_of(values, 0i64, n - 1).add_req(values[n - 1]));
    }
}

} // verus!
