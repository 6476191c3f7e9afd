//! Checks of data volumes against their history.

use crate::numeric::{
    mean, mean_defined, mean_of, variance, variance_defined, variance_of,
};
use crate::order::{ordered_type, outranks};
use crate::text::{decimal, decimal_text, join, joined};
use crate::selection::{lemma_collects, lemma_counts, places, tally};
use std::ops::{Add, Div, Mul, Sub};
use vstd::prelude::*;
use vstd::std_specs::cmp::PartialOrdIs;
use vstd::std_specs::ops::{AddSpec, DivSpec, MulSpec, SubSpec};

verus! {

/// The interval of values that are no anomaly.
#[derive(Debug, Clone, Copy)]
pub struct GaussianAnomalyDetector<V> {
    pub low: V,
    pub high: V,
    pub mean: V,
    pub std: V,
    /// The half-width of the interval in standard deviations.
    pub std_multiplier: V,
}

/// The mean and the variance of a history.
#[derive(Debug, Clone, Copy)]
pub struct Moments<V> {
    pub mean: V,
    pub variance: V,
}

/// The outcome of one check.
#[derive(Debug, Clone)]
pub enum DataCheckResult<V> {
    Pass { label: String, value: V, z_score: V },
    Fail { label: String, value: V, z_score: V, low: V, high: V },
}

/// The width of the accepted intervals, in standard deviations.
#[derive(Debug, Clone, Copy)]
pub struct DataValidationConfig<V> {
    pub distinct_users_multiplier: V,
    pub distinct_items_multiplier: V,
    pub interactions_multiplier: V,
    pub user_features_multiplier: V,
    pub item_features_multiplier: V,
}

impl<V: Copy> DataValidationConfig<V> {
    /// One width for users, items and interactions, and another for the features of both.
    pub fn with_widths(counts: V, features: V) -> (config: Self)
        ensures
            config.distinct_users_multiplier == counts,
            config.distinct_items_multiplier == counts,
            config.interactions_multiplier == counts,
            config.user_features_multiplier == features,
            config.item_features_multiplier == features,
    {
        DataValidationConfig {
            distinct_users_multiplier: counts,
            distinct_items_multiplier: counts,
            interactions_multiplier: counts,
            user_features_multiplier: features,
            item_features_multiplier: features,
        }
    }
}

/// The mean and the variance of a history, where `count` stands for its length and `degrees` for one
/// less; none of a history with fewer than two values.
pub fn moments<V: Copy + Add<Output = V> + Sub<Output = V> + Mul<Output = V> + Div<Output = V>>(
    values: &[V],
    zero: V,
    count: V,
    degrees: V,
) -> (found: Option<Moments<V>>)
    requires
        values@.len() >= 2 ==> mean_defined(values@, zero, count) && variance_defined(
            values@,
            mean_of(values@, zero, count),
            zero,
            degrees,
        ),
    ensures
        match found {
            None => values@.len() < 2,
            Some(m) => {
                &&& values@.len() >= 2
                &&& m.mean == mean_of(values@, zero, count)
                &&& m.variance == variance_of(values@, m.mean, zero, degrees)
            },
        },
{
    if values.len() < 2 {
        return None;
    }
    let average: V = mean(values, zero, count);
    Some(Moments { mean: average, variance: variance(values, average, zero, degrees) })
}

/// The bounds of a detector are defined and computed as specified.
pub open spec fn bounds_defined<V: Add<Output = V> + Sub<Output = V> + Mul<Output = V>>(
    mean: V,
    std: V,
    std_multiplier: V,
) -> bool {
    &&& V::obeys_add_spec()
    &&& V::obeys_sub_spec()
    &&& V::obeys_mul_spec()
    &&& std_multiplier.mul_req(std)
    &&& mean.sub_req(std_multiplier.mul_spec(std))
    &&& mean.add_req(std_multiplier.mul_spec(std))
}

/// The distance of two values.
pub open spec fn distance<V: PartialOrd + Sub<Output = V>>(a: V, b: V) -> V {
    if a.is_lt(&b) {
        b.sub_spec(a)
    } else {
        a.sub_spec(b)
    }
}

/// The distance of `value` from the mean in standard deviations; zero where these are not positive.
pub open spec fn z_score_of<V: PartialOrd + Sub<Output = V> + Div<Output = V>>(
    detector: GaussianAnomalyDetector<V>,
    value: V,
    zero: V,
) -> V {
    if outranks(detector.std, zero) {
        distance(value, detector.mean).div_spec(detector.std)
    } else {
        zero
    }
}

/// The z-score is defined and computed as specified.
pub open spec fn z_score_defined<V: PartialOrd + Sub<Output = V> + Div<Output = V>>(
    detector: GaussianAnomalyDetector<V>,
    value: V,
    zero: V,
) -> bool {
    &&& ordered_type::<V>()
    &&& V::obeys_sub_spec()
    &&& V::obeys_div_spec()
    &&& outranks(detector.std, zero) ==> {
        &&& value.is_lt(&detector.mean) ==> detector.mean.sub_req(value)
        &&& !value.is_lt(&detector.mean) ==> value.sub_req(detector.mean)
        &&& distance(value, detector.mean).div_req(detector.std)
    }
}

/// `value` lies inside the detector's interval, whose ends belong to it.
pub open spec fn accepts<V: PartialOrd>(detector: GaussianAnomalyDetector<V>, value: V) -> bool {
    value.is_ge(&detector.low) && value.is_le(&detector.high)
}

/// `result` is that of checking `value` under `label`.
pub open spec fn is_check<V: PartialOrd + Sub<Output = V> + Div<Output = V>>(
    result: DataCheckResult<V>,
    detector: GaussianAnomalyDetector<V>,
    value: V,
    label: Seq<char>,
    zero: V,
) -> bool {
    match result {
        DataCheckResult::Pass { label: text, value: checked, z_score } => {
            &&& accepts(detector, value)
            &&& text@ == label
            &&& checked == value
            &&& z_score == z_score_of(detector, value, zero)
        },
        DataCheckResult::Fail { label: text, value: checked, z_score, low, high } => {
            &&& !accepts(detector, value)
            &&& text@ == label
            &&& checked == value
            &&& z_score == z_score_of(detector, value, zero)
            &&& low == detector.low
            &&& high == detector.high
        },
    }
}

impl<V: Copy> GaussianAnomalyDetector<V> {
    /// A detector with the given bounds.
    pub fn with_bounds(low: V, high: V, mean: V, std: V, std_multiplier: V) -> (detector: Self)
        ensures
            detector == (GaussianAnomalyDetector { low, high, mean, std, std_multiplier }),
    {
        GaussianAnomalyDetector { low, high, mean, std, std_multiplier }
    }

    /// The detector around a mean: `std_multiplier` standard deviations to either side.
    pub fn around(mean: V, std: V, std_multiplier: V) -> (detector: Self) where
        V: Add<Output = V> + Sub<Output = V> + Mul<Output = V>,

        requires
            bounds_defined(mean, std, std_multiplier),
        ensures
            detector == (GaussianAnomalyDetector {
                low: mean.sub_spec(std_multiplier.mul_spec(std)),
                high: mean.add_spec(std_multiplier.mul_spec(std)),
                mean,
                std,
                std_multiplier,
            }),
    {
        GaussianAnomalyDetector {
            low: mean - std_multiplier * std,
            high: mean + std_multiplier * std,
            mean,
            std,
            std_multiplier,
        }
    }

    /// Checks a value: it passes if it lies inside the interval.
    pub fn check(&self, value: V, label: &str, zero: V) -> (result: DataCheckResult<V>) where
        V: PartialOrd + Sub<Output = V> + Div<Output = V>,

        requires
            z_score_defined(*self, value, zero),
        ensures
            is_check(result, *self, value, label@, zero),
    {
        let z_score: V = if self.std > zero {
            if value < self.mean {
                (self.mean - value) / self.std
            } else {
                (value - self.mean) / self.std
            }
        } else {
            zero
        };
        if value >= self.low && value <= self.high {
            DataCheckResult::Pass { label: label.to_owned(), value, z_score }
        } else {
            DataCheckResult::Fail {
                label: label.to_owned(),
                value,
                z_score,
                low: self.low,
                high: self.high,
            }
        }
    }
}

/// The label of a result.
pub open spec fn label_of<V>(result: DataCheckResult<V>) -> Seq<char> {
    match result {
        DataCheckResult::Pass { label, .. } => label@,
        DataCheckResult::Fail { label, .. } => label@,
    }
}

/// The line of a result, its numbers as they are to be shown.
pub open spec fn result_line<V>(
    result: DataCheckResult<V>,
    value: Seq<char>,
    z_score: Seq<char>,
    low: Seq<char>,
    high: Seq<char>,
) -> Seq<char> {
    match result {
        DataCheckResult::Pass { label, .. } => "PASS '"@ + label@ + "': value="@ + value
            + ", z_score="@ + z_score,
        DataCheckResult::Fail { label, .. } => "FAIL '"@ + label@ + "': value="@ + value
            + " outside ["@ + low + ", "@ + high + "], z_score="@ + z_score,
    }
}

impl<V> DataCheckResult<V> {
    /// A line about the result. Of a pass the bounds are not shown.
    pub fn line(&self, value: &str, z_score: &str, low: &str, high: &str) -> (text: String)
        ensures
            text@ == result_line(*self, value@, z_score@, low@, high@),
    {
        match self {
            DataCheckResult::Pass { label, .. } => {
                let parts: [&str; 6] = [
                    "PASS '",
                    label.as_str(),
                    "': value=",
                    value,
                    ", z_score=",
                    z_score,
                ];
                proof {
                    reveal_with_fuel(joined, 7);
                    assert(joined(parts@) =~= result_line(
                        *self,
                        value@,
                        z_score@,
                        low@,
                        high@,
                    ));
                }
                join(&parts)
            },
            DataCheckResult::Fail { label, .. } => {
                let parts: [&str; 10] = [
                    "FAIL '",
                    label.as_str(),
                    "': value=",
                    value,
                    " outside [",
                    low,
                    ", ",
                    high,
                    "], z_score=",
                    z_score,
                ];
                proof {
                    reveal_with_fuel(joined, 11);
                    assert(joined(parts@) =~= result_line(
                        *self,
                        value@,
                        z_score@,
                        low@,
                        high@,
                    ));
                }
                join(&parts)
            },
        }
    }

    /// Whether the check passed.
    pub fn passed(&self) -> (passed: bool)
        ensures
            passed == (*self is Pass),
    {
        match self {
            DataCheckResult::Pass { .. } => true,
            DataCheckResult::Fail { .. } => false,
        }
    }

    /// The label of the check.
    pub fn label(&self) -> (label: &str)
        ensures
            label@ == label_of(*self),
    {
        match self {
            DataCheckResult::Pass { label, .. } => label.as_str(),
            DataCheckResult::Fail { label, .. } => label.as_str(),
        }
    }
}

/// The results of several checks.
pub struct DataValidationReport<V> {
    pub results: Vec<DataCheckResult<V>>,
}

/// The positions of the failed ones among the first `n` results.
pub open spec fn failed_positions<V>(results: Seq<DataCheckResult<V>>, n: int) -> Seq<usize>
    decreases n,
{
    if n <= 0 {
        Seq::empty()
    } else if results[n - 1] is Fail {
        failed_positions(results, n - 1).push((n - 1) as usize)
    } else {
        failed_positions(results, n - 1)
    }
}

/// The number of passed ones among the first `n` results.
pub open spec fn num_passed<V>(results: Seq<DataCheckResult<V>>, n: int) -> nat
    decreases n,
{
    if n <= 0 {
        0
    } else if results[n - 1] is Pass {
        num_passed(results, n - 1) + 1
    } else {
        num_passed(results, n - 1)
    }
}

/// Passed and failed checks add up to all checks.
pub proof fn checks_pass_or_fail<V>(results: Seq<DataCheckResult<V>>, n: int)
    requires
        0 <= n <= results.len(),
    ensures
        num_passed(results, n) + failed_positions(results, n).len() == n,
    decreases n,
{
    if n > 0 {
        checks_pass_or_fail(results, n - 1);
    }
}

/// All checks passed exactly where none is among the failures.
pub proof fn all_passed_means_no_failures<V>(results: Seq<DataCheckResult<V>>, n: int)
    requires
        0 <= n <= results.len(),
    ensures
        failed_positions(results, n).len() == 0 <==> forall|i: int|
            0 <= i < n ==> #[trigger] results[i] is Pass,
    decreases n,
{
    if n > 0 {
        all_passed_means_no_failures(results, n - 1);
        if failed_positions(results, n - 1).len() > 0 {
            let i = choose|i: int| 0 <= i < n - 1 && !(#[trigger] results[i] is Pass);
            assert(!(results[i] is Pass));
        }
    }
}

/// The first line of a summary.
pub open spec fn headline(passed: nat, total: nat, failed: nat) -> Seq<char> {
    "Data Validation: "@ + decimal_text(passed) + "/"@ + decimal_text(total) + " checks passed, "@
        + decimal_text(failed) + " failed"@
}

/// The first `n` lines below a headline, each indented on a line of its own.
pub open spec fn indented(lines: Seq<String>, n: int) -> Seq<char>
    decreases n,
{
    if n <= 0 {
        Seq::empty()
    } else {
        indented(lines, n - 1) + "\n  "@ + lines[n - 1]@
    }
}

impl<V> DataValidationReport<V> {
    /// A report without results.
    pub fn new() -> (report: Self)
        ensures
            report.results@.len() == 0,
    {
        DataValidationReport { results: Vec::new() }
    }

    /// Adds a result.
    pub fn add(&mut self, result: DataCheckResult<V>)
        ensures
            final(self).results@ == old(self).results@.push(result),
    {
        self.results.push(result);
    }

    /// Whether every check passed.
    pub fn all_passed(&self) -> (passed: bool)
        ensures
            passed == forall|i: int|
                0 <= i < self.results@.len() ==> #[trigger] self.results@[i] is Pass,
    {
        let mut i: usize = 0;
        while i < self.results.len()
            invariant
                i <= self.results@.len(),
                forall|k: int| 0 <= k < i ==> #[trigger] self.results@[k] is Pass,
            decreases self.results@.len() - i,
        {
            if !self.results[i].passed() {
                assert(!(self.results@[i as int] is Pass));
                return false;
            }
            i = i + 1;
        }
        true
    }

    /// The failed checks, in order.
    pub fn failures(&self) -> (failed: Vec<&DataCheckResult<V>>)
        ensures
            failed@.len() == failed_positions(self.results@, self.results@.len() as int).len(),
            forall|k: int|
                0 <= k < failed@.len() ==> *(#[trigger] failed@[k]) == self.results@[
                    failed_positions(self.results@, self.results@.len() as int)[k] as int],
    {
        let mut failed: Vec<&DataCheckResult<V>> = Vec::new();
        let mut i: usize = 0;
        while i < self.results.len()
            invariant
                i <= self.results@.len(),
                failed@.len() == failed_positions(self.results@, i as int).len(),
                forall|k: int|
                    0 <= k < failed@.len() ==> *(#[trigger] failed@[k]) == self.results@[
                        failed_positions(self.results@, i as int)[k] as int],
            decreases self.results@.len() - i,
        {
            if !self.results[i].passed() {
                failed.push(&self.results[i]);
            }
            i = i + 1;
        }
        failed
    }

    /// A summary: how many checks passed and failed, and below it a line for each of them.
    pub fn summary(&self, lines: &[String]) -> (text: String)
        ensures
            text@ == headline(
                num_passed(self.results@, self.results@.len() as int),
                self.results@.len(),
                failed_positions(self.results@, self.results@.len() as int).len(),
            ) + indented(lines@, lines@.len() as int),
    {
        let total: usize = self.results.len();
        let mut passed: usize = 0;
        let mut i: usize = 0;
        while i < self.results.len()
            invariant
                i <= self.results@.len(),
                passed <= i,
                passed == num_passed(self.results@, i as int),
            decreases self.results@.len() - i,
        {
            if self.results[i].passed() {
                passed = passed + 1;
            }
            i = i + 1;
        }
        proof {
            checks_pass_or_fail(self.results@, self.results@.len() as int);
        }
        let n_passed = decimal(passed as u64);
        let n_total = decimal(total as u64);
        let n_failed = decimal((total - passed) as u64);
        let parts: [&str; 7] = [
            "Data Validation: ",
            n_passed.as_str(),
            "/",
            n_total.as_str(),
            " checks passed, ",
            n_failed.as_str(),
            " failed",
        ];
        let ghost head = headline(passed as nat, total as nat, (total - passed) as nat);
        proof {
            reveal_with_fuel(joined, 8);
            assert(joined(parts@) =~= head);
        }
        let mut text = join(&parts);
        let mut j: usize = 0;
        assert(text@ =~= head + indented(lines@, 0));
        while j < lines.len()
            invariant
                j <= lines@.len(),
                text@ == head + indented(lines@, j as int),
            decreases lines@.len() - j,
        {
            let pieces: [&str; 3] = [text.as_str(), "\n  ", lines[j].as_str()];
            proof {
                reveal_with_fuel(joined, 4);
                assert(joined(pieces@) =~= head + indented(lines@, j + 1));
            }
            text = join(&pieces);
            j = j + 1;
        }
        text
    }
}

/// A measured count with the detector of its history; a history that is too short has none.
pub struct CountCheck<V> {
    pub detector: Option<GaussianAnomalyDetector<V>>,
    pub current: V,
}

/// The check of a count is defined, if there is one.
pub open spec fn count_defined<V: PartialOrd + Sub<Output = V> + Div<Output = V>>(
    count: CountCheck<V>,
    zero: V,
) -> bool {
    count.detector matches Some(detector) ==> z_score_defined(detector, count.current, zero)
}

/// `after` is `before` with the check of `count` under `label`, if it has a detector.
pub open spec fn adds_check<V: PartialOrd + Sub<Output = V> + Div<Output = V>>(
    before: Seq<DataCheckResult<V>>,
    after: Seq<DataCheckResult<V>>,
    count: CountCheck<V>,
    label: Seq<char>,
    zero: V,
) -> bool {
    match count.detector {
        Some(detector) => {
            &&& after.len() == before.len() + 1
            &&& after.drop_last() == before
            &&& is_check(after.last(), detector, count.current, label, zero)
        },
        None => after == before,
    }
}

/// `results` are those of the three counts, in order; `a` and `b` are where the second and the
/// third start.
pub open spec fn are_count_checks<V: PartialOrd + Sub<Output = V> + Div<Output = V>>(
    results: Seq<DataCheckResult<V>>,
    users: CountCheck<V>,
    items: CountCheck<V>,
    interactions: CountCheck<V>,
    zero: V,
) -> bool {
    let a = if users.detector is Some {
        1int
    } else {
        0
    };
    let b = a + (if items.detector is Some {
        1int
    } else {
        0
    });
    &&& b <= results.len()
    &&& adds_check(Seq::empty(), results.take(a), users, "distinct_users"@, zero)
    &&& adds_check(results.take(a), results.take(b), items, "distinct_items"@, zero)
    &&& adds_check(results.take(b), results, interactions, "total_interactions"@, zero)
}

/// Checks the counts of users, items and interactions against their histories. A count whose
/// history is too short is not checked.
pub fn validate_data_counts<V: Copy + PartialOrd + Sub<Output = V> + Div<Output = V>>(
    users: &CountCheck<V>,
    items: &CountCheck<V>,
    interactions: &CountCheck<V>,
    zero: V,
) -> (report: DataValidationReport<V>)
    requires
        count_defined(*users, zero),
        count_defined(*items, zero),
        count_defined(*interactions, zero),
    ensures
        are_count_checks(report.results@, *users, *items, *interactions, zero),
{
    let mut report = DataValidationReport::new();
    let ghost empty = report.results@;
    if let Some(detector) = &users.detector {
        report.add(detector.check(users.current, "distinct_users", zero));
    }
    let ghost first = report.results@;
    if let Some(detector) = &items.detector {
        report.add(detector.check(items.current, "distinct_items", zero));
    }
    let ghost second = report.results@;
    if let Some(detector) = &interactions.detector {
        report.add(detector.check(interactions.current, "total_interactions", zero));
    }
    proof {
        let all = report.results@;
        assert(empty =~= Seq::empty());
        assert(all.take(first.len() as int) =~= first);
        assert(all.take(second.len() as int) =~= second);
        assert(users.detector is Some ==> first.drop_last() =~= empty);
        assert(items.detector is Some ==> second.drop_last() =~= first);
        assert(interactions.detector is Some ==> all.drop_last() =~= second);
    }
    report
}

/// A value passes exactly where it is at or above the lower and at or below the upper bound; either
/// way the result shows the value and, where the deviation is greater than zero, how many of them
/// it lies from the mean, and zero where it is not. A failure shows the bounds.
pub proof fn checks_hold_values_against_the_bounds<
    V: PartialOrd + Sub<Output = V> + Div<Output = V>,
>(
    result: DataCheckResult<V>,
    detector: GaussianAnomalyDetector<V>,
    value: V,
    label: Seq<char>,
    zero: V,
)
    requires
        is_check(result, detector, value, label, zero),
    ensures
        result is Pass <==> value.is_ge(&detector.low) && value.is_le(&detector.high),
        ({
            let z: V = match result {
                DataCheckResult::Pass { z_score, .. } => z_score,
                DataCheckResult::Fail { z_score, .. } => z_score,
            };
            let shown: V = match result {
                DataCheckResult::Pass { value: checked, .. } => checked,
                DataCheckResult::Fail { value: checked, .. } => checked,
            };
            &&& shown == value
            &&& label_of(result) == label
            &&& detector.std.is_gt(&zero) && value.is_lt(&detector.mean) ==> z
                == detector.mean.sub_spec(value).div_spec(detector.std)
            &&& detector.std.is_gt(&zero) && !value.is_lt(&detector.mean) ==> z == value.sub_spec(
                detector.mean,
            ).div_spec(detector.std)
            &&& !detector.std.is_gt(&zero) ==> z == zero
        }),
        result matches DataCheckResult::Fail { low, high, .. } ==> low == detector.low && high
            == detector.high,
{
}

/// The failed checks are those at the places of failures, in order, and the passed ones are counted.
pub proof fn failures_are_the_failed_checks<V>(results: Seq<DataCheckResult<V>>)
    ensures
        failed_positions(results, results.len() as int) == places(
            results.len(),
            |i: int| results[i] is Fail,
        ).map_values(|i: int| i as usize),
        num_passed(results, results.len() as int) == tally(
            results.len(),
            |i: int| results[i] is Pass,
        ),
{
    lemma_collects(
        results.len(),
        |i: int| results[i] is Fail,
        |i: int| i as usize,
        |k: int| failed_positions(results, k),
    );
    lemma_counts(
        results.len(),
        |i: int| results[i] is Pass,
        |k: int| num_passed(results, k),
    );
}

/// Each count with a detector is checked against it, and no other: users, then items, then
/// interactions.
pub proof fn counts_are_checked_in_order<V: PartialOrd + Sub<Output = V> + Div<Output = V>>(
    results: Seq<DataCheckResult<V>>,
    users: CountCheck<V>,
    items: CountCheck<V>,
    interactions: CountCheck<V>,
    zero: V,
)
    requires
        are_count_checks(results, users, items, interactions, zero),
    ensures
        ({
            let a: int = if users.detector is Some {
                1
            } else {
                0
            };
            let b: int = if items.detector is Some {
                a + 1
            } else {
                a
            };
            let c: int = if interactions.detector is Some {
                b + 1
            } else {
                b
            };
            &&& results.len() == c
            &&& users.detector matches Some(detector) ==> is_check(
                results[0],
                detector,
                users.current,
                "distinct_users"@,
                zero,
            )
            &&& items.detector matches Some(detector) ==> is_check(
                results[a],
                detector,
                items.current,
                "distinct_items"@,
                zero,
            )
            &&& interactions.detector matches Some(detector) ==> is_check(
                results[b],
                detector,
                interactions.current,
                "total_interactions"@,
                zero,
            )
        }),
{
    let a: int = if users.detector is Some {
        1
    } else {
        0
    };
    let b: int = a + (if items.detector is Some {
        1int
    } else {
        0
    });
    assert(results.take(a).len() == a && results.take(b).len() == b);
    if users.detector is Some {
        assert(results.take(a).last() == results[0]);
    }
    if items.detector is Some {
        assert(results.take(b).last() == results[a]);
    }
    if interactions.detector is Some {
        assert(results.last() == results[b]);
    }
}

/// The lines below a headline follow each other in order.
pub proof fn indented_lines_follow_in_order(lines: Seq<String>, n: int)
    requires
        0 < n <= lines.len(),
    ensures
        indented(lines, n) == indented(lines, n - 1) + "\n  "@ + lines[n - 1]@,
        indented(lines, 0).len() == 0,
{
}

} // verus!
