//! Weights for interactions: by event type, by age and by popularity.

use crate::ids::text_of;
use crate::order::{ordered_type, outranks};
use crate::selection::{lemma_counts, tally};
use std::ops::{Div, Mul};
use vstd::prelude::*;
use vstd::std_specs::cmp::{PartialEqSpec, PartialOrdIs};
use vstd::std_specs::ops::{DivSpec, MulSpec};

verus! {

/// How interactions are weighted. Without event weights and with zeros, nothing is.
#[derive(Debug, Clone)]
pub struct WeightingConfig<V> {
    /// Event type and factor.
    pub event_weights: Option<Vec<(String, V)>>,
    /// The rate of exponential decay per day.
    pub decay_rate: V,
    /// The exponent of the inverse propensity.
    pub ips_alpha: V,
    /// The magnitude below which learned weights are zeroed.
    pub sparsity_threshold: V,
}

impl<V: Copy> WeightingConfig<V> {
    /// The configuration that weights nothing.
    pub fn neutral(zero: V) -> (config: Self)
        ensures
            config.event_weights is None,
            config.decay_rate == zero,
            config.ips_alpha == zero,
            config.sparsity_threshold == zero,
    {
        WeightingConfig {
            event_weights: None,
            decay_rate: zero,
            ips_alpha: zero,
            sparsity_threshold: zero,
        }
    }
}

/// The factor of the last of the first `n` entries for `event`, if there is one.
pub open spec fn event_weight<V>(
    weights: Seq<(String, V)>,
    event: Seq<char>,
    n: int,
) -> Option<V>
    decreases n,
{
    if n <= 0 {
        None
    } else if weights[n - 1].0@ == event {
        Some(weights[n - 1].1)
    } else {
        event_weight(weights, event, n - 1)
    }
}

/// The factor of triplet `i`: that of its event type, if the type is given and known.
pub open spec fn event_factor<V>(
    events: Seq<Option<String>>,
    weights: Seq<(String, V)>,
    i: int,
) -> Option<V> {
    if i < events.len() && events[i] is Some {
        event_weight(weights, events[i].unwrap()@, weights.len() as int)
    } else {
        None
    }
}

/// The factor of triplet `i`, if one is given.
pub open spec fn given_factor<V>(factors: Seq<Option<V>>, i: int) -> Option<V> {
    if i < factors.len() {
        factors[i]
    } else {
        None
    }
}

/// `triplet` with its value multiplied by `factor`, if there is one.
pub open spec fn scaled<V: Mul<Output = V>>(
    triplet: (usize, usize, V),
    factor: Option<V>,
) -> (usize, usize, V) {
    match factor {
        Some(f) => (triplet.0, triplet.1, triplet.2.mul_spec(f)),
        None => triplet,
    }
}

/// The product of a value and its factor is defined.
pub open spec fn can_scale<V: Mul<Output = V>>(value: V, factor: Option<V>) -> bool {
    V::obeys_mul_spec() && (factor matches Some(f) ==> value.mul_req(f))
}

/// The factor of an event type.
fn find_weight<V: Copy>(weights: &[(String, V)], event: &String) -> (found: Option<V>)
    ensures
        found == event_weight(weights@, event@, weights@.len() as int),
{
    let mut i: usize = weights.len();
    while i > 0
        invariant
            i <= weights@.len(),
            event_weight(weights@, event@, weights@.len() as int) == event_weight(
                weights@,
                event@,
                i as int,
            ),
        decreases i,
    {
        if weights[i - 1].0 == *event {
            return Some(weights[i - 1].1);
        }
        i = i - 1;
    }
    None
}

/// Multiplies each triplet's value by the factor of its event type. Values without an event type, or
/// with one that has no factor, stay as they are.
pub fn apply_event_weights<V: Copy + Mul<Output = V>>(
    triplets: &mut Vec<(usize, usize, V)>,
    events: &[Option<String>],
    weights: &[(String, V)],
)
    requires
        forall|i: int|
            0 <= i < old(triplets)@.len() ==> can_scale(
                (#[trigger] old(triplets)@[i]).2,
                event_factor(events@, weights@, i),
            ),
    ensures
        final(triplets)@.len() == old(triplets)@.len(),
        forall|i: int|
            0 <= i < old(triplets)@.len() ==> #[trigger] final(triplets)@[i] == scaled(
                old(triplets)@[i],
                event_factor(events@, weights@, i),
            ),
{
    let ghost before = triplets@;
    let mut i: usize = 0;
    while i < triplets.len() && i < events.len()
        invariant
            i <= triplets@.len(),
            triplets@.len() == before.len(),
            forall|k: int|
                0 <= k < before.len() ==> can_scale(
                    (#[trigger] before[k]).2,
                    event_factor(events@, weights@, k),
                ),
            forall|k: int|
                0 <= k < i ==> #[trigger] triplets@[k] == scaled(
                    before[k],
                    event_factor(events@, weights@, k),
                ),
            forall|k: int| i <= k < before.len() ==> #[trigger] triplets@[k] == before[k],
        decreases triplets@.len() - i,
    {
        if let Some(event) = &events[i] {
            if let Some(w) = find_weight(weights, event) {
                let (row, col, value) = triplets[i];
                assert(can_scale(before[i as int].2, event_factor(events@, weights@, i as int)));
                triplets.set(i, (row, col, value * w));
            }
        }
        i = i + 1;
    }
}

/// Multiplies each triplet's value by its decay factor, where it has one.
pub fn apply_temporal_decay<V: Copy + Mul<Output = V>>(
    triplets: &mut Vec<(usize, usize, V)>,
    factors: &[Option<V>],
)
    requires
        forall|i: int|
            0 <= i < old(triplets)@.len() ==> can_scale(
                (#[trigger] old(triplets)@[i]).2,
                given_factor(factors@, i),
            ),
    ensures
        final(triplets)@.len() == old(triplets)@.len(),
        forall|i: int|
            0 <= i < old(triplets)@.len() ==> #[trigger] final(triplets)@[i] == scaled(
                old(triplets)@[i],
                given_factor(factors@, i),
            ),
{
    let ghost before = triplets@;
    let mut i: usize = 0;
    while i < triplets.len() && i < factors.len()
        invariant
            i <= triplets@.len(),
            triplets@.len() == before.len(),
            forall|k: int|
                0 <= k < before.len() ==> can_scale(
                    (#[trigger] before[k]).2,
                    given_factor(factors@, k),
                ),
            forall|k: int|
                0 <= k < i ==> #[trigger] triplets@[k] == scaled(
                    before[k],
                    given_factor(factors@, k),
                ),
            forall|k: int| i <= k < before.len() ==> #[trigger] triplets@[k] == before[k],
        decreases triplets@.len() - i,
    {
        if let Some(factor) = factors[i] {
            let (row, col, value) = triplets[i];
            assert(can_scale(before[i as int].2, given_factor(factors@, i as int)));
            triplets.set(i, (row, col, value * factor));
        }
        i = i + 1;
    }
}

/// The factor by which a configuration weights the event of triplet `i`: that of the event in its
/// table row.
pub open spec fn configured_event_factor<V>(
    config: WeightingConfig<V>,
    events: Seq<Option<String>>,
    rows: Seq<usize>,
    i: int,
) -> Option<V> {
    match config.event_weights {
        Some(weights) if i < rows.len() => event_factor(events, weights@, rows[i] as int),
        _ => None,
    }
}

/// The factor by which a configuration ages triplet `i`: that of its table row, if the configuration
/// decays at all.
pub open spec fn configured_decay_factor<V: PartialOrd>(
    config: WeightingConfig<V>,
    factors: Seq<Option<V>>,
    rows: Seq<usize>,
    zero: V,
    i: int,
) -> Option<V> {
    if outranks(config.decay_rate, zero) && i < rows.len() {
        given_factor(factors, rows[i] as int)
    } else {
        None
    }
}

/// The cells of `events` at `rows`; a row outside the column has none.
fn pick_events(events: &[Option<String>], rows: &[usize]) -> (picked: Vec<Option<String>>)
    ensures
        picked@.len() == rows@.len(),
        forall|i: int|
            0 <= i < rows@.len() ==> text_of(#[trigger] picked@[i]) == (if rows@[i]
                < events@.len() {
                text_of(events@[rows@[i] as int])
            } else {
                None
            }),
{
    let mut picked: Vec<Option<String>> = Vec::new();
    let mut i: usize = 0;
    while i < rows.len()
        invariant
            i <= rows@.len(),
            picked@.len() == i,
            forall|k: int|
                0 <= k < i ==> text_of(#[trigger] picked@[k]) == (if rows@[k] < events@.len() {
                    text_of(events@[rows@[k] as int])
                } else {
                    None
                }),
        decreases rows@.len() - i,
    {
        let row: usize = rows[i];
        if row < events.len() {
            match &events[row] {
                Some(event) => picked.push(Some(event.clone())),
                None => picked.push(None),
            }
        } else {
            picked.push(None);
        }
        i = i + 1;
    }
    picked
}

/// The factors at `rows`; a row outside the column has none.
fn pick_factors<V: Copy>(factors: &[Option<V>], rows: &[usize]) -> (picked: Vec<Option<V>>)
    ensures
        picked@.len() == rows@.len(),
        forall|i: int|
            0 <= i < rows@.len() ==> #[trigger] picked@[i] == given_factor(
                factors@,
                rows@[i] as int,
            ),
{
    let mut picked: Vec<Option<V>> = Vec::new();
    let mut i: usize = 0;
    while i < rows.len()
        invariant
            i <= rows@.len(),
            picked@.len() == i,
            forall|k: int|
                0 <= k < i ==> #[trigger] picked@[k] == given_factor(factors@, rows@[k] as int),
        decreases rows@.len() - i,
    {
        let row: usize = rows[i];
        if row < factors.len() {
            picked.push(factors[row]);
        } else {
            picked.push(None);
        }
        i = i + 1;
    }
    picked
}

/// Weights the entries of a table as configured: by the event type and then by the age of the table
/// row that each entry comes from. `factors` holds the decay of each row.
pub fn weigh_entries<V: Copy + PartialOrd + Mul<Output = V>>(
    triplets: &mut Vec<(usize, usize, V)>,
    rows: &[usize],
    config: &WeightingConfig<V>,
    events: &[Option<String>],
    factors: &[Option<V>],
    zero: V,
)
    requires
        ordered_type::<V>(),
        forall|i: int|
            0 <= i < old(triplets)@.len() ==> can_scale(
                (#[trigger] old(triplets)@[i]).2,
                configured_event_factor(*config, events@, rows@, i),
            ) && can_scale(
                scaled(
                    old(triplets)@[i],
                    configured_event_factor(*config, events@, rows@, i),
                ).2,
                configured_decay_factor(*config, factors@, rows@, zero, i),
            ),
    ensures
        final(triplets)@.len() == old(triplets)@.len(),
        forall|i: int|
            0 <= i < old(triplets)@.len() ==> #[trigger] final(triplets)@[i] == scaled(
                scaled(
                    old(triplets)@[i],
                    configured_event_factor(*config, events@, rows@, i),
                ),
                configured_decay_factor(*config, factors@, rows@, zero, i),
            ),
{
    let ghost before = triplets@;
    if let Some(weights) = &config.event_weights {
        let picked = pick_events(events, rows);
        proof {
            assert forall|i: int| 0 <= i < before.len() implies event_factor(
                picked@,
                weights@,
                i,
            ) == configured_event_factor(*config, events@, rows@, i) by {
                if i < rows@.len() {
                    let cell = picked@[i];
                    assert(text_of(cell) == (if rows@[i] < events@.len() {
                        text_of(events@[rows@[i] as int])
                    } else {
                        None
                    }));
                }
            }
            assert forall|i: int| 0 <= i < before.len() implies can_scale(
                (#[trigger] before[i]).2,
                event_factor(picked@, weights@, i),
            ) by {
                assert(event_factor(picked@, weights@, i) == configured_event_factor(
                    *config,
                    events@,
                    rows@,
                    i,
                ));
            }
        }
        apply_event_weights(triplets, picked.as_slice(), weights.as_slice());
        assert forall|i: int| 0 <= i < before.len() implies #[trigger] triplets@[i] == scaled(
            before[i],
            configured_event_factor(*config, events@, rows@, i),
        ) by {
            assert(event_factor(picked@, weights@, i) == configured_event_factor(
                *config,
                events@,
                rows@,
                i,
            ));
        }
    }
    let ghost weighted = triplets@;
    assert forall|i: int| 0 <= i < before.len() implies #[trigger] weighted[i] == scaled(
        before[i],
        configured_event_factor(*config, events@, rows@, i),
    ) by {}
    if config.decay_rate > zero {
        let picked = pick_factors(factors, rows);
        proof {
            assert forall|i: int| 0 <= i < before.len() implies given_factor(picked@, i)
                == configured_decay_factor(*config, factors@, rows@, zero, i) by {
                if i < rows@.len() {
                    assert(picked@[i] == given_factor(factors@, rows@[i] as int));
                }
            }
            assert forall|i: int| 0 <= i < weighted.len() implies can_scale(
                (#[trigger] weighted[i]).2,
                given_factor(picked@, i),
            ) by {
                assert(can_scale(
                    before[i].2,
                    configured_event_factor(*config, events@, rows@, i),
                ));
                assert(given_factor(picked@, i) == configured_decay_factor(
                    *config,
                    factors@,
                    rows@,
                    zero,
                    i,
                ));
            }
        }
        apply_temporal_decay(triplets, picked.as_slice());
        assert forall|i: int| 0 <= i < before.len() implies #[trigger] triplets@[i] == scaled(
            weighted[i],
            configured_decay_factor(*config, factors@, rows@, zero, i),
        ) by {
            assert(given_factor(picked@, i) == configured_decay_factor(
                *config,
                factors@,
                rows@,
                zero,
                i,
            ));
        }
    }
}

/// A configuration without event weights and without decay leaves every entry as it is.
pub proof fn defaults_weigh_nothing<V: PartialOrd + Mul<Output = V>>(
    config: WeightingConfig<V>,
    events: Seq<Option<String>>,
    factors: Seq<Option<V>>,
    rows: Seq<usize>,
    zero: V,
    triplet: (usize, usize, V),
    i: int,
)
    requires
        config.event_weights is None,
        !outranks(config.decay_rate, zero),
    ensures
        scaled(
            scaled(triplet, configured_event_factor(config, events, rows, i)),
            configured_decay_factor(config, factors, rows, zero, i),
        ) == triplet,
{
}

/// The number of the first `n` triplets in column `col`.
pub open spec fn column_count<V>(triplets: Seq<(usize, usize, V)>, col: int, n: int) -> nat
    decreases n,
{
    if n <= 0 {
        0
    } else if triplets[n - 1].1 == col {
        column_count(triplets, col, n - 1) + 1
    } else {
        column_count(triplets, col, n - 1)
    }
}

/// How often each item occurs, and how often the most frequent one does.
#[derive(Debug, Clone)]
pub struct ItemCounts {
    pub counts: Vec<u64>,
    pub max: u64,
}

/// `counts` are those of the triplets' columns below `num_items`.
pub open spec fn are_counts<V>(
    counts: ItemCounts,
    triplets: Seq<(usize, usize, V)>,
    num_items: usize,
) -> bool {
    &&& counts.counts@.len() == num_items
    &&& forall|c: int|
        0 <= c < num_items ==> #[trigger] counts.counts@[c] == column_count(
            triplets,
            c,
            triplets.len() as int,
        )
    &&& forall|c: int| 0 <= c < num_items ==> #[trigger] counts.counts@[c] <= counts.max
    &&& counts.max > 0 ==> exists|c: int| 0 <= c < num_items && #[trigger] counts.counts@[c]
        == counts.max
}

proof fn lemma_column_count<V>(triplets: Seq<(usize, usize, V)>, col: int, n: int)
    requires
        0 <= n <= triplets.len(),
    ensures
        column_count(triplets, col, n) <= n,
    decreases n,
{
    if n > 0 {
        lemma_column_count(triplets, col, n - 1);
    }
}

/// Counts the interactions of each item; columns of no item are not counted.
fn count_items<V: Copy>(triplets: &[(usize, usize, V)], num_items: usize) -> (found: ItemCounts)
    ensures
        are_counts(found, triplets@, num_items),
{
    let mut counts: Vec<u64> = Vec::new();
    while counts.len() < num_items
        invariant
            counts@.len() <= num_items,
            forall|c: int| 0 <= c < counts@.len() ==> #[trigger] counts@[c] == 0,
        decreases num_items - counts@.len(),
    {
        counts.push(0);
    }
    let mut i: usize = 0;
    while i < triplets.len()
        invariant
            i <= triplets@.len(),
            counts@.len() == num_items,
            forall|c: int|
                0 <= c < num_items ==> #[trigger] counts@[c] == column_count(
                    triplets@,
                    c,
                    i as int,
                ),
        decreases triplets@.len() - i,
    {
        let col: usize = triplets[i].1;
        if col < num_items {
            proof {
                lemma_column_count(triplets@, col as int, i as int);
            }
            let seen: u64 = counts[col];
            counts.set(col, seen + 1);
        }
        i = i + 1;
    }
    let mut max: u64 = 0;
    let mut c: usize = 0;
    while c < num_items
        invariant
            c <= num_items,
            counts@.len() == num_items,
            forall|d: int| 0 <= d < c ==> #[trigger] counts@[d] <= max,
            max > 0 ==> exists|d: int| 0 <= d < c && #[trigger] counts@[d] == max,
        decreases num_items - c,
    {
        if counts[c] > max {
            max = counts[c];
            assert(counts@[c as int] == max);
        }
        c = c + 1;
    }
    ItemCounts { counts, max }
}

/// The counts that propensities are taken from; none where the exponent is zero or no item occurs,
/// and nothing is to be weighted.
pub fn ips_counts<V: Copy + PartialEq>(
    triplets: &[(usize, usize, V)],
    num_items: usize,
    ips_alpha: V,
    zero: V,
) -> (found: Option<ItemCounts>)
    requires
        V::obeys_eq_spec(),
    ensures
        match found {
            Some(counts) => !ips_alpha.eq_spec(&zero) && are_counts(counts, triplets@, num_items)
                && counts.max > 0,
            None => ips_alpha.eq_spec(&zero) || forall|c: int|
                0 <= c < num_items ==> #[trigger] column_count(
                    triplets@,
                    c,
                    triplets@.len() as int,
                ) == 0,
        },
{
    if ips_alpha == zero {
        return None;
    }
    let counts = count_items(triplets, num_items);
    if counts.max == 0 {
        proof {
            assert forall|c: int| 0 <= c < num_items implies #[trigger] column_count(
                triplets@,
                c,
                triplets@.len() as int,
            ) == 0 by {
                assert(counts.counts@[c] <= counts.max);
            }
        }
        return None;
    }
    Some(counts)
}

/// The propensity by which triplet `i` is divided: that of its item, if the item occurs and its
/// propensity is above the floor.
pub open spec fn divisor<V: PartialOrd>(
    triplet: (usize, usize, V),
    counts: Seq<u64>,
    propensities: Seq<V>,
    floor: V,
) -> Option<V> {
    if triplet.1 < counts.len() && counts[triplet.1 as int] > 0 && outranks(
        propensities[triplet.1 as int],
        floor,
    ) {
        Some(propensities[triplet.1 as int])
    } else {
        None
    }
}

/// `triplet` with its value divided by `by`, if there is such a divisor.
pub open spec fn divided<V: Div<Output = V>>(
    triplet: (usize, usize, V),
    by: Option<V>,
) -> (usize, usize, V) {
    match by {
        Some(p) => (triplet.0, triplet.1, triplet.2.div_spec(p)),
        None => triplet,
    }
}

/// Divides each triplet's value by the propensity of its item, which makes rare items count more.
/// Items that do not occur, and propensities at or below the floor, leave values as they are.
pub fn apply_ips<V: Copy + PartialOrd + Div<Output = V>>(
    triplets: &mut Vec<(usize, usize, V)>,
    counts: &[u64],
    propensities: &[V],
    floor: V,
)
    requires
        ordered_type::<V>(),
        V::obeys_div_spec(),
        propensities@.len() == counts@.len(),
        forall|i: int|
            0 <= i < old(triplets)@.len() ==> (divisor(
                #[trigger] old(triplets)@[i],
                counts@,
                propensities@,
                floor,
            ) matches Some(p) ==> old(triplets)@[i].2.div_req(p)),
    ensures
        final(triplets)@.len() == old(triplets)@.len(),
        forall|i: int|
            0 <= i < old(triplets)@.len() ==> #[trigger] final(triplets)@[i] == divided(
                old(triplets)@[i],
                divisor(old(triplets)@[i], counts@, propensities@, floor),
            ),
{
    let ghost before = triplets@;
    let mut i: usize = 0;
    while i < triplets.len()
        invariant
            i <= triplets@.len(),
            triplets@.len() == before.len(),
            ordered_type::<V>(),
            V::obeys_div_spec(),
            propensities@.len() == counts@.len(),
            forall|k: int|
                0 <= k < before.len() ==> (divisor(
                    #[trigger] before[k],
                    counts@,
                    propensities@,
                    floor,
                ) matches Some(p) ==> before[k].2.div_req(p)),
            forall|k: int|
                0 <= k < i ==> #[trigger] triplets@[k] == divided(
                    before[k],
                    divisor(before[k], counts@, propensities@, floor),
                ),
            forall|k: int| i <= k < before.len() ==> #[trigger] triplets@[k] == before[k],
        decreases triplets@.len() - i,
    {
        let (row, col, value) = triplets[i];
        assert(before[i as int] == triplets@[i as int]);
        if col < counts.len() && counts[col] > 0 {
            let p: V = propensities[col];
            if p > floor {
                triplets.set(i, (row, col, value / p));
            }
        }
        i = i + 1;
    }
}

/// An item that occurs is counted, so that its propensity is taken.
pub proof fn occurring_items_are_counted<V>(
    counts: ItemCounts,
    triplets: Seq<(usize, usize, V)>,
    num_items: usize,
    i: int,
)
    requires
        are_counts(counts, triplets, num_items),
        0 <= i < triplets.len(),
        triplets[i].1 < num_items,
    ensures
        0 < counts.counts@[triplets[i].1 as int] <= counts.max,
{
    lemma_occurs(triplets, triplets[i].1 as int, i, triplets.len() as int);
    assert(counts.counts@[triplets[i].1 as int] <= counts.max);
}

proof fn lemma_occurs<V>(triplets: Seq<(usize, usize, V)>, col: int, i: int, n: int)
    requires
        0 <= i < n <= triplets.len(),
        triplets[i].1 == col,
    ensures
        column_count(triplets, col, n) > 0,
    decreases n,
{
    if i < n - 1 {
        lemma_occurs(triplets, col, i, n - 1);
    }
}

/// `factor` is that of the last entry for `event`.
pub open spec fn is_last_weight<V>(weights: Seq<(String, V)>, event: Seq<char>, factor: V) -> bool {
    exists|j: int|
        0 <= j < weights.len() && (#[trigger] weights[j]).0@ == event && weights[j].1 == factor && (
        forall|k: int| j < k < weights.len() ==> (#[trigger] weights[k]).0@ != event)
}

/// No entry is for `event`.
pub open spec fn has_no_weight<V>(weights: Seq<(String, V)>, event: Seq<char>) -> bool {
    forall|k: int| 0 <= k < weights.len() ==> (#[trigger] weights[k]).0@ != event
}

proof fn lemma_event_weight<V>(weights: Seq<(String, V)>, event: Seq<char>, n: int)
    requires
        0 <= n <= weights.len(),
    ensures
        (forall|k: int| 0 <= k < n ==> (#[trigger] weights[k]).0@ != event) ==> event_weight(
            weights,
            event,
            n,
        ) is None,
        forall|j: int|
            0 <= j < n && (#[trigger] weights[j]).0@ == event && (forall|k: int|
                j < k < n ==> (#[trigger] weights[k]).0@ != event) ==> event_weight(
                weights,
                event,
                n,
            ) == Some(weights[j].1),
    decreases n,
{
    if n > 0 {
        lemma_event_weight(weights, event, n - 1);
        assert(weights[n - 1] == weights[n - 1]);
        if forall|k: int| 0 <= k < n ==> (#[trigger] weights[k]).0@ != event {
            assert(weights[n - 1].0@ != event);
        }
        assert forall|j: int|
            0 <= j < n && (#[trigger] weights[j]).0@ == event && (forall|k: int|
                j < k < n ==> (#[trigger] weights[k]).0@ != event) implies event_weight(
            weights,
            event,
            n,
        ) == Some(weights[j].1) by {
            if j < n - 1 {
                assert(weights[n - 1].0@ != event);
            }
        }
    }
}

/// An event type multiplies values by the factor given for it last; a value without an event type,
/// or with one that no factor is given for, stays.
pub proof fn events_scale_by_their_last_weight<V: Mul<Output = V>>(
    triplet: (usize, usize, V),
    events: Seq<Option<String>>,
    weights: Seq<(String, V)>,
    i: int,
    factor: V,
)
    requires
        0 <= i,
    ensures
        ({
            let after = scaled(triplet, event_factor(events, weights, i));
            &&& after.0 == triplet.0 && after.1 == triplet.1
            &&& i < events.len() && events[i] is Some && is_last_weight(
                weights,
                events[i].unwrap()@,
                factor,
            ) ==> after.2 == triplet.2.mul_spec(factor)
            &&& i < events.len() && events[i] is Some && has_no_weight(
                weights,
                events[i].unwrap()@,
            ) ==> after.2 == triplet.2
            &&& i >= events.len() || events[i] is None ==> after.2 == triplet.2
        }),
{
    if i < events.len() && events[i] is Some {
        lemma_event_weight(weights, events[i].unwrap()@, weights.len() as int);
    }
}

/// Decay multiplies a value by the factor given for it; without one the value stays.
pub proof fn decay_scales_by_the_given_factor<V: Mul<Output = V>>(
    triplet: (usize, usize, V),
    factors: Seq<Option<V>>,
    i: int,
)
    requires
        0 <= i,
    ensures
        ({
            let after = scaled(triplet, given_factor(factors, i));
            &&& after.0 == triplet.0 && after.1 == triplet.1
            &&& i < factors.len() && factors[i] is Some ==> after.2 == triplet.2.mul_spec(
                factors[i].unwrap(),
            )
            &&& i >= factors.len() || factors[i] is None ==> after.2 == triplet.2
        }),
{
}

/// The event of an entry's table row multiplies the entry first, by the factor that the
/// configuration gives for it last.
pub proof fn configured_events_scale_their_rows<V: Mul<Output = V>>(
    config: WeightingConfig<V>,
    events: Seq<Option<String>>,
    rows: Seq<usize>,
    triplet: (usize, usize, V),
    i: int,
    factor: V,
)
    requires
        0 <= i < rows.len(),
    ensures
        ({
            let after = scaled(triplet, configured_event_factor(config, events, rows, i));
            let row = rows[i] as int;
            &&& after.0 == triplet.0 && after.1 == triplet.1
            &&& config.event_weights is None ==> after.2 == triplet.2
            &&& config.event_weights is Some && row < events.len() && events[row] is Some
                && is_last_weight(
                config.event_weights.unwrap()@,
                events[row].unwrap()@,
                factor,
            ) ==> after.2 == triplet.2.mul_spec(factor)
            &&& config.event_weights is Some && row < events.len() && events[row] is Some
                && has_no_weight(config.event_weights.unwrap()@, events[row].unwrap()@) ==> after.2
                == triplet.2
            &&& row >= events.len() || events[row] is None ==> after.2 == triplet.2
        }),
{
    if let Some(weights) = config.event_weights {
        events_scale_by_their_last_weight(triplet, events, weights@, rows[i] as int, factor);
    }
}

/// A configuration with a decay rate greater than zero multiplies each entry by the factor of its
/// table row, where there is one; any other rate leaves the entries.
pub proof fn configured_decay_scales_its_rows<V: PartialOrd + Mul<Output = V>>(
    config: WeightingConfig<V>,
    factors: Seq<Option<V>>,
    rows: Seq<usize>,
    zero: V,
    triplet: (usize, usize, V),
    i: int,
)
    requires
        0 <= i < rows.len(),
    ensures
        ({
            let after = scaled(triplet, configured_decay_factor(config, factors, rows, zero, i));
            let row = rows[i] as int;
            &&& after.0 == triplet.0 && after.1 == triplet.1
            &&& config.decay_rate.is_gt(&zero) && row < factors.len() && factors[row] is Some
                ==> after.2 == triplet.2.mul_spec(factors[row].unwrap())
            &&& !config.decay_rate.is_gt(&zero) || row >= factors.len() || factors[row] is None
                ==> after.2 == triplet.2
        }),
{
}

/// An item is counted as often as there are entries in its column, and the greatest count is that of
/// the most frequent item, or zero where no item occurs.
pub proof fn counts_are_those_of_the_columns<V>(
    counts: ItemCounts,
    triplets: Seq<(usize, usize, V)>,
    num_items: usize,
    c: int,
)
    requires
        are_counts(counts, triplets, num_items),
        0 <= c < num_items,
    ensures
        counts.counts@.len() == num_items,
        counts.counts@[c] == tally(triplets.len(), |i: int| triplets[i].1 == c),
        counts.counts@[c] <= counts.max,
        counts.max == 0 || exists|d: int|
            0 <= d < num_items && #[trigger] counts.counts@[d] == counts.max,
{
    lemma_counts(
        triplets.len(),
        |i: int| triplets[i].1 == c,
        |k: int| column_count(triplets, c, k),
    );
}

/// A value is divided by the propensity of its item where the item occurs and the propensity is
/// greater than the floor; any other value stays.
pub proof fn propensities_divide_above_the_floor<V: PartialOrd + Div<Output = V>>(
    triplet: (usize, usize, V),
    counts: Seq<u64>,
    propensities: Seq<V>,
    floor: V,
)
    ensures
        ({
            let after = divided(triplet, divisor(triplet, counts, propensities, floor));
            let item = triplet.1 as int;
            let applies = item < counts.len() && counts[item] > 0 && propensities[item].is_gt(
                &floor,
            );
            &&& after.0 == triplet.0 && after.1 == triplet.1
            &&& applies ==> after.2 == triplet.2.div_spec(propensities[item])
            &&& !applies ==> after.2 == triplet.2
        }),
{
}

} // verus!
