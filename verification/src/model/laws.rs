//! What a model's weights and scores guarantee, over the operators of their number type.

use crate::ann::exact::{dot, dot_defined};
use crate::ids::{first_seen, id_entries};
use crate::matrix::{is_matrix, lemma_place, Matrix};
use crate::model::{
    cross_text, diagonal, dimensions_message, finite_message, greatest, item_column, item_scores, known_keys, known_numbers, lemma_unit_dot,
    num_infinite, num_nan, num_small, predict_defined, ranked_names, raw_features, scaled_pairs, unit_term,
    user_scores, user_vector, weight_entry, written, zero_terms_vanish, BlockFactors,
    RustFeaseModel, WeightFacts,
};
use crate::numeric::total;
use crate::selection::{lemma_collects, lemma_counts, lemma_folds, places, tally};
use crate::serving::laws::{known_pairs_are_the_known_ones, ranked_names_keep_the_order};
use crate::text::decimal_text;
use crate::transform::{all_keys, FeatureTransformationSchema, RawValue};
use std::ops::{Add, Div, Mul, Neg};
use vstd::prelude::*;
use vstd::std_specs::cmp::{PartialEqSpec, PartialOrdIs};
use vstd::std_specs::ops::{AddSpec, DivSpec, MulSpec, NegSpec};

verus! {

/// The last pair for a place decides what is written there; without one the value stays.
proof fn lemma_written_entry<V>(values: Seq<V>, pairs: Seq<(usize, V)>, n: int, at: int)
    requires
        0 <= n <= pairs.len(),
        0 <= at < values.len(),
    ensures
        written(values, pairs, n).len() == values.len(),
        (forall|k: int| 0 <= k < n ==> (#[trigger] pairs[k]).0 != at) ==> written(
            values,
            pairs,
            n,
        )[at] == values[at],
        forall|j: int|
            0 <= j < n && (#[trigger] pairs[j]).0 == at && (forall|k: int|
                j < k < n ==> (#[trigger] pairs[k]).0 != at) ==> written(values, pairs, n)[at]
                == pairs[j].1,
    decreases n,
{
    if n > 0 {
        lemma_written_entry(values, pairs, n - 1, at);
        let last = pairs[n - 1];
        let earlier = written(values, pairs, n - 1);
        assert forall|j: int|
            0 <= j < n && (#[trigger] pairs[j]).0 == at && (forall|k: int|
                j < k < n ==> (#[trigger] pairs[k]).0 != at) implies written(values, pairs, n)[at]
            == pairs[j].1 by {
            if j < n - 1 {
                assert(last.0 != at);
                assert(forall|k: int| j < k < n - 1 ==> (#[trigger] pairs[k]).0 != at);
            }
        }
        if forall|k: int| 0 <= k < n ==> (#[trigger] pairs[k]).0 != at {
            assert(last.0 != at);
            assert(forall|k: int| 0 <= k < n - 1 ==> (#[trigger] pairs[k]).0 != at);
        }
    }
}

/// A user's vector holds, for each item, the value of the last interaction with it, and for each
/// feature the value of its last mention times `beta`; everything else is zero.
pub proof fn user_vector_holds_the_last_values<V: Mul<Output = V>>(
    num_items: nat,
    num_user_features: nat,
    interactions: Seq<(usize, V)>,
    features: Seq<(usize, V)>,
    beta: V,
    zero: V,
)
    ensures
        ({
            let z = user_vector(
                num_items,
                num_user_features,
                interactions,
                features,
                beta,
                zero,
            );
            &&& z.len() == num_items + num_user_features
            &&& forall|j: int|
                0 <= j < interactions.len() && (#[trigger] interactions[j]).0 < num_items && (
                forall|k: int|
                    j < k < interactions.len() ==> (#[trigger] interactions[k]).0
                        != interactions[j].0) ==> z[interactions[j].0 as int] == interactions[j].1
            &&& forall|j: int|
                0 <= j < features.len() && (#[trigger] features[j]).0 < num_user_features && (
                forall|k: int|
                    j < k < features.len() ==> (#[trigger] features[k]).0 != features[j].0)
                    ==> z[num_items + features[j].0] == features[j].1.mul_spec(beta)
            &&& forall|i: int|
                0 <= i < num_items && (forall|k: int|
                    0 <= k < interactions.len() ==> (#[trigger] interactions[k]).0 != i)
                    ==> #[trigger] z[i] == zero
            &&& forall|i: int|
                num_items <= i < num_items + num_user_features && (forall|k: int|
                    0 <= k < features.len() ==> (#[trigger] features[k]).0 != i - num_items)
                    ==> #[trigger] z[i] == zero
        }),
{
    let z = user_vector(num_items, num_user_features, interactions, features, beta, zero);
    let blank = Seq::new(num_items, |i: int| zero);
    let rest = Seq::new(num_user_features, |i: int| zero);
    let scaled = scaled_pairs(features, beta);
    let ni = interactions.len() as int;
    let nf = features.len() as int;
    assert forall|i: int| 0 <= i < num_items implies written(blank, interactions, ni).len()
        == num_items && #[trigger] z[i] == written(blank, interactions, ni)[i] by {
        lemma_written_entry(blank, interactions, ni, i);
    }
    if num_items == 0 {
        lemma_written_len(blank, interactions, ni);
    } else {
        lemma_written_entry(blank, interactions, ni, 0);
    }
    if num_user_features == 0 {
        lemma_written_len(rest, scaled, nf);
    } else {
        lemma_written_entry(rest, scaled, nf, 0);
    }
    assert forall|j: int|
        0 <= j < interactions.len() && (#[trigger] interactions[j]).0 < num_items && (forall|k: int|
            j < k < interactions.len() ==> (#[trigger] interactions[k]).0 != interactions[j].0)
        implies z[interactions[j].0 as int] == interactions[j].1 by {
        lemma_written_entry(blank, interactions, ni, interactions[j].0 as int);
    }
    assert forall|j: int|
        0 <= j < features.len() && (#[trigger] features[j]).0 < num_user_features && (forall|k: int|
            j < k < features.len() ==> (#[trigger] features[k]).0 != features[j].0) implies z[
        num_items + features[j].0] == features[j].1.mul_spec(beta) by {
        lemma_written_entry(rest, scaled, nf, features[j].0 as int);
        assert(scaled[j].0 == features[j].0);
        assert forall|k: int| j < k < nf implies (#[trigger] scaled[k]).0 != features[j].0 by {
            assert(scaled[k].0 == features[k].0);
        }
    }
    assert forall|i: int|
        0 <= i < num_items && (forall|k: int|
            0 <= k < interactions.len() ==> (#[trigger] interactions[k]).0 != i) implies
        #[trigger] z[i] == zero by {
        lemma_written_entry(blank, interactions, ni, i);
    }
    assert forall|i: int|
        num_items <= i < num_items + num_user_features && (forall|k: int|
            0 <= k < features.len() ==> (#[trigger] features[k]).0 != i - num_items) implies
        #[trigger] z[i] == zero by {
        lemma_written_entry(rest, scaled, nf, i - num_items);
        assert forall|k: int| 0 <= k < nf implies (#[trigger] scaled[k]).0 != i - num_items by {
            assert(scaled[k].0 == features[k].0);
        }
    }
}

proof fn lemma_written_len<V>(values: Seq<V>, pairs: Seq<(usize, V)>, n: int)
    requires
        0 <= n <= pairs.len(),
    ensures
        written(values, pairs, n).len() == values.len(),
    decreases n,
{
    if n > 0 {
        lemma_written_len(values, pairs, n - 1);
    }
}

/// A single feature of a user without interactions counts with its value times `beta`: each item
/// scores its weight for the feature times that.
pub proof fn one_feature_scores_with_beta<V: Mul<Output = V> + Add<Output = V>>(
    model: RustFeaseModel<V>,
    feature: usize,
    value: V,
    beta: V,
    zero: V,
)
    requires
        model.wf(),
        feature < model.num_user_features,
        zero_terms_vanish(model.s_matrix.data@, zero, value.mul_spec(beta)),
    ensures
        ({
            let scores = item_scores(
                model.s_matrix,
                model.num_items as nat,
                user_vector(
                    model.num_items as nat,
                    model.num_user_features as nat,
                    Seq::empty(),
                    seq![(feature, value)],
                    beta,
                    zero,
                ),
                zero,
            );
            &&& scores.len() == model.num_items
            &&& forall|i: int|
                0 <= i < model.num_items ==> #[trigger] scores[i] == zero.add_spec(
                    model.s_matrix.at(i, model.num_items + feature).mul_spec(value.mul_spec(beta)),
                )
        }),
{
    let features = seq![(feature, value)];
    let none = Seq::<(usize, V)>::empty();
    let items = model.num_items as nat;
    let count = model.num_user_features as nat;
    user_vector_holds_the_last_values(items, count, none, features, beta, zero);
    let z = user_vector(items, count, none, features, beta, zero);
    let at = model.num_items + feature;
    let term = value.mul_spec(beta);
    assert(features[0].0 == feature);
    assert forall|c: int| 0 <= c < z.len() implies #[trigger] z[c] == (if c == at {
        term
    } else {
        zero
    }) by {
        if c >= items && c != at {
            assert(forall|k: int|
                0 <= k < features.len() ==> (#[trigger] features[k]).0 != c - items);
        }
    }
    let scores = item_scores(model.s_matrix, items, z, zero);
    assert forall|i: int| 0 <= i < model.num_items implies #[trigger] scores[i] == zero.add_spec(
        model.s_matrix.at(i, at).mul_spec(term),
    ) by {
        lemma_row_terms_vanish(model, i, zero, term);
        lemma_unit_dot(model.s_matrix.row(i), z, at, zero, term, z.len() as int);
    }
}

/// A single interaction of a user without features counts as given: each item scores its weight
/// for the item times the value.
pub proof fn one_interaction_scores_as_given<V: Mul<Output = V> + Add<Output = V>>(
    model: RustFeaseModel<V>,
    item: usize,
    value: V,
    beta: V,
    zero: V,
)
    requires
        model.wf(),
        item < model.num_items,
        zero_terms_vanish(model.s_matrix.data@, zero, value),
    ensures
        ({
            let scores = item_scores(
                model.s_matrix,
                model.num_items as nat,
                user_vector(
                    model.num_items as nat,
                    model.num_user_features as nat,
                    seq![(item, value)],
                    Seq::empty(),
                    beta,
                    zero,
                ),
                zero,
            );
            &&& scores.len() == model.num_items
            &&& forall|i: int|
                0 <= i < model.num_items ==> #[trigger] scores[i] == zero.add_spec(
                    model.s_matrix.at(i, item as int).mul_spec(value),
                )
        }),
{
    let interactions = seq![(item, value)];
    let none = Seq::<(usize, V)>::empty();
    let items = model.num_items as nat;
    let count = model.num_user_features as nat;
    user_vector_holds_the_last_values(items, count, interactions, none, beta, zero);
    let z = user_vector(items, count, interactions, none, beta, zero);
    assert(interactions[0].0 == item);
    assert forall|c: int| 0 <= c < z.len() implies #[trigger] z[c] == (if c == item {
        value
    } else {
        zero
    }) by {
        if c < items && c != item {
            assert(forall|k: int|
                0 <= k < interactions.len() ==> (#[trigger] interactions[k]).0 != c);
        }
    }
    let scores = item_scores(model.s_matrix, items, z, zero);
    assert forall|i: int| 0 <= i < model.num_items implies #[trigger] scores[i] == zero.add_spec(
        model.s_matrix.at(i, item as int).mul_spec(value),
    ) by {
        lemma_row_terms_vanish(model, i, zero, value);
        lemma_unit_dot(model.s_matrix.row(i), z, item as int, zero, value, z.len() as int);
    }
}

/// The terms of a row are among those of the matrix.
proof fn lemma_row_terms_vanish<V: Mul<Output = V> + Add<Output = V>>(
    model: RustFeaseModel<V>,
    i: int,
    zero: V,
    term: V,
)
    requires
        model.wf(),
        0 <= i < model.num_items,
        zero_terms_vanish(model.s_matrix.data@, zero, term),
    ensures
        zero_terms_vanish(model.s_matrix.row(i), zero, term),
{
    let row = model.s_matrix.row(i);
    let data = model.s_matrix.data@;
    let nrows = model.s_matrix.nrows as int;
    let ncols = model.s_matrix.ncols as int;
    assert forall|c: int| 0 <= c < row.len() implies 0 <= c * nrows + i < data.len()
        && #[trigger] row[c] == data[c * nrows + i] by {
        lemma_place(nrows, ncols, i, c);
    }
    assert forall|a: int, b: int|
        #![trigger row[a], row[b]]
        0 <= a < row.len() && 0 <= b < row.len() implies unit_term(row[b], zero, term).add_spec(
        row[a].mul_spec(zero),
    ) == unit_term(row[b], zero, term) by {
        assert(row[a] == data[a * nrows + i] && row[b] == data[b * nrows + i]);
    }
}

/// An item's score is the sum, from `zero` on and in order, of its weights times the user's values.
pub proof fn scores_are_sums_of_weighted_values<V: Mul<Output = V> + Add<Output = V>>(
    model: RustFeaseModel<V>,
    vector: Seq<V>,
    zero: V,
    i: int,
)
    requires
        model.wf(),
        vector.len() == model.num_items + model.num_user_features,
        0 <= i < model.num_items,
    ensures
        item_scores(model.s_matrix, model.num_items as nat, vector, zero)[i] == Seq::new(
            vector.len(),
            |c: int|
                model.s_matrix.data@[c * model.s_matrix.nrows + i].mul_spec(vector[c]),
        ).fold_left(zero, |sum: V, term: V| sum.add_spec(term)),
{
    let terms = Seq::new(
        vector.len(),
        |c: int| model.s_matrix.data@[c * model.s_matrix.nrows + i].mul_spec(vector[c]),
    );
    let row = model.s_matrix.row(i);
    let grown = |k: int| dot(row, vector, zero, k);
    lemma_folds(terms, zero, |sum: V, term: V| sum.add_spec(term), grown, terms.len());
    assert(terms.take(terms.len() as int) =~= terms);
}

/// With whole numbers, scores are plain sums of products.
pub proof fn whole_scores_are_plain_sums(
    model: RustFeaseModel<i64>,
    interactions: Seq<(usize, i64)>,
    features: Seq<(usize, i64)>,
    beta: i64,
    i: int,
)
    requires
        model.wf(),
        predict_defined(model, interactions, features, beta, 0),
        0 <= i < model.num_items,
    ensures
        ({
            let z = user_vector(
                model.num_items as nat,
                model.num_user_features as nat,
                interactions,
                features,
                beta,
                0i64,
            );
            item_scores(model.s_matrix, model.num_items as nat, z, 0i64)[i] == total(
                z.len(),
                |c: int| model.s_matrix.at(i, c) * z[c],
            )
        }),
{
    let items = model.num_items as nat;
    let count = model.num_user_features as nat;
    user_vector_holds_the_last_values(items, count, interactions, features, beta, 0);
    let z = user_vector(items, count, interactions, features, beta, 0i64);
    assert(dot_defined(model.s_matrix.row(i), z, 0i64, z.len() as int));
    lemma_whole_dot(model.s_matrix, i, z, z.len());
}

proof fn lemma_whole_dot(weights: Matrix<i64>, i: int, z: Seq<i64>, n: nat)
    requires
        n <= z.len() == weights.ncols,
        dot_defined(weights.row(i), z, 0i64, z.len() as int),
    ensures
        dot(weights.row(i), z, 0i64, n as int) == total(n, |c: int| weights.at(i, c) * z[c]),
    decreases n,
{
    if n > 0 {
        lemma_whole_dot(weights, i, z, (n - 1) as nat);
        let w = weights.row(i)[n - 1];
        assert(w.mul_req(z[n - 1]));
        assert(dot(weights.row(i), z, 0i64, n - 1).add_req(w.mul_spec(z[n - 1])));
    }
}

/// Learned weights, entry by entry: nothing on the diagonal; elsewhere the inverse's entry times
/// `minus_one` over the diagonal entry of its column, where that or its negation is greater than
/// `tiny`, and times zero where neither is.
pub proof fn weights_are_scaled_by_their_column<
    V: PartialOrd + Neg<Output = V> + Div<Output = V> + Mul<Output = V>,
>(inverse: Matrix<V>, weights: Matrix<V>, r: int, c: int, minus_one: V, zero: V, tiny: V)
    requires
        is_matrix(
            weights,
            inverse.nrows as int,
            inverse.ncols as int,
            |r: int, c: int| weight_entry(inverse, r, c, minus_one, zero, tiny),
        ),
        0 <= r < inverse.nrows,
        0 <= c < inverse.ncols,
    ensures
        ({
            let d = inverse.data@[c * inverse.nrows + c];
            let entry = inverse.data@[c * inverse.nrows + r];
            let weight = weights.data@[c * inverse.nrows + r];
            &&& r == c ==> weight == zero
            &&& r != c && d.is_gt(&tiny) ==> weight == entry.mul_spec(minus_one.div_spec(d))
            &&& r != c && d.neg_spec().is_gt(&tiny) ==> weight == entry.mul_spec(
                minus_one.div_spec(d),
            )
            &&& r != c && !d.is_gt(&tiny) && !d.neg_spec().is_gt(&tiny) ==> weight
                == entry.mul_spec(zero)
        }),
{
    assert(weights.at(r, c) == weight_entry(inverse, r, c, minus_one, zero, tiny));
}

/// The number of pruned weights is the number of those that are below the threshold themselves and
/// whose negations are.
pub proof fn pruned_weights_are_counted<V: PartialOrd + Neg<Output = V>>(
    values: Seq<V>,
    threshold: V,
)
    ensures
        num_small(values, threshold, values.len() as int) == tally(
            values.len(),
            |i: int| threshold.is_gt(&values[i]) && threshold.is_gt(&values[i].neg_spec()),
        ),
{
    lemma_counts(
        values.len(),
        |i: int| threshold.is_gt(&values[i]) && threshold.is_gt(&values[i].neg_spec()),
        |k: int| num_small(values, threshold, k),
    );
}

/// Rows of item features count with the model's weight for them where it is positive, and once
/// where it is not, each with the square of `alpha`.
pub proof fn item_features_count_with_their_weight(
    model: RustFeaseModel<i64>,
    factors: BlockFactors<i64>,
)
    requires
        call_ensures(RustFeaseModel::<i64>::block_factors, (&model, 0i64, 1i64), factors),
        i64::MIN <= model.meta_weight * model.alpha <= i64::MAX,
        i64::MIN <= model.meta_weight * model.alpha * model.alpha <= i64::MAX,
        model.alpha * model.alpha <= i64::MAX,
        model.beta * model.beta <= i64::MAX,
    ensures
        model.meta_weight > 0 ==> factors.items == model.meta_weight * model.alpha * model.alpha,
        model.meta_weight <= 0 ==> factors.items == model.alpha * model.alpha,
        factors.mixed == model.beta,
        factors.features == model.beta * model.beta,
        factors.ridge == model.lambda_,
{
    let (w, a, b) = (model.meta_weight, model.alpha, model.beta);
    assert(a * a >= 0 && b * b >= 0) by (nonlinear_arith);
    assert(w.mul_req(a) && w.mul_spec(a).mul_req(a));
    assert(1i64.mul_req(a) && 1i64.mul_spec(a) == a && a.mul_req(a));
    assert(b.mul_req(b));
}

/// Raw attributes of a model with a transformation schema: each known key contributes its index with
/// the value one, in order; unknown keys are skipped.
pub proof fn transformed_features_count_once<V: PartialOrd>(
    schema: FeatureTransformationSchema<V>,
    index: Map<Seq<char>, usize>,
    raw: Seq<(String, RawValue<V>)>,
    one: V,
)
    ensures
        ({
            let keys = first_seen(all_keys(raw, schema));
            raw_features(Some(schema), index, raw, one) == places(
                keys.len(),
                |i: int| index.dom().contains(keys[i]),
            ).map_values(|i: int| (index[keys[i]], one))
        }),
{
    let keys = first_seen(all_keys(raw, schema));
    lemma_collects(
        keys.len(),
        |i: int| index.dom().contains(keys[i]),
        |i: int| (index[keys[i]], one),
        |k: int| known_keys(index, keys, one, k),
    );
}

/// Raw attributes of a model without a schema: each attribute with a known name and a number, as
/// such or spelled as a text, contributes the index of its name with that number, in order.
pub proof fn raw_numbers_count_by_name<V: PartialOrd>(
    index: Map<Seq<char>, usize>,
    raw: Seq<(String, RawValue<V>)>,
    one: V,
)
    ensures
        raw_features(None, index, raw, one) == places(
            raw.len(),
            |i: int|
                index.dom().contains(raw[i].0@) && (raw[i].1 matches RawValue::Text {
                    number: Some(_),
                    ..
                } || raw[i].1 matches RawValue::Number { value: Some(_), .. }),
        ).map_values(
            |i: int|
                (
                    index[raw[i].0@],
                    match raw[i].1 {
                        RawValue::Text { number, .. } => number.unwrap(),
                        RawValue::Number { value, .. } => value.unwrap(),
                        _ => one,
                    },
                ),
        ),
{
    lemma_collects(
        raw.len(),
        |i: int|
            index.dom().contains(raw[i].0@) && (raw[i].1 matches RawValue::Text {
                number: Some(_),
                ..
            } || raw[i].1 matches RawValue::Number { value: Some(_), .. }),
        |i: int|
            (
                index[raw[i].0@],
                match raw[i].1 {
                    RawValue::Text { number, .. } => number.unwrap(),
                    RawValue::Number { value, .. } => value.unwrap(),
                    _ => one,
                },
            ),
        |k: int| known_numbers(index, raw, k),
    );
}

/// The weights towards an item are those of its column, one per item.
pub proof fn similar_items_are_weighed_by_column<V>(model: RustFeaseModel<V>, item: int, r: int)
    requires
        model.wf(),
        0 <= item < model.num_items,
        0 <= r < model.num_items,
    ensures
        item_column(model, item).len() == model.num_items,
        item_column(model, item)[r] == model.s_matrix.data@[item * model.s_matrix.nrows + r],
{
}

/// The greatest magnitude is at least zero and that of a value or zero; no value, nor the negation
/// of one below zero, is greater.
pub proof fn greatest_magnitude_bounds_all(values: Seq<i64>, n: int)
    requires
        0 <= n <= values.len(),
        forall|i: int| 0 <= i < values.len() ==> #[trigger] values[i] > i64::MIN,
    ensures
        ({
            let g = greatest(values, 0i64, n);
            &&& g >= 0
            &&& forall|i: int| 0 <= i < n ==> -g <= #[trigger] values[i] <= g
            &&& g == 0 || exists|i: int|
                0 <= i < n && (#[trigger] values[i] == g || values[i] == -g)
        }),
    decreases n,
{
    if n > 0 {
        greatest_magnitude_bounds_all(values, n - 1);
        let earlier = greatest(values, 0i64, n - 1);
        let g = greatest(values, 0i64, n);
        assert(values[n - 1] > i64::MIN);
        if g == earlier && g != 0 {
            let i = choose|i: int|
                0 <= i < n - 1 && (#[trigger] values[i] == earlier || values[i] == -earlier);
            assert(values[i] == g || values[i] == -g);
        }
    }
}

/// The greatest magnitude takes in one value after the other, from `zero` on: the value, or its
/// negation where it is below zero, replaces what is less.
pub proof fn greatest_magnitude_takes_in_every_value<V: PartialOrd + Neg<Output = V>>(
    values: Seq<V>,
    zero: V,
)
    ensures
        greatest(values, zero, values.len() as int) == values.fold_left(
            zero,
            |best: V, value: V|
                {
                    let size = if zero.is_gt(&value) {
                        value.neg_spec()
                    } else {
                        value
                    };
                    if size.is_gt(&best) {
                        size
                    } else {
                        best
                    }
                },
        ),
{
    lemma_folds(
        values,
        zero,
        |best: V, value: V|
            {
                let size = if zero.is_gt(&value) {
                    value.neg_spec()
                } else {
                    value
                };
                if size.is_gt(&best) {
                    size
                } else {
                    best
                }
            },
        |k: int| greatest(values, zero, k),
        values.len(),
    );
    assert(values.take(values.len() as int) =~= values);
}

/// Values that are no numbers are those that do not equal themselves; infinite ones equal `infinity`
/// themselves, or with their negation where they are below zero.
pub proof fn odd_values_are_counted<V: PartialOrd + Neg<Output = V>>(
    values: Seq<V>,
    zero: V,
    infinity: V,
)
    ensures
        num_nan(values, values.len() as int) == tally(
            values.len(),
            |i: int| !values[i].eq_spec(&values[i]),
        ),
        num_infinite(values, zero, infinity, values.len() as int) == tally(
            values.len(),
            |i: int|
                if zero.is_gt(&values[i]) {
                    values[i].neg_spec().eq_spec(&infinity)
                } else {
                    values[i].eq_spec(&infinity)
                },
        ),
{
    lemma_counts(
        values.len(),
        |i: int| !values[i].eq_spec(&values[i]),
        |k: int| num_nan(values, k),
    );
    lemma_counts(
        values.len(),
        |i: int|
            if zero.is_gt(&values[i]) {
                values[i].neg_spec().eq_spec(&infinity)
            } else {
                values[i].eq_spec(&infinity)
            },
        |k: int| num_infinite(values, zero, infinity, k),
    );
}

/// The diagonal holds the entries whose row and column are the same.
pub proof fn diagonal_entries_lie_on_it<V>(m: Matrix<V>, i: int)
    requires
        0 <= i < m.nrows,
        i < m.ncols,
    ensures
        i < diagonal(m).len(),
        diagonal(m)[i] == m.data@[i * m.nrows + i],
        diagonal(m).len() == m.nrows || diagonal(m).len() == m.ncols,
        diagonal(m).len() <= m.nrows && diagonal(m).len() <= m.ncols,
{
}

/// The scores of a user given by identifiers are those of the known items and features by index.
pub proof fn named_users_score_by_index<V: Mul<Output = V> + Add<Output = V>>(
    model: RustFeaseModel<V>,
    interactions: Seq<(String, V)>,
    features: Seq<(String, V)>,
    zero: V,
)
    ensures
        ({
            let items = id_entries(model.mappings.item_to_idx);
            let names = id_entries(model.mappings.user_feature_to_idx);
            user_scores(model, interactions, features, zero) == item_scores(
                model.s_matrix,
                model.num_items as nat,
                user_vector(
                    model.num_items as nat,
                    model.num_user_features as nat,
                    places(
                        interactions.len(),
                        |i: int| items.dom().contains(interactions[i].0@),
                    ).map_values(|i: int| (items[interactions[i].0@], interactions[i].1)),
                    places(
                        features.len(),
                        |i: int| names.dom().contains(features[i].0@),
                    ).map_values(|i: int| (names[features[i].0@], features[i].1)),
                    model.beta,
                    zero,
                ),
                zero,
            )
        }),
{
    known_pairs_are_the_known_ones(id_entries(model.mappings.item_to_idx), interactions);
    known_pairs_are_the_known_ones(id_entries(model.mappings.user_feature_to_idx), features);
}

/// What is recommended by identifiers are the ranked items in their order, each under its own name
/// and with its score.
pub proof fn recommended_names_are_the_ranked_items<V>(
    ranked: Seq<(usize, V)>,
    names: Seq<Seq<char>>,
    a: int,
)
    requires
        forall|i: int| 0 <= i < ranked.len() ==> (#[trigger] ranked[i]).0 < names.len(),
        0 <= a < ranked.len(),
    ensures
        ranked_names(ranked, names).len() == ranked.len(),
        ranked_names(ranked, names)[a].0 == names[ranked[a].0 as int],
        ranked_names(ranked, names)[a].1 == ranked[a].1,
{
    ranked_names_keep_the_order(ranked, names);
}

/// The messages of a self-check follow its facts: the dimensions are fine exactly where both are the
/// expected ones, and values that are no numbers or infinite are reported where there is any.
pub proof fn messages_follow_the_facts<V>(facts: WeightFacts<V>)
    ensures
        facts.nrows == facts.expected && facts.ncols == facts.expected ==> dimensions_message(facts)
            == "OK: S matrix dimensions "@ + cross_text(facts.expected, facts.expected),
        facts.nrows != facts.expected || facts.ncols != facts.expected ==> dimensions_message(facts)
            == "FAIL: S matrix dimensions "@ + cross_text(facts.nrows, facts.ncols)
            + " don't match expected "@ + cross_text(facts.expected, facts.expected),
        facts.nan_count == 0 && facts.inf_count == 0 ==> finite_message(facts)
            == "OK: No NaN or Inf values in S matrix"@,
        facts.nan_count > 0 || facts.inf_count > 0 ==> finite_message(facts)
            == "FAIL: S matrix contains "@ + decimal_text(facts.nan_count as nat) + " NaN and "@
            + decimal_text(facts.inf_count as nat) + " Inf values"@,
        cross_text(facts.nrows, facts.ncols) == decimal_text(facts.nrows as nat) + "x"@
            + decimal_text(facts.ncols as nat),
{
}

/// Scaling `beta` scales what features contribute: with whole numbers, the scores of a user without
/// interactions are multiplied by the factor of `beta`.
pub proof fn scaling_beta_scales_feature_scores(
    model: RustFeaseModel<i64>,
    features: Seq<(usize, i64)>,
    beta: i64,
    scaled_beta: i64,
    factor: int,
    i: int,
)
    requires
        model.wf(),
        predict_defined(model, Seq::empty(), features, beta, 0),
        predict_defined(model, Seq::empty(), features, scaled_beta, 0),
        scaled_beta == factor * beta,
        0 <= i < model.num_items,
    ensures
        ({
            let items = model.num_items as nat;
            let count = model.num_user_features as nat;
            let none = Seq::<(usize, i64)>::empty();
            let before = user_vector(items, count, none, features, beta, 0i64);
            let after = user_vector(items, count, none, features, scaled_beta, 0i64);
            item_scores(model.s_matrix, items, after, 0i64)[i] == factor * item_scores(
                model.s_matrix,
                items,
                before,
                0i64,
            )[i]
        }),
{
    let items = model.num_items as nat;
    let count = model.num_user_features as nat;
    let none = Seq::<(usize, i64)>::empty();
    let before = user_vector(items, count, none, features, beta, 0i64);
    let after = user_vector(items, count, none, features, scaled_beta, 0i64);
    whole_scores_are_plain_sums(model, none, features, beta, i);
    whole_scores_are_plain_sums(model, none, features, scaled_beta, i);
    user_vector_holds_the_last_values(items, count, none, features, beta, 0);
    user_vector_holds_the_last_values(items, count, none, features, scaled_beta, 0);
    let blank = Seq::new(items, |c: int| 0i64);
    let rest = Seq::new(count, |c: int| 0i64);
    let n = features.len() as int;
    lemma_written_len(blank, none, 0);
    lemma_written_len(rest, scaled_pairs(features, beta), n);
    lemma_written_len(rest, scaled_pairs(features, scaled_beta), n);
    assert forall|c: int| 0 <= c < before.len() implies #[trigger] after[c] == factor * before[c] by {
        if c >= items {
            lemma_scaled_written(features, beta, scaled_beta, factor, rest, n, c - items);
        } else {
            assert(factor * 0 == 0) by (nonlinear_arith);
        }
    }
    lemma_scaled_total(model.s_matrix, i, before, after, factor, before.len());
}

proof fn lemma_scaled_written(
    features: Seq<(usize, i64)>,
    beta: i64,
    scaled_beta: i64,
    factor: int,
    blank: Seq<i64>,
    n: int,
    c: int,
)
    requires
        0 <= n <= features.len(),
        0 <= c < blank.len(),
        blank[c] == 0,
        scaled_beta == factor * beta,
        forall|j: int| 0 <= j < features.len() ==> (#[trigger] features[j]).1.mul_req(beta),
        forall|j: int| 0 <= j < features.len() ==> (#[trigger] features[j]).1.mul_req(scaled_beta),
    ensures
        written(blank, scaled_pairs(features, scaled_beta), n)[c] == factor * written(
            blank,
            scaled_pairs(features, beta),
            n,
        )[c],
    decreases n,
{
    let short = scaled_pairs(features, beta);
    let long = scaled_pairs(features, scaled_beta);
    if n > 0 {
        lemma_scaled_written(features, beta, scaled_beta, factor, blank, n - 1, c);
        lemma_written_len(blank, short, n - 1);
        lemma_written_len(blank, long, n - 1);
        let value = features[n - 1].1;
        assert(value.mul_req(beta) && value.mul_req(scaled_beta));
        assert(short[n - 1] == (features[n - 1].0, value.mul_spec(beta)));
        assert(long[n - 1] == (features[n - 1].0, value.mul_spec(scaled_beta)));
        assert(value * scaled_beta == factor * (value * beta)) by (nonlinear_arith)
            requires
                scaled_beta == factor * beta,
        ;
    } else {
        assert(factor * 0 == 0) by (nonlinear_arith);
    }
}

proof fn lemma_scaled_total(
    weights: Matrix<i64>,
    i: int,
    before: Seq<i64>,
    after: Seq<i64>,
    factor: int,
    n: nat,
)
    requires
        n <= before.len() == after.len(),
        forall|c: int| 0 <= c < before.len() ==> #[trigger] after[c] == factor * before[c],
    ensures
        total(n, |c: int| weights.at(i, c) * after[c]) == factor * total(
            n,
            |c: int| weights.at(i, c) * before[c],
        ),
    decreases n,
{
    if n > 0 {
        lemma_scaled_total(weights, i, before, after, factor, (n - 1) as nat);
        let w = weights.at(i, n - 1) as int;
        let b = before[n - 1] as int;
        let earlier = total((n - 1) as nat, |c: int| weights.at(i, c) * before[c]);
        assert(after[n - 1] == factor * before[n - 1]);
        assert(w * (factor * b) == factor * (w * b)) by (nonlinear_arith);
        assert(factor * (earlier + w * b) == factor * earlier + factor * (w * b))
            by (nonlinear_arith);
    } else {
        assert(factor * 0 == 0) by (nonlinear_arith);
    }
}

} // verus!
