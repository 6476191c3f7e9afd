//! What an evaluation guarantees of its inputs, its users and its metrics.

use crate::data_pipeline::{LongTable, Mappings};
use crate::evaluation::harness::{
    are_metrics, evaluated_users, evaluates_user, greatest_of, is_coverage, is_evaluation, known,
    lists_of, max_k, model_replies, relevant_items, row_items, test_users, total_relevant, UserEvaluation,
    UserMetrics,
};
use crate::groups::{lemma_names_ascending, lemma_present, lemma_rows_of, names_of, rows_of};
use crate::ids::{id_entries, present, text_of};
use crate::metrics::{
    cut, found_items, found_items_are_relevant_and_recommended,
    hit_ranks_are_places_of_relevant_items, precision_at_a_hit_counts_hits_and_places, Ratio,
};
use crate::models::{ModelError, ModelInput, RecModel};
use crate::numeric::total;
use crate::order::{ascending, comparable, text_before};
use crate::selection::{lemma_same_places, places, tally};
use crate::serving::indices_of;
use crate::top_k::{candidate_scores, top_k, top_k_descends_by_score, top_k_is_best};
use crate::user_pairs::{all_pairs_of, known_rows, pairs_are_the_known_rows};
use vstd::prelude::*;
use vstd::std_specs::cmp::PartialOrdIs;

verus! {

/// What a model is asked for a user: with the user's known training rows as interactions, and with
/// the user's known rows of the feature table as features, each row by the index of its item or
/// feature and with its value, in the order of the rows. Without a table there are no features.
pub proof fn the_model_sees_the_known_rows<V, F, M: RecModel<V, F>>(
    model: M,
    mappings: Mappings,
    train: LongTable<V>,
    features: Option<&LongTable<V>>,
    user: Seq<char>,
    raw: Result<Vec<F>, ModelError>,
)
    requires
        model_replies(model, mappings, train, features, user, raw),
    ensures
        exists|items: &[(usize, V)], feats: &[(usize, V)]|
            {
                &&& #[trigger] call_ensures(
                    M::predict_scores,
                    (&model, ModelInput::Sparse { interactions: items, user_features: feats }),
                    raw,
                )
                &&& items@ == known_rows(train, id_entries(mappings.item_to_idx), user)
                &&& features matches Some(table) ==> feats@ == known_rows(
                    *table,
                    id_entries(mappings.user_feature_to_idx),
                    user,
                )
                &&& features is None ==> feats@.len() == 0
            },
{
    pairs_are_the_known_rows(train, id_entries(mappings.item_to_idx), user);
    if let Some(table) = features {
        pairs_are_the_known_rows(*table, id_entries(mappings.user_feature_to_idx), user);
    }
}

/// A user's evaluation rests on the model's scores for the user's known training rows and features.
pub proof fn an_evaluation_rests_on_the_known_rows<V, F: PartialOrd, M: RecModel<V, F>>(
    model: M,
    mappings: Mappings,
    test_user_column: Seq<Option<String>>,
    test_item_column: Seq<Option<String>>,
    train: LongTable<V>,
    features: Option<&LongTable<V>>,
    k_values: Seq<usize>,
    user: Seq<char>,
    evaluation: UserEvaluation,
)
    requires
        evaluates_user::<V, F, M>(
            model,
            mappings,
            test_user_column,
            test_item_column,
            train,
            features,
            k_values,
            user,
            evaluation,
        ),
    ensures
        exists|items: &[(usize, V)], feats: &[(usize, V)], scores: Vec<F>|
            {
                &&& #[trigger] call_ensures(
                    M::predict_scores,
                    (&model, ModelInput::Sparse { interactions: items, user_features: feats }),
                    Ok::<Vec<F>, ModelError>(scores),
                )
                &&& items@ == known_rows(train, id_entries(mappings.item_to_idx), user)
                &&& features matches Some(table) ==> feats@ == known_rows(
                    *table,
                    id_entries(mappings.user_feature_to_idx),
                    user,
                )
                &&& features is None ==> feats@.len() == 0
                &&& evaluation.recommended@ == indices_of(
                    top_k(
                        scores@,
                        items@.map_values(|pair: (usize, V)| pair.0).to_set(),
                        max_k(k_values),
                    ),
                )
                &&& evaluation.num_relevant == relevant_items(
                    test_user_column,
                    test_item_column,
                    id_entries(mappings.item_to_idx),
                    user,
                ).len()
                &&& evaluation.at_k@.len() == k_values.len()
                &&& forall|j: int|
                    0 <= j < k_values.len() ==> are_metrics(
                        #[trigger] evaluation.at_k@[j],
                        evaluation.recommended@,
                        relevant_items(
                            test_user_column,
                            test_item_column,
                            id_entries(mappings.item_to_idx),
                            user,
                        ),
                        k_values[j],
                    )
            },
{
    let scores = choose|scores: Vec<F>|
        {
            &&& #[trigger] model_replies(
                model,
                mappings,
                train,
                features,
                user,
                Ok::<Vec<F>, ModelError>(scores),
            )
            &&& is_evaluation(
                evaluation,
                scores@,
                indices_of(
                    all_pairs_of(train, id_entries(mappings.item_to_idx), user),
                ).to_set(),
                relevant_items(
                    test_user_column,
                    test_item_column,
                    id_entries(mappings.item_to_idx),
                    user,
                ),
                k_values,
            )
        };
    the_model_sees_the_known_rows(
        model,
        mappings,
        train,
        features,
        user,
        Ok::<Vec<F>, ModelError>(scores),
    );
    pairs_are_the_known_rows(train, id_entries(mappings.item_to_idx), user);
}

/// The recommended items: never one of the training items, none twice, none followed by a greater
/// score, and none left out with a greater score; as many as the greatest list length, or ten
/// without one, or all there are.
pub proof fn recommended_items_score_best<F: PartialOrd>(
    evaluation: UserEvaluation,
    scores: Seq<F>,
    train_items: Set<usize>,
    relevant: Set<usize>,
    k_values: Seq<usize>,
)
    requires
        scores.len() <= usize::MAX,
        is_evaluation(evaluation, scores, train_items, relevant, k_values),
        comparable(candidate_scores(scores, train_items)),
    ensures
        ({
            let items = evaluation.recommended@;
            let others = tally(scores.len(), |i: int| !train_items.contains(i as usize));
            &&& items.len() <= others
            &&& forall|a: int|
                0 <= a < items.len() ==> (#[trigger] items[a]) < scores.len()
                    && !train_items.contains(items[a])
            &&& forall|a: int, b: int|
                #![trigger items[a], items[b]]
                0 <= a < b < items.len() ==> items[a] != items[b] && !scores[items[b] as int].is_gt(
                    &scores[items[a] as int],
                )
            &&& forall|i: usize, a: int|
                #![trigger train_items.contains(i), items[a]]
                i < scores.len() && !train_items.contains(i) && !items.contains(i) && 0 <= a
                    < items.len() ==> !scores[i as int].is_gt(&scores[items[a] as int])
            &&& forall|j: int|
                0 <= j < k_values.len() && #[trigger] k_values[j] <= others ==> items.len()
                    >= k_values[j]
            &&& items.len() < others ==> (if k_values.len() == 0 {
                items.len() == 10
            } else {
                exists|j: int| 0 <= j < k_values.len() && #[trigger] k_values[j] == items.len()
            })
            &&& k_values.len() == 0 && others >= 10 ==> items.len() == 10
        }),
{
    let k = max_k(k_values);
    top_k_is_best(scores, train_items, k);
    top_k_descends_by_score(scores, train_items, k);
    let ranked = top_k(scores, train_items, k);
    let items = evaluation.recommended@;
    assert forall|a: int| 0 <= a < items.len() implies #[trigger] items[a] == ranked[a].0 by {}
    assert forall|i: usize, a: int|
        #![trigger train_items.contains(i), items[a]]
        i < scores.len() && !train_items.contains(i) && !items.contains(i) && 0 <= a
            < items.len() implies !scores[i as int].is_gt(&scores[items[a] as int]) by {
        assert forall|b: int| 0 <= b < ranked.len() implies (#[trigger] ranked[b]).0 != i by {
            assert(items[b] == ranked[b].0);
        }
        assert(items[a] == ranked[a].0);
    }
    if k_values.len() > 0 {
        lemma_greatest(k_values, k_values.len() as int);
    }
}

/// The greatest list length is one of them, and none is greater.
proof fn lemma_greatest(k_values: Seq<usize>, n: int)
    requires
        0 < n <= k_values.len(),
    ensures
        forall|j: int| 0 <= j < n ==> #[trigger] k_values[j] <= greatest_of(k_values, n),
        exists|j: int| 0 <= j < n && #[trigger] k_values[j] == greatest_of(k_values, n),
    decreases n,
{
    if n > 1 {
        lemma_greatest(k_values, n - 1);
        let j = choose|j: int|
            0 <= j < n - 1 && #[trigger] k_values[j] == greatest_of(k_values, n - 1);
        assert(k_values[j] == greatest_of(k_values, n - 1));
        assert(k_values[n - 1] <= greatest_of(k_values, n));
    } else {
        assert(k_values[0] == greatest_of(k_values, n));
    }
}

/// The metrics of a list at `k`, from its items alone: precision and recall count the relevant items
/// that stand in the first `k` places; the gain has the places of relevant items and as many ideal
/// hits as there are relevant items, at most `k`; the average precision has for the `a`-th hit, at
/// place `p`, `a + 1` hits out of `p + 1`, counted from zero.
pub proof fn metrics_count_relevant_items(
    metrics: UserMetrics,
    recommended: Seq<usize>,
    relevant: Set<usize>,
    k: usize,
)
    requires
        recommended.len() <= usize::MAX,
        are_metrics(metrics, recommended, relevant, k),
    ensures
        ({
            let found = Set::new(
                |x: usize|
                    relevant.contains(x) && exists|i: int|
                        0 <= i < k && i < recommended.len() && #[trigger] recommended[i] == x,
            );
            let n: nat = if k <= recommended.len() {
                k as nat
            } else {
                recommended.len()
            };
            let hits = places(n, |i: int| relevant.contains(recommended[i]));
            &&& metrics.k == k
            &&& k > 0 ==> metrics.precision.hits == found.len() && metrics.precision.out_of == k
            &&& k == 0 ==> metrics.precision.hits == 0 && metrics.precision.out_of == 1
            &&& relevant.len() > 0 ==> metrics.recall.hits == found.len() && metrics.recall.out_of
                == relevant.len()
            &&& relevant.len() == 0 ==> metrics.recall.hits == 0 && metrics.recall.out_of == 1
            &&& k > 0 && relevant.len() > 0 ==> {
                &&& metrics.ndcg.hit_ranks@ == hits.map_values(|i: int| i as usize)
                &&& metrics.ndcg.ideal_hits <= k && metrics.ndcg.ideal_hits <= relevant.len()
                &&& metrics.ndcg.ideal_hits == k || metrics.ndcg.ideal_hits == relevant.len()
            }
            &&& k == 0 || relevant.len() == 0 ==> metrics.ndcg.hit_ranks@.len() == 0
                && metrics.ndcg.ideal_hits == 0
            &&& metrics.map.num_relevant == relevant.len()
            &&& relevant.len() > 0 ==> {
                &&& metrics.map.precisions@.len() == hits.len()
                &&& forall|a: int|
                    0 <= a < hits.len() ==> (#[trigger] metrics.map.precisions@[a]).hits == a + 1
                        && metrics.map.precisions@[a].out_of == hits[a] + 1
            }
            &&& relevant.len() == 0 ==> metrics.map.precisions@.len() == 0
            &&& metrics.hit <==> exists|i: int|
                0 <= i < k && i < recommended.len() && relevant.contains(#[trigger] recommended[i])
        }),
{
    let n = cut(recommended, k as int);
    let found = Set::new(
        |x: usize|
            relevant.contains(x) && exists|i: int|
                0 <= i < k && i < recommended.len() && #[trigger] recommended[i] == x,
    );
    assert forall|x: usize|
        #[trigger] found_items(recommended, relevant, n).contains(x) <==> found.contains(x) by {
        found_items_are_relevant_and_recommended(recommended, relevant, k, x);
    }
    assert(found_items(recommended, relevant, n) =~= found);
    hit_ranks_are_places_of_relevant_items(recommended, relevant, n as nat);
    let list = recommended.take(n);
    precision_at_a_hit_counts_hits_and_places(list, relevant, n as nat);
    let here = |i: int| relevant.contains(recommended[i]);
    let there = |i: int| relevant.contains(list[i]);
    lemma_same_places(n as nat, here, there);
}

/// A user's relevant items are the known items of the user's test rows, and no others.
pub proof fn relevant_items_are_those_of_the_test_rows(
    users: Seq<Option<String>>,
    items: Seq<Option<String>>,
    catalogue: Map<Seq<char>, usize>,
    user: Seq<char>,
    x: usize,
)
    requires
        users.len() <= usize::MAX,
    ensures
        relevant_items(users, items, catalogue, user).contains(x) <==> exists|i: int|
            {
                &&& 0 <= i < users.len() && i < items.len()
                &&& (#[trigger] users[i]) is Some && users[i].unwrap()@ == user
                &&& items[i] is Some && catalogue.dom().contains(items[i].unwrap()@)
                &&& catalogue[items[i].unwrap()@] == x
            },
{
    let column = test_users(users, items, catalogue);
    let rows = rows_of(column, user);
    let list = row_items(items, catalogue, rows);
    lemma_rows_of(column, user);
    if list.contains(x) {
        let k = choose|k: int| 0 <= k < list.len() && list[k] == x;
        let i = rows[k] as int;
        assert(text_of(column[i]) == Some(user));
        assert(users[i] is Some);
    }
    if exists|i: int|
        {
            &&& 0 <= i < users.len() && i < items.len()
            &&& (#[trigger] users[i]) is Some && users[i].unwrap()@ == user
            &&& items[i] is Some && catalogue.dom().contains(items[i].unwrap()@)
            &&& catalogue[items[i].unwrap()@] == x
        } {
        let i = choose|i: int|
            {
                &&& 0 <= i < users.len() && i < items.len()
                &&& (#[trigger] users[i]) is Some && users[i].unwrap()@ == user
                &&& items[i] is Some && catalogue.dom().contains(items[i].unwrap()@)
                &&& catalogue[items[i].unwrap()@] == x
            };
        assert(text_of(column[i]) == Some(user));
        assert(rows.contains(i as usize));
        let k = choose|k: int| 0 <= k < rows.len() && rows[k] == i as usize;
        assert(list[k] == x);
    }
}

/// The evaluated users are those that the model knows and that have a test row of a known item, each
/// once, in ascending order.
pub proof fn evaluated_users_are_known_test_users(
    users: Seq<Option<String>>,
    items: Seq<Option<String>>,
    mappings: Mappings,
    user: Seq<char>,
)
    ensures
        evaluated_users(users, items, mappings).contains(user) <==> (id_entries(
            mappings.user_to_idx,
        ).dom().contains(user) && exists|i: int|
            {
                &&& 0 <= i < users.len() && i < items.len()
                &&& (#[trigger] users[i]) is Some && users[i].unwrap()@ == user
                &&& items[i] is Some && id_entries(mappings.item_to_idx).dom().contains(
                    items[i].unwrap()@,
                )
            }),
        forall|a: int, b: int|
            #![trigger
                evaluated_users(users, items, mappings)[a],
                evaluated_users(users, items, mappings)[b]
            ]
            0 <= a < b < evaluated_users(users, items, mappings).len() ==> text_before(
                evaluated_users(users, items, mappings)[a],
                evaluated_users(users, items, mappings)[b],
            ),
{
    let catalogue = id_entries(mappings.item_to_idx);
    let index = id_entries(mappings.user_to_idx);
    let column = test_users(users, items, catalogue);
    let names = names_of(column);
    lemma_names_ascending(column);
    lemma_known(names, index, names.len() as int);
    assert(names.take(names.len() as int) =~= names);
    lemma_present(column, user);
    assert(names.to_set().contains(user) <==> names.contains(user));
    assert(present(column).to_set().contains(user) <==> present(column).contains(user));
    if exists|i: int| 0 <= i < column.len() && text_of(#[trigger] column[i]) == Some(user) {
        let i = choose|i: int| 0 <= i < column.len() && text_of(#[trigger] column[i]) == Some(user);
        assert(users[i] is Some);
    }
    if exists|i: int|
        {
            &&& 0 <= i < users.len() && i < items.len()
            &&& (#[trigger] users[i]) is Some && users[i].unwrap()@ == user
            &&& items[i] is Some && catalogue.dom().contains(items[i].unwrap()@)
        } {
        let i = choose|i: int|
            {
                &&& 0 <= i < users.len() && i < items.len()
                &&& (#[trigger] users[i]) is Some && users[i].unwrap()@ == user
                &&& items[i] is Some && catalogue.dom().contains(items[i].unwrap()@)
            };
        assert(text_of(column[i]) == Some(user));
    }
}

proof fn lemma_known(names: Seq<Seq<char>>, index: Map<Seq<char>, usize>, n: int)
    requires
        0 <= n <= names.len(),
        ascending(names),
    ensures
        forall|x: Seq<char>| #[trigger]
            known(names, index, n).contains(x) <==> names.take(n).contains(x)
                && index.dom().contains(x),
        forall|a: int, b: int|
            #![trigger known(names, index, n)[a], known(names, index, n)[b]]
            0 <= a < b < known(names, index, n).len() ==> text_before(
                known(names, index, n)[a],
                known(names, index, n)[b],
            ),
    decreases n,
{
    if n > 0 {
        lemma_known(names, index, n - 1);
        let earlier = known(names, index, n - 1);
        let all = known(names, index, n);
        let last = names[n - 1];
        let before = names.take(n - 1);
        let now = names.take(n);
        assert(now =~= before.push(last));
        assert forall|x: Seq<char>| now.contains(x) <==> before.contains(x) || x == last by {
            if now.contains(x) {
                let k = choose|k: int| 0 <= k < now.len() && now[k] == x;
                if k < n - 1 {
                    assert(before[k] == x);
                }
            }
            if before.contains(x) {
                let k = choose|k: int| 0 <= k < before.len() && before[k] == x;
                assert(now[k] == x);
            }
            assert(now[n - 1] == last);
        }
        if index.dom().contains(last) {
            assert(all =~= earlier.push(last));
            assert forall|x: Seq<char>| all.contains(x) <==> earlier.contains(x) || x == last by {
                if all.contains(x) {
                    let k = choose|k: int| 0 <= k < all.len() && all[k] == x;
                    if k < earlier.len() {
                        assert(earlier[k] == x);
                    }
                }
                if earlier.contains(x) {
                    let k = choose|k: int| 0 <= k < earlier.len() && earlier[k] == x;
                    assert(all[k] == x);
                }
                assert(all[earlier.len() as int] == last);
            }
            assert forall|a: int, b: int|
                #![trigger all[a], all[b]]
                0 <= a < b < all.len() implies text_before(all[a], all[b]) by {
                if b == earlier.len() {
                    assert(earlier.contains(all[a]));
                    assert(before.contains(all[a]));
                    let k = choose|k: int| 0 <= k < before.len() && before[k] == all[a];
                    assert(names[k] == all[a]);
                } else {
                    assert(all[a] == earlier[a] && all[b] == earlier[b]);
                }
            }
        }
    } else {
        assert(names.take(n) =~= Seq::<Seq<char>>::empty());
    }
}

/// The interactions of a report are the relevant items of all its users together.
pub proof fn interactions_are_all_relevant_items(users: Seq<UserEvaluation>, n: nat)
    ensures
        total_relevant(users, n as int) == total(n, |j: int| users[j].num_relevant as int),
    decreases n,
{
    if n > 0 {
        interactions_are_all_relevant_items(users, (n - 1) as nat);
    }
}

/// Coverage counts the items that stand in the list of any user, over the size of the catalogue, and
/// is zero where that is empty.
pub proof fn coverage_counts_recommended_items(
    share: Ratio,
    users: Seq<UserEvaluation>,
    num_items: usize,
)
    requires
        is_coverage(share, lists_of(users), num_items),
    ensures
        num_items > 0 ==> share.out_of == num_items && share.hits == Set::new(
            |x: usize|
                exists|u: int|
                    0 <= u < users.len() && (#[trigger] users[u]).recommended@.contains(x),
        ).len(),
        num_items == 0 ==> share.hits == 0 && share.out_of == 1,
{
    let lists = lists_of(users);
    let found = Set::new(
        |x: usize|
            exists|u: int| 0 <= u < users.len() && (#[trigger] users[u]).recommended@.contains(x),
    );
    let listed = Set::new(
        |x: usize| exists|a: int| 0 <= a < lists.len() && (#[trigger] lists[a]).contains(x),
    );
    assert forall|x: usize| found.contains(x) <==> listed.contains(x) by {
        if found.contains(x) {
            let u = choose|u: int|
                0 <= u < users.len() && (#[trigger] users[u]).recommended@.contains(x);
            assert(lists[u].contains(x));
        }
        if listed.contains(x) {
            let a = choose|a: int| 0 <= a < lists.len() && (#[trigger] lists[a]).contains(x);
            assert(users[a].recommended@.contains(x));
        }
    }
    assert(found =~= listed);
}

} // verus!
