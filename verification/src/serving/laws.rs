//! What is asked of a model, and what becomes of its reply, by identifiers.

use crate::data_pipeline::Mappings;
use crate::ids::{id_entries, texts};
use crate::models::{ModelError, ModelInput, ModelKind, RecModel};
use crate::order::comparable;
use crate::selection::{lemma_collects, places};
use crate::serving::{
    by_name, ease_outcome, indices_of, known_names, known_pairs, lifted, named_view,
    ranks_by_name, refuses_kind,
    replies_to, sasrec_outcome, two_tower_outcome, ServingError, UserInput,
};
use crate::top_k::{candidate_scores, top_k, top_k_descends_by_score, top_k_is_best};
use vstd::prelude::*;
use vstd::std_specs::cmp::PartialOrdIs;

verus! {

/// Named values by index: every pair whose name is known contributes the index of the name and its
/// value, nothing else does, and they keep their order.
pub proof fn known_pairs_are_the_known_ones<V>(
    index: Map<Seq<char>, usize>,
    pairs: Seq<(String, V)>,
)
    ensures
        known_pairs(index, pairs, pairs.len() as int) == places(
            pairs.len(),
            |i: int| index.dom().contains(pairs[i].0@),
        ).map_values(|i: int| (index[pairs[i].0@], pairs[i].1)),
{
    lemma_collects(
        pairs.len(),
        |i: int| index.dom().contains(pairs[i].0@),
        |i: int| (index[pairs[i].0@], pairs[i].1),
        |k: int| known_pairs(index, pairs, k),
    );
}

/// Names by index: every known name contributes its index, nothing else does, and they keep their
/// order.
pub proof fn known_names_are_the_known_ones(index: Map<Seq<char>, usize>, names: Seq<String>)
    ensures
        known_names(index, names, names.len() as int) == places(
            names.len(),
            |i: int| index.dom().contains(names[i]@),
        ).map_values(|i: int| index[names[i]@]),
{
    lemma_collects(
        names.len(),
        |i: int| index.dom().contains(names[i]@),
        |i: int| index[names[i]@],
        |k: int| known_names(index, names, k),
    );
}

/// A ranked list by names: every position that has a name contributes the name and its score, in the
/// order of the list.
pub proof fn ranked_names_keep_the_order<F>(ranked: Seq<(usize, F)>, names: Seq<Seq<char>>)
    ensures
        by_name(ranked, names, ranked.len() as int) == places(
            ranked.len(),
            |i: int| ranked[i].0 < names.len(),
        ).map_values(|i: int| (names[ranked[i].0 as int], ranked[i].1)),
        (forall|i: int| 0 <= i < ranked.len() ==> (#[trigger] ranked[i]).0 < names.len())
            ==> by_name(ranked, names, ranked.len() as int) == ranked.map_values(
            |entry: (usize, F)| (names[entry.0 as int], entry.1),
        ),
{
    lemma_collects(
        ranked.len(),
        |i: int| ranked[i].0 < names.len(),
        |i: int| (names[ranked[i].0 as int], ranked[i].1),
        |k: int| by_name(ranked, names, k),
    );
    if forall|i: int| 0 <= i < ranked.len() ==> (#[trigger] ranked[i]).0 < names.len() {
        lemma_all_named(ranked, names, ranked.len() as int);
        assert(ranked.take(ranked.len() as int) =~= ranked);
    }
}

proof fn lemma_all_named<F>(ranked: Seq<(usize, F)>, names: Seq<Seq<char>>, n: int)
    requires
        0 <= n <= ranked.len(),
        forall|i: int| 0 <= i < ranked.len() ==> (#[trigger] ranked[i]).0 < names.len(),
    ensures
        by_name(ranked, names, n) == ranked.take(n).map_values(
            |entry: (usize, F)| (names[entry.0 as int], entry.1),
        ),
    decreases n,
{
    let named = |entry: (usize, F)| (names[entry.0 as int], entry.1);
    if n > 0 {
        lemma_all_named(ranked, names, n - 1);
        assert(ranked[n - 1].0 < names.len());
        assert(ranked.take(n).map_values(named) =~= ranked.take(n - 1).map_values(named).push(
            named(ranked[n - 1]),
        ));
    } else {
        assert(ranked.take(n).map_values(named) =~= Seq::<(Seq<char>, F)>::empty());
    }
}

/// What is recommended by identifiers: items of the catalogue with their own scores, never one that
/// is excluded, none followed by a greater score, and no candidate left out with a greater score.
pub proof fn recommended_names_score_best<F: PartialOrd>(
    ranked: Result<Vec<(String, F)>, ServingError>,
    scores: Seq<F>,
    excluded: Set<usize>,
    k: usize,
    mappings: Mappings,
)
    requires
        ranks_by_name(ranked, scores, excluded, k, mappings),
        scores.len() == mappings.idx_to_item@.len(),
        scores.len() <= usize::MAX,
        comparable(candidate_scores(scores, excluded)),
    ensures
        ({
            let list = ranked->Ok_0@;
            let best = top_k(scores, excluded, k);
            &&& ranked is Ok
            &&& list.len() == best.len()
            &&& forall|a: int|
                0 <= a < list.len() ==> {
                    &&& best[a].0 < scores.len() && !excluded.contains(best[a].0)
                    &&& (#[trigger] list[a]).0@ == mappings.idx_to_item@[best[a].0 as int]@
                    &&& list[a].1 == scores[best[a].0 as int]
                }
            &&& forall|a: int, b: int|
                #![trigger list[a], list[b]]
                0 <= a < b < list.len() ==> !list[b].1.is_gt(&list[a].1)
            &&& forall|i: usize, a: int|
                #![trigger excluded.contains(i), list[a]]
                i < scores.len() && !excluded.contains(i) && 0 <= a < list.len() && (forall|b: int|
                    0 <= b < best.len() ==> (#[trigger] best[b]).0 != i)
                    ==> !scores[i as int].is_gt(&list[a].1)
        }),
{
    let best = top_k(scores, excluded, k);
    let names = texts(mappings.idx_to_item@);
    top_k_is_best(scores, excluded, k);
    top_k_descends_by_score(scores, excluded, k);
    assert forall|i: int| 0 <= i < best.len() implies (#[trigger] best[i]).0 < names.len() by {}
    ranked_names_keep_the_order(best, names);
    let list = ranked->Ok_0@;
    assert(named_view(list).len() == list.len());
    assert forall|a: int| 0 <= a < list.len() implies (#[trigger] list[a]).0@
        == mappings.idx_to_item@[best[a].0 as int]@ && list[a].1 == scores[best[a].0 as int]
        && best[a].0 < scores.len() && !excluded.contains(best[a].0) by {
        assert(named_view(list)[a] == (list[a].0@, list[a].1));
        assert(best[a].0 < names.len());
        assert(names[best[a].0 as int] == mappings.idx_to_item@[best[a].0 as int]@);
    }
    assert forall|a: int, b: int|
        #![trigger list[a], list[b]]
        0 <= a < b < list.len() implies !list[b].1.is_gt(&list[a].1) by {
        assert(best[a] == best[a] && best[b] == best[b]);
    }
    assert forall|i: usize, a: int|
        #![trigger excluded.contains(i), list[a]]
        i < scores.len() && !excluded.contains(i) && 0 <= a < list.len() && (forall|b: int|
            0 <= b < best.len() ==> (#[trigger] best[b]).0 != i) implies !scores[i as int].is_gt(
        &list[a].1,
    ) by {
        assert(best[a] == best[a]);
    }
}

/// An EASE model is asked with the known interactions and features, each with its value; its reply
/// is ranked without the items interacted with.
pub proof fn ease_users_are_asked_by_index<V, F: PartialOrd, M: RecModel<V, F>>(
    model: M,
    interactions: Seq<(String, V)>,
    features: Seq<(String, V)>,
    k: usize,
    ranked: Result<Vec<(String, F)>, ServingError>,
)
    requires
        ease_outcome::<V, F, M>(model, interactions, features, k, ranked),
    ensures
        exists|
            mappings: &Mappings,
            items: &[(usize, V)],
            feats: &[(usize, V)],
            raw: Result<Vec<F>, ModelError>,
        |
            {
                &&& #[trigger] call_ensures(<M as RecModel<V, F>>::item_mapping, (&model,), mappings)
                &&& #[trigger] call_ensures(
                    M::predict_scores,
                    (&model, ModelInput::Sparse { interactions: items, user_features: feats }),
                    raw,
                )
                &&& items@ == places(
                    interactions.len(),
                    |i: int|
                        id_entries(mappings.item_to_idx).dom().contains(interactions[i].0@),
                ).map_values(
                    |i: int|
                        (id_entries(mappings.item_to_idx)[interactions[i].0@], interactions[i].1),
                )
                &&& feats@ == places(
                    features.len(),
                    |i: int|
                        id_entries(mappings.user_feature_to_idx).dom().contains(features[i].0@),
                ).map_values(
                    |i: int|
                        (id_entries(mappings.user_feature_to_idx)[features[i].0@], features[i].1),
                )
                &&& raw matches Ok(scores) ==> ranks_by_name(
                    ranked,
                    scores@,
                    items@.map_values(|pair: (usize, V)| pair.0).to_set(),
                    k,
                    *mappings,
                )
                &&& raw matches Err(error) ==> ranked == Err::<Vec<(String, F)>, ServingError>(
                    ServingError::Model(error),
                )
            },
{
    let (mappings, items, feats, raw) = choose|
        mappings: &Mappings,
        items: &[(usize, V)],
        feats: &[(usize, V)],
        raw: Result<Vec<F>, ModelError>,
    |
        {
            &&& #[trigger] call_ensures(<M as RecModel<V, F>>::item_mapping, (&model,), mappings)
            &&& items@ == known_pairs(
                id_entries(mappings.item_to_idx),
                interactions,
                interactions.len() as int,
            )
            &&& feats@ == known_pairs(
                id_entries(mappings.user_feature_to_idx),
                features,
                features.len() as int,
            )
            &&& #[trigger] call_ensures(
                M::predict_scores,
                (&model, ModelInput::Sparse { interactions: items, user_features: feats }),
                raw,
            )
            &&& match raw {
                Ok(scores) => ranks_by_name(
                    ranked,
                    scores@,
                    indices_of(items@).to_set(),
                    k,
                    *mappings,
                ),
                Err(error) => ranked == Err::<Vec<(String, F)>, ServingError>(
                    ServingError::Model(error),
                ),
            }
        };
    known_pairs_are_the_known_ones(id_entries(mappings.item_to_idx), interactions);
    known_pairs_are_the_known_ones(id_entries(mappings.user_feature_to_idx), features);
}

/// A SASRec model is asked with the known items of the history, oldest first; its reply is ranked
/// without them.
pub proof fn histories_are_asked_by_index<V, F: PartialOrd, M: RecModel<V, F>>(
    model: M,
    history: Seq<String>,
    k: usize,
    ranked: Result<Vec<(String, F)>, ServingError>,
)
    requires
        sasrec_outcome::<V, F, M>(model, history, k, ranked),
    ensures
        exists|mappings: &Mappings, items: &[usize], raw: Result<Vec<F>, ModelError>|
            {
                &&& #[trigger] call_ensures(<M as RecModel<V, F>>::item_mapping, (&model,), mappings)
                &&& #[trigger] call_ensures(
                    M::predict_scores,
                    (&model, ModelInput::Sequence { history: items }),
                    raw,
                )
                &&& items@ == places(
                    history.len(),
                    |i: int| id_entries(mappings.item_to_idx).dom().contains(history[i]@),
                ).map_values(|i: int| id_entries(mappings.item_to_idx)[history[i]@])
                &&& raw matches Ok(scores) ==> ranks_by_name(
                    ranked,
                    scores@,
                    items@.to_set(),
                    k,
                    *mappings,
                )
                &&& raw matches Err(error) ==> ranked == Err::<Vec<(String, F)>, ServingError>(
                    ServingError::Model(error),
                )
            },
{
    let (mappings, items, raw) = choose|
        mappings: &Mappings,
        items: &[usize],
        raw: Result<Vec<F>, ModelError>,
    |
        {
            &&& #[trigger] call_ensures(<M as RecModel<V, F>>::item_mapping, (&model,), mappings)
            &&& items@ == known_names(
                id_entries(mappings.item_to_idx),
                history,
                history.len() as int,
            )
            &&& #[trigger] call_ensures(
                M::predict_scores,
                (&model, ModelInput::Sequence { history: items }),
                raw,
            )
            &&& match raw {
                Ok(scores) => ranks_by_name(ranked, scores@, items@.to_set(), k, *mappings),
                Err(error) => ranked == Err::<Vec<(String, F)>, ServingError>(
                    ServingError::Model(error),
                ),
            }
        };
    known_names_are_the_known_ones(id_entries(mappings.item_to_idx), history);
}

/// A two-tower model is asked for the user's index where the user is known and without one where it
/// is not; nothing is excluded from its reply.
pub proof fn tower_users_are_asked_by_index<V, F: PartialOrd, M: RecModel<V, F>>(
    model: M,
    user_id: Seq<char>,
    features: &[(String, V)],
    k: usize,
    ranked: Result<Vec<(String, F)>, ServingError>,
)
    requires
        two_tower_outcome::<V, F, M>(model, user_id, features, k, ranked),
    ensures
        exists|
            mappings: &Mappings,
            user_idx: Option<usize>,
            cat: &[usize],
            dense: &[F],
            raw: Result<Vec<F>, ModelError>,
        |
            {
                &&& #[trigger] call_ensures(<M as RecModel<V, F>>::item_mapping, (&model,), mappings)
                &&& #[trigger] call_ensures(
                    M::predict_scores,
                    (
                        &model,
                        ModelInput::TowerUser {
                            user_idx,
                            cat_features: cat,
                            dense_features: dense,
                        },
                    ),
                    raw,
                )
                &&& user_idx is Some <==> id_entries(mappings.user_to_idx).dom().contains(user_id)
                &&& user_idx matches Some(idx) ==> idx == id_entries(mappings.user_to_idx)[user_id]
                &&& raw matches Ok(scores) ==> ranks_by_name(
                    ranked,
                    scores@,
                    Set::<usize>::empty(),
                    k,
                    *mappings,
                )
                &&& raw matches Err(error) ==> ranked == Err::<Vec<(String, F)>, ServingError>(
                    ServingError::Model(error),
                )
            },
{
}

/// A user of a batch is asked for with the interactions and the features as given.
pub proof fn batch_users_are_asked_as_given<V, F, M: RecModel<V, F>>(
    model: M,
    user: UserInput<V>,
    raw: Result<Vec<F>, ModelError>,
)
    requires
        replies_to(model, user, raw),
    ensures
        exists|items: &[(usize, V)], feats: &[(usize, V)]|
            {
                &&& #[trigger] call_ensures(
                    M::predict_scores,
                    (&model, ModelInput::Sparse { interactions: items, user_features: feats }),
                    raw,
                )
                &&& items@ == user.interactions@
                &&& feats@ == user.features@
            },
{
}

/// A model's reply is passed on as it is, and its error as the model's.
pub proof fn replies_are_passed_on<T>(outcome: Result<T, ModelError>)
    ensures
        outcome matches Ok(value) ==> lifted(outcome) == Ok::<T, ServingError>(value),
        outcome matches Err(error) ==> lifted(outcome) == Err::<T, ServingError>(
            ServingError::Model(error),
        ),
{
}

/// A model of another kind is refused with an error that names the territory, the kind that was
/// asked for and the kind that was found.
pub proof fn refusals_name_both_kinds<T>(
    ranked: Result<T, ServingError>,
    territory: Seq<char>,
    wanted: ModelKind,
    found: ModelKind,
)
    requires
        refuses_kind(ranked, territory, wanted, found),
    ensures
        ranked is Err,
        ranked->Err_0 is WrongKind,
        ranked->Err_0->WrongKind_territory@ == territory,
        ranked->Err_0->wanted == wanted,
        ranked->Err_0->found == found,
{
}

} // verus!
