//! Evaluating one configuration on one fold.

use crate::data_pipeline::{LongTable, Mappings};
use crate::evaluation::harness::model_replies;
use crate::evaluation::laws::the_model_sees_the_known_rows;
use crate::ids::{id_entries, index_contains, index_count, index_members, texts};
use crate::metrics::{
    cut, distinct_hits_are_found_items, hit_ranks_are_not_better_than_ideal,
    hit_ranks_are_places_of_relevant_items, hits_are_bounded, ranks_of_hits,
    recall_is_at_most_one, NdcgTerms,
};
use crate::models::{ModelError, ModelInput, RecModel};
use crate::numeric::{mean, mean_defined, mean_of};
use crate::order::{comparable, ordered_type, outranks};
use crate::selection::places;
use crate::serving::{collect_indices, filter_sort_top_k, indices_of};
use crate::top_k::{candidate_scores, index_set, top_k};
use crate::tuning::grid::HyperParams;
use crate::user_pairs::{
    all_pairs_of, known_rows, lists_users, pairs_are_the_known_rows, UserPairs,
};
use crate::weighting::WeightingConfig;
use ahash::AHashSet;
use std::ops::{Add, Div};
use vstd::prelude::*;
use vstd::std_specs::cmp::PartialOrdIs;

verus! {

/// `terms` are those of a trial's NDCG at `k`: the list is cut at its own length before the ideal
/// list is, so that a short list is not held against the user.
pub open spec fn is_trial_ndcg(
    terms: NdcgTerms,
    recommended: Seq<usize>,
    relevant: Set<usize>,
    k: usize,
) -> bool {
    if k == 0 || relevant.len() == 0 {
        terms.hit_ranks@.len() == 0 && terms.ideal_hits == 0
    } else {
        let places = cut(recommended, k as int);
        &&& terms.hit_ranks@ == ranks_of_hits(recommended, relevant, places)
        &&& terms.ideal_hits == (if relevant.len() <= places {
            relevant.len() as int
        } else {
            places
        })
    }
}

/// The terms of a trial's NDCG at `k`; there are none for `k == 0` or where nothing is relevant.
pub fn ndcg_at_k(recommended: &[usize], relevant: &AHashSet<usize>, k: usize) -> (terms: NdcgTerms)
    ensures
        is_trial_ndcg(terms, recommended@, index_members(*relevant), k),
{
    let num_relevant: usize = index_count(relevant);
    if num_relevant == 0 || k == 0 {
        return NdcgTerms { hit_ranks: Vec::new(), ideal_hits: 0 };
    }
    let places: usize = if k < recommended.len() {
        k
    } else {
        recommended.len()
    };
    let mut hit_ranks: Vec<usize> = Vec::new();
    let mut i: usize = 0;
    while i < places
        invariant
            i <= places <= recommended@.len(),
            hit_ranks@ == ranks_of_hits(recommended@, index_members(*relevant), i as int),
        decreases places - i,
    {
        if index_contains(relevant, recommended[i]) {
            hit_ranks.push(i);
        }
        i = i + 1;
    }
    let ideal_hits: usize = if num_relevant <= places {
        num_relevant
    } else {
        places
    };
    NdcgTerms { hit_ranks, ideal_hits }
}

/// Whether a configuration asks for weighting: any of its weighting parameters is above zero.
pub fn needs_weighting<T: PartialOrd>(params: &HyperParams<T>, zero: T) -> (needed: bool)
    requires
        ordered_type::<T>(),
    ensures
        needed == (outranks(params.decay_rate, zero) || outranks(params.ips_alpha, zero)
            || outranks(params.sparsity_threshold, zero)),
        needed <==> params.decay_rate.is_gt(&zero) || params.ips_alpha.is_gt(&zero)
            || params.sparsity_threshold.is_gt(&zero),
{
    params.decay_rate > zero || params.ips_alpha > zero || params.sparsity_threshold > zero
}

/// The weighting of a configuration; there is none where it asks for none. Trials know no weights
/// of events.
pub fn trial_weighting<T: Copy + PartialOrd>(params: &HyperParams<T>, zero: T) -> (config: Option<
    WeightingConfig<T>,
>)
    requires
        ordered_type::<T>(),
    ensures
        config == (if outranks(params.decay_rate, zero) || outranks(params.ips_alpha, zero)
            || outranks(params.sparsity_threshold, zero) {
            Some(
                (WeightingConfig {
                    event_weights: None,
                    decay_rate: params.decay_rate,
                    ips_alpha: params.ips_alpha,
                    sparsity_threshold: params.sparsity_threshold,
                }),
            )
        } else {
            None
        }),
        config is Some <==> params.decay_rate.is_gt(&zero) || params.ips_alpha.is_gt(&zero)
            || params.sparsity_threshold.is_gt(&zero),
{
    if needs_weighting(params, zero) {
        Some(
            WeightingConfig {
                event_weights: None,
                decay_rate: params.decay_rate,
                ips_alpha: params.ips_alpha,
                sparsity_threshold: params.sparsity_threshold,
            },
        )
    } else {
        None
    }
}

/// The score of a fold: the mean of its users' gains, where `count` stands for their number, and
/// zero where no user was measured.
pub fn fold_score<T: Copy + Add<Output = T> + Div<Output = T>>(
    gains: &[T],
    zero: T,
    count: T,
) -> (score: T)
    requires
        gains@.len() > 0 ==> mean_defined(gains@, zero, count),
    ensures
        score == (if gains@.len() == 0 {
            zero
        } else {
            mean_of(gains@, zero, count)
        }),
{
    if gains.len() == 0 {
        zero
    } else {
        mean(gains, zero, count)
    }
}

/// Ranks the items outside the training items and measures the list against the test items.
pub fn score_user<F: PartialOrd + Copy>(
    scores: Vec<F>,
    train_items: &[usize],
    test_items: &[usize],
    eval_k: usize,
) -> (terms: NdcgTerms)
    requires
        comparable(candidate_scores(scores@, train_items@.to_set())),
    ensures
        is_trial_ndcg(
            terms,
            indices_of(top_k(scores@, train_items@.to_set(), scores@.len() as usize)),
            test_items@.to_set(),
            eval_k,
        ),
{
    let n: usize = scores.len();
    let ranked = filter_sort_top_k(scores, train_items, n);
    let recommended = collect_indices(&ranked);
    let relevant = index_set(test_items);
    ndcg_at_k(&recommended, &relevant, eval_k)
}

/// `terms` are those of `user`, with the model's reply to its training rows and features.
pub open spec fn scores_user<V, F: PartialOrd, M: RecModel<V, F>>(
    model: M,
    mappings: Mappings,
    train: LongTable<V>,
    test: LongTable<V>,
    user_features: LongTable<V>,
    eval_k: usize,
    user: Seq<char>,
    terms: NdcgTerms,
) -> bool {
    exists|scores: Vec<F>| {
        &&& #[trigger] model_replies(
            model,
            mappings,
            train,
            Some(&user_features),
            user,
            Ok::<Vec<F>, ModelError>(scores),
        )
        &&& is_trial_ndcg(
            terms,
            indices_of(
                top_k(
                    scores@,
                    indices_of(
                        all_pairs_of(train, id_entries(mappings.item_to_idx), user),
                    ).to_set(),
                    scores@.len() as usize,
                ),
            ),
            indices_of(all_pairs_of(test, id_entries(mappings.item_to_idx), user)).to_set(),
            eval_k,
        )
    }
}

/// The test users of a fold and the terms of their NDCG.
pub struct FoldScores {
    pub users: Vec<String>,
    pub terms: Vec<NdcgTerms>,
}

/// `user` is a test user for which the model returned `error`.
pub open spec fn refuses_user<V, F, M: RecModel<V, F>>(
    model: M,
    mappings: Mappings,
    train: LongTable<V>,
    test: LongTable<V>,
    user_features: LongTable<V>,
    user: Seq<char>,
    error: ModelError,
) -> bool {
    &&& all_pairs_of(test, id_entries(mappings.item_to_idx), user).len() > 0
    &&& model_replies(
        model,
        mappings,
        train,
        Some(&user_features),
        user,
        Err::<Vec<F>, ModelError>(error),
    )
}

/// `outcome` is that of evaluating the model on a fold: the terms of each test user, or an error
/// that the model returned for one of them.
pub open spec fn is_fold_outcome<V, F: PartialOrd, M: RecModel<V, F>>(
    model: M,
    mappings: Mappings,
    train: LongTable<V>,
    test: LongTable<V>,
    user_features: LongTable<V>,
    eval_k: usize,
    outcome: Result<FoldScores, ModelError>,
) -> bool {
    match outcome {
        Ok(scores) => {
            &&& lists_users(texts(scores.users@), test, id_entries(mappings.item_to_idx))
            &&& scores.terms@.len() == scores.users@.len()
            &&& forall|j: int|
                0 <= j < scores.terms@.len() ==> scores_user::<V, F, M>(
                    model,
                    mappings,
                    train,
                    test,
                    user_features,
                    eval_k,
                    scores.users@[j]@,
                    #[trigger] scores.terms@[j],
                )
        },
        Err(error) => exists|user: Seq<char>|
            #[trigger] refuses_user::<V, F, M>(
                model,
                mappings,
                train,
                test,
                user_features,
                user,
                error,
            ),
    }
}

/// Whatever scores the model returns for a test user can be ranked without its training items.
pub open spec fn fold_replies_comparable<V, F: PartialOrd, M: RecModel<V, F>>(
    model: M,
    train: LongTable<V>,
    test: LongTable<V>,
    user_features: LongTable<V>,
) -> bool {
    forall|mappings: &Mappings, user: Seq<char>, raw: Result<Vec<F>, ModelError>|
        #![trigger
            call_ensures(<M as RecModel<V, F>>::item_mapping, (&model,), mappings),
            model_replies(model, *mappings, train, Some(&user_features), user, raw)
        ]
        call_ensures(<M as RecModel<V, F>>::item_mapping, (&model,), mappings) && all_pairs_of(
            test,
            id_entries(mappings.item_to_idx),
            user,
        ).len() > 0 && model_replies(model, *mappings, train, Some(&user_features), user, raw) ==> (
        raw matches Ok(scores) ==> comparable(
            candidate_scores(
                scores@,
                indices_of(all_pairs_of(train, id_entries(mappings.item_to_idx), user)).to_set(),
            ),
        ))
}

/// A refused test user is an outcome of its own.
proof fn lemma_refused<V, F: PartialOrd, M: RecModel<V, F>>(
    model: M,
    mappings: Mappings,
    train: LongTable<V>,
    test: LongTable<V>,
    user_features: LongTable<V>,
    eval_k: usize,
    user: Seq<char>,
    error: ModelError,
)
    requires
        refuses_user::<V, F, M>(model, mappings, train, test, user_features, user, error),
    ensures
        is_fold_outcome::<V, F, M>(
            model,
            mappings,
            train,
            test,
            user_features,
            eval_k,
            Err(error),
        ),
{
    let outcome: Result<FoldScores, ModelError> = Err(error);
    assert(refuses_user::<V, F, M>(
        model,
        mappings,
        train,
        test,
        user_features,
        user,
        outcome->Err_0,
    ));
}

/// The terms of every test user's NDCG, by user, each once; the trial's score is the mean over them
/// and zero where there is none.
///
/// A test user is one with a test row of a known item. It is scored from its training rows, of which
/// it may have none, and its features.
#[verifier::rlimit(30)]
pub fn evaluate_fold<V: Copy, F: PartialOrd + Copy, M: RecModel<V, F>>(
    model: &M,
    train: &LongTable<V>,
    test: &LongTable<V>,
    user_features: &LongTable<V>,
    eval_k: usize,
) -> (outcome: Result<FoldScores, ModelError>)
    requires
        fold_replies_comparable::<V, F, M>(*model, *train, *test, *user_features),
    ensures
        exists|mappings: &Mappings|
            #[trigger] call_ensures(<M as RecModel<V, F>>::item_mapping, (model,), mappings)
                && is_fold_outcome::<V, F, M>(
                *model,
                *mappings,
                *train,
                *test,
                *user_features,
                eval_k,
                outcome,
            ),
{
    let mappings = model.item_mapping();
    let train_map = UserPairs::build(train, &mappings.item_to_idx);
    let test_map = UserPairs::build(test, &mappings.item_to_idx);
    let feature_map = UserPairs::build(user_features, &mappings.user_feature_to_idx);
    let users = test_map.users();
    let mut terms: Vec<NdcgTerms> = Vec::new();
    let mut u: usize = 0;
    while u < users.len()
        invariant
            fold_replies_comparable::<V, F, M>(*model, *train, *test, *user_features),
            u <= users@.len(),
            call_ensures(<M as RecModel<V, F>>::item_mapping, (model,), mappings),
            train_map.holds(*train, id_entries(mappings.item_to_idx)),
            test_map.holds(*test, id_entries(mappings.item_to_idx)),
            feature_map.holds(*user_features, id_entries(mappings.user_feature_to_idx)),
            lists_users(texts(users@), *test, id_entries(mappings.item_to_idx)),
            terms@.len() == u,
            forall|j: int|
                0 <= j < terms@.len() ==> scores_user::<V, F, M>(
                    *model,
                    *mappings,
                    *train,
                    *test,
                    *user_features,
                    eval_k,
                    users@[j]@,
                    #[trigger] terms@[j],
                ),
        decreases users@.len() - u,
    {
        let ghost user: Seq<char> = texts(users@)[u as int];
        assert(user == users@[u as int]@);
        let train_items = train_map.get(users[u].as_str());
        let features = feature_map.get(users[u].as_str());
        let test_items = test_map.get(users[u].as_str());
        let reply = model.predict_scores(
            ModelInput::Sparse {
                interactions: train_items.as_slice(),
                user_features: features.as_slice(),
            },
        );
        assert(model_replies::<V, F, M>(
            *model,
            *mappings,
            *train,
            Some(user_features),
            user,
            reply,
        ));
        match reply {
            Ok(scores) => {
                let seen = collect_indices(&train_items);
                let relevant = collect_indices(&test_items);
                proof {
                    assert(texts(users@).contains(user));
                }
                let ghost all_scores = scores;
                let found = score_user(scores, &seen, &relevant, eval_k);
                assert(model_replies::<V, F, M>(
                    *model,
                    *mappings,
                    *train,
                    Some(user_features),
                    user,
                    Ok::<Vec<F>, ModelError>(all_scores),
                ));
                assert(scores_user::<V, F, M>(
                    *model,
                    *mappings,
                    *train,
                    *test,
                    *user_features,
                    eval_k,
                    user,
                    found,
                ));
                terms.push(found);
            },
            Err(error) => {
                proof {
                    assert(texts(users@)[u as int] == user);
                    assert(texts(users@).contains(user));
                    assert(refuses_user::<V, F, M>(
                        *model,
                        *mappings,
                        *train,
                        *test,
                        *user_features,
                        user,
                        error,
                    ));
                    lemma_refused::<V, F, M>(
                        *model,
                        *mappings,
                        *train,
                        *test,
                        *user_features,
                        eval_k,
                        user,
                        error,
                    );
                }
                return Err(error);
            },
        }
        u = u + 1;
    }
    Ok(FoldScores { users, terms })
}

/// A list without repetition has at most as many hits as a trial's ideal list, at ranks that are not
/// better: the NDCG of a trial is at most one.
pub proof fn trial_hits_are_at_most_ideal(
    terms: NdcgTerms,
    recommended: Seq<usize>,
    relevant: Set<usize>,
    k: usize,
)
    requires
        is_trial_ndcg(terms, recommended, relevant, k),
        recommended.no_duplicates(),
        recommended.len() <= usize::MAX,
        relevant.finite(),
    ensures
        terms.hit_ranks@.len() <= terms.ideal_hits,
        forall|j: int|
            0 <= j < terms.hit_ranks@.len() ==> j <= #[trigger] terms.hit_ranks@[j],
{
    let places = cut(recommended, k as int);
    hit_ranks_are_not_better_than_ideal(recommended, relevant, places);
    hits_are_bounded(recommended, relevant, places);
    recall_is_at_most_one(recommended, relevant, places);
    distinct_hits_are_found_items(recommended, relevant, places);
}

/// A test user's terms rest on the model's scores for the user's known training rows and the user's
/// known rows of the feature table, each row by the index of its item or feature and with its value.
pub proof fn a_trial_rests_on_the_known_rows<V, F: PartialOrd, M: RecModel<V, F>>(
    model: M,
    mappings: Mappings,
    train: LongTable<V>,
    test: LongTable<V>,
    user_features: LongTable<V>,
    eval_k: usize,
    user: Seq<char>,
    terms: NdcgTerms,
)
    requires
        scores_user::<V, F, M>(
            model,
            mappings,
            train,
            test,
            user_features,
            eval_k,
            user,
            terms,
        ),
    ensures
        exists|items: &[(usize, V)], feats: &[(usize, V)], scores: Vec<F>|
            {
                &&& #[trigger] call_ensures(
                    M::predict_scores,
                    (&model, ModelInput::Sparse { interactions: items, user_features: feats }),
                    Ok::<Vec<F>, ModelError>(scores),
                )
                &&& items@ == known_rows(train, id_entries(mappings.item_to_idx), user)
                &&& feats@ == known_rows(
                    user_features,
                    id_entries(mappings.user_feature_to_idx),
                    user,
                )
                &&& is_trial_ndcg(
                    terms,
                    indices_of(
                        top_k(
                            scores@,
                            items@.map_values(|pair: (usize, V)| pair.0).to_set(),
                            scores@.len() as usize,
                        ),
                    ),
                    known_rows(test, id_entries(mappings.item_to_idx), user).map_values(
                        |pair: (usize, V)| pair.0,
                    ).to_set(),
                    eval_k,
                )
            },
{
    let catalogue = id_entries(mappings.item_to_idx);
    let scores = choose|scores: Vec<F>|
        {
            &&& #[trigger] model_replies(
                model,
                mappings,
                train,
                Some(&user_features),
                user,
                Ok::<Vec<F>, ModelError>(scores),
            )
            &&& is_trial_ndcg(
                terms,
                indices_of(
                    top_k(
                        scores@,
                        indices_of(all_pairs_of(train, catalogue, user)).to_set(),
                        scores@.len() as usize,
                    ),
                ),
                indices_of(all_pairs_of(test, catalogue, user)).to_set(),
                eval_k,
            )
        };
    the_model_sees_the_known_rows(
        model,
        mappings,
        train,
        Some(&user_features),
        user,
        Ok::<Vec<F>, ModelError>(scores),
    );
    pairs_are_the_known_rows(train, catalogue, user);
    pairs_are_the_known_rows(test, catalogue, user);
}

/// A trial's terms, from the list alone: the places of relevant items among the first `k`, and as
/// many ideal hits as there are relevant items, at most as many as places.
pub proof fn trial_terms_count_relevant_items(
    terms: NdcgTerms,
    recommended: Seq<usize>,
    relevant: Set<usize>,
    k: usize,
)
    requires
        is_trial_ndcg(terms, recommended, relevant, k),
        k > 0,
        relevant.len() > 0,
    ensures
        ({
            let n: nat = if k <= recommended.len() {
                k as nat
            } else {
                recommended.len()
            };
            &&& terms.hit_ranks@ == places(
                n,
                |i: int| relevant.contains(recommended[i]),
            ).map_values(|i: int| i as usize)
            &&& terms.ideal_hits <= n && terms.ideal_hits <= relevant.len()
            &&& terms.ideal_hits == n || terms.ideal_hits == relevant.len()
        }),
{
    hit_ranks_are_places_of_relevant_items(
        recommended,
        relevant,
        cut(recommended, k as int) as nat,
    );
}

} // verus!
