//! Evaluating a model on held-out interactions.

use crate::data_pipeline::{LongTable, Mappings};
use crate::groups::{group_rows, lemma_rows_of, lists_view, names_of, rows_by_name, rows_of};
use crate::ids::{id_entries, id_get, text_of, texts};
use crate::metrics::{
    coverage, cut, found_items, hit_rate_at_k, items_of, mean_average_precision, ndcg_at_k,
    precision_at_k, precisions_at_hits, ranks_of_hits, recall_at_k, NdcgTerms, PrecisionTerms,
    Ratio,
};
use crate::models::{ModelError, ModelInput, RecModel};
use crate::order::comparable;
use crate::serving::{collect_indices, filter_sort_top_k, indices_of};
use crate::top_k::{candidate_scores, top_k};
use crate::user_pairs::{all_pairs_of, UserPairs};
use std::collections::HashSet;
use vstd::prelude::*;

verus! {

broadcast use vstd::std_specs::hash::group_hash_axioms;

/// What to evaluate.
#[derive(Debug, Clone)]
pub struct EvalConfig {
    /// The list lengths to evaluate at.
    pub k_values: Vec<usize>,
}

/// One user's metrics at one list length.
pub struct UserMetrics {
    pub k: usize,
    pub precision: Ratio,
    pub recall: Ratio,
    pub ndcg: NdcgTerms,
    pub map: PrecisionTerms,
    pub hit: bool,
}

/// One user's recommendations and metrics.
pub struct UserEvaluation {
    /// The recommended items, best first, up to the greatest list length.
    pub recommended: Vec<usize>,
    /// The number of relevant items.
    pub num_relevant: usize,
    /// The metrics, one entry per list length.
    pub at_k: Vec<UserMetrics>,
}

/// The outcome of an evaluation, from which the mean metrics are taken.
pub struct EvalReport {
    /// The evaluated users, in ascending order of their identifiers.
    pub users: Vec<UserEvaluation>,
    /// The share of the catalogue that was recommended to anyone.
    pub coverage: Ratio,
    /// The number of evaluated users.
    pub num_users: usize,
    /// The number of their relevant items.
    pub num_interactions: usize,
}

/// Why there is no report.
pub enum EvalError {
    /// No test user is known to the model.
    NoUsers,
    /// The model returned an error.
    Model(ModelError),
}

impl EvalError {
    /// A description for the caller.
    pub fn message(&self) -> (text: String)
        ensures
            text@ == match *self {
                EvalError::NoUsers =>
                    "No test users could be evaluated (no overlap between test users and model mappings)"@,
                EvalError::Model(error) => error.message@,
            },
    {
        match self {
            EvalError::NoUsers =>
                "No test users could be evaluated (no overlap between test users and model mappings)".to_owned(),
            EvalError::Model(error) => error.message.clone(),
        }
    }
}

/// `value` is the precision at `k`.
pub open spec fn is_precision(
    value: Ratio,
    recommended: Seq<usize>,
    relevant: Set<usize>,
    k: usize,
) -> bool {
    if k == 0 {
        value == (Ratio { hits: 0, out_of: 1 })
    } else {
        value.out_of == k && value.hits == found_items(
            recommended,
            relevant,
            cut(recommended, k as int),
        ).len()
    }
}

/// `value` is the recall at `k`.
pub open spec fn is_recall(
    value: Ratio,
    recommended: Seq<usize>,
    relevant: Set<usize>,
    k: usize,
) -> bool {
    if relevant.len() == 0 {
        value == (Ratio { hits: 0, out_of: 1 })
    } else {
        value.out_of == relevant.len() && value.hits == found_items(
            recommended,
            relevant,
            cut(recommended, k as int),
        ).len()
    }
}

/// `terms` are those of the NDCG at `k`.
pub open spec fn is_ndcg(
    terms: NdcgTerms,
    recommended: Seq<usize>,
    relevant: Set<usize>,
    k: usize,
) -> bool {
    if k == 0 || relevant.len() == 0 {
        terms.hit_ranks@.len() == 0 && terms.ideal_hits == 0
    } else {
        &&& terms.hit_ranks@ == ranks_of_hits(recommended, relevant, cut(recommended, k as int))
        &&& terms.ideal_hits == (if relevant.len() <= k {
            relevant.len() as int
        } else {
            k as int
        })
    }
}

/// `terms` are those of the average precision of the list cut at `k`.
pub open spec fn is_map(
    terms: PrecisionTerms,
    recommended: Seq<usize>,
    relevant: Set<usize>,
    k: usize,
) -> bool {
    let list = recommended.take(cut(recommended, k as int));
    &&& terms.num_relevant == relevant.len()
    &&& relevant.len() == 0 ==> terms.precisions@.len() == 0
    &&& relevant.len() > 0 ==> terms.precisions@ == precisions_at_hits(
        list,
        relevant,
        list.len() as int,
    )
}

/// `metrics` are those of a list at `k`.
pub open spec fn are_metrics(
    metrics: UserMetrics,
    recommended: Seq<usize>,
    relevant: Set<usize>,
    k: usize,
) -> bool {
    &&& metrics.k == k
    &&& is_precision(metrics.precision, recommended, relevant, k)
    &&& is_recall(metrics.recall, recommended, relevant, k)
    &&& is_ndcg(metrics.ndcg, recommended, relevant, k)
    &&& is_map(metrics.map, recommended, relevant, k)
    &&& metrics.hit == exists|i: int|
        0 <= i < cut(recommended, k as int) && relevant.contains(#[trigger] recommended[i])
}

/// The greatest of the first `n` list lengths.
pub open spec fn greatest_of(k_values: Seq<usize>, n: int) -> usize
    decreases n,
{
    if n <= 1 {
        k_values[0]
    } else {
        let rest = greatest_of(k_values, n - 1);
        if k_values[n - 1] > rest {
            k_values[n - 1]
        } else {
            rest
        }
    }
}

/// The length of the recommended lists: the greatest list length, or ten where there is none.
pub open spec fn max_k(k_values: Seq<usize>) -> usize {
    if k_values.len() == 0 {
        10
    } else {
        greatest_of(k_values, k_values.len() as int)
    }
}

/// `evaluation` is that of a user with the given scores, training items and relevant items.
pub open spec fn is_evaluation<F: PartialOrd>(
    evaluation: UserEvaluation,
    scores: Seq<F>,
    train_items: Set<usize>,
    relevant: Set<usize>,
    k_values: Seq<usize>,
) -> bool {
    &&& evaluation.recommended@ == indices_of(top_k(scores, train_items, max_k(k_values)))
    &&& evaluation.num_relevant == relevant.len()
    &&& evaluation.at_k@.len() == k_values.len()
    &&& forall|j: int|
        0 <= j < k_values.len() ==> are_metrics(
            #[trigger] evaluation.at_k@[j],
            evaluation.recommended@,
            relevant,
            k_values[j],
        )
}

/// The greatest list length, or ten where there is none.
fn greatest_k(k_values: &Vec<usize>) -> (k: usize)
    ensures
        k == max_k(k_values@),
{
    if k_values.len() == 0 {
        return 10;
    }
    let mut best: usize = k_values[0];
    let mut i: usize = 1;
    while i < k_values.len()
        invariant
            1 <= i <= k_values@.len(),
            best == greatest_of(k_values@, i as int),
        decreases k_values@.len() - i,
    {
        if k_values[i] > best {
            best = k_values[i];
        }
        i = i + 1;
    }
    best
}

/// Evaluates one user: ranks the items outside the training items and measures the list against
/// the relevant items.
pub fn evaluate_user<F: PartialOrd + Copy>(
    scores: Vec<F>,
    train_items: &[usize],
    relevant: &HashSet<usize>,
    config: &EvalConfig,
) -> (evaluation: UserEvaluation)
    requires
        comparable(candidate_scores(scores@, train_items@.to_set())),
    ensures
        is_evaluation(
            evaluation,
            scores@,
            train_items@.to_set(),
            relevant@,
            config.k_values@,
        ),
{
    let best = greatest_k(&config.k_values);
    let ranked = filter_sort_top_k(scores, train_items, best);
    let recommended = collect_indices(&ranked);
    let mut at_k: Vec<UserMetrics> = Vec::new();
    let mut j: usize = 0;
    while j < config.k_values.len()
        invariant
            j <= config.k_values@.len(),
            at_k@.len() == j,
            forall|a: int|
                0 <= a < j ==> are_metrics(
                    #[trigger] at_k@[a],
                    recommended@,
                    relevant@,
                    config.k_values@[a],
                ),
        decreases config.k_values@.len() - j,
    {
        let k: usize = config.k_values[j];
        let n: usize = if k < recommended.len() {
            k
        } else {
            recommended.len()
        };
        let list = vstd::slice::slice_subrange(recommended.as_slice(), 0, n);
        assert(list@ =~= recommended@.take(cut(recommended@, k as int)));
        let metrics = UserMetrics {
            k,
            precision: precision_at_k(&recommended, relevant, k),
            recall: recall_at_k(&recommended, relevant, k),
            ndcg: ndcg_at_k(&recommended, relevant, k),
            map: mean_average_precision(list, relevant),
            hit: hit_rate_at_k(&recommended, relevant, k),
        };
        at_k.push(metrics);
        j = j + 1;
    }
    UserEvaluation { recommended, num_relevant: relevant.len(), at_k }
}

/// The user column of the test rows, with rows of unknown items blanked.
pub open spec fn test_users(
    users: Seq<Option<String>>,
    items: Seq<Option<String>>,
    catalogue: Map<Seq<char>, usize>,
) -> Seq<Option<String>> {
    Seq::new(
        (if users.len() <= items.len() {
            users.len()
        } else {
            items.len()
        }),
        |i: int|
            if (text_of(items[i]) matches Some(item) && catalogue.dom().contains(item)) {
                users[i]
            } else {
                None
            },
    )
}

/// The item indices of the given rows.
pub open spec fn row_items(
    items: Seq<Option<String>>,
    catalogue: Map<Seq<char>, usize>,
    rows: Seq<usize>,
) -> Seq<usize> {
    rows.map_values(|row: usize| catalogue[items[row as int].unwrap()@])
}

/// The relevant items of `user`: those of its test rows.
pub open spec fn relevant_items(
    users: Seq<Option<String>>,
    items: Seq<Option<String>>,
    catalogue: Map<Seq<char>, usize>,
    user: Seq<char>,
) -> Set<usize> {
    row_items(
        items,
        catalogue,
        rows_of(test_users(users, items, catalogue), user),
    ).to_set()
}

/// The names among the first `n` that are known.
pub open spec fn known(names: Seq<Seq<char>>, index: Map<Seq<char>, usize>, n: int) -> Seq<Seq<char>>
    decreases n,
{
    if n <= 0 {
        Seq::empty()
    } else if index.dom().contains(names[n - 1]) {
        known(names, index, n - 1).push(names[n - 1])
    } else {
        known(names, index, n - 1)
    }
}

/// The users that are evaluated: those with a relevant item that the model knows, ascending.
pub open spec fn evaluated_users(
    users: Seq<Option<String>>,
    items: Seq<Option<String>>,
    mappings: Mappings,
) -> Seq<Seq<char>> {
    let names = names_of(test_users(users, items, id_entries(mappings.item_to_idx)));
    known(names, id_entries(mappings.user_to_idx), names.len() as int)
}

/// The feature pairs of `user`; none without a feature table.
pub open spec fn feature_pairs<V>(
    features: Option<&LongTable<V>>,
    index: Map<Seq<char>, usize>,
    user: Seq<char>,
) -> Seq<(usize, V)> {
    match features {
        Some(table) => all_pairs_of(*table, index, user),
        None => Seq::empty(),
    }
}

/// `raw` is a reply of the model to the training rows and features of `user`.
pub open spec fn model_replies<V, F, M: RecModel<V, F>>(
    model: M,
    mappings: Mappings,
    train: LongTable<V>,
    features: Option<&LongTable<V>>,
    user: Seq<char>,
    raw: Result<Vec<F>, ModelError>,
) -> bool {
    exists|items: &[(usize, V)], feats: &[(usize, V)]| {
        &&& items@ == all_pairs_of(train, id_entries(mappings.item_to_idx), user)
        &&& feats@ == feature_pairs(features, id_entries(mappings.user_feature_to_idx), user)
        &&& #[trigger] call_ensures(
            M::predict_scores,
            (&model, ModelInput::Sparse { interactions: items, user_features: feats }),
            raw,
        )
    }
}

/// `evaluation` is that of `user`, with the model's reply for it.
pub open spec fn evaluates_user<V, F: PartialOrd, M: RecModel<V, F>>(
    model: M,
    mappings: Mappings,
    test_user_column: Seq<Option<String>>,
    test_item_column: Seq<Option<String>>,
    train: LongTable<V>,
    features: Option<&LongTable<V>>,
    k_values: Seq<usize>,
    user: Seq<char>,
    evaluation: UserEvaluation,
) -> bool {
    exists|scores: Vec<F>| {
        &&& #[trigger] model_replies(
            model,
            mappings,
            train,
            features,
            user,
            Ok::<Vec<F>, ModelError>(scores),
        )
        &&& is_evaluation(
            evaluation,
            scores@,
            indices_of(all_pairs_of(train, id_entries(mappings.item_to_idx), user)).to_set(),
            relevant_items(
                test_user_column,
                test_item_column,
                id_entries(mappings.item_to_idx),
                user,
            ),
            k_values,
        )
    }
}

/// Whatever scores the model returns for an evaluated user can be ranked without its training items.
pub open spec fn replies_comparable<V, F: PartialOrd, M: RecModel<V, F>>(
    model: M,
    test_user_column: Seq<Option<String>>,
    test_item_column: Seq<Option<String>>,
    train: LongTable<V>,
    features: Option<&LongTable<V>>,
) -> bool {
    forall|mappings: &Mappings, user: Seq<char>, raw: Result<Vec<F>, ModelError>|
        #![trigger
            call_ensures(<M as RecModel<V, F>>::item_mapping, (&model,), mappings),
            model_replies(model, *mappings, train, features, user, raw)
        ]
        call_ensures(<M as RecModel<V, F>>::item_mapping, (&model,), mappings) && evaluated_users(
            test_user_column,
            test_item_column,
            *mappings,
        ).contains(user) && model_replies(model, *mappings, train, features, user, raw) ==> (
        raw matches Ok(scores) ==> comparable(
            candidate_scores(
                scores@,
                indices_of(all_pairs_of(train, id_entries(mappings.item_to_idx), user)).to_set(),
            ),
        ))
}

/// The number of relevant items of the first `n` evaluations.
pub open spec fn total_relevant(users: Seq<UserEvaluation>, n: int) -> nat
    decreases n,
{
    if n <= 0 {
        0
    } else {
        total_relevant(users, n - 1) + users[n - 1].num_relevant as nat
    }
}

/// The recommended lists of the evaluations.
pub open spec fn lists_of(users: Seq<UserEvaluation>) -> Seq<Seq<usize>> {
    users.map_values(|user: UserEvaluation| user.recommended@)
}

/// `share` is the coverage of the lists over `num_items` items.
pub open spec fn is_coverage(share: Ratio, lists: Seq<Seq<usize>>, num_items: usize) -> bool {
    if num_items == 0 {
        share == (Ratio { hits: 0, out_of: 1 })
    } else {
        share.out_of == num_items && share.hits == Set::new(
            |x: usize| exists|a: int| 0 <= a < lists.len() && (#[trigger] lists[a]).contains(x),
        ).len()
    }
}

/// The items of lists are those of their views.
proof fn lemma_items_of(lists: Seq<Vec<usize>>, n: int)
    requires
        0 <= n <= lists.len(),
    ensures
        items_of(lists, n) == Set::new(
            |x: usize| exists|a: int| 0 <= a < n && (#[trigger] lists[a])@.contains(x),
        ),
    decreases n,
{
    let all = |m: int|
        Set::new(|x: usize| exists|a: int| 0 <= a < m && (#[trigger] lists[a])@.contains(x));
    if n > 0 {
        lemma_items_of(lists, n - 1);
        assert forall|x: usize| items_of(lists, n).contains(x) <==> all(n).contains(x) by {
            if all(n - 1).contains(x) {
                let a = choose|a: int| 0 <= a < n - 1 && (#[trigger] lists[a])@.contains(x);
                assert(0 <= a < n && lists[a]@.contains(x));
            }
            if lists[n - 1]@.contains(x) {
                assert(0 <= n - 1 < n);
            }
            if all(n).contains(x) {
                let a = choose|a: int| 0 <= a < n && (#[trigger] lists[a])@.contains(x);
                if a < n - 1 {
                    assert(all(n - 1).contains(x));
                }
            }
        }
        assert(items_of(lists, n) =~= all(n));
    } else {
        assert(items_of(lists, n) =~= all(n));
    }
}

/// The number of rows that the first `n` names have together.
spec fn rows_together(column: Seq<Option<String>>, names: Seq<Seq<char>>, n: int) -> nat
    decreases n,
{
    if n <= 0 {
        0
    } else {
        rows_together(column, names, n - 1) + rows_of(column, names[n - 1]).len()
    }
}

/// Distinct names have no more rows together than the column.
proof fn lemma_rows_together(column: Seq<Option<String>>, names: Seq<Seq<char>>, n: int)
    requires
        0 <= n <= names.len(),
        names.no_duplicates(),
    ensures
        rows_together(column, names, n) <= column.len(),
    decreases column.len(),
{
    if column.len() == 0 {
        lemma_no_rows_together(column, names, n);
    } else {
        lemma_rows_together(column.drop_last(), names, n);
        lemma_one_more_row(column, names, n);
    }
}

proof fn lemma_no_rows_together(column: Seq<Option<String>>, names: Seq<Seq<char>>, n: int)
    requires
        column.len() == 0,
    ensures
        rows_together(column, names, n) == 0,
    decreases n,
{
    if n > 0 {
        lemma_no_rows_together(column, names, n - 1);
    }
}

proof fn lemma_one_more_row(column: Seq<Option<String>>, names: Seq<Seq<char>>, n: int)
    requires
        0 <= n <= names.len(),
        names.no_duplicates(),
        column.len() > 0,
    ensures
        rows_together(column, names, n) == rows_together(column.drop_last(), names, n) + (if exists|
            a: int,
        |
            0 <= a < n && text_of(column.last()) == Some(#[trigger] names[a]) {
            1int
        } else {
            0
        }),
    decreases n,
{
    if n > 0 {
        lemma_one_more_row(column, names, n - 1);
        if text_of(column.last()) == Some(names[n - 1]) {
            assert(0 <= n - 1 < n && text_of(column.last()) == Some(names[n - 1]));
            assert(!(exists|a: int|
                0 <= a < n - 1 && text_of(column.last()) == Some(#[trigger] names[a])));
        } else if exists|a: int| 0 <= a < n && text_of(column.last()) == Some(#[trigger] names[a]) {
            let a = choose|a: int|
                0 <= a < n && text_of(column.last()) == Some(#[trigger] names[a]);
            assert(0 <= a < n - 1 && text_of(column.last()) == Some(names[a]));
        }
    }
}

/// The relevant items of a user are no more than its test rows.
proof fn lemma_relevant_bounded(
    items: Seq<Option<String>>,
    catalogue: Map<Seq<char>, usize>,
    rows: Seq<usize>,
)
    ensures
        row_items(items, catalogue, rows).to_set().finite(),
        row_items(items, catalogue, rows).to_set().len() <= rows.len(),
{
    vstd::seq_lib::seq_to_set_is_finite(row_items(items, catalogue, rows));
    row_items(items, catalogue, rows).lemma_cardinality_of_set();
}

/// The user column of the test rows, with rows of unknown items blanked.
fn blank_unknown_items(
    users: &[Option<String>],
    items: &[Option<String>],
    mappings: &Mappings,
) -> (column: Vec<Option<String>>)
    ensures
        column@ == test_users(users@, items@, id_entries(mappings.item_to_idx)),
{
    let ghost all = test_users(users@, items@, id_entries(mappings.item_to_idx));
    let mut column: Vec<Option<String>> = Vec::new();
    let mut i: usize = 0;
    while i < users.len() && i < items.len()
        invariant
            i <= users@.len(),
            i <= items@.len(),
            all == test_users(users@, items@, id_entries(mappings.item_to_idx)),
            column@ == all.take(i as int),
        decreases users@.len() - i,
    {
        let mut cell: Option<String> = None;
        if let Some(item) = &items[i] {
            if id_get(&mappings.item_to_idx, item.as_str()).is_some() {
                if let Some(user) = &users[i] {
                    cell = Some(user.clone());
                }
            }
        }
        assert(cell == all[i as int]);
        column.push(cell);
        assert(column@ =~= all.take(i + 1));
        i = i + 1;
    }
    assert(all.take(i as int) =~= all);
    column
}

/// The relevant items at the given rows.
fn collect_relevant(
    items: &[Option<String>],
    mappings: &Mappings,
    rows: &Vec<usize>,
) -> (relevant: HashSet<usize>)
    requires
        forall|k: int|
            0 <= k < rows@.len() ==> (#[trigger] rows@[k]) < items@.len() && (text_of(
                items@[rows@[k] as int],
            ) matches Some(item) && id_entries(mappings.item_to_idx).dom().contains(item)),
    ensures
        relevant@ == row_items(items@, id_entries(mappings.item_to_idx), rows@).to_set(),
{
    let ghost all = row_items(items@, id_entries(mappings.item_to_idx), rows@);
    let mut relevant: HashSet<usize> = HashSet::new();
    let mut k: usize = 0;
    assert(all.take(0).to_set() =~= Set::<usize>::empty());
    while k < rows.len()
        invariant
            k <= rows@.len(),
            all == row_items(items@, id_entries(mappings.item_to_idx), rows@),
            forall|k: int|
                0 <= k < rows@.len() ==> (#[trigger] rows@[k]) < items@.len() && (text_of(
                    items@[rows@[k] as int],
                ) matches Some(item) && id_entries(mappings.item_to_idx).dom().contains(item)),
            relevant@ == all.take(k as int).to_set(),
        decreases rows@.len() - k,
    {
        if let Some(item) = &items[rows[k]] {
            if let Some(idx) = id_get(&mappings.item_to_idx, item.as_str()) {
                relevant.insert(idx);
                proof {
                    let short = all.take(k as int);
                    let long = all.take(k + 1);
                    assert(all[k as int] == idx);
                    assert(long =~= short.push(idx));
                    assert forall|x: usize|
                        long.to_set().contains(x) <==> short.to_set().insert(idx).contains(x) by {
                        if long.contains(x) {
                            let j = choose|j: int| 0 <= j < long.len() && long[j] == x;
                            if j < short.len() {
                                assert(short[j] == x);
                            }
                        }
                        if short.contains(x) {
                            let j = choose|j: int| 0 <= j < short.len() && short[j] == x;
                            assert(long[j] == x);
                        }
                        assert(long[k as int] == idx);
                    }
                    assert(relevant@ =~= long.to_set());
                }
            }
        }
        k = k + 1;
    }
    assert(all.take(k as int) =~= all);
    relevant
}

/// Evaluates a model on test rows.
///
/// Each test user that the model knows is scored from its training rows and features; the items
/// outside its training rows are ranked and the list is measured against the items of its test
/// rows. Rows with missing cells or unknown items are skipped.
#[verifier::rlimit(40)]
pub fn evaluate_model<V: Copy, F: PartialOrd + Copy, M: RecModel<V, F>>(
    model: &M,
    test_user_column: &[Option<String>],
    test_item_column: &[Option<String>],
    train: &LongTable<V>,
    user_features: Option<&LongTable<V>>,
    config: &EvalConfig,
) -> (report: Result<EvalReport, EvalError>)
    requires
        replies_comparable::<V, F, M>(
            *model,
            test_user_column@,
            test_item_column@,
            *train,
            user_features,
        ),
    ensures
        exists|mappings: &Mappings|
            #[trigger] call_ensures(<M as RecModel<V, F>>::item_mapping, (model,), mappings)
                && match report {
                Ok(outcome) => {
                    let users = evaluated_users(test_user_column@, test_item_column@, *mappings);
                    &&& users.len() > 0
                    &&& outcome.users@.len() == users.len()
                    &&& forall|j: int|
                        0 <= j < users.len() ==> evaluates_user::<V, F, M>(
                            *model,
                            *mappings,
                            test_user_column@,
                            test_item_column@,
                            *train,
                            user_features,
                            config.k_values@,
                            users[j],
                            #[trigger] outcome.users@[j],
                        )
                    &&& outcome.num_users == users.len()
                    &&& outcome.num_interactions == total_relevant(
                        outcome.users@,
                        users.len() as int,
                    )
                    &&& exists|num_items: usize|
                        #[trigger] call_ensures(
                            <M as RecModel<V, F>>::num_items,
                            (model,),
                            num_items,
                        ) && is_coverage(outcome.coverage, lists_of(outcome.users@), num_items)
                },
                Err(EvalError::NoUsers) => evaluated_users(
                    test_user_column@,
                    test_item_column@,
                    *mappings,
                ).len() == 0,
                Err(EvalError::Model(error)) => exists|j: int|
                    0 <= j < evaluated_users(
                        test_user_column@,
                        test_item_column@,
                        *mappings,
                    ).len() && model_replies(
                        *model,
                        *mappings,
                        *train,
                        user_features,
                        #[trigger] evaluated_users(
                            test_user_column@,
                            test_item_column@,
                            *mappings,
                        )[j],
                        Err::<Vec<F>, ModelError>(error),
                    ),
            },
{
    let mappings = model.item_mapping();
    let ghost catalogue = id_entries(mappings.item_to_idx);
    let feature_map: UserPairs<V> = match user_features {
        Some(table) => UserPairs::build(table, &mappings.user_feature_to_idx),
        None => UserPairs::blank(),
    };
    let train_map = UserPairs::build(train, &mappings.item_to_idx);
    let column = blank_unknown_items(test_user_column, test_item_column, mappings);
    let num_rows: usize = column.len();
    let groups = group_rows(&column);
    let ghost names = names_of(column@);
    let ghost index = id_entries(mappings.user_to_idx);
    let ghost targets = evaluated_users(test_user_column@, test_item_column@, *mappings);
    proof {
        crate::groups::lemma_names_ascending(column@);
        lemma_names_no_duplicates(column@);
    }

    let mut users: Vec<UserEvaluation> = Vec::new();
    let mut lists: Vec<Vec<usize>> = Vec::new();
    let mut num_interactions: usize = 0;
    let mut g: usize = 0;
    while g < groups.names.len()
        invariant
            replies_comparable::<V, F, M>(
                *model,
                test_user_column@,
                test_item_column@,
                *train,
                user_features,
            ),
            g <= groups.names@.len(),
            catalogue == id_entries(mappings.item_to_idx),
            index == id_entries(mappings.user_to_idx),
            call_ensures(<M as RecModel<V, F>>::item_mapping, (model,), mappings),
            user_features matches Some(table) ==> feature_map.holds(
                *table,
                id_entries(mappings.user_feature_to_idx),
            ),
            user_features is None ==> feature_map.is_blank(),
            train_map.holds(*train, catalogue),
            column@ == test_users(test_user_column@, test_item_column@, catalogue),
            column@.len() == num_rows,
            names == names_of(column@),
            names.no_duplicates(),
            texts(groups.names@) == names,
            lists_view(groups.rows@) == rows_by_name(column@),
            targets == known(names, index, names.len() as int),
            targets == evaluated_users(test_user_column@, test_item_column@, *mappings),
            users@.len() == known(names, index, g as int).len(),
            forall|j: int|
                0 <= j < users@.len() ==> evaluates_user::<V, F, M>(
                    *model,
                    *mappings,
                    test_user_column@,
                    test_item_column@,
                    *train,
                    user_features,
                    config.k_values@,
                    known(names, index, g as int)[j],
                    #[trigger] users@[j],
                ),
            num_interactions == total_relevant(users@, users@.len() as int),
            num_interactions <= rows_together(column@, names, g as int),
            lists@.len() == users@.len(),
            forall|j: int|
                0 <= j < lists@.len() ==> (#[trigger] lists@[j])@ == users@[j].recommended@,
        decreases groups.names@.len() - g,
    {
        let ghost user = names[g as int];
        assert(texts(groups.names@)[g as int] == groups.names@[g as int]@);
        assert(groups.rows@.len() == names.len()) by {
            assert(lists_view(groups.rows@).len() == groups.rows@.len());
            assert(rows_by_name(column@).len() == names.len());
        }
        if id_get(&mappings.user_to_idx, groups.names[g].as_str()).is_some() {
            let rows = &groups.rows[g];
            proof {
                assert(lists_view(groups.rows@)[g as int] == rows@);
                assert(rows_by_name(column@)[g as int] == rows_of(column@, user));
                lemma_rows_of(column@, user);
                lemma_relevant_bounded(test_item_column@, catalogue, rows@);
                lemma_rows_together(column@, names, g + 1);
            }
            let relevant = collect_relevant(test_item_column, mappings, rows);
            let interactions = train_map.get(groups.names[g].as_str());
            let features = feature_map.get(groups.names[g].as_str());
            assert(features@ =~= feature_pairs(
                user_features,
                id_entries(mappings.user_feature_to_idx),
                user,
            ));
            let reply = model.predict_scores(
                ModelInput::Sparse {
                    interactions: interactions.as_slice(),
                    user_features: features.as_slice(),
                },
            );
            assert(model_replies::<V, F, M>(
                *model,
                *mappings,
                *train,
                user_features,
                user,
                reply,
            ));
            proof {
                lemma_known_contains(names, index, g as int, names.len() as int);
                assert(targets.contains(user));
            }
            let scores = match reply {
                Ok(scores) => scores,
                Err(error) => {
                    proof {
                        let j = choose|j: int| 0 <= j < targets.len() && targets[j] == user;
                        assert(targets[j] == user);
                    }
                    return Err(EvalError::Model(error));
                },
            };
            let train_items = collect_indices(&interactions);
            let ghost all_scores = scores;
            let evaluation = evaluate_user(scores, &train_items, &relevant, config);
            assert(evaluates_user::<V, F, M>(
                *model,
                *mappings,
                test_user_column@,
                test_item_column@,
                *train,
                user_features,
                config.k_values@,
                user,
                evaluation,
            )) by {
                assert(model_replies::<V, F, M>(
                    *model,
                    *mappings,
                    *train,
                    user_features,
                    user,
                    Ok::<Vec<F>, ModelError>(all_scores),
                ));
            }
            num_interactions = num_interactions + evaluation.num_relevant;
            let list = evaluation.recommended.clone();
            assert(list@ =~= evaluation.recommended@);
            lists.push(list);
            let ghost before = users@;
            users.push(evaluation);
            proof {
                lemma_total_prefix(before, users@, before.len() as int);
            }
        }
        g = g + 1;
    }
    if users.len() == 0 {
        return Err(EvalError::NoUsers);
    }
    let num_items: usize = model.num_items();
    let share = coverage(&lists, num_items);
    proof {
        lemma_items_of(lists@, lists@.len() as int);
        let views = lists_of(users@);
        let exact = Set::new(
            |x: usize|
                exists|a: int| 0 <= a < lists@.len() && (#[trigger] lists@[a])@.contains(x),
        );
        let stated = Set::new(
            |x: usize| exists|a: int| 0 <= a < views.len() && (#[trigger] views[a]).contains(x),
        );
        assert forall|x: usize| exact.contains(x) <==> stated.contains(x) by {
            if exact.contains(x) {
                let a = choose|a: int| 0 <= a < lists@.len() && (#[trigger] lists@[a])@.contains(x);
                assert(views[a].contains(x));
            }
            if stated.contains(x) {
                let a = choose|a: int| 0 <= a < views.len() && (#[trigger] views[a]).contains(x);
                assert(lists@[a]@.contains(x));
            }
        }
        assert(items_of(lists@, lists@.len() as int) =~= stated);
    }
    let num_users: usize = users.len();
    Ok(EvalReport { users, coverage: share, num_users, num_interactions })
}

proof fn lemma_total_prefix(before: Seq<UserEvaluation>, after: Seq<UserEvaluation>, n: int)
    requires
        0 <= n <= before.len() <= after.len(),
        forall|j: int| 0 <= j < before.len() ==> before[j] == after[j],
    ensures
        total_relevant(before, n) == total_relevant(after, n),
    decreases n,
{
    if n > 0 {
        lemma_total_prefix(before, after, n - 1);
    }
}

/// A known name is among the known names.
proof fn lemma_known_contains(
    names: Seq<Seq<char>>,
    index: Map<Seq<char>, usize>,
    g: int,
    n: int,
)
    requires
        0 <= g < n <= names.len(),
        index.dom().contains(names[g]),
    ensures
        known(names, index, n).contains(names[g]),
    decreases n,
{
    let all = known(names, index, n);
    if g == n - 1 {
        assert(all.last() == names[g]);
    } else {
        lemma_known_contains(names, index, g, n - 1);
        let earlier = known(names, index, n - 1);
        let k = choose|k: int| 0 <= k < earlier.len() && earlier[k] == names[g];
        assert(all[k] == names[g]);
    }
}

proof fn lemma_names_no_duplicates(column: Seq<Option<String>>)
    ensures
        names_of(column).no_duplicates(),
{
    crate::groups::lemma_names_ascending(column);
    let names = names_of(column);
    assert forall|a: int, b: int|
        0 <= a < names.len() && 0 <= b < names.len() && a != b implies names[a] != names[b] by {
        crate::order::text_order_is_total(names[a], names[b], names[a]);
        if a < b {
            assert(crate::order::text_before(names[a], names[b]));
        } else {
            assert(crate::order::text_before(names[b], names[a]));
        }
    }
}

} // verus!
