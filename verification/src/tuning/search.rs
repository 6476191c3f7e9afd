//! Planning a search and picking the best of its trials.

use crate::groups::names_of;
use crate::ids::text_of;
use crate::numeric::{mean, mean_defined, mean_of, sums_take_in_every_value};
use crate::order::{ordered_type, outranks};
use crate::selection::lemma_folds;
use crate::text::{decimal, decimal_text, join, joined};
use crate::tuning::folds::{
    fold_message, fold_rows_go_by_user, generate_kfold_splits, in_fold, is_fold, order_is_sound,
    Fold, FoldError,
};
use crate::tuning::grid::{
    cartesian_product, combinations, num_combinations, sample_configs, sampled, HyperParams,
    ParamGrid,
};
use std::ops::{Add, Div};
use vstd::prelude::*;
use vstd::std_specs::cmp::PartialOrdIs;
use vstd::std_specs::ops::{AddSpec, DivSpec};

verus! {

/// What a search evaluates: each configuration on each fold.
pub struct SearchPlan<T> {
    pub configs: Vec<HyperParams<T>>,
    pub folds: Vec<Fold>,
    /// The `(configuration, fold)` pairs, configuration by configuration.
    pub work: Vec<(usize, usize)>,
}

/// The outcome of one configuration.
pub struct TrialResult<T> {
    pub params: HyperParams<T>,
    pub mean_score: T,
    /// The score of each fold, in fold order.
    pub fold_scores: Vec<T>,
}

/// The outcome of a search.
pub struct SearchResult<T> {
    pub best_params: HyperParams<T>,
    pub best_score: T,
    /// The trials in the order of their configurations.
    pub all_trials: Vec<TrialResult<T>>,
    pub metric_name: String,
}

/// Why a search cannot start.
#[derive(Debug, Clone, Copy, PartialEq, Eq, Structural)]
pub enum TuningError {
    /// The grid has no combination.
    EmptyGrid,
    /// No trial was asked for.
    NoTrials,
    /// The users cannot be split into the folds asked for.
    Folds(FoldError),
}

/// The text of a tuning error.
pub open spec fn tuning_message(error: TuningError) -> Seq<char> {
    match error {
        TuningError::EmptyGrid => "Parameter grid produced 0 combinations"@,
        TuningError::NoTrials => "n_trials must be >= 1"@,
        TuningError::Folds(fold_error) => fold_message(fold_error),
    }
}

impl TuningError {
    /// A description for the caller.
    pub fn message(&self) -> (text: String)
        ensures
            text@ == tuning_message(*self),
    {
        match self {
            TuningError::EmptyGrid => "Parameter grid produced 0 combinations".to_owned(),
            TuningError::NoTrials => "n_trials must be >= 1".to_owned(),
            TuningError::Folds(error) => error.message(),
        }
    }
}

/// The pairs of the first `total` configurations with each of `n_folds` folds.
pub open spec fn work_list(total: nat, n_folds: nat) -> Seq<(usize, usize)>
    decreases total,
{
    if total == 0 {
        Seq::empty()
    } else {
        work_list((total - 1) as nat, n_folds) + Seq::new(
            n_folds,
            |f: int| ((total - 1) as usize, f as usize),
        )
    }
}

/// The work list holds each pair of a configuration and a fold exactly once.
pub proof fn work_list_is_complete(total: nat, n_folds: nat)
    requires
        total <= usize::MAX,
        n_folds <= usize::MAX,
    ensures
        work_list(total, n_folds).len() == total * n_folds,
        work_list(total, n_folds).no_duplicates(),
        forall|t: usize, f: usize|
            #[trigger] work_list(total, n_folds).contains((t, f)) <==> t < total && f < n_folds,
    decreases total,
{
    if total == 0 {
        assert(0 * n_folds == 0) by (nonlinear_arith);
    } else {
        let shorter = work_list((total - 1) as nat, n_folds);
        let last = Seq::new(n_folds, |f: int| ((total - 1) as usize, f as usize));
        let all = work_list(total, n_folds);
        work_list_is_complete((total - 1) as nat, n_folds);
        assert((total - 1) * n_folds + n_folds == total * n_folds) by (nonlinear_arith);
        assert forall|t: usize, f: usize| #[trigger] all.contains((t, f)) <==> t < total && f
            < n_folds by {
            if all.contains((t, f)) {
                let w = choose|w: int| 0 <= w < all.len() && all[w] == (t, f);
                if w < shorter.len() {
                    assert(shorter[w] == (t, f));
                    assert(shorter.contains((t, f)));
                } else {
                    assert(last[w - shorter.len()] == (t, f));
                }
            }
            if t < total && f < n_folds {
                if t < total - 1 {
                    assert(shorter.contains((t, f)));
                    let w = choose|w: int| 0 <= w < shorter.len() && shorter[w] == (t, f);
                    assert(all[w] == (t, f));
                } else {
                    assert(all[shorter.len() + f] == (t, f));
                }
            }
        }
        assert forall|v: int, w: int|
            0 <= v < all.len() && 0 <= w < all.len() && v != w implies all[v] != all[w] by {
            if v < shorter.len() {
                assert(all[v] == shorter[v]);
                assert(shorter.contains((all[v].0, all[v].1)));
            }
            if w < shorter.len() {
                assert(all[w] == shorter[w]);
                assert(shorter.contains((all[w].0, all[w].1)));
            }
        }
    }
}

/// Lists the work of a search.
fn list_work(total: usize, n_folds: usize) -> (work: Vec<(usize, usize)>)
    ensures
        work@ == work_list(total as nat, n_folds as nat),
{
    let mut work: Vec<(usize, usize)> = Vec::new();
    let mut t: usize = 0;
    while t < total
        invariant
            t <= total,
            work@ == work_list(t as nat, n_folds as nat),
        decreases total - t,
    {
        let ghost before = work@;
        let ghost row = Seq::new(n_folds as nat, |f: int| (t, f as usize));
        let mut f: usize = 0;
        assert(before + row.take(0) =~= before);
        while f < n_folds
            invariant
                f <= n_folds,
                row == Seq::new(n_folds as nat, |f: int| (t, f as usize)),
                work@ == before + row.take(f as int),
            decreases n_folds - f,
        {
            work.push((t, f));
            assert(work@ =~= before + row.take(f + 1));
            f = f + 1;
        }
        assert(row.take(f as int) =~= row);
        assert(row =~= Seq::new(n_folds as nat, |f: int| ((t + 1 - 1) as usize, f as usize)));
        t = t + 1;
    }
    work
}

/// `plan` evaluates `configs` on the folds of the rows.
pub open spec fn is_plan<T>(
    plan: SearchPlan<T>,
    configs: Seq<HyperParams<T>>,
    users: Seq<Option<String>>,
    n_folds: usize,
    seed: u64,
) -> bool {
    &&& plan.configs@ == configs
    &&& plan.folds@.len() == n_folds
    &&& order_is_sound(names_of(users).len(), seed)
    &&& forall|f: int|
        0 <= f < n_folds ==> is_fold(#[trigger] plan.folds@[f], users, n_folds as int, seed, f)
    &&& plan.work@ == work_list(configs.len(), n_folds as nat)
}

/// The fold error that a number of folds gives, if any.
pub open spec fn fold_error(users: Seq<Option<String>>, n_folds: usize) -> Option<FoldError> {
    if n_folds < 2 {
        Some(FoldError::TooFew { n_folds })
    } else if n_folds > names_of(users).len() {
        Some(FoldError::TooMany { n_folds, n_users: names_of(users).len() as usize })
    } else {
        None
    }
}

/// Plans a grid search: every combination of the grid on every fold.
pub fn plan_grid_search<T: Copy>(
    grid: &ParamGrid<T>,
    users: &[Option<String>],
    n_folds: usize,
    seed: u64,
) -> (plan: Result<SearchPlan<T>, TuningError>)
    requires
        num_combinations(*grid) <= usize::MAX,
    ensures
        match plan {
            Ok(plan) => num_combinations(*grid) > 0 && fold_error(users@, n_folds) is None
                && is_plan(plan, combinations(*grid), users@, n_folds, seed),
            Err(TuningError::EmptyGrid) => num_combinations(*grid) == 0,
            Err(TuningError::NoTrials) => false,
            Err(TuningError::Folds(error)) => num_combinations(*grid) > 0 && fold_error(
                users@,
                n_folds,
            ) == Some(error),
        },
{
    let configs = cartesian_product(grid);
    if configs.len() == 0 {
        return Err(TuningError::EmptyGrid);
    }
    match generate_kfold_splits(users, n_folds, seed) {
        Err(error) => Err(TuningError::Folds(error)),
        Ok(folds) => {
            let work = list_work(configs.len(), n_folds);
            Ok(SearchPlan { configs, folds, work })
        },
    }
}

/// Plans a random search: `n_trials` sampled configurations on every fold.
pub fn plan_random_search<T: Copy>(
    grid: &ParamGrid<T>,
    defaults: HyperParams<T>,
    n_trials: usize,
    users: &[Option<String>],
    n_folds: usize,
    seed: u64,
) -> (plan: Result<SearchPlan<T>, TuningError>)
    ensures
        match plan {
            Ok(plan) => n_trials > 0 && fold_error(users@, n_folds) is None && is_plan(
                plan,
                sampled(*grid, defaults, n_trials as nat, seed),
                users@,
                n_folds,
                seed,
            ),
            Err(TuningError::EmptyGrid) => false,
            Err(TuningError::NoTrials) => n_trials == 0,
            Err(TuningError::Folds(error)) => n_trials > 0 && fold_error(users@, n_folds) == Some(
                error,
            ),
        },
{
    if n_trials == 0 {
        return Err(TuningError::NoTrials);
    }
    match generate_kfold_splits(users, n_folds, seed) {
        Err(error) => Err(TuningError::Folds(error)),
        Ok(folds) => {
            let configs = sample_configs(grid, defaults, n_trials, seed);
            let work = list_work(configs.len(), n_folds);
            Ok(SearchPlan { configs, folds, work })
        },
    }
}

/// `results` holds one score for each pair of a configuration and a fold, in any order.
pub open spec fn results_complete<T>(
    results: Seq<(usize, usize, T)>,
    total: int,
    n_folds: int,
) -> bool {
    &&& forall|r: int|
        0 <= r < results.len() ==> (#[trigger] results[r]).0 < total && results[r].1 < n_folds
    &&& forall|r: int, q: int|
        #![trigger results[r], results[q]]
        0 <= r < q < results.len() ==> results[r].0 != results[q].0 || results[r].1
            != results[q].1
    &&& forall|t: int, f: int|
        0 <= t < total && 0 <= f < n_folds ==> #[trigger] has_result(results, t, f)
}

/// There is a score for configuration `t` on fold `f`.
pub open spec fn has_result<T>(results: Seq<(usize, usize, T)>, t: int, f: int) -> bool {
    exists|r: int| 0 <= r < results.len() && (#[trigger] results[r]).0 == t && results[r].1 == f
}

/// `scores` are those of configuration `t`, in fold order.
pub open spec fn are_fold_scores<T>(
    scores: Seq<T>,
    results: Seq<(usize, usize, T)>,
    t: int,
    n_folds: int,
) -> bool {
    &&& scores.len() == n_folds
    &&& forall|r: int|
        0 <= r < results.len() && (#[trigger] results[r]).0 == t ==> scores[results[r].1 as int]
            == results[r].2
}

/// The score of configuration `t` on fold `f`.
fn find_score<T: Copy>(results: &[(usize, usize, T)], t: usize, f: usize) -> (score: T)
    requires
        has_result(results@, t as int, f as int),
        forall|r: int, q: int|
            #![trigger results@[r], results@[q]]
            0 <= r < q < results@.len() ==> results@[r].0 != results@[q].0 || results@[r].1
                != results@[q].1,
    ensures
        forall|r: int|
            0 <= r < results@.len() && (#[trigger] results@[r]).0 == t && results@[r].1 == f
                ==> results@[r].2 == score,
{
    let mut i: usize = 0;
    while results[i].0 != t || results[i].1 != f
        invariant
            i < results@.len(),
            has_result(results@, t as int, f as int),
            forall|r: int| 0 <= r < i ==> (#[trigger] results@[r]).0 != t || results@[r].1 != f,
        decreases results@.len() - i,
    {
        i = i + 1;
    }
    results[i].2
}

/// The position of the best of the first `n` trials: the first whose mean outranks `floor` and every
/// earlier one; none where no mean outranks `floor`.
pub open spec fn best_trial<T: PartialOrd>(
    trials: Seq<TrialResult<T>>,
    floor: T,
    n: int,
) -> Option<int>
    decreases n,
{
    if n <= 0 {
        None
    } else {
        let earlier = best_trial(trials, floor, n - 1);
        let best = match earlier {
            Some(b) => trials[b].mean_score,
            None => floor,
        };
        if outranks(trials[n - 1].mean_score, best) {
            Some(n - 1)
        } else {
            earlier
        }
    }
}

/// The best trial is one of the trials; none outranks it, and no earlier one is as good, where the
/// means can be ranked.
pub proof fn best_trial_is_best<T: PartialOrd>(trials: Seq<TrialResult<T>>, floor: T, n: int)
    requires
        0 <= n <= trials.len(),
        forall|a: T, b: T, c: T|
            #![trigger outranks(a, c), outranks(a, b)]
            #![trigger outranks(a, c), outranks(b, c)]
            outranks(a, c) ==> outranks(a, b) || outranks(b, c),
        forall|a: T, b: T| #[trigger] outranks(a, b) ==> !outranks(b, a),
    ensures
        match best_trial(trials, floor, n) {
            None => forall|t: int|
                0 <= t < n ==> !outranks((#[trigger] trials[t]).mean_score, floor),
            Some(b) => {
                &&& 0 <= b < n
                &&& outranks(trials[b].mean_score, floor)
                &&& forall|t: int|
                    0 <= t < n ==> !outranks(
                        (#[trigger] trials[t]).mean_score,
                        trials[b].mean_score,
                    )
                &&& forall|t: int|
                    0 <= t < b ==> outranks(
                        trials[b].mean_score,
                        (#[trigger] trials[t]).mean_score,
                    )
            },
        },
    decreases n,
{
    if n > 0 {
        best_trial_is_best(trials, floor, n - 1);
        let last = trials[n - 1].mean_score;
        match best_trial(trials, floor, n - 1) {
            None => {
                if outranks(last, floor) {
                    assert forall|t: int| 0 <= t < n - 1 implies outranks(
                        last,
                        (#[trigger] trials[t]).mean_score,
                    ) by {
                        assert(outranks(last, trials[t].mean_score) || outranks(
                            trials[t].mean_score,
                            floor,
                        ));
                    }
                }
            },
            Some(b) => {
                let best = trials[b].mean_score;
                if outranks(last, best) {
                    assert(outranks(last, floor) || outranks(floor, best)) by {
                        assert(outranks(last, best));
                    }
                    assert forall|t: int| 0 <= t < n - 1 implies outranks(
                        last,
                        (#[trigger] trials[t]).mean_score,
                    ) by {
                        assert(outranks(last, trials[t].mean_score) || outranks(
                            trials[t].mean_score,
                            best,
                        ));
                    }
                }
            },
        }
    }
}

/// The name of the metric that a search goes by.
pub open spec fn metric_name(eval_k: usize) -> Seq<char> {
    "ndcg@"@ + decimal_text(eval_k as nat)
}

/// `outcome` holds a trial for each of `configs`, in their order, with its scores in fold order and
/// their mean, and the best of the trials.
pub open spec fn is_conclusion<T: PartialOrd + Add<Output = T> + Div<Output = T>>(
    outcome: SearchResult<T>,
    configs: Seq<HyperParams<T>>,
    results: Seq<(usize, usize, T)>,
    n_folds: usize,
    zero: T,
    count: T,
    floor: T,
    eval_k: usize,
) -> bool {
    &&& outcome.all_trials@.len() == configs.len()
    &&& forall|t: int|
        0 <= t < configs.len() ==> {
            &&& (#[trigger] outcome.all_trials@[t]).params == configs[t]
            &&& are_fold_scores(
                outcome.all_trials@[t].fold_scores@,
                results,
                t,
                n_folds as int,
            )
            &&& outcome.all_trials@[t].mean_score == mean_of(
                outcome.all_trials@[t].fold_scores@,
                zero,
                count,
            )
        }
    &&& match best_trial(outcome.all_trials@, floor, configs.len() as int) {
        Some(b) => outcome.best_params == configs[b] && outcome.best_score
            == outcome.all_trials@[b].mean_score,
        None => outcome.best_params == configs[0] && outcome.best_score == floor,
    }
    &&& outcome.metric_name@ == metric_name(eval_k)
}

/// Gathers the scores of a search, which may come in any order, into its trials and picks the best.
///
/// `zero` is where sums start, `count` stands for the number of folds, and `floor` is what a mean has
/// to outrank to be picked; with none that does, the first configuration is returned with `floor`.
#[verifier::rlimit(30)]
pub fn conclude_search<T: Copy + PartialOrd + Add<Output = T> + Div<Output = T>>(
    configs: &[HyperParams<T>],
    results: &[(usize, usize, T)],
    n_folds: usize,
    zero: T,
    count: T,
    floor: T,
    eval_k: usize,
) -> (outcome: SearchResult<T>)
    requires
        configs@.len() > 0,
        results_complete(results@, configs@.len() as int, n_folds as int),
        forall|t: int, scores: Seq<T>|
            0 <= t < configs@.len() && #[trigger] are_fold_scores(
                scores,
                results@,
                t,
                n_folds as int,
            ) ==> mean_defined(scores, zero, count),
        ordered_type::<T>(),
    ensures
        is_conclusion(outcome, configs@, results@, n_folds, zero, count, floor, eval_k),
{
    let mut all_trials: Vec<TrialResult<T>> = Vec::new();
    let mut best_params = configs[0];
    let mut best_score: T = floor;
    let mut t: usize = 0;
    while t < configs.len()
        invariant
            t <= configs@.len(),
            configs@.len() > 0,
            results_complete(results@, configs@.len() as int, n_folds as int),
            forall|t: int, scores: Seq<T>|
                0 <= t < configs@.len() && #[trigger] are_fold_scores(
                    scores,
                    results@,
                    t,
                    n_folds as int,
                ) ==> mean_defined(scores, zero, count),
            ordered_type::<T>(),
            all_trials@.len() == t,
            forall|u: int|
                0 <= u < t ==> {
                    &&& (#[trigger] all_trials@[u]).params == configs@[u]
                    &&& are_fold_scores(
                        all_trials@[u].fold_scores@,
                        results@,
                        u,
                        n_folds as int,
                    )
                    &&& all_trials@[u].mean_score == mean_of(
                        all_trials@[u].fold_scores@,
                        zero,
                        count,
                    )
                },
            best_trial(all_trials@, floor, t as int) matches Some(b) ==> 0 <= b < t && best_params
                == configs@[b] && best_score == all_trials@[b].mean_score,
            best_trial(all_trials@, floor, t as int) is None ==> best_params == configs@[0]
                && best_score == floor,
        decreases configs@.len() - t,
    {
        let mut fold_scores: Vec<T> = Vec::new();
        let mut f: usize = 0;
        while f < n_folds
            invariant
                f <= n_folds,
                t < configs@.len(),
                results_complete(results@, configs@.len() as int, n_folds as int),
                fold_scores@.len() == f,
                forall|r: int|
                    0 <= r < results@.len() && (#[trigger] results@[r]).0 == t && results@[r].1 < f
                        ==> fold_scores@[results@[r].1 as int] == results@[r].2,
            decreases n_folds - f,
        {
            assert(has_result(results@, t as int, f as int));
            let score = find_score(results, t, f);
            fold_scores.push(score);
            f = f + 1;
        }
        assert(are_fold_scores(fold_scores@, results@, t as int, n_folds as int));
        let mean_score = mean(&fold_scores, zero, count);
        let ghost before = all_trials@;
        all_trials.push(TrialResult { params: configs[t], mean_score, fold_scores });
        proof {
            lemma_best_of_prefix(before, all_trials@, floor, t as int);
        }
        if mean_score > best_score {
            best_score = mean_score;
            best_params = configs[t];
        }
        t = t + 1;
    }
    let k = decimal(eval_k as u64);
    let parts: [&str; 2] = ["ndcg@", k.as_str()];
    proof {
        reveal_with_fuel(joined, 3);
        assert(joined(parts@) =~= metric_name(eval_k));
    }
    let metric = join(&parts);
    SearchResult { best_params, best_score, all_trials, metric_name: metric }
}

/// Later trials do not change the best of earlier ones.
proof fn lemma_best_of_prefix<T: PartialOrd>(
    shorter: Seq<TrialResult<T>>,
    longer: Seq<TrialResult<T>>,
    floor: T,
    n: int,
)
    requires
        0 <= n <= shorter.len() <= longer.len(),
        forall|t: int| 0 <= t < shorter.len() ==> shorter[t] == #[trigger] longer[t],
    ensures
        best_trial(shorter, floor, n) == best_trial(longer, floor, n),
        best_trial(shorter, floor, n) matches Some(b) ==> 0 <= b < n,
    decreases n,
{
    if n > 0 {
        lemma_best_of_prefix(shorter, longer, floor, n - 1);
        assert(shorter[n - 1] == longer[n - 1]);
        if let Some(b) = best_trial(shorter, floor, n - 1) {
            assert(shorter[b] == longer[b]);
        }
    }
}

/// The order in which scores come in does not matter: the same scores in another order give the
/// same fold scores.
pub proof fn fold_scores_ignore_arrival_order<T>(
    scores: Seq<T>,
    others: Seq<T>,
    results: Seq<(usize, usize, T)>,
    rearranged: Seq<(usize, usize, T)>,
    t: int,
    total: int,
    n_folds: int,
)
    requires
        0 <= t < total,
        results_complete(results, total, n_folds),
        results_complete(rearranged, total, n_folds),
        results.to_multiset() == rearranged.to_multiset(),
        are_fold_scores(scores, results, t, n_folds),
        are_fold_scores(others, rearranged, t, n_folds),
    ensures
        scores == others,
{
    results.to_multiset_ensures();
    rearranged.to_multiset_ensures();
    assert forall|f: int| 0 <= f < n_folds implies scores[f] == others[f] by {
        assert(has_result(results, t, f));
        let r = choose|r: int|
            0 <= r < results.len() && (#[trigger] results[r]).0 == t && results[r].1 == f;
        assert(results.contains(results[r]));
        assert(results.to_multiset().contains(results[r]));
        assert(rearranged.contains(results[r]));
        let q = choose|q: int| 0 <= q < rearranged.len() && rearranged[q] == results[r];
        assert(others[rearranged[q].1 as int] == rearranged[q].2);
    }
    assert(scores =~= others);
}

/// Two plans for the same configurations, rows, number of folds and seed are the same: the same
/// configurations in the same order, the same rows in each fold, the same work.
pub proof fn plans_agree<T>(
    one: SearchPlan<T>,
    two: SearchPlan<T>,
    configs: Seq<HyperParams<T>>,
    users: Seq<Option<String>>,
    n_folds: usize,
    seed: u64,
)
    requires
        is_plan(one, configs, users, n_folds, seed),
        is_plan(two, configs, users, n_folds, seed),
    ensures
        one.configs@ == two.configs@,
        one.work@ == two.work@,
        one.folds@.len() == two.folds@.len(),
        forall|f: int|
            0 <= f < one.folds@.len() ==> (#[trigger] one.folds@[f]).train@ == two.folds@[f].train@
                && one.folds@[f].test@ == two.folds@[f].test@,
{
    assert forall|f: int| 0 <= f < one.folds@.len() implies (#[trigger] one.folds@[f]).train@
        == two.folds@[f].train@ && one.folds@[f].test@ == two.folds@[f].test@ by {
        let a = one.folds@[f];
        let b = two.folds@[f];
        assert(is_fold(a, users, n_folds as int, seed, f));
        assert(is_fold(b, users, n_folds as int, seed, f));
        assert forall|i: int| 0 <= i < users.len() implies a.train@[i] == b.train@[i] && a.test@[i]
            == b.test@[i] by {
            assert(a.train@[i] == (text_of(users[i]) matches Some(name) && !in_fold(
                names_of(users),
                n_folds as int,
                seed,
                f,
                name,
            )));
            assert(a.test@[i] == (text_of(users[i]) matches Some(name) && in_fold(
                names_of(users),
                n_folds as int,
                seed,
                f,
                name,
            )));
        }
        assert(a.train@ =~= b.train@);
        assert(a.test@ =~= b.test@);
    }
}

/// Every score of `results` is what `score` gives for its configuration and the rows of its fold.
pub open spec fn scored_by<T>(
    results: Seq<(usize, usize, T)>,
    plan: SearchPlan<T>,
    score: spec_fn(HyperParams<T>, Seq<bool>, Seq<bool>) -> T,
) -> bool {
    forall|r: int|
        0 <= r < results.len() ==> (#[trigger] results[r]).2 == score(
            plan.configs@[results[r].0 as int],
            plan.folds@[results[r].1 as int].train@,
            plan.folds@[results[r].1 as int].test@,
        )
}

/// Two searches over the same configurations, rows, number of folds and seed agree: they hold the
/// same configurations in the same order under the same metric, whatever the scores. Where the
/// score of a trial depends on its configuration and its fold alone, they agree in every score,
/// every mean and the best configuration as well, in whatever order the scores came in.
pub proof fn searches_agree<T: PartialOrd + Add<Output = T> + Div<Output = T>>(
    plans: (SearchPlan<T>, SearchPlan<T>),
    outcomes: (SearchResult<T>, SearchResult<T>),
    results: (Seq<(usize, usize, T)>, Seq<(usize, usize, T)>),
    configs: Seq<HyperParams<T>>,
    users: Seq<Option<String>>,
    n_folds: usize,
    seed: u64,
    zero: T,
    count: T,
    floor: T,
    eval_k: usize,
    score: spec_fn(HyperParams<T>, Seq<bool>, Seq<bool>) -> T,
)
    requires
        configs.len() > 0,
        is_plan(plans.0, configs, users, n_folds, seed),
        is_plan(plans.1, configs, users, n_folds, seed),
        results_complete(results.0, configs.len() as int, n_folds as int),
        results_complete(results.1, configs.len() as int, n_folds as int),
        is_conclusion(
            outcomes.0,
            plans.0.configs@,
            results.0,
            n_folds,
            zero,
            count,
            floor,
            eval_k,
        ),
        is_conclusion(
            outcomes.1,
            plans.1.configs@,
            results.1,
            n_folds,
            zero,
            count,
            floor,
            eval_k,
        ),
    ensures
        outcomes.0.all_trials@.len() == configs.len(),
        outcomes.1.all_trials@.len() == configs.len(),
        forall|t: int|
            0 <= t < configs.len() ==> (#[trigger] outcomes.0.all_trials@[t]).params == configs[t]
                && outcomes.1.all_trials@[t].params == configs[t],
        outcomes.0.metric_name@ == metric_name(eval_k),
        outcomes.1.metric_name@ == metric_name(eval_k),
        scored_by(results.0, plans.0, score) && scored_by(results.1, plans.1, score) ==> {
            &&& forall|t: int|
                0 <= t < configs.len() ==> (#[trigger] outcomes.0.all_trials@[t]).fold_scores@
                    == outcomes.1.all_trials@[t].fold_scores@
                    && outcomes.0.all_trials@[t].mean_score
                    == outcomes.1.all_trials@[t].mean_score
            &&& outcomes.0.best_params == outcomes.1.best_params
            &&& outcomes.0.best_score == outcomes.1.best_score
        },
{
    plans_agree(plans.0, plans.1, configs, users, n_folds, seed);
    if scored_by(results.0, plans.0, score) && scored_by(results.1, plans.1, score) {
        let trials = outcomes.0.all_trials@;
        let others = outcomes.1.all_trials@;
        assert forall|t: int| 0 <= t < configs.len() implies (#[trigger] trials[t]).fold_scores@
            == others[t].fold_scores@ by {
            let a = trials[t].fold_scores@;
            let b = others[t].fold_scores@;
            assert(others[t].params == configs[t]);
            assert forall|f: int| 0 <= f < n_folds implies a[f] == b[f] by {
                assert(has_result(results.0, t, f));
                assert(has_result(results.1, t, f));
                let r = choose|r: int|
                    0 <= r < results.0.len() && (#[trigger] results.0[r]).0 == t && results.0[r].1
                        == f;
                let q = choose|q: int|
                    0 <= q < results.1.len() && (#[trigger] results.1[q]).0 == t && results.1[q].1
                        == f;
                assert(a[f] == results.0[r].2);
                assert(b[f] == results.1[q].2);
                assert(plans.0.folds@[f].train@ == plans.1.folds@[f].train@);
            }
            assert(a =~= b);
        }
        lemma_same_best(trials, others, floor, configs.len() as int);
    }
}

/// Equal means have the same best.
proof fn lemma_same_best<T: PartialOrd>(
    trials: Seq<TrialResult<T>>,
    others: Seq<TrialResult<T>>,
    floor: T,
    n: int,
)
    requires
        0 <= n <= trials.len() == others.len(),
        forall|t: int|
            0 <= t < trials.len() ==> (#[trigger] trials[t]).mean_score == others[t].mean_score,
    ensures
        best_trial(trials, floor, n) == best_trial(others, floor, n),
        best_trial(trials, floor, n) matches Some(b) ==> 0 <= b < n,
    decreases n,
{
    if n > 0 {
        lemma_same_best(trials, others, floor, n - 1);
        assert(trials[n - 1].mean_score == others[n - 1].mean_score);
        if let Some(b) = best_trial(trials, floor, n - 1) {
            assert(trials[b].mean_score == others[b].mean_score);
        }
    }
}

/// The work goes configuration by configuration and, within one, fold by fold.
pub proof fn work_goes_by_configuration(total: nat, n_folds: nat, c: int, f: int)
    requires
        total <= usize::MAX,
        n_folds <= usize::MAX,
        0 <= c < total,
        0 <= f < n_folds,
    ensures
        0 <= c * n_folds + f < work_list(total, n_folds).len(),
        work_list(total, n_folds)[c * n_folds + f] == (c as usize, f as usize),
    decreases total,
{
    let m = (total - 1) as nat;
    work_list_is_complete(m, n_folds);
    work_list_is_complete(total, n_folds);
    assert(m * n_folds + n_folds == total * n_folds) by (nonlinear_arith)
        requires
            m == total - 1,
    ;
    assert(0 <= c * n_folds) by (nonlinear_arith)
        requires
            0 <= c,
    ;
    if c < m {
        assert(c * n_folds + n_folds <= m * n_folds) by (nonlinear_arith)
            requires
                c + 1 <= m,
        ;
        work_goes_by_configuration(m, n_folds, c, f);
    } else {
        assert(c * n_folds == m * n_folds);
    }
}

/// The number of folds is refused exactly where it is below two or greater than the number of
/// users.
pub proof fn folds_fit_the_users(users: Seq<Option<String>>, n_folds: usize)
    ensures
        fold_error(users, n_folds) is None <==> 2 <= n_folds <= names_of(users).len(),
        n_folds < 2 ==> fold_error(users, n_folds) == Some(FoldError::TooFew { n_folds }),
        n_folds >= 2 && n_folds > names_of(users).len() ==> fold_error(users, n_folds) == Some(
            FoldError::TooMany { n_folds, n_users: names_of(users).len() as usize },
        ),
{
}

/// The best trial, by the means alone: its mean is above the floor, no mean is greater, and every
/// earlier one is less; there is none exactly where no mean is above the floor.
pub proof fn best_trial_has_the_greatest_mean(trials: Seq<TrialResult<i64>>, floor: i64, n: int)
    requires
        0 <= n <= trials.len(),
    ensures
        match best_trial(trials, floor, n) {
            None => forall|t: int| 0 <= t < n ==> (#[trigger] trials[t]).mean_score <= floor,
            Some(b) => {
                &&& 0 <= b < n
                &&& trials[b].mean_score > floor
                &&& forall|t: int|
                    0 <= t < n ==> (#[trigger] trials[t]).mean_score <= trials[b].mean_score
                &&& forall|t: int|
                    0 <= t < b ==> (#[trigger] trials[t]).mean_score < trials[b].mean_score
            },
        },
    decreases n,
{
    if n > 0 {
        best_trial_has_the_greatest_mean(trials, floor, n - 1);
    }
}

/// The best trial takes in one mean after the other: it is replaced exactly by a mean that is
/// greater than its own, or than the floor while there is none.
pub proof fn best_trial_is_replaced_by_greater_means<T: PartialOrd>(
    trials: Seq<TrialResult<T>>,
    floor: T,
)
    ensures
        best_trial(trials, floor, trials.len() as int) == Seq::new(
            trials.len(),
            |t: int| t,
        ).fold_left(
            None,
            |best: Option<int>, t: int|
                {
                    let bar = if best is Some {
                        trials[best.unwrap()].mean_score
                    } else {
                        floor
                    };
                    if trials[t].mean_score.is_gt(&bar) {
                        Some(t)
                    } else {
                        best
                    }
                },
        ),
{
    let all = Seq::new(trials.len(), |t: int| t);
    lemma_folds(
        all,
        None,
        |best: Option<int>, t: int|
            {
                let bar = if best is Some {
                    trials[best.unwrap()].mean_score
                } else {
                    floor
                };
                if trials[t].mean_score.is_gt(&bar) {
                    Some(t)
                } else {
                    best
                }
            },
        |k: int| best_trial(trials, floor, k),
        all.len(),
    );
    assert(all.take(all.len() as int) =~= all);
}

/// A search returns, for each configuration in order, the score that came in for each fold and their
/// mean; its best configuration is one whose mean is its best score, above the floor and not below
/// any mean, or the first with the floor where no mean is above it.
pub proof fn a_search_returns_the_best_mean(
    outcome: SearchResult<i64>,
    configs: Seq<HyperParams<i64>>,
    results: Seq<(usize, usize, i64)>,
    n_folds: usize,
    count: i64,
    floor: i64,
    eval_k: usize,
    r: int,
)
    requires
        is_conclusion(outcome, configs, results, n_folds, 0, count, floor, eval_k),
        results_complete(results, configs.len() as int, n_folds as int),
        0 <= r < results.len(),
    ensures
        outcome.all_trials@.len() == configs.len(),
        outcome.all_trials@[results[r].0 as int].params == configs[results[r].0 as int],
        outcome.all_trials@[results[r].0 as int].fold_scores@[results[r].1 as int] == results[r].2,
        outcome.all_trials@[results[r].0 as int].mean_score
            == outcome.all_trials@[results[r].0 as int].fold_scores@.fold_left(
            0i64,
            |sum: i64, value: i64| sum.add_spec(value),
        ).div_spec(count),
        forall|t: int|
            0 <= t < configs.len() ==> (#[trigger] outcome.all_trials@[t]).mean_score
                <= outcome.best_score || outcome.all_trials@[t].mean_score <= floor,
        (exists|t: int|
            0 <= t < configs.len() && (#[trigger] outcome.all_trials@[t]).mean_score > floor)
            ==> exists|b: int|
            0 <= b < configs.len() && (#[trigger] outcome.all_trials@[b]).mean_score
                == outcome.best_score && outcome.best_params == configs[b] && outcome.best_score
                > floor,
        (forall|t: int|
            0 <= t < configs.len() ==> (#[trigger] outcome.all_trials@[t]).mean_score <= floor)
            ==> outcome.best_params == configs[0] && outcome.best_score == floor,
{
    let trials = outcome.all_trials@;
    best_trial_has_the_greatest_mean(trials, floor, configs.len() as int);
    let t = results[r].0 as int;
    assert(0 <= t < configs.len());
    assert(trials[t].params == configs[t]);
    let scores = trials[t].fold_scores@;
    sums_take_in_every_value(scores, 0i64, count, scores.len());
    if let Some(b) = best_trial(trials, floor, configs.len() as int) {
        assert(trials[b].mean_score == outcome.best_score);
    }
}

/// A plan evaluates every configuration, in the order given, on every fold, and in each fold the rows
/// of its users test while those of other users train.
pub proof fn plans_pair_configurations_with_folds<T>(
    plan: SearchPlan<T>,
    configs: Seq<HyperParams<T>>,
    users: Seq<Option<String>>,
    n_folds: usize,
    seed: u64,
    c: int,
    f: int,
    i: int,
)
    requires
        is_plan(plan, configs, users, n_folds, seed),
        configs.len() <= usize::MAX,
        0 <= c < configs.len(),
        0 <= f < n_folds,
        0 <= i < users.len(),
    ensures
        plan.configs@ == configs,
        plan.folds@.len() == n_folds,
        plan.work@.len() == configs.len() * n_folds,
        0 <= c * n_folds + f < plan.work@.len(),
        plan.work@[c * n_folds + f] == (c as usize, f as usize),
        users[i] is Some ==> plan.folds@[f].test@[i] == in_fold(
            names_of(users),
            n_folds as int,
            seed,
            f,
            users[i].unwrap()@,
        ) && plan.folds@[f].train@[i] != plan.folds@[f].test@[i],
        users[i] is None ==> !plan.folds@[f].test@[i] && !plan.folds@[f].train@[i],
{
    work_list_is_complete(configs.len(), n_folds as nat);
    work_goes_by_configuration(configs.len(), n_folds as nat, c, f);
    fold_rows_go_by_user(plan.folds@[f], users, n_folds as int, seed, f, i);
}

} // verus!
