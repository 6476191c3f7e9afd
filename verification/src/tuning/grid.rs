//! Hyperparameter configurations, enumerated from a grid or sampled from it.

use crate::sampling::{
    choose_item, chosen_position, rng_state, seeded_rng, seeded_state, state_after_choice,
};
use rand::rngs::StdRng;
use vstd::prelude::*;

verus! {

/// One configuration to evaluate.
#[derive(Debug, Clone, Copy)]
pub struct HyperParams<T> {
    pub alpha: T,
    pub beta: T,
    pub lambda_: T,
    pub meta_weight: T,
    pub decay_rate: T,
    pub ips_alpha: T,
    pub sparsity_threshold: T,
}

/// A search space: for each parameter the values to try.
#[derive(Debug, Clone)]
pub struct ParamGrid<T> {
    pub alpha: Vec<T>,
    pub beta: Vec<T>,
    pub lambda_: Vec<T>,
    pub meta_weight: Vec<T>,
    pub decay_rate: Vec<T>,
    pub ips_alpha: Vec<T>,
    pub sparsity_threshold: Vec<T>,
}

/// The number of combinations of a grid.
pub open spec fn num_combinations<T>(grid: ParamGrid<T>) -> nat {
    grid.alpha@.len() * grid.beta@.len() * grid.lambda_@.len() * grid.meta_weight@.len()
        * grid.decay_rate@.len() * grid.ips_alpha@.len() * grid.sparsity_threshold@.len()
}

/// The `i`-th combination: the last parameter varies fastest, the first slowest.
pub open spec fn combination<T>(grid: ParamGrid<T>, i: int) -> HyperParams<T> {
    let sparsity = grid.sparsity_threshold@.len() as int;
    let ips = grid.ips_alpha@.len() as int;
    let decay = grid.decay_rate@.len() as int;
    let meta = grid.meta_weight@.len() as int;
    let lambda = grid.lambda_@.len() as int;
    let beta = grid.beta@.len() as int;
    let i_ips = i / sparsity;
    let i_decay = i_ips / ips;
    let i_meta = i_decay / decay;
    let i_lambda = i_meta / meta;
    let i_beta = i_lambda / lambda;
    HyperParams {
        alpha: grid.alpha@[i_beta / beta],
        beta: grid.beta@[i_beta % beta],
        lambda_: grid.lambda_@[i_lambda % lambda],
        meta_weight: grid.meta_weight@[i_meta % meta],
        decay_rate: grid.decay_rate@[i_decay % decay],
        ips_alpha: grid.ips_alpha@[i_ips % ips],
        sparsity_threshold: grid.sparsity_threshold@[i % sparsity],
    }
}

/// All combinations of a grid, in order.
pub open spec fn combinations<T>(grid: ParamGrid<T>) -> Seq<HyperParams<T>> {
    Seq::new(num_combinations(grid), |i: int| combination(grid, i))
}

/// Multiplying by a positive number does not make smaller.
proof fn lemma_product_grows(a: int, b: int)
    requires
        a >= 0,
        b >= 1,
    ensures
        a <= a * b,
{
    assert(a <= a * b) by (nonlinear_arith)
        requires
            a >= 0,
            b >= 1,
    ;
}

/// A place below `a * b` has its quotient by `b` below `a`.
proof fn lemma_quotient_below(i: int, a: int, b: int)
    requires
        0 <= i < a * b,
        a >= 0,
        b >= 1,
    ensures
        0 <= i / b < a,
        0 <= i % b < b,
{
    vstd::arithmetic::div_mod::lemma_fundamental_div_mod(i, b);
    vstd::arithmetic::div_mod::lemma_mod_bound(i, b);
    let q = i / b;
    let r = i % b;
    assert(0 <= q < a) by (nonlinear_arith)
        requires
            i == b * q + r,
            0 <= r < b,
            0 <= i < a * b,
            b >= 1,
    ;
}

/// The number of combinations is zero where a parameter has no value.
proof fn lemma_no_combination<T>(grid: ParamGrid<T>)
    requires
        grid.alpha@.len() == 0 || grid.beta@.len() == 0 || grid.lambda_@.len() == 0
            || grid.meta_weight@.len() == 0 || grid.decay_rate@.len() == 0 || grid.ips_alpha@.len()
            == 0 || grid.sparsity_threshold@.len() == 0,
    ensures
        num_combinations(grid) == 0,
{
    let (a, b, c, d, e, f, g) = (
        grid.alpha@.len() as int,
        grid.beta@.len() as int,
        grid.lambda_@.len() as int,
        grid.meta_weight@.len() as int,
        grid.decay_rate@.len() as int,
        grid.ips_alpha@.len() as int,
        grid.sparsity_threshold@.len() as int,
    );
    assert(a * b * c * d * e * f * g == 0) by (nonlinear_arith)
        requires
            a == 0 || b == 0 || c == 0 || d == 0 || e == 0 || f == 0 || g == 0,
    ;
}

/// Enumerates the combinations of a grid.
pub fn cartesian_product<T: Copy>(grid: &ParamGrid<T>) -> (combos: Vec<HyperParams<T>>)
    requires
        num_combinations(*grid) <= usize::MAX,
    ensures
        combos@ == combinations(*grid),
{
    let mut combos: Vec<HyperParams<T>> = Vec::new();
    let n_alpha: usize = grid.alpha.len();
    let n_beta: usize = grid.beta.len();
    let n_lambda: usize = grid.lambda_.len();
    let n_meta: usize = grid.meta_weight.len();
    let n_decay: usize = grid.decay_rate.len();
    let n_ips: usize = grid.ips_alpha.len();
    let n_sparsity: usize = grid.sparsity_threshold.len();
    if n_alpha == 0 || n_beta == 0 || n_lambda == 0 || n_meta == 0 || n_decay == 0 || n_ips == 0
        || n_sparsity == 0 {
        proof {
            lemma_no_combination(*grid);
            assert(combos@ =~= combinations(*grid));
        }
        return combos;
    }
    let ghost p2 = n_alpha * n_beta;
    let ghost p3 = p2 * n_lambda;
    let ghost p4 = p3 * n_meta;
    let ghost p5 = p4 * n_decay;
    let ghost p6 = p5 * n_ips;
    let ghost p7 = p6 * n_sparsity;
    proof {
        lemma_product_grows(n_alpha as int, n_beta as int);
        lemma_product_grows(p2, n_lambda as int);
        lemma_product_grows(p3, n_meta as int);
        lemma_product_grows(p4, n_decay as int);
        lemma_product_grows(p5, n_ips as int);
        lemma_product_grows(p6, n_sparsity as int);
        assert(p7 == num_combinations(*grid));
    }
    let total: usize = n_alpha * n_beta * n_lambda * n_meta * n_decay * n_ips * n_sparsity;
    let mut i: usize = 0;
    while i < total
        invariant
            i <= total,
            total == num_combinations(*grid),
            n_alpha == grid.alpha@.len(),
            n_beta == grid.beta@.len() > 0,
            n_lambda == grid.lambda_@.len() > 0,
            n_meta == grid.meta_weight@.len() > 0,
            n_decay == grid.decay_rate@.len() > 0,
            n_ips == grid.ips_alpha@.len() > 0,
            n_sparsity == grid.sparsity_threshold@.len() > 0,
            p2 == n_alpha * n_beta,
            p3 == p2 * n_lambda,
            p4 == p3 * n_meta,
            p5 == p4 * n_decay,
            p6 == p5 * n_ips,
            p7 == p6 * n_sparsity,
            p7 == total,
            0 <= p2,
            0 <= p3,
            0 <= p4,
            0 <= p5,
            0 <= p6,
            combos@ == combinations(*grid).take(i as int),
        decreases total - i,
    {
        let i_ips: usize = i / n_sparsity;
        proof {
            lemma_quotient_below(i as int, p6, n_sparsity as int);
        }
        let i_decay: usize = i_ips / n_ips;
        proof {
            lemma_quotient_below(i_ips as int, p5, n_ips as int);
        }
        let i_meta: usize = i_decay / n_decay;
        proof {
            lemma_quotient_below(i_decay as int, p4, n_decay as int);
        }
        let i_lambda: usize = i_meta / n_meta;
        proof {
            lemma_quotient_below(i_meta as int, p3, n_meta as int);
        }
        let i_beta: usize = i_lambda / n_lambda;
        proof {
            lemma_quotient_below(i_lambda as int, p2, n_lambda as int);
            lemma_quotient_below(i_beta as int, n_alpha as int, n_beta as int);
        }
        let params = HyperParams {
            alpha: grid.alpha[i_beta / n_beta],
            beta: grid.beta[i_beta % n_beta],
            lambda_: grid.lambda_[i_lambda % n_lambda],
            meta_weight: grid.meta_weight[i_meta % n_meta],
            decay_rate: grid.decay_rate[i_decay % n_decay],
            ips_alpha: grid.ips_alpha[i_ips % n_ips],
            sparsity_threshold: grid.sparsity_threshold[i % n_sparsity],
        };
        assert(params == combination(*grid, i as int));
        combos.push(params);
        assert(combos@ =~= combinations(*grid).take(i + 1));
        i = i + 1;
    }
    assert(combos@ =~= combinations(*grid));
    combos
}

/// The place after digit `r` below `b` is put behind the place `q`.
proof fn lemma_digit(q: int, r: int, a: int, b: int)
    requires
        0 <= q < a,
        0 <= r < b,
    ensures
        0 <= q * b + r < a * b,
        (q * b + r) / b == q,
        (q * b + r) % b == r,
{
    assert(0 <= q * b + r < a * b) by (nonlinear_arith)
        requires
            0 <= q < a,
            0 <= r < b,
    ;
    vstd::arithmetic::div_mod::lemma_fundamental_div_mod_converse(q * b + r, b, q, r);
}

/// Every choice of one value per parameter is among the combinations.
pub proof fn every_choice_is_a_combination<T>(
    grid: ParamGrid<T>,
    a: int,
    b: int,
    c: int,
    d: int,
    e: int,
    f: int,
    g: int,
)
    requires
        0 <= a < grid.alpha@.len(),
        0 <= b < grid.beta@.len(),
        0 <= c < grid.lambda_@.len(),
        0 <= d < grid.meta_weight@.len(),
        0 <= e < grid.decay_rate@.len(),
        0 <= f < grid.ips_alpha@.len(),
        0 <= g < grid.sparsity_threshold@.len(),
    ensures
        combinations(grid).contains(
            (HyperParams {
                alpha: grid.alpha@[a],
                beta: grid.beta@[b],
                lambda_: grid.lambda_@[c],
                meta_weight: grid.meta_weight@[d],
                decay_rate: grid.decay_rate@[e],
                ips_alpha: grid.ips_alpha@[f],
                sparsity_threshold: grid.sparsity_threshold@[g],
            }),
        ),
{
    let p1 = grid.alpha@.len() as int;
    let p2 = p1 * grid.beta@.len();
    let p3 = p2 * grid.lambda_@.len();
    let p4 = p3 * grid.meta_weight@.len();
    let p5 = p4 * grid.decay_rate@.len();
    let p6 = p5 * grid.ips_alpha@.len();
    let i2 = a * grid.beta@.len() + b;
    lemma_digit(a, b, p1, grid.beta@.len() as int);
    let i3 = i2 * grid.lambda_@.len() + c;
    lemma_digit(i2, c, p2, grid.lambda_@.len() as int);
    let i4 = i3 * grid.meta_weight@.len() + d;
    lemma_digit(i3, d, p3, grid.meta_weight@.len() as int);
    let i5 = i4 * grid.decay_rate@.len() + e;
    lemma_digit(i4, e, p4, grid.decay_rate@.len() as int);
    let i6 = i5 * grid.ips_alpha@.len() + f;
    lemma_digit(i5, f, p5, grid.ips_alpha@.len() as int);
    let i7 = i6 * grid.sparsity_threshold@.len() + g;
    lemma_digit(i6, g, p6, grid.sparsity_threshold@.len() as int);
    assert(combinations(grid)[i7] == combination(grid, i7));
}

/// The value drawn from `values` in a state of the generator: one of them, or the default where
/// there is none.
pub open spec fn drawn<T>(values: Seq<T>, default: T, state: Seq<u8>) -> T {
    if values.len() == 0 {
        default
    } else {
        values[chosen_position(values.len(), state) as int]
    }
}

/// The state of the generator after a draw among `len` values.
pub open spec fn after_draw(len: nat, state: Seq<u8>) -> Seq<u8> {
    if len == 0 {
        state
    } else {
        state_after_choice(len, state)
    }
}

/// The state after the first `n` draws of a configuration.
pub open spec fn state_within<T>(grid: ParamGrid<T>, state: Seq<u8>, n: int) -> Seq<u8> {
    let s1 = after_draw(grid.alpha@.len(), state);
    let s2 = after_draw(grid.beta@.len(), s1);
    let s3 = after_draw(grid.lambda_@.len(), s2);
    let s4 = after_draw(grid.meta_weight@.len(), s3);
    let s5 = after_draw(grid.decay_rate@.len(), s4);
    let s6 = after_draw(grid.ips_alpha@.len(), s5);
    if n <= 0 {
        state
    } else if n == 1 {
        s1
    } else if n == 2 {
        s2
    } else if n == 3 {
        s3
    } else if n == 4 {
        s4
    } else if n == 5 {
        s5
    } else if n == 6 {
        s6
    } else {
        after_draw(grid.sparsity_threshold@.len(), s6)
    }
}

/// The configuration drawn in a state of the generator.
pub open spec fn drawn_params<T>(
    grid: ParamGrid<T>,
    defaults: HyperParams<T>,
    state: Seq<u8>,
) -> HyperParams<T> {
    HyperParams {
        alpha: drawn(grid.alpha@, defaults.alpha, state),
        beta: drawn(grid.beta@, defaults.beta, state_within(grid, state, 1)),
        lambda_: drawn(grid.lambda_@, defaults.lambda_, state_within(grid, state, 2)),
        meta_weight: drawn(grid.meta_weight@, defaults.meta_weight, state_within(grid, state, 3)),
        decay_rate: drawn(grid.decay_rate@, defaults.decay_rate, state_within(grid, state, 4)),
        ips_alpha: drawn(grid.ips_alpha@, defaults.ips_alpha, state_within(grid, state, 5)),
        sparsity_threshold: drawn(
            grid.sparsity_threshold@,
            defaults.sparsity_threshold,
            state_within(grid, state, 6),
        ),
    }
}

/// The state after `n` configurations were drawn.
pub open spec fn state_after<T>(grid: ParamGrid<T>, state: Seq<u8>, n: nat) -> Seq<u8>
    decreases n,
{
    if n == 0 {
        state
    } else {
        state_within(grid, state_after(grid, state, (n - 1) as nat), 7)
    }
}

/// The seed of the sampling: the successor of the search's, so that it does not repeat the draws of
/// the folds.
pub open spec fn sampling_seed(seed: u64) -> u64 {
    if seed == u64::MAX {
        0
    } else {
        (seed + 1) as u64
    }
}

/// The configurations that `n` trials draw: one after the other from one generator.
pub open spec fn sampled<T>(
    grid: ParamGrid<T>,
    defaults: HyperParams<T>,
    n: nat,
    seed: u64,
) -> Seq<HyperParams<T>> {
    let first = seeded_state(sampling_seed(seed));
    Seq::new(n, |i: int| drawn_params(grid, defaults, state_after(grid, first, i as nat)))
}

/// `value` is one of `values`, or the default where there is none.
pub open spec fn offered<T>(values: Seq<T>, default: T, value: T) -> bool {
    if values.len() == 0 {
        value == default
    } else {
        values.contains(value)
    }
}

/// Each parameter of `params` is one that the grid offers.
pub open spec fn offered_by<T>(
    grid: ParamGrid<T>,
    defaults: HyperParams<T>,
    params: HyperParams<T>,
) -> bool {
    &&& offered(grid.alpha@, defaults.alpha, params.alpha)
    &&& offered(grid.beta@, defaults.beta, params.beta)
    &&& offered(grid.lambda_@, defaults.lambda_, params.lambda_)
    &&& offered(grid.meta_weight@, defaults.meta_weight, params.meta_weight)
    &&& offered(grid.decay_rate@, defaults.decay_rate, params.decay_rate)
    &&& offered(grid.ips_alpha@, defaults.ips_alpha, params.ips_alpha)
    &&& offered(grid.sparsity_threshold@, defaults.sparsity_threshold, params.sparsity_threshold)
}

/// Draws a value, or takes the default where there is none.
fn draw<T: Copy>(values: &Vec<T>, default: T, rng: &mut StdRng) -> (value: T)
    ensures
        value == drawn(values@, default, rng_state(*old(rng))),
        offered(values@, default, value),
        rng_state(*final(rng)) == after_draw(values@.len(), rng_state(*old(rng))),
{
    match choose_item(values.as_slice(), rng) {
        Some(value) => value,
        None => default,
    }
}

/// Samples `n_trials` configurations from a grid; a parameter without values takes its default.
pub fn sample_configs<T: Copy>(
    grid: &ParamGrid<T>,
    defaults: HyperParams<T>,
    n_trials: usize,
    seed: u64,
) -> (configs: Vec<HyperParams<T>>)
    ensures
        configs@ == sampled(*grid, defaults, n_trials as nat, seed),
        forall|i: int|
            0 <= i < configs@.len() ==> offered_by(*grid, defaults, #[trigger] configs@[i]),
{
    let mut rng = seeded_rng(
        if seed == u64::MAX {
            0
        } else {
            seed + 1
        },
    );
    let ghost first = rng_state(rng);
    let ghost all = sampled(*grid, defaults, n_trials as nat, seed);
    let mut configs: Vec<HyperParams<T>> = Vec::new();
    let mut i: usize = 0;
    while i < n_trials
        invariant
            i <= n_trials,
            first == seeded_state(sampling_seed(seed)),
            all == sampled(*grid, defaults, n_trials as nat, seed),
            rng_state(rng) == state_after(*grid, first, i as nat),
            configs@ == all.take(i as int),
            forall|k: int|
                0 <= k < configs@.len() ==> offered_by(*grid, defaults, #[trigger] configs@[k]),
        decreases n_trials - i,
    {
        let ghost state = rng_state(rng);
        let alpha = draw(&grid.alpha, defaults.alpha, &mut rng);
        let beta = draw(&grid.beta, defaults.beta, &mut rng);
        let lambda_ = draw(&grid.lambda_, defaults.lambda_, &mut rng);
        let meta_weight = draw(&grid.meta_weight, defaults.meta_weight, &mut rng);
        let decay_rate = draw(&grid.decay_rate, defaults.decay_rate, &mut rng);
        let ips_alpha = draw(&grid.ips_alpha, defaults.ips_alpha, &mut rng);
        let sparsity_threshold = draw(
            &grid.sparsity_threshold,
            defaults.sparsity_threshold,
            &mut rng,
        );
        let params = HyperParams {
            alpha,
            beta,
            lambda_,
            meta_weight,
            decay_rate,
            ips_alpha,
            sparsity_threshold,
        };
        assert(params == drawn_params(*grid, defaults, state));
        configs.push(params);
        assert(configs@ =~= all.take(i + 1));
        i = i + 1;
    }
    assert(configs@ =~= all);
    configs
}

/// The combinations are ordered like numbers whose digits are the places of the values, the last
/// parameter's digit being the last one, and there are as many as choices.
pub proof fn combinations_count_like_digits<T>(
    grid: ParamGrid<T>,
    a: int,
    b: int,
    c: int,
    d: int,
    e: int,
    f: int,
    g: int,
)
    requires
        0 <= a < grid.alpha@.len(),
        0 <= b < grid.beta@.len(),
        0 <= c < grid.lambda_@.len(),
        0 <= d < grid.meta_weight@.len(),
        0 <= e < grid.decay_rate@.len(),
        0 <= f < grid.ips_alpha@.len(),
        0 <= g < grid.sparsity_threshold@.len(),
    ensures
        ({
            let place = (((((a * grid.beta@.len() + b) * grid.lambda_@.len() + c)
                * grid.meta_weight@.len() + d) * grid.decay_rate@.len() + e) * grid.ips_alpha@.len()
                + f) * grid.sparsity_threshold@.len() + g;
            &&& combinations(grid).len() == grid.alpha@.len() * grid.beta@.len()
                * grid.lambda_@.len() * grid.meta_weight@.len() * grid.decay_rate@.len()
                * grid.ips_alpha@.len() * grid.sparsity_threshold@.len()
            &&& 0 <= place < combinations(grid).len()
            &&& combinations(grid)[place] == (HyperParams {
                alpha: grid.alpha@[a],
                beta: grid.beta@[b],
                lambda_: grid.lambda_@[c],
                meta_weight: grid.meta_weight@[d],
                decay_rate: grid.decay_rate@[e],
                ips_alpha: grid.ips_alpha@[f],
                sparsity_threshold: grid.sparsity_threshold@[g],
            })
        }),
{
    let p1 = grid.alpha@.len() as int;
    let p2 = p1 * grid.beta@.len();
    let p3 = p2 * grid.lambda_@.len();
    let p4 = p3 * grid.meta_weight@.len();
    let p5 = p4 * grid.decay_rate@.len();
    let p6 = p5 * grid.ips_alpha@.len();
    let i2 = a * grid.beta@.len() + b;
    lemma_digit(a, b, p1, grid.beta@.len() as int);
    let i3 = i2 * grid.lambda_@.len() + c;
    lemma_digit(i2, c, p2, grid.lambda_@.len() as int);
    let i4 = i3 * grid.meta_weight@.len() + d;
    lemma_digit(i3, d, p3, grid.meta_weight@.len() as int);
    let i5 = i4 * grid.decay_rate@.len() + e;
    lemma_digit(i4, e, p4, grid.decay_rate@.len() as int);
    let i6 = i5 * grid.ips_alpha@.len() + f;
    lemma_digit(i5, f, p5, grid.ips_alpha@.len() as int);
    let i7 = i6 * grid.sparsity_threshold@.len() + g;
    lemma_digit(i6, g, p6, grid.sparsity_threshold@.len() as int);
    assert(combinations(grid)[i7] == combination(grid, i7));
}

/// A sampled configuration draws its parameters one after the other, each among its own values, from
/// one generator, which starts at the seed after the given one; each configuration goes on where
/// the one before stopped.
pub proof fn samples_draw_in_turn<T>(
    grid: ParamGrid<T>,
    defaults: HyperParams<T>,
    n: nat,
    seed: u64,
    i: int,
)
    requires
        0 <= i < n,
        grid.alpha@.len() > 0,
        grid.beta@.len() > 0,
        grid.lambda_@.len() > 0,
        grid.meta_weight@.len() > 0,
        grid.decay_rate@.len() > 0,
        grid.ips_alpha@.len() > 0,
        grid.sparsity_threshold@.len() > 0,
    ensures
        ({
            let first = seeded_state(((seed + 1) % 0x1_0000_0000_0000_0000) as u64);
            let s0 = state_after(grid, first, i as nat);
            let s1 = state_after_choice(grid.alpha@.len(), s0);
            let s2 = state_after_choice(grid.beta@.len(), s1);
            let s3 = state_after_choice(grid.lambda_@.len(), s2);
            let s4 = state_after_choice(grid.meta_weight@.len(), s3);
            let s5 = state_after_choice(grid.decay_rate@.len(), s4);
            let s6 = state_after_choice(grid.ips_alpha@.len(), s5);
            let params = sampled(grid, defaults, n, seed)[i];
            &&& sampled(grid, defaults, n, seed).len() == n
            &&& state_after(grid, first, 0) == first
            &&& state_after(grid, first, (i + 1) as nat) == state_after_choice(
                grid.sparsity_threshold@.len(),
                s6,
            )
            &&& params.alpha == grid.alpha@[chosen_position(grid.alpha@.len(), s0) as int]
            &&& params.beta == grid.beta@[chosen_position(grid.beta@.len(), s1) as int]
            &&& params.lambda_ == grid.lambda_@[chosen_position(grid.lambda_@.len(), s2) as int]
            &&& params.meta_weight == grid.meta_weight@[chosen_position(
                grid.meta_weight@.len(),
                s3,
            ) as int]
            &&& params.decay_rate == grid.decay_rate@[chosen_position(
                grid.decay_rate@.len(),
                s4,
            ) as int]
            &&& params.ips_alpha == grid.ips_alpha@[chosen_position(
                grid.ips_alpha@.len(),
                s5,
            ) as int]
            &&& params.sparsity_threshold == grid.sparsity_threshold@[chosen_position(
                grid.sparsity_threshold@.len(),
                s6,
            ) as int]
        }),
{
}

/// A parameter without values is sampled as its default, and nothing is drawn for it.
pub proof fn empty_axes_take_their_default<T>(
    grid: ParamGrid<T>,
    defaults: HyperParams<T>,
    n: nat,
    seed: u64,
    i: int,
)
    requires
        0 <= i < n,
    ensures
        ({
            let params = sampled(grid, defaults, n, seed)[i];
            &&& grid.alpha@.len() == 0 ==> params.alpha == defaults.alpha
            &&& grid.beta@.len() == 0 ==> params.beta == defaults.beta
            &&& grid.lambda_@.len() == 0 ==> params.lambda_ == defaults.lambda_
            &&& grid.meta_weight@.len() == 0 ==> params.meta_weight == defaults.meta_weight
            &&& grid.decay_rate@.len() == 0 ==> params.decay_rate == defaults.decay_rate
            &&& grid.ips_alpha@.len() == 0 ==> params.ips_alpha == defaults.ips_alpha
            &&& grid.sparsity_threshold@.len() == 0 ==> params.sparsity_threshold
                == defaults.sparsity_threshold
        }),
        forall|state: Seq<u8>| #[trigger] after_draw(0, state) == state,
{
}

} // verus!
