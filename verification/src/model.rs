//! The closed-form item model: assembling its linear system, reading its weights, and predicting.

pub mod laws;

use crate::ann::exact::{dot, dot_defined};
use crate::data_pipeline::Mappings;
use crate::ids::{first_seen, id_entries, id_get, texts};
use crate::matrix::{
    filled, is_matrix, lemma_fill, lemma_filled, lemma_next_column, lemma_place, place, Matrix,
};
use crate::order::{comparable, has_place, ordered_type, outranks, ranks_before};
use crate::serving::{
    by_name, collect_indices, filter_sort_top_k, idx_scores_to_str, indices_of, known_pairs, lookup,
    named_view, resolve_pairs,
};
use crate::text::{decimal, decimal_text, join, joined};
use crate::top_k::{candidate_scores, candidates, top_k_is_best};
use crate::transform::{
    all_keys, quantity, transform_features, FeatureTransformationSchema, RawValue,
};
use crate::weighting::WeightingConfig;
use std::ops::{Add, Div, Mul, Neg};
use vstd::prelude::*;
use vstd::std_specs::cmp::{PartialEqSpec, PartialOrdIs};
use vstd::std_specs::ops::{AddSpec, DivSpec, MulSpec, NegSpec};

verus! {

/// The outcome of a model's self-check.
pub struct ValidationReport {
    /// Whether every check passed.
    pub passed: bool,
    /// One message per check.
    pub messages: Vec<String>,
}

/// A trained model with its mappings.
pub struct RustFeaseModel<V> {
    /// The weights over items and user features.
    pub s_matrix: Matrix<V>,
    pub num_items: usize,
    pub num_user_features: usize,
    pub num_item_features: usize,
    pub alpha: V,
    pub beta: V,
    pub lambda_: V,
    /// The weight of item features in the system; not positive means that of interactions.
    pub meta_weight: V,
    pub mappings: Mappings,
    pub weighting_config: Option<WeightingConfig<V>>,
    /// How raw user attributes become features.
    pub transformation_schema: Option<FeatureTransformationSchema<V>>,
}

/// The sparse products that the system is assembled from.
pub struct GramProducts<V> {
    /// Interactions with themselves: items by items.
    pub xtx: Matrix<V>,
    /// Item features with themselves: items by items.
    pub ttt: Matrix<V>,
    /// Interactions with user features: items by user features.
    pub xtu: Matrix<V>,
    /// User features with interactions: user features by items.
    pub utx: Matrix<V>,
    /// User features with themselves: user features by user features.
    pub utu: Matrix<V>,
}

/// Training failed because the system is singular.
#[derive(Debug, Clone, Copy, PartialEq, Eq, Structural)]
pub struct SingularSystem;

impl SingularSystem {
    /// A description for the caller.
    pub fn message(&self) -> (text: String)
        ensures
            text@ == "Failed to invert Gram matrix G. It may be singular."@,
    {
        "Failed to invert Gram matrix G. It may be singular.".to_owned()
    }
}

/// The products fit `m` items and `k` user features.
pub open spec fn products_fit<V>(p: GramProducts<V>, m: int, k: int) -> bool {
    &&& p.xtx.wf() && p.xtx.nrows == m && p.xtx.ncols == m
    &&& p.ttt.wf() && p.ttt.nrows == m && p.ttt.ncols == m
    &&& p.xtu.wf() && p.xtu.nrows == m && p.xtu.ncols == k
    &&& p.utx.wf() && p.utx.nrows == k && p.utx.ncols == m
    &&& p.utu.wf() && p.utu.nrows == k && p.utu.ncols == k
}

/// The weight of item features: the given one where it is positive, else one.
pub open spec fn effective_weight<V: PartialOrd>(meta_weight: V, zero: V, one: V) -> V {
    if outranks(meta_weight, zero) {
        meta_weight
    } else {
        one
    }
}

/// The factors of the blocks of the system.
pub struct BlockFactors<V> {
    /// That of the item features: their weight times the square of `alpha`.
    pub items: V,
    /// That of the mixed blocks: `beta`.
    pub mixed: V,
    /// That of the user features: the square of `beta`.
    pub features: V,
    /// What is added on the diagonal: `lambda`.
    pub ridge: V,
}

/// The entry of the system before regularization: the blocks of items and user features.
pub open spec fn block_entry<V: Add<Output = V> + Mul<Output = V>>(
    p: GramProducts<V>,
    f: BlockFactors<V>,
    m: int,
    r: int,
    c: int,
) -> V {
    if r < m && c < m {
        p.xtx.at(r, c).add_spec(p.ttt.at(r, c).mul_spec(f.items))
    } else if r < m {
        p.xtu.at(r, c - m).mul_spec(f.mixed)
    } else if c < m {
        p.utx.at(r - m, c).mul_spec(f.mixed)
    } else {
        p.utu.at(r - m, c - m).mul_spec(f.features)
    }
}

/// The entry of the regularized system.
pub open spec fn system_entry<V: Add<Output = V> + Mul<Output = V>>(
    p: GramProducts<V>,
    f: BlockFactors<V>,
    m: int,
    r: int,
    c: int,
) -> V {
    if r == c {
        block_entry(p, f, m, r, c).add_spec(f.ridge)
    } else {
        block_entry(p, f, m, r, c)
    }
}

/// Each product and sum of an entry is defined.
pub open spec fn entry_defined<V: Add<Output = V> + Mul<Output = V>>(
    p: GramProducts<V>,
    f: BlockFactors<V>,
    m: int,
    r: int,
    c: int,
) -> bool {
    &&& if r < m && c < m {
        p.ttt.at(r, c).mul_req(f.items) && p.xtx.at(r, c).add_req(
            p.ttt.at(r, c).mul_spec(f.items),
        )
    } else if r < m {
        p.xtu.at(r, c - m).mul_req(f.mixed)
    } else if c < m {
        p.utx.at(r - m, c).mul_req(f.mixed)
    } else {
        p.utu.at(r - m, c - m).mul_req(f.features)
    }
    &&& r == c ==> block_entry(p, f, m, r, c).add_req(f.ridge)
}

/// Every entry of the system is defined, and sums and products are computed as specified.
pub open spec fn system_defined<V: Add<Output = V> + Mul<Output = V>>(
    p: GramProducts<V>,
    f: BlockFactors<V>,
    m: int,
    k: int,
) -> bool {
    &&& V::obeys_add_spec()
    &&& V::obeys_mul_spec()
    &&& forall|r: int, c: int|
        0 <= r < m + k && 0 <= c < m + k ==> #[trigger] entry_defined(p, f, m, r, c)
}

/// Assembles the regularized system from its blocks.
pub fn assemble_system<V: Copy + Add<Output = V> + Mul<Output = V>>(
    p: &GramProducts<V>,
    f: &BlockFactors<V>,
    m: usize,
    k: usize,
) -> (system: Matrix<V>)
    requires
        products_fit(*p, m as int, k as int),
        m + k <= usize::MAX,
        system_defined(*p, *f, m as int, k as int),
    ensures
        is_matrix(
            system,
            m + k,
            m + k,
            |r: int, c: int| system_entry(*p, *f, m as int, r, c),
        ),
{
    let n: usize = m + k;
    let ghost entry = |r: int, c: int| system_entry(*p, *f, m as int, r, c);
    let mut data: Vec<V> = Vec::new();
    let mut c: usize = 0;
    proof {
        lemma_next_column(n as int, 0);
    }
    while c < n
        invariant
            c <= n,
            n == m + k,
            products_fit(*p, m as int, k as int),
            system_defined(*p, *f, m as int, k as int),
            entry == (|r: int, c: int| system_entry(*p, *f, m as int, r, c)),
            filled(data@, n as int, place(n as int, 0, c as int), entry),
        decreases n - c,
    {
        let mut r: usize = 0;
        while r < n
            invariant
                r <= n,
                c < n,
                n == m + k,
                products_fit(*p, m as int, k as int),
                system_defined(*p, *f, m as int, k as int),
                entry == (|r: int, c: int| system_entry(*p, *f, m as int, r, c)),
                filled(data@, n as int, place(n as int, r as int, c as int), entry),
            decreases n - r,
        {
            assert(entry_defined(*p, *f, m as int, r as int, c as int));
            let block: V = if r < m && c < m {
                p.xtx.get(r, c) + p.ttt.get(r, c) * f.items
            } else if r < m {
                p.xtu.get(r, c - m) * f.mixed
            } else if c < m {
                p.utx.get(r - m, c) * f.mixed
            } else {
                p.utu.get(r - m, c - m) * f.features
            };
            let value: V = if r == c {
                block + f.ridge
            } else {
                block
            };
            proof {
                lemma_fill(data@, n as int, r as int, c as int, value, entry);
            }
            data.push(value);
            r = r + 1;
        }
        proof {
            lemma_next_column(n as int, c as int);
        }
        c = c + 1;
    }
    let system = Matrix { nrows: n, ncols: n, data };
    proof {
        lemma_filled(system, entry);
    }
    system
}

/// The magnitude of `value` exceeds `tiny`.
pub open spec fn exceeds<V: PartialOrd + Neg<Output = V>>(value: V, tiny: V) -> bool {
    outranks(value, tiny) || outranks(value.neg_spec(), tiny)
}

/// The magnitude of `value` is below `threshold`.
pub open spec fn is_small<V: PartialOrd + Neg<Output = V>>(value: V, threshold: V) -> bool {
    outranks(threshold, value) && outranks(threshold, value.neg_spec())
}

/// Comparison and negation are computed as specified, and the values can be negated.
pub open spec fn have_magnitude<V: PartialOrd + Neg<Output = V>>(values: Seq<V>) -> bool {
    &&& ordered_type::<V>()
    &&& V::obeys_neg_spec()
    &&& forall|i: int| 0 <= i < values.len() ==> (#[trigger] values[i]).neg_req()
}

/// The scale of column `c` of the weights: minus one over the diagonal entry of the inverse, or zero
/// where that is tiny.
pub open spec fn column_scale<V: PartialOrd + Neg<Output = V> + Div<Output = V>>(
    inverse: Matrix<V>,
    c: int,
    minus_one: V,
    zero: V,
    tiny: V,
) -> V {
    if exceeds(inverse.at(c, c), tiny) {
        minus_one.div_spec(inverse.at(c, c))
    } else {
        zero
    }
}

/// The weight in row `r` and column `c`: zero on the diagonal.
pub open spec fn weight_entry<
    V: PartialOrd + Neg<Output = V> + Div<Output = V> + Mul<Output = V>,
>(inverse: Matrix<V>, r: int, c: int, minus_one: V, zero: V, tiny: V) -> V {
    if r == c {
        zero
    } else {
        inverse.at(r, c).mul_spec(column_scale(inverse, c, minus_one, zero, tiny))
    }
}

/// Every weight is defined, and its operations are computed as specified.
pub open spec fn weights_defined<
    V: PartialOrd + Neg<Output = V> + Div<Output = V> + Mul<Output = V>,
>(inverse: Matrix<V>, minus_one: V, zero: V, tiny: V) -> bool {
    &&& have_magnitude(inverse.data@)
    &&& V::obeys_div_spec()
    &&& V::obeys_mul_spec()
    &&& forall|c: int|
        0 <= c < inverse.ncols ==> (exceeds(#[trigger] inverse.at(c, c), tiny)
            ==> minus_one.div_req(inverse.at(c, c)))
    &&& forall|r: int, c: int|
        0 <= r < inverse.nrows && 0 <= c < inverse.ncols && r != c ==> (#[trigger] inverse.at(
            r,
            c,
        )).mul_req(column_scale(inverse, c, minus_one, zero, tiny))
}

/// Computes the weights from the inverse of the system.
pub fn weights_from_inverse<
    V: Copy + PartialOrd + Neg<Output = V> + Div<Output = V> + Mul<Output = V>,
>(inverse: &Matrix<V>, minus_one: V, zero: V, tiny: V) -> (weights: Matrix<V>)
    requires
        inverse.wf(),
        inverse.nrows == inverse.ncols,
        weights_defined(*inverse, minus_one, zero, tiny),
    ensures
        is_matrix(
            weights,
            inverse.nrows as int,
            inverse.ncols as int,
            |r: int, c: int| weight_entry(*inverse, r, c, minus_one, zero, tiny),
        ),
{
    let n: usize = inverse.nrows;
    let ghost entry = |r: int, c: int| weight_entry(*inverse, r, c, minus_one, zero, tiny);
    let mut data: Vec<V> = Vec::new();
    let mut c: usize = 0;
    proof {
        lemma_next_column(n as int, 0);
    }
    while c < n
        invariant
            c <= n,
            inverse.wf(),
            inverse.nrows == n,
            inverse.ncols == n,
            weights_defined(*inverse, minus_one, zero, tiny),
            entry == (|r: int, c: int| weight_entry(*inverse, r, c, minus_one, zero, tiny)),
            filled(data@, n as int, place(n as int, 0, c as int), entry),
        decreases n - c,
    {
        let diagonal: V = inverse.get(c, c);
        assert(diagonal == inverse.at(c as int, c as int));
        proof {
            lemma_place(n as int, n as int, c as int, c as int);
            assert(inverse.data@[place(n as int, c as int, c as int)].neg_req());
        }
        let scale: V = if diagonal > tiny || diagonal.neg() > tiny {
            minus_one / diagonal
        } else {
            zero
        };
        let mut r: usize = 0;
        while r < n
            invariant
                r <= n,
                c < n,
                inverse.wf(),
                inverse.nrows == n,
                inverse.ncols == n,
                weights_defined(*inverse, minus_one, zero, tiny),
                scale == column_scale(*inverse, c as int, minus_one, zero, tiny),
                entry == (|r: int, c: int| weight_entry(*inverse, r, c, minus_one, zero, tiny)),
                filled(data@, n as int, place(n as int, r as int, c as int), entry),
            decreases n - r,
        {
            let value: V = if r == c {
                zero
            } else {
                let part: V = inverse.get(r, c);
                assert(inverse.at(r as int, c as int).mul_req(scale));
                part * scale
            };
            proof {
                lemma_fill(data@, n as int, r as int, c as int, value, entry);
            }
            data.push(value);
            r = r + 1;
        }
        proof {
            lemma_next_column(n as int, c as int);
        }
        c = c + 1;
    }
    let weights = Matrix { nrows: n, ncols: n, data };
    proof {
        lemma_filled(weights, entry);
    }
    weights
}

/// No item predicts itself: the weights have a zero diagonal.
pub proof fn weights_have_zero_diagonal<
    V: PartialOrd + Neg<Output = V> + Div<Output = V> + Mul<Output = V>,
>(inverse: Matrix<V>, weights: Matrix<V>, i: int, minus_one: V, zero: V, tiny: V)
    requires
        is_matrix(
            weights,
            inverse.nrows as int,
            inverse.ncols as int,
            |r: int, c: int| weight_entry(inverse, r, c, minus_one, zero, tiny),
        ),
        0 <= i < inverse.nrows,
        i < inverse.ncols,
    ensures
        weights.at(i, i) == zero,
{
}

/// `values` with the pairs `pairs` written into it one after the other; pairs behind its end are
/// skipped.
pub open spec fn written<V>(values: Seq<V>, pairs: Seq<(usize, V)>, n: int) -> Seq<V>
    decreases n,
{
    if n <= 0 {
        values
    } else {
        let earlier = written(values, pairs, n - 1);
        if pairs[n - 1].0 < earlier.len() {
            earlier.update(pairs[n - 1].0 as int, pairs[n - 1].1)
        } else {
            earlier
        }
    }
}

/// The pairs with their values multiplied by `factor`.
pub open spec fn scaled_pairs<V: Mul<Output = V>>(
    pairs: Seq<(usize, V)>,
    factor: V,
) -> Seq<(usize, V)> {
    pairs.map_values(|pair: (usize, V)| (pair.0, pair.1.mul_spec(factor)))
}

/// The vector that stands for a user: the interactions by item, then the features times `beta`.
pub open spec fn user_vector<V: Mul<Output = V>>(
    num_items: nat,
    num_user_features: nat,
    interactions: Seq<(usize, V)>,
    features: Seq<(usize, V)>,
    beta: V,
    zero: V,
) -> Seq<V> {
    written(
        Seq::new(num_items, |i: int| zero),
        interactions,
        interactions.len() as int,
    ) + written(
        Seq::new(num_user_features, |i: int| zero),
        scaled_pairs(features, beta),
        features.len() as int,
    )
}

/// The score of item `i`: the inner product of its row of weights with the user's vector.
pub open spec fn item_score<V: Mul<Output = V> + Add<Output = V>>(
    weights: Matrix<V>,
    i: int,
    vector: Seq<V>,
    zero: V,
) -> V {
    dot(weights.row(i), vector, zero, vector.len() as int)
}

/// The scores of all items.
pub open spec fn item_scores<V: Mul<Output = V> + Add<Output = V>>(
    weights: Matrix<V>,
    num_items: nat,
    vector: Seq<V>,
    zero: V,
) -> Seq<V> {
    Seq::new(num_items, |i: int| item_score(weights, i, vector, zero))
}

proof fn lemma_written_len<V>(values: Seq<V>, pairs: Seq<(usize, V)>, n: int)
    ensures
        written(values, pairs, n).len() == values.len(),
    decreases n,
{
    if n > 0 {
        lemma_written_len(values, pairs, n - 1);
    }
}

/// Builds the vector that stands for a user.
fn make_user_vector<V: Copy + Mul<Output = V>>(
    num_items: usize,
    num_user_features: usize,
    interactions: &[(usize, V)],
    features: &[(usize, V)],
    beta: V,
    zero: V,
) -> (vector: Vec<V>)
    requires
        num_items + num_user_features <= usize::MAX,
        V::obeys_mul_spec(),
        forall|j: int| 0 <= j < features@.len() ==> (#[trigger] features@[j]).1.mul_req(beta),
    ensures
        vector@ == user_vector(
            num_items as nat,
            num_user_features as nat,
            interactions@,
            features@,
            beta,
            zero,
        ),
        vector@.len() == num_items + num_user_features,
{
    let mut items: Vec<V> = Vec::new();
    while items.len() < num_items
        invariant
            items@.len() <= num_items,
            items@ == Seq::new(items@.len(), |i: int| zero),
        decreases num_items - items@.len(),
    {
        items.push(zero);
        assert(items@ =~= Seq::new(items@.len(), |i: int| zero));
    }
    let ghost no_items = items@;
    let mut j: usize = 0;
    while j < interactions.len()
        invariant
            j <= interactions@.len(),
            items@ == written(no_items, interactions@, j as int),
        decreases interactions@.len() - j,
    {
        let (idx, value) = interactions[j];
        if idx < items.len() {
            items.set(idx, value);
        }
        j = j + 1;
    }
    let mut rest: Vec<V> = Vec::new();
    while rest.len() < num_user_features
        invariant
            rest@.len() <= num_user_features,
            rest@ == Seq::new(rest@.len(), |i: int| zero),
        decreases num_user_features - rest@.len(),
    {
        rest.push(zero);
        assert(rest@ =~= Seq::new(rest@.len(), |i: int| zero));
    }
    let ghost no_features = rest@;
    let ghost scaled = scaled_pairs(features@, beta);
    j = 0;
    while j < features.len()
        invariant
            j <= features@.len(),
            V::obeys_mul_spec(),
            forall|k: int|
                0 <= k < features@.len() ==> (#[trigger] features@[k]).1.mul_req(beta),
            scaled == scaled_pairs(features@, beta),
            rest@ == written(no_features, scaled, j as int),
        decreases features@.len() - j,
    {
        let (idx, value) = features[j];
        assert(features@[j as int].1.mul_req(beta));
        assert(scaled[j as int] == (idx, value.mul_spec(beta)));
        if idx < rest.len() {
            rest.set(idx, value * beta);
        }
        j = j + 1;
    }
    proof {
        lemma_written_len(no_items, interactions@, interactions@.len() as int);
        lemma_written_len(no_features, scaled, features@.len() as int);
    }
    let mut vector = items;
    let ghost front = vector@;
    assert(no_items =~= Seq::new(num_items as nat, |i: int| zero));
    assert(no_features =~= Seq::new(num_user_features as nat, |i: int| zero));
    j = 0;
    assert(front + rest@.take(0) =~= front);
    while j < rest.len()
        invariant
            j <= rest@.len(),
            vector@ == front + rest@.take(j as int),
        decreases rest@.len() - j,
    {
        vector.push(rest[j]);
        assert(vector@ =~= front + rest@.take(j + 1));
        j = j + 1;
    }
    assert(rest@.take(j as int) =~= rest@);
    vector
}

impl<V> RustFeaseModel<V> {
    /// The weights have the dimensions that the numbers of items and features say.
    pub open spec fn wf(&self) -> bool {
        &&& self.s_matrix.wf()
        &&& self.s_matrix.nrows == self.num_items + self.num_user_features
        &&& self.s_matrix.ncols == self.num_items + self.num_user_features
    }
}

/// Each operation of a prediction is defined and computed as specified.
pub open spec fn predict_defined<V: Mul<Output = V> + Add<Output = V>>(
    model: RustFeaseModel<V>,
    interactions: Seq<(usize, V)>,
    features: Seq<(usize, V)>,
    beta: V,
    zero: V,
) -> bool {
    let vector = user_vector(
        model.num_items as nat,
        model.num_user_features as nat,
        interactions,
        features,
        beta,
        zero,
    );
    &&& V::obeys_mul_spec()
    &&& V::obeys_add_spec()
    &&& forall|j: int| 0 <= j < features.len() ==> (#[trigger] features[j]).1.mul_req(beta)
    &&& forall|i: int|
        0 <= i < model.num_items ==> #[trigger] dot_defined(
            model.s_matrix.row(i),
            vector,
            zero,
            vector.len() as int,
        )
}

impl<V: Copy> RustFeaseModel<V> {
    /// A model that has not been trained: its weights are zero.
    pub fn new(
        num_items: usize,
        num_user_features: usize,
        num_item_features: usize,
        alpha: V,
        beta: V,
        lambda_: V,
        meta_weight: V,
        mappings: Mappings,
        zero: V,
    ) -> (model: Self)
        requires
            (num_items + num_user_features) * (num_items + num_user_features) <= usize::MAX,
        ensures
            model.wf(),
            is_matrix(
                model.s_matrix,
                num_items + num_user_features,
                num_items + num_user_features,
                |r: int, c: int| zero,
            ),
            model.num_items == num_items,
            model.num_user_features == num_user_features,
            model.num_item_features == num_item_features,
            model.alpha == alpha,
            model.beta == beta,
            model.lambda_ == lambda_,
            model.meta_weight == meta_weight,
            model.mappings == mappings,
            model.weighting_config is None,
            model.transformation_schema is None,
    {
        proof {
            let n = num_items + num_user_features;
            assert(n <= n * n) by (nonlinear_arith)
                requires
                    n >= 0,
            ;
        }
        let total: usize = num_items + num_user_features;
        RustFeaseModel {
            s_matrix: Matrix::filled_with(total, total, zero),
            num_items,
            num_user_features,
            num_item_features,
            alpha,
            beta,
            lambda_,
            meta_weight,
            mappings,
            weighting_config: None,
            transformation_schema: None,
        }
    }

    /// The factors of the system's blocks.
    pub fn block_factors(&self, zero: V, one: V) -> (factors: BlockFactors<V>) where
        V: PartialOrd + Mul<Output = V>,

        requires
            ordered_type::<V>(),
            V::obeys_mul_spec(),
            effective_weight(self.meta_weight, zero, one).mul_req(self.alpha),
            effective_weight(self.meta_weight, zero, one).mul_spec(self.alpha).mul_req(self.alpha),
            self.beta.mul_req(self.beta),
        ensures
            factors.items == effective_weight(self.meta_weight, zero, one).mul_spec(
                self.alpha,
            ).mul_spec(self.alpha),
            self.meta_weight.is_gt(&zero) ==> factors.items == self.meta_weight.mul_spec(
                self.alpha,
            ).mul_spec(self.alpha),
            !self.meta_weight.is_gt(&zero) ==> factors.items == one.mul_spec(self.alpha).mul_spec(
                self.alpha,
            ),
            factors.mixed == self.beta,
            factors.features == self.beta.mul_spec(self.beta),
            factors.ridge == self.lambda_,
    {
        let w: V = if self.meta_weight > zero {
            self.meta_weight
        } else {
            one
        };
        BlockFactors {
            items: w * self.alpha * self.alpha,
            mixed: self.beta,
            features: self.beta * self.beta,
            ridge: self.lambda_,
        }
    }

    /// Takes the weights from the inverse of the system; a system without one is an error and leaves
    /// the model as it was.
    pub fn finish_training(
        &mut self,
        inverse: Option<Matrix<V>>,
        minus_one: V,
        zero: V,
        tiny: V,
    ) -> (done: Result<(), SingularSystem>) where
        V: PartialOrd + Neg<Output = V> + Div<Output = V> + Mul<Output = V>,

        requires
            inverse matches Some(p) ==> {
                &&& p.wf()
                &&& p.nrows == old(self).num_items + old(self).num_user_features
                &&& p.ncols == p.nrows
                &&& weights_defined(p, minus_one, zero, tiny)
            },
        ensures
            match inverse {
                Some(p) => {
                    &&& done is Ok
                    &&& is_matrix(
                        final(self).s_matrix,
                        p.nrows as int,
                        p.ncols as int,
                        |r: int, c: int| weight_entry(p, r, c, minus_one, zero, tiny),
                    )
                    &&& final(self).wf()
                    &&& *final(self) == (RustFeaseModel {
                        s_matrix: final(self).s_matrix,
                        ..*old(self)
                    })
                },
                None => done is Err && *final(self) == *old(self),
            },
    {
        match inverse {
            Some(p) => {
                self.s_matrix = weights_from_inverse(&p, minus_one, zero, tiny);
                Ok(())
            },
            None => Err(SingularSystem),
        }
    }

    /// Zeroes the weights whose magnitude is below `threshold`, and returns how many those are.
    pub fn prune_sparse(&mut self, threshold: V, zero: V) -> (pruned: usize) where
        V: PartialOrd + Neg<Output = V>,

        requires
            have_magnitude(old(self).s_matrix.data@),
        ensures
            *final(self) == (RustFeaseModel { s_matrix: final(self).s_matrix, ..*old(self) }),
            final(self).s_matrix.nrows == old(self).s_matrix.nrows,
            final(self).s_matrix.ncols == old(self).s_matrix.ncols,
            final(self).s_matrix.data@ == old(self).s_matrix.data@.map_values(
                |v: V|
                    if is_small(v, threshold) {
                        zero
                    } else {
                        v
                    },
            ),
            pruned == num_small(
                old(self).s_matrix.data@,
                threshold,
                old(self).s_matrix.data@.len() as int,
            ),
            final(self).s_matrix.data@.len() == old(self).s_matrix.data@.len(),
            forall|i: int|
                0 <= i < old(self).s_matrix.data@.len() && threshold.is_gt(
                    &old(self).s_matrix.data@[i],
                ) && threshold.is_gt(&old(self).s_matrix.data@[i].neg_spec())
                    ==> #[trigger] final(self).s_matrix.data@[i] == zero,
            forall|i: int|
                0 <= i < old(self).s_matrix.data@.len() && !(threshold.is_gt(
                    &old(self).s_matrix.data@[i],
                ) && threshold.is_gt(&old(self).s_matrix.data@[i].neg_spec()))
                    ==> #[trigger] final(self).s_matrix.data@[i] == old(self).s_matrix.data@[i],
    {
        let ghost before = self.s_matrix.data@;
        let ghost keep = |v: V|
            if is_small(v, threshold) {
                zero
            } else {
                v
            };
        let mut data: Vec<V> = Vec::new();
        let mut pruned: usize = 0;
        let mut i: usize = 0;
        while i < self.s_matrix.data.len()
            invariant
                i <= self.s_matrix.data@.len(),
                self.s_matrix.data@ == before,
                have_magnitude(before),
                keep == (|v: V|
                    if is_small(v, threshold) {
                        zero
                    } else {
                        v
                    }),
                data@ == before.map_values(keep).take(i as int),
                pruned <= i,
                pruned == num_small(before, threshold, i as int),
            decreases self.s_matrix.data@.len() - i,
        {
            let v: V = self.s_matrix.data[i];
            assert(before[i as int].neg_req());
            if threshold > v && threshold > v.neg() {
                data.push(zero);
                pruned = pruned + 1;
            } else {
                data.push(v);
            }
            assert(data@ =~= before.map_values(keep).take(i + 1));
            i = i + 1;
        }
        assert(data@ =~= before.map_values(keep));
        self.s_matrix.data = data;
        pruned
    }

    /// Scores every item for a user. Indices outside the model are skipped.
    pub fn predict(
        &self,
        interactions: &[(usize, V)],
        features: &[(usize, V)],
        beta: V,
        zero: V,
    ) -> (scores: Vec<V>) where V: Mul<Output = V> + Add<Output = V>
        requires
            self.wf(),
            predict_defined(*self, interactions@, features@, beta, zero),
        ensures
            scores@ == item_scores(
                self.s_matrix,
                self.num_items as nat,
                user_vector(
                    self.num_items as nat,
                    self.num_user_features as nat,
                    interactions@,
                    features@,
                    beta,
                    zero,
                ),
                zero,
            ),
    {
        let vector = make_user_vector(
            self.num_items,
            self.num_user_features,
            interactions,
            features,
            beta,
            zero,
        );
        let ghost all = item_scores(self.s_matrix, self.num_items as nat, vector@, zero);
        let mut scores: Vec<V> = Vec::new();
        let mut i: usize = 0;
        while i < self.num_items
            invariant
                i <= self.num_items,
                self.wf(),
                predict_defined(*self, interactions@, features@, beta, zero),
                vector@ == user_vector(
                    self.num_items as nat,
                    self.num_user_features as nat,
                    interactions@,
                    features@,
                    beta,
                    zero,
                ),
                vector@.len() == self.num_items + self.num_user_features,
                all == item_scores(self.s_matrix, self.num_items as nat, vector@, zero),
                scores@ == all.take(i as int),
            decreases self.num_items - i,
        {
            let ghost row = self.s_matrix.row(i as int);
            assert(dot_defined(row, vector@, zero, vector@.len() as int));
            let mut sum: V = zero;
            let mut j: usize = 0;
            while j < vector.len()
                invariant
                    j <= vector@.len(),
                    i < self.num_items,
                    self.wf(),
                    vector@.len() == self.num_items + self.num_user_features,
                    row == self.s_matrix.row(i as int),
                    V::obeys_mul_spec(),
                    V::obeys_add_spec(),
                    dot_defined(row, vector@, zero, vector@.len() as int),
                    sum == dot(row, vector@, zero, j as int),
                decreases vector@.len() - j,
            {
                let weight: V = self.s_matrix.get(i, j);
                assert(row[j as int] == weight);
                assert(row[j as int].mul_req(vector@[j as int]));
                sum = sum + weight * vector[j];
                j = j + 1;
            }
            scores.push(sum);
            assert(scores@ =~= all.take(i + 1));
            i = i + 1;
        }
        assert(scores@ =~= all);
        scores
    }
}

/// The number of small ones among the first `n` values.
pub open spec fn num_small<V: PartialOrd + Neg<Output = V>>(
    values: Seq<V>,
    threshold: V,
    n: int,
) -> nat
    decreases n,
{
    if n <= 0 {
        0
    } else if is_small(values[n - 1], threshold) {
        num_small(values, threshold, n - 1) + 1
    } else {
        num_small(values, threshold, n - 1)
    }
}

/// What is left after pruning is either zero or not small.
pub proof fn pruned_weights_are_not_small<V: PartialOrd + Neg<Output = V>>(
    before: Seq<V>,
    after: Seq<V>,
    threshold: V,
    zero: V,
    i: int,
)
    requires
        after == before.map_values(
            |v: V|
                if is_small(v, threshold) {
                    zero
                } else {
                    v
                },
        ),
        0 <= i < before.len(),
    ensures
        after.len() == before.len(),
        after[i] == zero || (after[i] == before[i] && !is_small(after[i], threshold)),
{
}

/// The indexed values of the known names among the first `n`, all with the value `one`.
pub open spec fn known_keys<V>(
    index: Map<Seq<char>, usize>,
    names: Seq<Seq<char>>,
    one: V,
    n: int,
) -> Seq<(usize, V)>
    decreases n,
{
    if n <= 0 {
        Seq::empty()
    } else if index.dom().contains(names[n - 1]) {
        known_keys(index, names, one, n - 1).push((index[names[n - 1]], one))
    } else {
        known_keys(index, names, one, n - 1)
    }
}

/// The indexed numbers of the first `n` attributes that are known and are or spell a number.
pub open spec fn known_numbers<V>(
    index: Map<Seq<char>, usize>,
    raw: Seq<(String, RawValue<V>)>,
    n: int,
) -> Seq<(usize, V)>
    decreases n,
{
    if n <= 0 {
        Seq::empty()
    } else {
        let earlier = known_numbers(index, raw, n - 1);
        match quantity(Some(raw[n - 1].1)) {
            Some(number) => if index.dom().contains(raw[n - 1].0@) {
                earlier.push((index[raw[n - 1].0@], number))
            } else {
                earlier
            },
            None => earlier,
        }
    }
}

/// The features of raw attributes: through the schema where there is one, else the attributes that
/// are numbers already.
pub open spec fn raw_features<V: PartialOrd>(
    schema: Option<FeatureTransformationSchema<V>>,
    index: Map<Seq<char>, usize>,
    raw: Seq<(String, RawValue<V>)>,
    one: V,
) -> Seq<(usize, V)> {
    match schema {
        Some(rules) => {
            let keys = first_seen(all_keys(raw, rules));
            known_keys(index, keys, one, keys.len() as int)
        },
        None => known_numbers(index, raw, raw.len() as int),
    }
}

/// The similarities of an item: its column of the weights, over the items.
pub open spec fn item_column<V>(model: RustFeaseModel<V>, item_idx: int) -> Seq<V> {
    Seq::new(model.num_items as nat, |i: int| model.s_matrix.at(i, item_idx))
}

impl<V: Copy> RustFeaseModel<V> {
    /// The features that a user's raw attributes have in this model.
    pub fn resolve_raw_features(&self, raw: &[(String, RawValue<V>)], one: V) -> (features: Vec<
        (usize, V),
    >) where V: PartialOrd
        requires
            ordered_type::<V>(),
            self.transformation_schema matches Some(schema) ==> schema.wf(),
        ensures
            features@ == raw_features(
                self.transformation_schema,
                id_entries(self.mappings.user_feature_to_idx),
                raw@,
                one,
            ),
    {
        let ghost index = id_entries(self.mappings.user_feature_to_idx);
        let mut features: Vec<(usize, V)> = Vec::new();
        let mut i: usize = 0;
        match &self.transformation_schema {
            Some(schema) => {
                let keys = transform_features(raw, schema);
                while i < keys.len()
                    invariant
                        i <= keys@.len(),
                        index == id_entries(self.mappings.user_feature_to_idx),
                        features@ == known_keys(index, texts(keys@), one, i as int),
                    decreases keys@.len() - i,
                {
                    assert(texts(keys@)[i as int] == keys@[i as int]@);
                    if let Some(idx) = id_get(&self.mappings.user_feature_to_idx, keys[i].as_str()) {
                        features.push((idx, one));
                    }
                    i = i + 1;
                }
                assert(texts(keys@).len() == keys@.len());
            },
            None => {
                while i < raw.len()
                    invariant
                        i <= raw@.len(),
                        index == id_entries(self.mappings.user_feature_to_idx),
                        features@ == known_numbers(index, raw@, i as int),
                    decreases raw@.len() - i,
                {
                    let number: Option<V> = match &raw[i].1 {
                        RawValue::Text { number, .. } => *number,
                        RawValue::Number { value, .. } => *value,
                        RawValue::Flag { .. } => None,
                        RawValue::Other => None,
                    };
                    if let Some(value) = number {
                        if let Some(idx) = id_get(
                            &self.mappings.user_feature_to_idx,
                            raw[i].0.as_str(),
                        ) {
                            features.push((idx, value));
                        }
                    }
                    i = i + 1;
                }
            },
        }
        features
    }

    /// Scores every item for a user with named interactions and raw attributes. Unknown items and
    /// features are skipped.
    pub fn predict_raw(
        &self,
        interactions: &[(String, V)],
        raw: &[(String, RawValue<V>)],
        beta: V,
        zero: V,
        one: V,
    ) -> (scores: Vec<V>) where V: PartialOrd + Mul<Output = V> + Add<Output = V>
        requires
            self.wf(),
            ordered_type::<V>(),
            self.transformation_schema matches Some(schema) ==> schema.wf(),
            predict_defined(
                *self,
                known_pairs(
                    id_entries(self.mappings.item_to_idx),
                    interactions@,
                    interactions@.len() as int,
                ),
                raw_features(
                    self.transformation_schema,
                    id_entries(self.mappings.user_feature_to_idx),
                    raw@,
                    one,
                ),
                beta,
                zero,
            ),
        ensures
            scores@ == item_scores(
                self.s_matrix,
                self.num_items as nat,
                user_vector(
                    self.num_items as nat,
                    self.num_user_features as nat,
                    known_pairs(
                        id_entries(self.mappings.item_to_idx),
                        interactions@,
                        interactions@.len() as int,
                    ),
                    raw_features(
                        self.transformation_schema,
                        id_entries(self.mappings.user_feature_to_idx),
                        raw@,
                        one,
                    ),
                    beta,
                    zero,
                ),
                zero,
            ),
    {
        let known = resolve_pairs(&self.mappings.item_to_idx, interactions);
        let features = self.resolve_raw_features(raw, one);
        self.predict(&known, &features, beta, zero)
    }

    /// The `top_k` items most similar to an item, without the item itself; none for an index outside
    /// the catalogue.
    pub fn predict_similar_items(&self, item_idx: usize, top_k: usize) -> (similar: Vec<
        (usize, V),
    >) where V: PartialOrd
        requires
            self.wf(),
            item_idx < self.num_items ==> comparable(
                candidate_scores(
                    item_column(*self, item_idx as int),
                    set![item_idx],
                ),
            ),
        ensures
            item_idx >= self.num_items ==> similar@.len() == 0,
            item_idx < self.num_items ==> similar@ == crate::top_k::top_k(
                item_column(*self, item_idx as int),
                set![item_idx],
                top_k,
            ),
    {
        if item_idx >= self.num_items {
            return Vec::new();
        }
        let ghost column = item_column(*self, item_idx as int);
        let mut scores: Vec<V> = Vec::new();
        let mut i: usize = 0;
        while i < self.num_items
            invariant
                i <= self.num_items,
                item_idx < self.num_items,
                self.wf(),
                column == item_column(*self, item_idx as int),
                scores@ == column.take(i as int),
            decreases self.num_items - i,
        {
            scores.push(self.s_matrix.get(i, item_idx));
            assert(scores@ =~= column.take(i + 1));
            i = i + 1;
        }
        assert(scores@ =~= column);
        let excluded: [usize; 1] = [item_idx];
        proof {
            assert(excluded@.contains(excluded@[0]));
            assert(excluded@.to_set() =~= set![item_idx]);
        }
        filter_sort_top_k(scores, &excluded, top_k)
    }
}

impl<V: Copy + PartialOrd + Mul<Output = V> + Add<Output = V>> RustFeaseModel<V> {
    /// The best items for a user by identifiers. Unknown items and features are skipped; items
    /// interacted with are left out.
    pub fn recommend(
        &self,
        interactions: &[(String, V)],
        features: &[(String, V)],
        top_k: usize,
        zero: V,
    ) -> (named: Vec<(String, V)>)
        requires
            self.wf(),
            predict_defined(
                *self,
                known_items(*self, interactions@),
                known_features(*self, features@),
                self.beta,
                zero,
            ),
            comparable(
                candidate_scores(
                    user_scores(*self, interactions@, features@, zero),
                    indices_of(known_items(*self, interactions@)).to_set(),
                ),
            ),
        ensures
            named_view(named@) == ranked_names(
                crate::top_k::top_k(
                    user_scores(*self, interactions@, features@, zero),
                    indices_of(known_items(*self, interactions@)).to_set(),
                    top_k,
                ),
                texts(self.mappings.idx_to_item@),
            ),
    {
        let items = resolve_pairs(&self.mappings.item_to_idx, interactions);
        let known = resolve_pairs(&self.mappings.user_feature_to_idx, features);
        let scores = self.predict(&items, &known, self.beta, zero);
        let interacted = collect_indices(&items);
        let ranked = filter_sort_top_k(scores, &interacted, top_k);
        idx_scores_to_str(&ranked, &self.mappings)
    }

    /// The items most similar to an item, by identifiers; none for an unknown item.
    pub fn recommend_similar(&self, item: &str, top_k: usize) -> (named: Vec<(String, V)>)
        requires
            self.wf(),
            lookup(id_entries(self.mappings.item_to_idx), item@) matches Some(idx) ==> (idx
                < self.num_items ==> comparable(
                candidate_scores(item_column(*self, idx as int), set![idx]),
            )),
        ensures
            match lookup(id_entries(self.mappings.item_to_idx), item@) {
                None => named@.len() == 0,
                Some(idx) => if idx < self.num_items {
                    named_view(named@) == ranked_names(
                        crate::top_k::top_k(item_column(*self, idx as int), set![idx], top_k),
                        texts(self.mappings.idx_to_item@),
                    )
                } else {
                    named@.len() == 0
                },
            },
    {
        match id_get(&self.mappings.item_to_idx, item) {
            None => Vec::new(),
            Some(idx) => {
                let ranked = self.predict_similar_items(idx, top_k);
                let named = idx_scores_to_str(&ranked, &self.mappings);
                assert(named_view(named@).len() == named@.len());
                named
            },
        }
    }
}

/// The known interactions of a user.
pub open spec fn known_items<V>(
    model: RustFeaseModel<V>,
    interactions: Seq<(String, V)>,
) -> Seq<(usize, V)> {
    known_pairs(
        id_entries(model.mappings.item_to_idx),
        interactions,
        interactions.len() as int,
    )
}

/// The known features of a user.
pub open spec fn known_features<V>(
    model: RustFeaseModel<V>,
    features: Seq<(String, V)>,
) -> Seq<(usize, V)> {
    known_pairs(
        id_entries(model.mappings.user_feature_to_idx),
        features,
        features.len() as int,
    )
}

/// The scores of a user given by identifiers.
pub open spec fn user_scores<V: Mul<Output = V> + Add<Output = V>>(
    model: RustFeaseModel<V>,
    interactions: Seq<(String, V)>,
    features: Seq<(String, V)>,
    zero: V,
) -> Seq<V> {
    item_scores(
        model.s_matrix,
        model.num_items as nat,
        user_vector(
            model.num_items as nat,
            model.num_user_features as nat,
            known_items(model, interactions),
            known_features(model, features),
            model.beta,
            zero,
        ),
        zero,
    )
}

/// A ranked list by the names of its items.
pub open spec fn ranked_names<V>(
    ranked: Seq<(usize, V)>,
    names: Seq<Seq<char>>,
) -> Seq<(Seq<char>, V)> {
    by_name(ranked, names, ranked.len() as int)
}

/// What a self-check looks at.
pub struct WeightFacts<V> {
    pub nrows: usize,
    pub ncols: usize,
    /// The number of items and user features together.
    pub expected: usize,
    /// The greatest magnitude on the diagonal.
    pub max_diagonal: V,
    pub nan_count: usize,
    pub inf_count: usize,
    /// The greatest magnitude of all weights.
    pub max_magnitude: V,
}

/// The magnitude of a value.
pub open spec fn magnitude<V: PartialOrd + Neg<Output = V>>(value: V, zero: V) -> V {
    if outranks(zero, value) {
        value.neg_spec()
    } else {
        value
    }
}

/// The greatest magnitude among the first `n` values, and at least zero.
pub open spec fn greatest<V: PartialOrd + Neg<Output = V>>(values: Seq<V>, zero: V, n: int) -> V
    decreases n,
{
    if n <= 0 {
        zero
    } else {
        let earlier = greatest(values, zero, n - 1);
        if outranks(magnitude(values[n - 1], zero), earlier) {
            magnitude(values[n - 1], zero)
        } else {
            earlier
        }
    }
}

/// The number of the first `n` values that are not equal to themselves.
pub open spec fn num_nan<V: PartialEq>(values: Seq<V>, n: int) -> nat
    decreases n,
{
    if n <= 0 {
        0
    } else if !values[n - 1].eq_spec(&values[n - 1]) {
        num_nan(values, n - 1) + 1
    } else {
        num_nan(values, n - 1)
    }
}

/// The number of the first `n` values whose magnitude is `infinity`.
pub open spec fn num_infinite<V: PartialOrd + Neg<Output = V>>(
    values: Seq<V>,
    zero: V,
    infinity: V,
    n: int,
) -> nat
    decreases n,
{
    if n <= 0 {
        0
    } else if magnitude(values[n - 1], zero).eq_spec(&infinity) {
        num_infinite(values, zero, infinity, n - 1) + 1
    } else {
        num_infinite(values, zero, infinity, n - 1)
    }
}

/// The diagonal of a matrix.
pub open spec fn diagonal<V>(m: Matrix<V>) -> Seq<V> {
    Seq::new(
        (if m.nrows < m.ncols {
            m.nrows as nat
        } else {
            m.ncols as nat
        }),
        |i: int| m.at(i, i),
    )
}

/// The magnitude of a value.
fn magnitude_of<V: Copy + PartialOrd + Neg<Output = V>>(value: V, zero: V) -> (size: V)
    requires
        ordered_type::<V>(),
        V::obeys_neg_spec(),
        value.neg_req(),
    ensures
        size == magnitude(value, zero),
{
    if zero > value {
        value.neg()
    } else {
        value
    }
}

impl<V: Copy + PartialOrd + Neg<Output = V>> RustFeaseModel<V> {
    /// Collects what a self-check looks at.
    pub fn inspect(&self, zero: V, infinity: V) -> (facts: WeightFacts<V>)
        requires
            self.s_matrix.wf(),
            self.num_items + self.num_user_features <= usize::MAX,
            have_magnitude(self.s_matrix.data@),
            V::obeys_eq_spec(),
        ensures
            facts.nrows == self.s_matrix.nrows,
            facts.ncols == self.s_matrix.ncols,
            facts.expected == self.num_items + self.num_user_features,
            facts.max_diagonal == greatest(
                diagonal(self.s_matrix),
                zero,
                diagonal(self.s_matrix).len() as int,
            ),
            facts.nan_count == num_nan(
                self.s_matrix.data@,
                self.s_matrix.data@.len() as int,
            ),
            facts.inf_count == num_infinite(
                self.s_matrix.data@,
                zero,
                infinity,
                self.s_matrix.data@.len() as int,
            ),
            facts.max_magnitude == greatest(
                self.s_matrix.data@,
                zero,
                self.s_matrix.data@.len() as int,
            ),
    {
        let m = &self.s_matrix;
        let n: usize = if m.nrows < m.ncols {
            m.nrows
        } else {
            m.ncols
        };
        let mut max_diagonal: V = zero;
        let mut i: usize = 0;
        while i < n
            invariant
                i <= n,
                n <= m.nrows,
                n <= m.ncols,
                n == diagonal(*m).len(),
                m.wf(),
                have_magnitude(m.data@),
                max_diagonal == greatest(diagonal(*m), zero, i as int),
            decreases n - i,
        {
            let value: V = m.get(i, i);
            proof {
                lemma_place(m.nrows as int, m.ncols as int, i as int, i as int);
                assert(m.data@[place(m.nrows as int, i as int, i as int)].neg_req());
                assert(diagonal(*m)[i as int] == value);
            }
            let size: V = magnitude_of(value, zero);
            if size > max_diagonal {
                max_diagonal = size;
            }
            i = i + 1;
        }
        let mut nan_count: usize = 0;
        let mut inf_count: usize = 0;
        let mut max_magnitude: V = zero;
        let mut j: usize = 0;
        while j < m.data.len()
            invariant
                j <= m.data@.len(),
                have_magnitude(m.data@),
                V::obeys_eq_spec(),
                nan_count <= j,
                inf_count <= j,
                nan_count == num_nan(m.data@, j as int),
                inf_count == num_infinite(m.data@, zero, infinity, j as int),
                max_magnitude == greatest(m.data@, zero, j as int),
            decreases m.data@.len() - j,
        {
            let value: V = m.data[j];
            assert(m.data@[j as int].neg_req());
            let size: V = magnitude_of(value, zero);
            if !(value == value) {
                nan_count = nan_count + 1;
            }
            if size == infinity {
                inf_count = inf_count + 1;
            }
            if size > max_magnitude {
                max_magnitude = size;
            }
            j = j + 1;
        }
        WeightFacts {
            nrows: m.nrows,
            ncols: m.ncols,
            expected: self.num_items + self.num_user_features,
            max_diagonal,
            nan_count,
            inf_count,
            max_magnitude,
        }
    }
}

/// The weights have the expected dimensions.
pub open spec fn dimensions_ok<V>(facts: WeightFacts<V>) -> bool {
    facts.nrows == facts.expected && facts.ncols == facts.expected
}

/// Two numbers with a cross between them.
pub open spec fn cross_text(a: usize, b: usize) -> Seq<char> {
    decimal_text(a as nat) + "x"@ + decimal_text(b as nat)
}

/// The message on the dimensions.
pub open spec fn dimensions_message<V>(facts: WeightFacts<V>) -> Seq<char> {
    if dimensions_ok(facts) {
        "OK: S matrix dimensions "@ + cross_text(facts.expected, facts.expected)
    } else {
        "FAIL: S matrix dimensions "@ + cross_text(facts.nrows, facts.ncols)
            + " don't match expected "@ + cross_text(facts.expected, facts.expected)
    }
}

/// The message on the diagonal.
pub open spec fn diagonal_message(ok: bool, shown: Seq<char>) -> Seq<char> {
    if ok {
        "OK: Diagonal near-zero (max |diag| = "@ + shown + ")"@
    } else {
        "FAIL: Diagonal not near-zero (max |diag| = "@ + shown + ")"@
    }
}

/// The message on values that are no numbers.
pub open spec fn finite_message<V>(facts: WeightFacts<V>) -> Seq<char> {
    if facts.nan_count > 0 || facts.inf_count > 0 {
        "FAIL: S matrix contains "@ + decimal_text(facts.nan_count as nat) + " NaN and "@
            + decimal_text(facts.inf_count as nat) + " Inf values"@
    } else {
        "OK: No NaN or Inf values in S matrix"@
    }
}

/// The message on the greatest weight.
pub open spec fn size_message(ok: bool, shown: Seq<char>) -> Seq<char> {
    if ok {
        "OK: S matrix max |value| = "@ + shown
    } else {
        "FAIL: S matrix is effectively all zeros — model may not have learned"@
    }
}

/// Two numbers with a cross between them.
fn cross(a: usize, b: usize) -> (text: String)
    ensures
        text@ == cross_text(a, b),
{
    let left = decimal(a as u64);
    let right = decimal(b as u64);
    let parts: [&str; 3] = [left.as_str(), "x", right.as_str()];
    proof {
        reveal_with_fuel(joined, 4);
        assert(joined(parts@) =~= cross_text(a, b));
    }
    join(&parts)
}

/// Judges the weights: their dimensions, a diagonal within `diagonal_tolerance` of zero, no value
/// that is no number, and some weight of at least `least_magnitude`. The two texts show the greatest
/// magnitude on the diagonal and of all.
pub fn judge<V: PartialOrd>(
    facts: &WeightFacts<V>,
    diagonal_tolerance: V,
    least_magnitude: V,
    diagonal_shown: &str,
    magnitude_shown: &str,
) -> (report: ValidationReport)
    requires
        ordered_type::<V>(),
    ensures
        report.passed == (dimensions_ok(*facts) && !outranks(
            facts.max_diagonal,
            diagonal_tolerance,
        ) && facts.nan_count == 0 && facts.inf_count == 0 && !outranks(
            least_magnitude,
            facts.max_magnitude,
        )),
        report.passed <==> facts.nrows == facts.expected && facts.ncols == facts.expected
            && !facts.max_diagonal.is_gt(&diagonal_tolerance) && facts.nan_count == 0
            && facts.inf_count == 0 && !least_magnitude.is_gt(&facts.max_magnitude),
        texts(report.messages@) == seq![
            dimensions_message(*facts),
            diagonal_message(
                !outranks(facts.max_diagonal, diagonal_tolerance),
                diagonal_shown@,
            ),
            finite_message(*facts),
            size_message(
                !outranks(least_magnitude, facts.max_magnitude),
                magnitude_shown@,
            ),
        ],
{
    let expected = cross(facts.expected, facts.expected);
    let dims_ok: bool = facts.nrows == facts.expected && facts.ncols == facts.expected;
    let first: String = if dims_ok {
        let parts: [&str; 2] = ["OK: S matrix dimensions ", expected.as_str()];
        proof {
            reveal_with_fuel(joined, 3);
            assert(joined(parts@) =~= dimensions_message(*facts));
        }
        join(&parts)
    } else {
        let found = cross(facts.nrows, facts.ncols);
        let parts: [&str; 4] = [
            "FAIL: S matrix dimensions ",
            found.as_str(),
            " don't match expected ",
            expected.as_str(),
        ];
        proof {
            reveal_with_fuel(joined, 5);
            assert(joined(parts@) =~= dimensions_message(*facts));
        }
        join(&parts)
    };
    let diagonal_ok: bool = !(facts.max_diagonal > diagonal_tolerance);
    let start: &str = if diagonal_ok {
        "OK: Diagonal near-zero (max |diag| = "
    } else {
        "FAIL: Diagonal not near-zero (max |diag| = "
    };
    let parts: [&str; 3] = [start, diagonal_shown, ")"];
    proof {
        reveal_with_fuel(joined, 4);
        assert(joined(parts@) =~= diagonal_message(diagonal_ok, diagonal_shown@));
    }
    let second = join(&parts);
    let finite_ok: bool = facts.nan_count == 0 && facts.inf_count == 0;
    let third: String = if finite_ok {
        "OK: No NaN or Inf values in S matrix".to_owned()
    } else {
        let nans = decimal(facts.nan_count as u64);
        let infs = decimal(facts.inf_count as u64);
        let parts: [&str; 5] = [
            "FAIL: S matrix contains ",
            nans.as_str(),
            " NaN and ",
            infs.as_str(),
            " Inf values",
        ];
        proof {
            reveal_with_fuel(joined, 6);
            assert(joined(parts@) =~= finite_message(*facts));
        }
        join(&parts)
    };
    let size_ok: bool = !(least_magnitude > facts.max_magnitude);
    let fourth: String = if size_ok {
        let parts: [&str; 2] = ["OK: S matrix max |value| = ", magnitude_shown];
        proof {
            reveal_with_fuel(joined, 3);
            assert(joined(parts@) =~= size_message(true, magnitude_shown@));
        }
        join(&parts)
    } else {
        "FAIL: S matrix is effectively all zeros — model may not have learned".to_owned()
    };
    let mut messages: Vec<String> = Vec::new();
    messages.push(first);
    messages.push(second);
    messages.push(third);
    messages.push(fourth);
    proof {
        assert(texts(messages@) =~= seq![
            dimensions_message(*facts),
            diagonal_message(diagonal_ok, diagonal_shown@),
            finite_message(*facts),
            size_message(size_ok, magnitude_shown@),
        ]);
    }
    ValidationReport { passed: dims_ok && diagonal_ok && finite_ok && size_ok, messages }
}

/// `a` and `b` compare alike with every value, as equal numbers do. Zero and negative zero are alike.
pub open spec fn alike<V: PartialOrd>(a: V, b: V) -> bool {
    &&& forall|c: V| #[trigger] outranks(a, c) == outranks(b, c)
    &&& forall|c: V| #[trigger] outranks(c, a) == outranks(c, b)
    &&& has_place(a) == has_place(b)
}

/// What a weight makes of a sum that starts at `zero`, in a product with `one`.
pub open spec fn unit_term<V: Mul<Output = V> + Add<Output = V>>(weight: V, zero: V, one: V) -> V {
    zero.add_spec(weight.mul_spec(one))
}

/// Products with `zero` leave a sum as it is, both one that is still `zero` and one that holds a
/// single weight. So they do for all finite floating-point weights, whatever their sign.
pub open spec fn zero_terms_vanish<V: Mul<Output = V> + Add<Output = V>>(
    weights: Seq<V>,
    zero: V,
    one: V,
) -> bool {
    &&& forall|i: int|
        0 <= i < weights.len() ==> zero.add_spec((#[trigger] weights[i]).mul_spec(zero)) == zero
    &&& forall|i: int, j: int|
        #![trigger weights[i], weights[j]]
        0 <= i < weights.len() && 0 <= j < weights.len() ==> unit_term(
            weights[j],
            zero,
            one,
        ).add_spec(weights[i].mul_spec(zero)) == unit_term(weights[j], zero, one)
}

/// A product with `one`, added to `zero`, is a number equal to the weight.
pub open spec fn one_keeps<V: PartialOrd + Mul<Output = V> + Add<Output = V>>(
    weights: Seq<V>,
    zero: V,
    one: V,
) -> bool {
    forall|i: int|
        0 <= i < weights.len() ==> alike(unit_term(#[trigger] weights[i], zero, one), weights[i])
}

/// Items similar to an item are those that score best for a single unit interaction with it,
/// whatever the weight of features: as many as asked for or there are others, with the scores of
/// such a user, in descending order, equal scores in ascending position, and never the item itself.
pub proof fn similar_items_score_best_for_one_interaction<
    V: PartialOrd + Mul<Output = V> + Add<Output = V>,
>(model: RustFeaseModel<V>, item_idx: usize, top_k: usize, beta: V, zero: V, one: V)
    requires
        model.wf(),
        item_idx < model.num_items,
        zero_terms_vanish(model.s_matrix.data@, zero, one),
        one_keeps(model.s_matrix.data@, zero, one),
        comparable(candidate_scores(item_column(model, item_idx as int), set![item_idx])),
    ensures
        ({
            let scores = item_scores(
                model.s_matrix,
                model.num_items as nat,
                user_vector(
                    model.num_items as nat,
                    model.num_user_features as nat,
                    seq![(item_idx, one)],
                    Seq::empty(),
                    beta,
                    zero,
                ),
                zero,
            );
            let similar = crate::top_k::top_k(
                item_column(model, item_idx as int),
                set![item_idx],
                top_k,
            );
            &&& scores.len() == model.num_items
            &&& similar.len() == (if top_k < model.num_items - 1 {
                top_k as int
            } else {
                model.num_items - 1
            })
            &&& forall|a: int|
                0 <= a < similar.len() ==> {
                    &&& (#[trigger] similar[a]).0 < model.num_items
                    &&& similar[a].0 != item_idx
                    &&& alike(scores[similar[a].0 as int], similar[a].1)
                }
            &&& forall|a: int, b: int|
                #![trigger similar[a], similar[b]]
                0 <= a < b < similar.len() ==> ranks_before(
                    scores,
                    similar[a].0 as int,
                    similar[b].0 as int,
                )
            &&& forall|i: usize, a: int|
                #![trigger scores[i as int], similar[a]]
                i < model.num_items && i != item_idx && 0 <= a < similar.len() && (forall|b: int|
                    0 <= b < similar.len() ==> (#[trigger] similar[b]).0 != i) ==> ranks_before(
                    scores,
                    similar[a].0 as int,
                    i as int,
                )
        }),
{
    let zeros = Seq::new(model.num_items as nat, |i: int| zero);
    let pairs = seq![(item_idx, one)];
    let vector = user_vector(
        model.num_items as nat,
        model.num_user_features as nat,
        pairs,
        Seq::empty(),
        beta,
        zero,
    );
    assert(written(zeros, pairs, 0) == zeros);
    assert(written(zeros, pairs, 1) == zeros.update(item_idx as int, one));
    assert(vector =~= Seq::new(
        (model.num_items + model.num_user_features) as nat,
        |i: int|
            if i == item_idx {
                one
            } else {
                zero
            },
    ));
    let weights = model.s_matrix.data@;
    let column = item_column(model, item_idx as int);
    let scores = item_scores(model.s_matrix, model.num_items as nat, vector, zero);
    assert forall|i: int| 0 <= i < model.num_items implies alike(
        #[trigger] scores[i],
        column[i],
    ) by {
        let row = model.s_matrix.row(i);
        assert forall|c: int| 0 <= c < row.len() implies #[trigger] row[c] == weights[place(
            model.s_matrix.nrows as int,
            i,
            c,
        )] && 0 <= place(model.s_matrix.nrows as int, i, c) < weights.len() by {
            lemma_place(model.s_matrix.nrows as int, model.s_matrix.ncols as int, i, c);
        }
        assert(zero_terms_vanish(row, zero, one)) by {
            assert forall|c: int| 0 <= c < row.len() implies zero.add_spec(
                (#[trigger] row[c]).mul_spec(zero),
            ) == zero by {
                assert(row[c] == weights[place(model.s_matrix.nrows as int, i, c)]);
            }
            assert forall|c: int, d: int|
                #![trigger row[c], row[d]]
                0 <= c < row.len() && 0 <= d < row.len() implies unit_term(
                row[d],
                zero,
                one,
            ).add_spec(row[c].mul_spec(zero)) == unit_term(row[d], zero, one) by {
                assert(row[c] == weights[place(model.s_matrix.nrows as int, i, c)]);
                assert(row[d] == weights[place(model.s_matrix.nrows as int, i, d)]);
            }
        }
        lemma_unit_dot(row, vector, item_idx as int, zero, one, vector.len() as int);
        assert(scores[i] == unit_term(row[item_idx as int], zero, one));
        assert(column[i] == row[item_idx as int]);
    }
    let similar = crate::top_k::top_k(column, set![item_idx], top_k);
    top_k_is_best(column, set![item_idx], top_k);
    lemma_all_but_one(model.num_items as int, item_idx);
    assert forall|a: int, b: int|
        0 <= a < model.num_items && 0 <= b < model.num_items implies #[trigger] ranks_before(
        scores,
        a,
        b,
    ) == ranks_before(column, a, b) by {
        assert(alike(scores[a], column[a]) && alike(scores[b], column[b]));
        assert(outranks(scores[a], scores[b]) == outranks(column[a], scores[b]));
        assert(outranks(column[a], scores[b]) == outranks(column[a], column[b]));
        assert(outranks(scores[b], scores[a]) == outranks(column[b], scores[a]));
        assert(outranks(column[b], scores[a]) == outranks(column[b], column[a]));
    }
    assert forall|a: int| 0 <= a < similar.len() implies {
        &&& (#[trigger] similar[a]).0 < model.num_items
        &&& similar[a].0 != item_idx
        &&& alike(scores[similar[a].0 as int], similar[a].1)
    } by {
        assert(!set![item_idx].contains(similar[a].0));
        assert(alike(scores[similar[a].0 as int], column[similar[a].0 as int]));
    }
    assert forall|i: usize, a: int|
        #![trigger scores[i as int], similar[a]]
        i < model.num_items && i != item_idx && 0 <= a < similar.len() && (forall|b: int|
            0 <= b < similar.len() ==> (#[trigger] similar[b]).0 != i) implies ranks_before(
        scores,
        similar[a].0 as int,
        i as int,
    ) by {
        assert(!set![item_idx].contains(i));
        assert(ranks_before(column, similar[a].0 as int, i as int));
        assert(ranks_before(scores, similar[a].0 as int, i as int) == ranks_before(
            column,
            similar[a].0 as int,
            i as int,
        ));
    }
    assert forall|a: int, b: int|
        #![trigger similar[a], similar[b]]
        0 <= a < b < similar.len() implies ranks_before(
        scores,
        similar[a].0 as int,
        similar[b].0 as int,
    ) by {
        assert(ranks_before(column, similar[a].0 as int, similar[b].0 as int));
        assert(ranks_before(scores, similar[a].0 as int, similar[b].0 as int) == ranks_before(
            column,
            similar[a].0 as int,
            similar[b].0 as int,
        ));
    }
}

/// Every position but one is a candidate.
proof fn lemma_all_but_one(n: int, excluded: usize)
    requires
        0 <= n <= usize::MAX,
    ensures
        candidates(n, set![excluded]).len() == (if excluded < n {
            n - 1
        } else {
            n
        }),
    decreases n,
{
    if n > 0 {
        lemma_all_but_one(n - 1, excluded);
    }
}

/// The inner product with a unit vector takes one coordinate out.
pub proof fn lemma_unit_dot<V: Mul<Output = V> + Add<Output = V>>(
    row: Seq<V>,
    vector: Seq<V>,
    at: int,
    zero: V,
    one: V,
    n: int,
)
    requires
        0 <= n <= row.len() == vector.len(),
        0 <= at < row.len(),
        zero_terms_vanish(row, zero, one),
        forall|c: int|
            0 <= c < vector.len() ==> #[trigger] vector[c] == (if c == at {
                one
            } else {
                zero
            }),
    ensures
        dot(row, vector, zero, n) == (if n > at {
            unit_term(row[at], zero, one)
        } else {
            zero
        }),
    decreases n,
{
    if n > 0 {
        lemma_unit_dot(row, vector, at, zero, one, n - 1);
        assert(vector[n - 1] == (if n - 1 == at {
            one
        } else {
            zero
        }));
        assert(row[n - 1] == row[n - 1] && row[at] == row[at]);
    }
}

/// Whole weights have vanishing zero terms and are kept by one.
pub proof fn whole_weights_keep_units(weights: Seq<i64>)
    ensures
        zero_terms_vanish(weights, 0, 1),
        one_keeps(weights, 0, 1),
{
    assert forall|i: int| 0 <= i < weights.len() implies unit_term(#[trigger] weights[i], 0, 1)
        == weights[i] && weights[i].mul_spec(0i64) == 0i64 by {}
}

} // verus!
