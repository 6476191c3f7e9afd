//! What training inverts: the Gram matrix of the combined data, regularized.
//!
//! Users and item features are the rows of one matrix `Z`, items and user features its columns:
//! interactions and `beta` times the user features above, `alpha` times the item features and
//! zeros below. Rows of item features count `weight` times. `Z` is never built; its Gram matrix
//! is assembled from the products of its parts.

use crate::model::laws::item_features_count_with_their_weight;
use crate::model::{
    products_fit, system_defined, system_entry, BlockFactors, GramProducts, RustFeaseModel,
};
use crate::numeric::total;
use vstd::prelude::*;

verus! {

/// The inner product of column `r` of `a` and column `c` of `b`.
pub open spec fn column_product(a: Seq<Seq<int>>, r: int, b: Seq<Seq<int>>, c: int) -> int {
    total(a.len(), |n: int| a[n][r] * b[n][c])
}

/// The data of a model and the weights of its parts.
pub struct Parts {
    /// Users by items.
    pub x: Seq<Seq<int>>,
    /// Users by user features.
    pub u: Seq<Seq<int>>,
    /// Item features by items.
    pub t: Seq<Seq<int>>,
    /// The number of items.
    pub m: int,
    pub alpha: int,
    pub beta: int,
    pub weight: int,
}

impl Parts {
    /// The entry of `Z` in row `n` and column `c`.
    pub open spec fn combined(self, n: int, c: int) -> int {
        if n < self.x.len() {
            if c < self.m {
                self.x[n][c]
            } else {
                self.beta * self.u[n][c - self.m]
            }
        } else if c < self.m {
            self.alpha * self.t[n - self.x.len()][c]
        } else {
            0
        }
    }

    /// How often row `n` of `Z` counts.
    pub open spec fn row_weight(self, n: int) -> int {
        if n < self.x.len() {
            1
        } else {
            self.weight
        }
    }

    /// The entry of the weighted Gram matrix of `Z` in row `r` and column `c`.
    pub open spec fn gram(self, r: int, c: int) -> int {
        total(
            self.x.len() + self.t.len(),
            |n: int| self.combined(n, r) * self.row_weight(n) * self.combined(n, c),
        )
    }

    /// `p` holds the products of the parts.
    pub open spec fn has_products(self, p: GramProducts<i64>, k: int) -> bool {
        &&& forall|r: int, c: int|
            0 <= r < self.m && 0 <= c < self.m ==> #[trigger] p.xtx.at(r, c) == column_product(
                self.x,
                r,
                self.x,
                c,
            )
        &&& forall|r: int, c: int|
            0 <= r < self.m && 0 <= c < self.m ==> #[trigger] p.ttt.at(r, c) == column_product(
                self.t,
                r,
                self.t,
                c,
            )
        &&& forall|r: int, c: int|
            0 <= r < self.m && 0 <= c < k ==> #[trigger] p.xtu.at(r, c) == column_product(
                self.x,
                r,
                self.u,
                c,
            )
        &&& forall|r: int, c: int|
            0 <= r < k && 0 <= c < self.m ==> #[trigger] p.utx.at(r, c) == column_product(
                self.u,
                r,
                self.x,
                c,
            )
        &&& forall|r: int, c: int|
            0 <= r < k && 0 <= c < k ==> #[trigger] p.utu.at(r, c) == column_product(
                self.u,
                r,
                self.u,
                c,
            )
    }

    /// `f` holds the factors of the parts.
    pub open spec fn has_factors(self, f: BlockFactors<i64>) -> bool {
        &&& f.items == self.weight * self.alpha * self.alpha
        &&& f.mixed == self.beta
        &&& f.features == self.beta * self.beta
    }
}

proof fn lemma_split(a: nat, b: nat, term: spec_fn(int) -> int)
    ensures
        total(a + b, term) == total(a, term) + total(b, |n: int| term(a + n)),
    decreases b,
{
    if b > 0 {
        lemma_split(a, (b - 1) as nat, term);
    }
}

proof fn lemma_scaled(n: nat, term: spec_fn(int) -> int, factor: int, base: spec_fn(int) -> int)
    requires
        forall|i: int| 0 <= i < n ==> #[trigger] term(i) == factor * base(i),
    ensures
        total(n, term) == factor * total(n, base),
    decreases n,
{
    if n > 0 {
        lemma_scaled((n - 1) as nat, term, factor, base);
        let rest = total((n - 1) as nat, base);
        let last = base(n - 1);
        assert(term(n - 1) == factor * last);
        assert(factor * rest + factor * last == factor * (rest + last)) by (nonlinear_arith);
    } else {
        assert(factor * 0 == 0) by (nonlinear_arith);
    }
}

/// In exact arithmetic, the system that `assemble_system` makes of the products of the parts is the
/// weighted Gram matrix of `Z` with the ridge added on the diagonal.
pub proof fn system_is_regularized_gram(
    parts: Parts,
    p: GramProducts<i64>,
    f: BlockFactors<i64>,
    k: int,
    r: int,
    c: int,
)
    requires
        parts.u.len() == parts.x.len(),
        products_fit(p, parts.m, k),
        system_defined(p, f, parts.m, k),
        parts.has_products(p, k),
        parts.has_factors(f),
        0 <= r < parts.m + k,
        0 <= c < parts.m + k,
    ensures
        system_entry(p, f, parts.m, r, c) == parts.gram(r, c) + (if r == c {
            f.ridge as int
        } else {
            0
        }),
{
    let m = parts.m;
    let above = parts.x.len();
    let below = parts.t.len();
    let term = |n: int| parts.combined(n, r) * parts.row_weight(n) * parts.combined(n, c);
    let lower = |n: int| term(above + n);
    lemma_split(above, below, term);
    assert(crate::model::entry_defined(p, f, m, r, c));
    if r < m && c < m {
        let xx = |n: int| parts.x[n][r] * parts.x[n][c];
        let tt = |n: int| parts.t[n][r] * parts.t[n][c];
        lemma_scaled(above, term, 1, xx);
        assert forall|n: int| 0 <= n < below implies #[trigger] lower(n) == (parts.weight
            * parts.alpha * parts.alpha) * tt(n) by {
            let a = parts.t[n][r];
            let b = parts.t[n][c];
            let w = parts.weight;
            let s = parts.alpha;
            assert((s * a) * w * (s * b) == (w * s * s) * (a * b)) by (nonlinear_arith);
        }
        lemma_scaled(below, lower, parts.weight * parts.alpha * parts.alpha, tt);
        assert(p.xtx.at(r, c) == column_product(parts.x, r, parts.x, c));
        assert(p.ttt.at(r, c) == column_product(parts.t, r, parts.t, c));
        assert(column_product(parts.t, r, parts.t, c) * f.items == f.items * total(below, tt))
            by (nonlinear_arith)
            requires
                column_product(parts.t, r, parts.t, c) == total(below, tt),
        ;
    } else if r < m {
        let xu = |n: int| parts.x[n][r] * parts.u[n][c - m];
        assert forall|n: int| 0 <= n < above implies #[trigger] term(n) == parts.beta * xu(n) by {
            let a = parts.x[n][r];
            let b = parts.u[n][c - m];
            let s = parts.beta;
            assert(a * 1 * (s * b) == s * (a * b)) by (nonlinear_arith);
        }
        lemma_scaled(above, term, parts.beta, xu);
        lemma_lower_vanishes(parts, r, c, below);
        assert(p.xtu.at(r, c - m) == column_product(parts.x, r, parts.u, c - m));
        assert(total(above, xu) * f.mixed == parts.beta * total(above, xu)) by (nonlinear_arith)
            requires
                f.mixed == parts.beta,
        ;
    } else if c < m {
        let ux = |n: int| parts.u[n][r - m] * parts.x[n][c];
        assert forall|n: int| 0 <= n < above implies #[trigger] term(n) == parts.beta * ux(n) by {
            let a = parts.u[n][r - m];
            let b = parts.x[n][c];
            let s = parts.beta;
            assert((s * a) * 1 * b == s * (a * b)) by (nonlinear_arith);
        }
        lemma_scaled(above, term, parts.beta, ux);
        lemma_lower_vanishes(parts, r, c, below);
        assert(p.utx.at(r - m, c) == column_product(parts.u, r - m, parts.x, c));
        assert(total(above, ux) * f.mixed == parts.beta * total(above, ux)) by (nonlinear_arith)
            requires
                f.mixed == parts.beta,
        ;
    } else {
        let uu = |n: int| parts.u[n][r - m] * parts.u[n][c - m];
        assert forall|n: int| 0 <= n < above implies #[trigger] term(n) == (parts.beta
            * parts.beta) * uu(n) by {
            let a = parts.u[n][r - m];
            let b = parts.u[n][c - m];
            let s = parts.beta;
            assert((s * a) * 1 * (s * b) == (s * s) * (a * b)) by (nonlinear_arith);
        }
        lemma_scaled(above, term, parts.beta * parts.beta, uu);
        lemma_lower_vanishes(parts, r, c, below);
        assert(p.utu.at(r - m, c - m) == column_product(parts.u, r - m, parts.u, c - m));
        assert(total(above, uu) * f.features == (parts.beta * parts.beta) * total(above, uu))
            by (nonlinear_arith)
            requires
                f.features == parts.beta * parts.beta,
        ;
    }
}

/// User features meet no item features: below the users, their columns are zero.
proof fn lemma_lower_vanishes(parts: Parts, r: int, c: int, n: nat)
    requires
        r >= parts.m || c >= parts.m,
    ensures
        ({
            let term = |i: int| parts.combined(i, r) * parts.row_weight(i) * parts.combined(i, c);
            total(n, |i: int| term(parts.x.len() + i)) == 0
        }),
    decreases n,
{
    if n > 0 {
        lemma_lower_vanishes(parts, r, c, (n - 1) as nat);
        let i = parts.x.len() + n - 1;
        let a = parts.combined(i, r);
        let w = parts.row_weight(i);
        let b = parts.combined(i, c);
        assert(a == 0 || b == 0);
        assert(a * w * b == 0) by (nonlinear_arith)
            requires
                a == 0 || b == 0,
        ;
    }
}

/// The system of a model is the regularized Gram matrix of its data, in which the rows of item
/// features count with the model's weight for them where that is positive, and once where it is not.
pub proof fn model_system_is_regularized_gram(
    model: RustFeaseModel<i64>,
    parts: Parts,
    p: GramProducts<i64>,
    f: BlockFactors<i64>,
    k: int,
    r: int,
    c: int,
)
    requires
        call_ensures(RustFeaseModel::<i64>::block_factors, (&model, 0i64, 1i64), f),
        i64::MIN <= model.meta_weight * model.alpha <= i64::MAX,
        i64::MIN <= model.meta_weight * model.alpha * model.alpha <= i64::MAX,
        model.alpha * model.alpha <= i64::MAX,
        model.beta * model.beta <= i64::MAX,
        parts.alpha == model.alpha,
        parts.beta == model.beta,
        parts.weight == (if model.meta_weight > 0 {
            model.meta_weight as int
        } else {
            1
        }),
        parts.u.len() == parts.x.len(),
        products_fit(p, parts.m, k),
        system_defined(p, f, parts.m, k),
        parts.has_products(p, k),
        0 <= r < parts.m + k,
        0 <= c < parts.m + k,
    ensures
        system_entry(p, f, parts.m, r, c) == parts.gram(r, c) + (if r == c {
            model.lambda_ as int
        } else {
            0
        }),
{
    item_features_count_with_their_weight(model, f);
    system_is_regularized_gram(parts, p, f, k, r, c);
}

} // verus!
