//! Cross-validation folds over users.

use crate::groups::{group_rows, lemma_names_ascending, lemma_present, names_of, Groups};
use crate::ids::{
    id_entries, id_get, id_insert, new_id_map, present, text_of, texts,
};
use crate::order::{text_before, text_order_is_total};
use crate::sampling::{seeded_rng, seeded_state, shuffle, shuffled};
use crate::text::{decimal, decimal_text, join, joined};
use vstd::prelude::*;

verus! {

/// The rows of one fold: for each row, whether it trains and whether it tests.
pub struct Fold {
    pub train: Vec<bool>,
    pub test: Vec<bool>,
}

/// Why there are no folds.
#[derive(Debug, Clone, Copy, PartialEq, Eq, Structural)]
pub enum FoldError {
    /// Cross-validation needs at least two folds.
    TooFew { n_folds: usize },
    /// There are more folds than users.
    TooMany { n_folds: usize, n_users: usize },
}

/// The text of a fold error.
pub open spec fn fold_message(error: FoldError) -> Seq<char> {
    match error {
        FoldError::TooFew { n_folds } => "n_folds must be >= 2, got "@ + decimal_text(
            n_folds as nat,
        ),
        FoldError::TooMany { n_folds, n_users } => "n_folds ("@ + decimal_text(n_folds as nat)
            + ") exceeds number of unique users ("@ + decimal_text(n_users as nat) + ")"@,
    }
}

impl FoldError {
    /// A description for the caller.
    pub fn message(&self) -> (text: String)
        ensures
            text@ == fold_message(*self),
    {
        match self {
            FoldError::TooFew { n_folds } => {
                let folds = decimal(*n_folds as u64);
                let parts: [&str; 2] = ["n_folds must be >= 2, got ", folds.as_str()];
                proof {
                    reveal_with_fuel(joined, 3);
                    assert(joined(parts@) =~= fold_message(*self));
                }
                join(&parts)
            },
            FoldError::TooMany { n_folds, n_users } => {
                let folds = decimal(*n_folds as u64);
                let users = decimal(*n_users as u64);
                let parts: [&str; 5] = [
                    "n_folds (",
                    folds.as_str(),
                    ") exceeds number of unique users (",
                    users.as_str(),
                    ")",
                ];
                proof {
                    reveal_with_fuel(joined, 6);
                    assert(joined(parts@) =~= fold_message(*self));
                }
                join(&parts)
            },
        }
    }
}

/// The number of users in fold `f`: the users are spread evenly, the first folds get one more.
pub open spec fn fold_size(n_users: int, n_folds: int, f: int) -> int {
    n_users / n_folds + (if f < n_users % n_folds {
        1int
    } else {
        0
    })
}

/// The place in the shuffled order at which fold `f` starts.
pub open spec fn fold_start(n_users: int, n_folds: int, f: int) -> int
    decreases f,
{
    if f <= 0 {
        0
    } else {
        fold_start(n_users, n_folds, f - 1) + fold_size(n_users, n_folds, f - 1)
    }
}

/// The numbers `0..n`.
pub open spec fn numbers(n: nat) -> Seq<usize> {
    Seq::new(n, |i: int| i as usize)
}

/// The order in which the users, ascending, are dealt out to the folds.
pub open spec fn user_order(n_users: nat, seed: u64) -> Seq<usize> {
    shuffled(numbers(n_users), seeded_state(seed))
}

/// User `name` is dealt out to fold `f`.
pub open spec fn in_fold(
    names: Seq<Seq<char>>,
    n_folds: int,
    seed: u64,
    f: int,
    name: Seq<char>,
) -> bool {
    let n = names.len() as int;
    exists|p: int|
        fold_start(n, n_folds, f) <= p < fold_start(n, n_folds, f + 1) && names[(
        #[trigger] user_order(names.len(), seed)[p]) as int] == name
}

/// `fold` is fold `f` of the rows: its users' rows test, the rows of other users train, rows without
/// a user do neither.
pub open spec fn is_fold(
    fold: Fold,
    users: Seq<Option<String>>,
    n_folds: int,
    seed: u64,
    f: int,
) -> bool {
    &&& fold.train@.len() == users.len()
    &&& fold.test@.len() == users.len()
    &&& forall|i: int|
        0 <= i < users.len() ==> #[trigger] fold.test@[i] == (text_of(users[i]) matches Some(name)
            && in_fold(names_of(users), n_folds, seed, f, name))
    &&& forall|i: int|
        0 <= i < users.len() ==> #[trigger] fold.train@[i] == (text_of(users[i]) matches Some(name)
            && !in_fold(names_of(users), n_folds, seed, f, name))
}

/// The order is a rearrangement of the users.
pub open spec fn order_is_sound(n_users: nat, seed: u64) -> bool {
    let order = user_order(n_users, seed);
    &&& order.len() == n_users
    &&& order.no_duplicates()
    &&& forall|p: int| 0 <= p < order.len() ==> (#[trigger] order[p]) < n_users
    &&& forall|x: usize| x < n_users ==> #[trigger] order.contains(x)
}

/// The folds start in order and end at the number of users.
pub proof fn folds_cover_users(n_users: int, n_folds: int, f: int)
    requires
        0 <= n_users,
        0 < n_folds,
        0 <= f <= n_folds,
    ensures
        fold_start(n_users, n_folds, f) == f * (n_users / n_folds) + (if f < n_users % n_folds {
            f
        } else {
            n_users % n_folds
        }),
        fold_start(n_users, n_folds, n_folds) == n_users,
        0 <= fold_start(n_users, n_folds, f) <= n_users,
        0 <= fold_size(n_users, n_folds, f),
        n_users >= n_folds ==> fold_size(n_users, n_folds, f) >= 1,
{
    lemma_fold_start(n_users, n_folds, f);
    lemma_fold_start(n_users, n_folds, n_folds);
    let q = n_users / n_folds;
    let r = n_users % n_folds;
    vstd::arithmetic::div_mod::lemma_fundamental_div_mod(n_users, n_folds);
    vstd::arithmetic::div_mod::lemma_mod_bound(n_users, n_folds);
    assert(q >= 0) by (nonlinear_arith)
        requires
            q == n_users / n_folds,
            n_users >= 0,
            n_folds > 0,
    ;
    assert(0 <= f * q <= n_folds * q) by (nonlinear_arith)
        requires
            0 <= f <= n_folds,
            q >= 0,
    ;
    if n_users >= n_folds {
        assert(q >= 1) by (nonlinear_arith)
            requires
                q == n_users / n_folds,
                n_users >= n_folds,
                n_folds > 0,
        ;
    }
}

proof fn lemma_fold_start(n_users: int, n_folds: int, f: int)
    requires
        0 <= n_users,
        0 < n_folds,
        0 <= f <= n_folds,
    ensures
        fold_start(n_users, n_folds, f) == f * (n_users / n_folds) + (if f < n_users % n_folds {
            f
        } else {
            n_users % n_folds
        }),
    decreases f,
{
    let q = n_users / n_folds;
    vstd::arithmetic::div_mod::lemma_mod_bound(n_users, n_folds);
    if f > 0 {
        lemma_fold_start(n_users, n_folds, f - 1);
        assert((f - 1) * q + q == f * q) by (nonlinear_arith);
    } else {
        assert(0 * q == 0) by (nonlinear_arith);
    }
}

proof fn lemma_fold_starts_ascend(n_users: int, n_folds: int, f: int, g: int)
    requires
        0 <= n_users,
        0 < n_folds,
        0 <= f <= g <= n_folds,
    ensures
        fold_start(n_users, n_folds, f) <= fold_start(n_users, n_folds, g),
    decreases g - f,
{
    if f < g {
        lemma_fold_starts_ascend(n_users, n_folds, f, g - 1);
        folds_cover_users(n_users, n_folds, g - 1);
    }
}

/// Every place lies in exactly one fold.
proof fn lemma_place_in_fold(n_users: int, n_folds: int, p: int, g: int) -> (f: int)
    requires
        0 <= n_users,
        0 < n_folds,
        0 <= g <= n_folds,
        0 <= p < fold_start(n_users, n_folds, g),
    ensures
        0 <= f < g,
        fold_start(n_users, n_folds, f) <= p < fold_start(n_users, n_folds, f + 1),
    decreases g,
{
    if p >= fold_start(n_users, n_folds, g - 1) {
        g - 1
    } else {
        lemma_place_in_fold(n_users, n_folds, p, g - 1)
    }
}

/// The names of a column, each with its place among them.
fn name_places(groups: &Groups) -> (places: ahash::AHashMap<String, usize>)
    requires
        texts(groups.names@).no_duplicates(),
    ensures
        forall|a: int|
            0 <= a < groups.names@.len() ==> id_entries(places).dom().contains(
                (#[trigger] groups.names@[a])@,
            ) && id_entries(places)[groups.names@[a]@] == a,
{
    let mut places = new_id_map();
    let mut a: usize = 0;
    while a < groups.names.len()
        invariant
            a <= groups.names@.len(),
            texts(groups.names@).no_duplicates(),
            forall|b: int|
                0 <= b < a ==> id_entries(places).dom().contains((#[trigger] groups.names@[b])@)
                    && id_entries(places)[groups.names@[b]@] == b,
        decreases groups.names@.len() - a,
    {
        let ghost before = id_entries(places);
        id_insert(&mut places, groups.names[a].clone(), a);
        proof {
            assert forall|b: int| 0 <= b < a + 1 implies id_entries(places).dom().contains(
                (#[trigger] groups.names@[b])@,
            ) && id_entries(places)[groups.names@[b]@] == b by {
                if b < a {
                    assert(texts(groups.names@)[b] != texts(groups.names@)[a as int]);
                    assert(before.dom().contains(groups.names@[b]@));
                }
            }
        }
        a = a + 1;
    }
    places
}

/// Which fold each user, ascending, is dealt out to.
fn deal_users(n_users: usize, n_folds: usize, seed: u64) -> (fold_of: Vec<usize>)
    requires
        0 < n_folds,
    ensures
        fold_of@.len() == n_users,
        order_is_sound(n_users as nat, seed),
        forall|a: int| 0 <= a < n_users ==> (#[trigger] fold_of@[a]) < n_folds,
        forall|p: int|
            0 <= p < n_users ==> fold_start(
                n_users as int,
                n_folds as int,
                fold_of@[(#[trigger] user_order(n_users as nat, seed)[p]) as int] as int,
            ) <= p < fold_start(
                n_users as int,
                n_folds as int,
                fold_of@[user_order(n_users as nat, seed)[p] as int] as int + 1,
            ),
{
    let mut order: Vec<usize> = Vec::new();
    while order.len() < n_users
        invariant
            order@.len() <= n_users,
            order@ == numbers(order@.len()),
        decreases n_users - order@.len(),
    {
        let next: usize = order.len();
        order.push(next);
        assert(order@ =~= numbers(order@.len()));
    }
    let mut rng = seeded_rng(seed);
    let ghost initial = order@;
    shuffle(&mut order, &mut rng);
    proof {
        assert(initial.no_duplicates());
        initial.to_multiset_ensures();
        order@.to_multiset_ensures();
        initial.lemma_multiset_has_no_duplicates();
        order@.lemma_multiset_has_no_duplicates_conv();
        assert forall|x: usize| order@.contains(x) <==> x < n_users by {
            assert(order@.contains(x) <==> order@.to_multiset().contains(x));
            assert(initial.contains(x) <==> initial.to_multiset().contains(x));
            if x < n_users {
                assert(initial[x as int] == x);
            }
            if initial.contains(x) {
                let k = choose|k: int| 0 <= k < initial.len() && initial[k] == x;
            }
        }
        assert forall|p: int| 0 <= p < order@.len() implies (#[trigger] order@[p]) < n_users by {
            assert(order@.contains(order@[p]));
        }
    }
    let mut fold_of: Vec<usize> = Vec::new();
    while fold_of.len() < n_users
        invariant
            fold_of@.len() <= n_users,
            0 < n_folds,
            forall|a: int| 0 <= a < fold_of@.len() ==> (#[trigger] fold_of@[a]) < n_folds,
        decreases n_users - fold_of@.len(),
    {
        fold_of.push(0);
    }
    let size: usize = n_users / n_folds;
    let remainder: usize = n_users % n_folds;
    let mut f: usize = 0;
    let mut start: usize = 0;
    while f < n_folds
        invariant
            f <= n_folds,
            0 < n_folds,
            size == n_users as int / n_folds as int,
            remainder == n_users as int % n_folds as int,
            start == fold_start(n_users as int, n_folds as int, f as int),
            start <= n_users,
            order@ == user_order(n_users as nat, seed),
            order_is_sound(n_users as nat, seed),
            fold_of@.len() == n_users,
            forall|a: int| 0 <= a < n_users ==> (#[trigger] fold_of@[a]) < n_folds,
            forall|p: int|
                0 <= p < start ==> fold_start(
                    n_users as int,
                    n_folds as int,
                    fold_of@[(#[trigger] order@[p]) as int] as int,
                ) <= p < fold_start(
                    n_users as int,
                    n_folds as int,
                    fold_of@[order@[p] as int] as int + 1,
                ),
        decreases n_folds - f,
    {
        proof {
            folds_cover_users(n_users as int, n_folds as int, f as int);
            folds_cover_users(n_users as int, n_folds as int, f + 1);
        }
        let extra: usize = if f < remainder {
            1
        } else {
            0
        };
        assert(start + size + extra == fold_start(n_users as int, n_folds as int, f + 1));
        let end: usize = start + size + extra;
        let mut p: usize = start;
        while p < end
            invariant
                start <= p <= end,
                end <= n_users,
                f < n_folds,
                start == fold_start(n_users as int, n_folds as int, f as int),
                end == fold_start(n_users as int, n_folds as int, f + 1),
                order@ == user_order(n_users as nat, seed),
                order_is_sound(n_users as nat, seed),
                fold_of@.len() == n_users,
                forall|a: int| 0 <= a < n_users ==> (#[trigger] fold_of@[a]) < n_folds,
                forall|q: int|
                    0 <= q < p ==> fold_start(
                        n_users as int,
                        n_folds as int,
                        fold_of@[(#[trigger] order@[q]) as int] as int,
                    ) <= q < fold_start(
                        n_users as int,
                        n_folds as int,
                        fold_of@[order@[q] as int] as int + 1,
                    ),
            decreases end - p,
        {
            let ghost before = fold_of@;
            fold_of.set(order[p], f);
            proof {
                assert forall|q: int| 0 <= q < p + 1 implies fold_start(
                    n_users as int,
                    n_folds as int,
                    fold_of@[(#[trigger] order@[q]) as int] as int,
                ) <= q < fold_start(
                    n_users as int,
                    n_folds as int,
                    fold_of@[order@[q] as int] as int + 1,
                ) by {
                    if q < p {
                        assert(order@[q] != order@[p as int]);
                        assert(fold_of@[order@[q] as int] == before[order@[q] as int]);
                    }
                }
            }
            p = p + 1;
        }
        start = end;
        f = f + 1;
    }
    proof {
        folds_cover_users(n_users as int, n_folds as int, n_folds as int);
    }
    fold_of
}

/// A user is dealt out to the fold that holds it, and to no other.
proof fn lemma_in_fold(
    names: Seq<Seq<char>>,
    n_folds: int,
    seed: u64,
    fold_of: Seq<usize>,
    a: int,
    f: int,
)
    requires
        0 < n_folds,
        0 <= f < n_folds,
        0 <= a < names.len() <= usize::MAX,
        names.no_duplicates(),
        fold_of.len() == names.len(),
        order_is_sound(names.len(), seed),
        forall|b: int| 0 <= b < names.len() ==> (#[trigger] fold_of[b]) < n_folds,
        forall|p: int|
            0 <= p < names.len() ==> fold_start(
                names.len() as int,
                n_folds,
                fold_of[(#[trigger] user_order(names.len(), seed)[p]) as int] as int,
            ) <= p < fold_start(
                names.len() as int,
                n_folds,
                fold_of[user_order(names.len(), seed)[p] as int] as int + 1,
            ),
    ensures
        in_fold(names, n_folds, seed, f, names[a]) == (fold_of[a] == f),
{
    let n = names.len() as int;
    let order = user_order(names.len(), seed);
    assert(order.contains(a as usize));
    let p = choose|p: int| 0 <= p < order.len() && order[p] == a as usize;
    if fold_of[a] == f {
        assert(names[order[p] as int] == names[a]);
    }
    if in_fold(names, n_folds, seed, f, names[a]) {
        let q = choose|q: int|
            fold_start(n, n_folds, f) <= q < fold_start(n, n_folds, f + 1) && names[(
            #[trigger] user_order(names.len(), seed)[q]) as int] == names[a];
        folds_cover_users(n, n_folds, f);
        folds_cover_users(n, n_folds, f + 1);
        assert(order[q] < names.len());
        assert(order[q] == a);
        let h = fold_of[a] as int;
        if h < f {
            lemma_fold_starts_ascend(n, n_folds, h + 1, f);
        }
        if f < h {
            lemma_fold_starts_ascend(n, n_folds, f + 1, h);
        }
    }
}

/// Splits rows into cross-validation folds by user.
///
/// The users, ascending, are shuffled by the seed and dealt out evenly; fold `f` tests on the rows of
/// its users and trains on those of all others.
pub fn generate_kfold_splits(users: &[Option<String>], n_folds: usize, seed: u64) -> (folds: Result<
    Vec<Fold>,
    FoldError,
>)
    ensures
        match folds {
            Err(FoldError::TooFew { n_folds: got }) => n_folds < 2 && got == n_folds,
            Err(FoldError::TooMany { n_folds: got, n_users }) => n_folds >= 2 && n_folds > names_of(
                users@,
            ).len() && got == n_folds && n_users == names_of(users@).len(),
            Ok(all) => {
                &&& 2 <= n_folds <= names_of(users@).len()
                &&& all@.len() == n_folds
                &&& order_is_sound(names_of(users@).len(), seed)
                &&& forall|f: int|
                    0 <= f < n_folds ==> is_fold(
                        #[trigger] all@[f],
                        users@,
                        n_folds as int,
                        seed,
                        f,
                    )
            },
        },
{
    if n_folds < 2 {
        return Err(FoldError::TooFew { n_folds });
    }
    let groups = group_rows(users);
    let n_users: usize = groups.names.len();
    let ghost names = names_of(users@);
    assert(texts(groups.names@).len() == n_users);
    if n_folds > n_users {
        return Err(FoldError::TooMany { n_folds, n_users });
    }
    proof {
        lemma_distinct_names(users@);
    }
    let fold_of = deal_users(n_users, n_folds, seed);
    let places = name_places(&groups);
    let mut all: Vec<Fold> = Vec::new();
    while all.len() < n_folds
        invariant
            2 <= n_folds <= n_users,
            all@.len() <= n_folds,
            names == names_of(users@),
            names.no_duplicates(),
            names.len() == n_users,
            texts(groups.names@) == names,
            fold_of@.len() == n_users,
            order_is_sound(n_users as nat, seed),
            forall|a: int| 0 <= a < n_users ==> (#[trigger] fold_of@[a]) < n_folds,
            forall|p: int|
                0 <= p < n_users ==> fold_start(
                    n_users as int,
                    n_folds as int,
                    fold_of@[(#[trigger] user_order(n_users as nat, seed)[p]) as int] as int,
                ) <= p < fold_start(
                    n_users as int,
                    n_folds as int,
                    fold_of@[user_order(n_users as nat, seed)[p] as int] as int + 1,
                ),
            forall|a: int|
                0 <= a < groups.names@.len() ==> id_entries(places).dom().contains(
                    (#[trigger] groups.names@[a])@,
                ) && id_entries(places)[groups.names@[a]@] == a,
            forall|f: int|
                0 <= f < all@.len() ==> is_fold(
                    #[trigger] all@[f],
                    users@,
                    n_folds as int,
                    seed,
                    f,
                ),
        decreases n_folds - all@.len(),
    {
        let f: usize = all.len();
        let mut train: Vec<bool> = Vec::new();
        let mut test: Vec<bool> = Vec::new();
        let mut i: usize = 0;
        while i < users.len()
            invariant
                i <= users@.len(),
                f < n_folds,
                2 <= n_folds <= n_users,
                names == names_of(users@),
                names.no_duplicates(),
                names.len() == n_users,
                texts(groups.names@) == names,
                fold_of@.len() == n_users,
                order_is_sound(n_users as nat, seed),
                forall|a: int| 0 <= a < n_users ==> (#[trigger] fold_of@[a]) < n_folds,
                forall|p: int|
                    0 <= p < n_users ==> fold_start(
                        n_users as int,
                        n_folds as int,
                        fold_of@[(#[trigger] user_order(n_users as nat, seed)[p]) as int] as int,
                    ) <= p < fold_start(
                        n_users as int,
                        n_folds as int,
                        fold_of@[user_order(n_users as nat, seed)[p] as int] as int + 1,
                    ),
                forall|a: int|
                    0 <= a < groups.names@.len() ==> id_entries(places).dom().contains(
                        (#[trigger] groups.names@[a])@,
                    ) && id_entries(places)[groups.names@[a]@] == a,
                train@.len() == i,
                test@.len() == i,
                forall|k: int|
                    0 <= k < i ==> #[trigger] test@[k] == (text_of(users@[k]) matches Some(name)
                        && in_fold(names, n_folds as int, seed, f as int, name)),
                forall|k: int|
                    0 <= k < i ==> #[trigger] train@[k] == (text_of(users@[k]) matches Some(name)
                        && !in_fold(names, n_folds as int, seed, f as int, name)),
            decreases users@.len() - i,
        {
            match &users[i] {
                Some(user) => {
                    proof {
                        lemma_user_has_place(users@, i as int);
                        let a = choose|a: int| 0 <= a < names.len() && names[a] == user@;
                        assert(texts(groups.names@)[a] == groups.names@[a]@);
                        lemma_in_fold(names, n_folds as int, seed, fold_of@, a, f as int);
                    }
                    let is_test: bool = match id_get(&places, user.as_str()) {
                        Some(place) => fold_of[place] == f,
                        None => false,
                    };
                    train.push(!is_test);
                    test.push(is_test);
                },
                None => {
                    train.push(false);
                    test.push(false);
                },
            }
            i = i + 1;
        }
        all.push(Fold { train, test });
    }
    Ok(all)
}

/// A present user is among the names of its column.
proof fn lemma_user_has_place(users: Seq<Option<String>>, i: int)
    requires
        0 <= i < users.len(),
        users[i] is Some,
    ensures
        names_of(users).contains(users[i].unwrap()@),
{
    let name = users[i].unwrap()@;
    lemma_names_ascending(users);
    lemma_present(users, name);
    assert(text_of(users[i]) == Some(name));
    assert(present(users).to_set().contains(name));
    assert(names_of(users).to_set().contains(name));
}

proof fn lemma_distinct_names(users: Seq<Option<String>>)
    ensures
        names_of(users).no_duplicates(),
{
    lemma_names_ascending(users);
    let names = names_of(users);
    assert forall|a: int, b: int|
        0 <= a < names.len() && 0 <= b < names.len() && a != b implies names[a] != names[b] by {
        text_order_is_total(names[a], names[b], names[a]);
        if a < b {
            assert(text_before(names[a], names[b]));
        } else {
            assert(text_before(names[b], names[a]));
        }
    }
}

/// Every row with a user tests in exactly one fold and trains in all others; a row without a user
/// is in no part of any fold.
pub proof fn folds_partition_rows(
    users: Seq<Option<String>>,
    n_folds: int,
    seed: u64,
    folds: Seq<Fold>,
    i: int,
)
    requires
        0 < n_folds,
        folds.len() == n_folds,
        names_of(users).len() <= usize::MAX,
        order_is_sound(names_of(users).len(), seed),
        forall|f: int|
            0 <= f < n_folds ==> is_fold(#[trigger] folds[f], users, n_folds, seed, f),
        0 <= i < users.len(),
    ensures
        users[i] is None ==> forall|f: int|
            0 <= f < n_folds ==> !(#[trigger] folds[f]).test@[i] && !folds[f].train@[i],
        users[i] is Some ==> exists|f: int|
            0 <= f < n_folds && (#[trigger] folds[f]).test@[i] && forall|g: int|
                0 <= g < n_folds && g != f ==> !(#[trigger] folds[g]).test@[i],
        users[i] is Some ==> forall|f: int|
            0 <= f < n_folds ==> (#[trigger] folds[f]).train@[i] == !folds[f].test@[i],
{
    assert forall|f: int| 0 <= f < n_folds implies (users[i] is None ==> !(
    #[trigger] folds[f]).test@[i] && !folds[f].train@[i]) && (users[i] is Some
        ==> folds[f].train@[i] == !folds[f].test@[i]) by {
        assert(is_fold(folds[f], users, n_folds, seed, f));
        assert(folds[f].train@[i] == (text_of(users[i]) matches Some(name) && !in_fold(
            names_of(users),
            n_folds,
            seed,
            f,
            name,
        )));
    }
    if users[i] is Some {
        let names = names_of(users);
        let n = names.len() as int;
        let name = users[i].unwrap()@;
        let order = user_order(names.len(), seed);
        lemma_distinct_names(users);
        lemma_user_has_place(users, i);
        let a = choose|a: int| 0 <= a < names.len() && names[a] == name;
        assert(order.contains(a as usize));
        let p = choose|p: int| 0 <= p < order.len() && order[p] == a as usize;
        folds_cover_users(n, n_folds, n_folds);
        let f = lemma_place_in_fold(n, n_folds, p, n_folds);
        assert(is_fold(folds[f], users, n_folds, seed, f));
        assert(in_fold(names, n_folds, seed, f, name)) by {
            assert(names[order[p] as int] == name);
        }
        assert(folds[f].test@[i]);
        assert forall|g: int| 0 <= g < n_folds && g != f implies !(
        #[trigger] folds[g]).test@[i] by {
            assert(is_fold(folds[g], users, n_folds, seed, g));
            if in_fold(names, n_folds, seed, g, name) {
                let q = choose|q: int|
                    fold_start(n, n_folds, g) <= q < fold_start(n, n_folds, g + 1) && names[(
                    #[trigger] user_order(names.len(), seed)[q]) as int] == name;
                folds_cover_users(n, n_folds, g);
                folds_cover_users(n, n_folds, g + 1);
                assert(order[q] == a);
                assert(q == p);
                if g < f {
                    lemma_fold_starts_ascend(n, n_folds, g + 1, f);
                } else {
                    lemma_fold_starts_ascend(n, n_folds, f + 1, g);
                }
            }
        }
    }
}

/// All rows of a user are in the same part of a fold.
pub proof fn fold_keeps_users_together(
    users: Seq<Option<String>>,
    n_folds: int,
    seed: u64,
    fold: Fold,
    f: int,
    i: int,
    j: int,
)
    requires
        is_fold(fold, users, n_folds, seed, f),
        0 <= i < users.len(),
        0 <= j < users.len(),
        text_of(users[i]) == text_of(users[j]),
    ensures
        fold.test@[i] == fold.test@[j],
        fold.train@[i] == fold.train@[j],
{
    assert(fold.test@[i] == (text_of(users[i]) matches Some(name) && in_fold(
        names_of(users),
        n_folds,
        seed,
        f,
        name,
    )));
    assert(fold.train@[i] == (text_of(users[i]) matches Some(name) && !in_fold(
        names_of(users),
        n_folds,
        seed,
        f,
        name,
    )));
}

/// The sizes of two folds differ by at most one user.
pub proof fn folds_are_balanced(n_users: int, n_folds: int, f: int, g: int)
    requires
        0 <= n_users,
        0 < n_folds,
        0 <= f < n_folds,
        0 <= g < n_folds,
    ensures
        -1 <= fold_size(n_users, n_folds, f) - fold_size(n_users, n_folds, g) <= 1,
        fold_start(n_users, n_folds, f + 1) - fold_start(n_users, n_folds, f) == fold_size(
            n_users,
            n_folds,
            f,
        ),
{
}

/// The users that are dealt out to fold `f`.
pub open spec fn fold_users(
    users: Seq<Option<String>>,
    n_folds: int,
    seed: u64,
    f: int,
) -> Set<Seq<char>> {
    Set::new(|name: Seq<char>| in_fold(names_of(users), n_folds, seed, f, name))
}

/// A fold tests as many users as its size says.
pub proof fn fold_has_its_size(users: Seq<Option<String>>, n_folds: int, seed: u64, f: int)
    requires
        users.len() <= usize::MAX,
        order_is_sound(names_of(users).len(), seed),
        0 <= f < n_folds,
    ensures
        fold_users(users, n_folds, seed, f).finite(),
        fold_users(users, n_folds, seed, f).len() == fold_size(
            names_of(users).len() as int,
            n_folds,
            f,
        ),
{
    let names = names_of(users);
    let n = names.len() as int;
    let order = user_order(names.len(), seed);
    let start = fold_start(n, n_folds, f);
    let end = fold_start(n, n_folds, f + 1);
    folds_cover_users(n, n_folds, f);
    folds_cover_users(n, n_folds, f + 1);
    folds_cover_users(n, n_folds, n_folds);
    lemma_fold_starts_ascend(n, n_folds, 0, f);
    lemma_fold_starts_ascend(n, n_folds, f + 1, n_folds);
    lemma_distinct_names(users);
    let dealt = Seq::new((end - start) as nat, |p: int| names[order[start + p] as int]);
    assert forall|a: int, b: int| 0 <= a < dealt.len() && 0 <= b < dealt.len() && a != b implies
        dealt[a] != dealt[b] by {
        assert(order[start + a] != order[start + b]);
    }
    dealt.unique_seq_to_set();
    vstd::seq_lib::seq_to_set_is_finite(dealt);
    assert forall|name: Seq<char>| dealt.to_set().contains(name) <==> in_fold(
        names,
        n_folds,
        seed,
        f,
        name,
    ) by {
        if dealt.contains(name) {
            let p = choose|p: int| 0 <= p < dealt.len() && dealt[p] == name;
            assert(names[order[start + p] as int] == name);
        }
        if in_fold(names, n_folds, seed, f, name) {
            let p = choose|p: int| start <= p < end && names[(#[trigger] order[p]) as int] == name;
            assert(dealt[p - start] == name);
        }
    }
    assert(fold_users(users, n_folds, seed, f) =~= dealt.to_set());
}

/// The users, in the order in which the seed shuffles the ascending names, are dealt out in
/// consecutive runs: each fold gets the whole part of an even share, and one more while the
/// remainder lasts.
pub proof fn folds_take_consecutive_users(
    users: Seq<Option<String>>,
    n_folds: int,
    seed: u64,
    f: int,
    p: int,
)
    requires
        users.len() <= usize::MAX,
        0 <= f < n_folds,
        order_is_sound(names_of(users).len(), seed),
        0 <= p < names_of(users).len(),
    ensures
        ({
            let n = names_of(users).len() as int;
            let share = n / n_folds;
            let rest = n % n_folds;
            let start = f * share + (if f < rest {
                f
            } else {
                rest
            });
            let end = start + share + (if f < rest {
                1int
            } else {
                0
            });
            let order = shuffled(
                Seq::new(names_of(users).len(), |i: int| i as usize),
                seeded_state(seed),
            );
            in_fold(names_of(users), n_folds, seed, f, names_of(users)[order[p] as int])
                <==> start <= p < end
        }),
{
    let names = names_of(users);
    let n = names.len() as int;
    lemma_fold_start(n, n_folds, f);
    lemma_fold_start(n, n_folds, f + 1);
    assert((f + 1) * (n / n_folds) == f * (n / n_folds) + n / n_folds) by (nonlinear_arith);
    let order = user_order(names.len(), seed);
    assert(order == shuffled(Seq::new(names.len(), |i: int| i as usize), seeded_state(seed)));
    lemma_distinct_names(users);
    let start = fold_start(n, n_folds, f);
    let end = fold_start(n, n_folds, f + 1);
    folds_cover_users(n, n_folds, f);
    folds_cover_users(n, n_folds, f + 1);
    if in_fold(names, n_folds, seed, f, names[order[p] as int]) {
        let q = choose|q: int|
            start <= q < end && names[(#[trigger] user_order(names.len(), seed)[q]) as int]
                == names[order[p] as int];
        assert(order[q] < names.len() && order[p] < names.len());
        assert(order[q] == order[p]);
        assert(q == p);
    }
}

/// The rows of a fold: those of its users test, those of other users train.
pub proof fn fold_rows_go_by_user(
    fold: Fold,
    users: Seq<Option<String>>,
    n_folds: int,
    seed: u64,
    f: int,
    i: int,
)
    requires
        is_fold(fold, users, n_folds, seed, f),
        0 <= i < users.len(),
    ensures
        users[i] is Some ==> fold.test@[i] == in_fold(
            names_of(users),
            n_folds,
            seed,
            f,
            users[i].unwrap()@,
        ) && fold.train@[i] != fold.test@[i],
        users[i] is None ==> !fold.test@[i] && !fold.train@[i],
{
}

} // verus!
