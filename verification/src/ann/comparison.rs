//! Deterministic synthetic data for comparing retrieval backends.

use crate::data::triples::{Triple, TripleData, COLD_START_USER_ID};
use crate::ids::{id_entries, id_insert, intern, is_index_of, new_id_map, texts};
use crate::selection::{lemma_collects, places};
use crate::text::{decimal, decimal_is_injective, decimal_text};
use vstd::arithmetic::div_mod::{
    lemma_add_mod_noop_right, lemma_fundamental_div_mod, lemma_fundamental_div_mod_converse,
    lemma_mod_bound, lemma_mod_decreases, lemma_small_mod,
};
use vstd::prelude::*;
use vstd::string::StringExecFns;

verus! {

/// Multiplier of the linear congruential step.
pub const LCG_MULTIPLIER: u64 = 6364136223846793005;

/// Increment of the linear congruential step.
pub const LCG_INCREMENT: u64 = 1442695040888963407;

/// A 64-bit linear congruential generator: small, seedable and reproducible.
pub struct Lcg(pub u64);

/// The state that follows `state`.
pub open spec fn lcg_step(state: u64) -> u64 {
    state.wrapping_mul(LCG_MULTIPLIER).wrapping_add(LCG_INCREMENT)
}

/// The `n`-th word that a generator with seed `seed` produces; word 0 is the seed itself.
pub open spec fn lcg_word(seed: u64, n: nat) -> u64
    decreases n,
{
    if n == 0 {
        seed
    } else {
        lcg_step(lcg_word(seed, (n - 1) as nat))
    }
}

impl Lcg {
    /// A generator whose state is `seed`.
    pub fn new(seed: u64) -> (lcg: Self)
        ensures
            lcg.0 == seed,
    {
        Lcg(seed)
    }

    /// Advances the state once and returns it.
    pub fn next_u64(&mut self) -> (word: u64)
        ensures
            word == lcg_step(old(self).0),
            final(self).0 == word,
    {
        let product: u64 = self.0.wrapping_mul(LCG_MULTIPLIER);
        let sum: u64 = product.wrapping_add(LCG_INCREMENT);
        self.0 = sum;
        sum
    }

    /// Advances the state once and returns it modulo `n`: a number below `n`.
    pub fn below(&mut self, n: usize) -> (value: usize)
        requires
            n > 0,
        ensures
            final(self).0 == lcg_step(old(self).0),
            value == lcg_step(old(self).0) as int % n as int,
            value < n,
    {
        let word: u64 = self.next_u64();
        let value: u64 = word % (n as u64);
        value as usize
    }
}

/// The number of items of `cluster` when `n_items` items are dealt out to `n_clusters` clusters in
/// turn.
pub open spec fn cluster_size(n_items: int, n_clusters: int, cluster: int) -> int {
    if n_items <= cluster {
        0
    } else {
        (n_items - cluster - 1) / n_clusters + 1
    }
}

/// The items of `cluster`, ascending.
pub open spec fn cluster_members(n_items: int, n_clusters: int, cluster: int) -> Seq<usize> {
    Seq::new(
        cluster_size(n_items, n_clusters, cluster) as nat,
        |m: int| (cluster + m * n_clusters) as usize,
    )
}

/// Positive number `t`: its user is `t / pos_per_user`, one after the reserved row; its item is drawn
/// from the user's own cluster or, at fifteen percent, from the whole catalogue.
pub open spec fn clustered_triple(
    n_items: int,
    n_clusters: int,
    pos_per_user: int,
    seed: u64,
    t: int,
) -> Triple {
    let user = t / pos_per_user;
    let cluster = user % n_clusters;
    let coin = lcg_word(seed, (2 * t + 1) as nat) as int % 100;
    let word = lcg_word(seed, (2 * t + 2) as nat) as int;
    Triple {
        user_idx: (user + 1) as usize,
        item_idx: if coin < 85 {
            cluster_members(n_items, n_clusters, cluster)[word % cluster_size(
                n_items,
                n_clusters,
                cluster,
            )]
        } else {
            (word % n_items) as usize
        },
    }
}

/// The name of item `i`.
pub open spec fn item_name(i: int) -> Seq<char> {
    "item_"@ + decimal_text(i as nat)
}

/// The name of user `u`.
pub open spec fn user_name(u: int) -> Seq<char> {
    "user_"@ + decimal_text(u as nat)
}

/// `prefix` followed by `i` in decimal.
fn numbered(prefix: &str, i: usize) -> (text: String)
    ensures
        text@ == prefix@ + decimal_text(i as nat),
{
    let mut text = prefix.to_owned();
    let digits = decimal(i as u64);
    text.append(digits.as_str());
    text
}

/// Numbered names differ where their numbers do.
proof fn lemma_names_differ(prefix: Seq<char>, a: nat, b: nat)
    requires
        a != b,
    ensures
        prefix + decimal_text(a) != prefix + decimal_text(b),
{
    if prefix + decimal_text(a) == prefix + decimal_text(b) {
        assert((prefix + decimal_text(a)).skip(prefix.len() as int) =~= decimal_text(a));
        assert((prefix + decimal_text(b)).skip(prefix.len() as int) =~= decimal_text(b));
        decimal_is_injective(a, b);
    }
}

/// Item `item` is the next member of its own cluster and of no other.
proof fn lemma_next_member(item: int, n_clusters: int, cluster: int)
    requires
        0 <= item,
        0 <= cluster < n_clusters,
        item < usize::MAX,
    ensures
        cluster == item % n_clusters ==> cluster_members(item + 1, n_clusters, cluster)
            == cluster_members(item, n_clusters, cluster).push(item as usize),
        cluster != item % n_clusters ==> cluster_members(item + 1, n_clusters, cluster)
            == cluster_members(item, n_clusters, cluster),
{
    let q = item / n_clusters;
    let r = item % n_clusters;
    lemma_fundamental_div_mod(item, n_clusters);
    lemma_mod_bound(item, n_clusters);
    assert(q >= 0) by (nonlinear_arith)
        requires
            item >= 0,
            n_clusters > 0,
            q == item / n_clusters,
    ;
    assert(n_clusters * q == q * n_clusters) by (nonlinear_arith);
    if cluster == r {
        if q > 0 {
            assert(q * n_clusters - 1 == (q - 1) * n_clusters + (n_clusters - 1))
                by (nonlinear_arith);
            lemma_fundamental_div_mod_converse(
                q * n_clusters - 1,
                n_clusters,
                q - 1,
                n_clusters - 1,
            );
            assert(q * n_clusters > 0) by (nonlinear_arith)
                requires
                    q > 0,
                    n_clusters > 0,
            ;
        } else {
            assert(q * n_clusters == 0) by (nonlinear_arith)
                requires
                    q == 0,
            ;
        }
        lemma_fundamental_div_mod_converse(q * n_clusters, n_clusters, q, 0);
        assert(cluster_size(item, n_clusters, cluster) == q);
        assert(cluster_size(item + 1, n_clusters, cluster) == q + 1);
        assert(cluster_members(item + 1, n_clusters, cluster) =~= cluster_members(
            item,
            n_clusters,
            cluster,
        ).push(item as usize));
    } else if item > cluster {
        let x = item - cluster;
        if r > cluster {
            lemma_fundamental_div_mod_converse(x, n_clusters, q, r - cluster);
            lemma_fundamental_div_mod_converse(x - 1, n_clusters, q, r - cluster - 1);
        } else {
            let d = n_clusters + r - cluster;
            assert((q - 1) * n_clusters + d == x) by (nonlinear_arith)
                requires
                    item == n_clusters * q + r,
                    x == item - cluster,
                    d == n_clusters + r - cluster,
            ;
            lemma_fundamental_div_mod_converse(x, n_clusters, q - 1, d);
            lemma_fundamental_div_mod_converse(x - 1, n_clusters, q - 1, d - 1);
        }
        assert(cluster_size(item, n_clusters, cluster) == cluster_size(
            item + 1,
            n_clusters,
            cluster,
        ));
        assert(cluster_members(item + 1, n_clusters, cluster) =~= cluster_members(
            item,
            n_clusters,
            cluster,
        ));
    } else {
        assert(item < cluster) by {
            if item == cluster {
                assert(r == item) by {
                    lemma_small_mod(item as nat, n_clusters as nat);
                }
            }
        }
        assert(cluster_members(item + 1, n_clusters, cluster) =~= cluster_members(
            item,
            n_clusters,
            cluster,
        ));
    }
}

/// Every member of a cluster is an item.
proof fn lemma_member_is_item(n_items: int, n_clusters: int, cluster: int, m: int)
    requires
        0 <= cluster < n_clusters,
        0 <= n_items <= usize::MAX,
        0 <= m < cluster_size(n_items, n_clusters, cluster),
    ensures
        cluster_members(n_items, n_clusters, cluster)[m] == cluster + m * n_clusters,
        0 <= cluster + m * n_clusters < n_items,
{
    let x = n_items - cluster - 1;
    lemma_fundamental_div_mod(x, n_clusters);
    lemma_mod_bound(x, n_clusters);
    assert(m * n_clusters <= (x / n_clusters) * n_clusters) by (nonlinear_arith)
        requires
            m <= x / n_clusters,
            n_clusters > 0,
    ;
    assert((x / n_clusters) * n_clusters == n_clusters * (x / n_clusters)) by (nonlinear_arith);
    assert(0 <= m * n_clusters) by (nonlinear_arith)
        requires
            0 <= m,
            n_clusters > 0,
    ;
}

/// Deals the items out to the clusters in turn.
fn deal_clusters(n_items: usize, n_clusters: usize) -> (clusters: Vec<Vec<usize>>)
    requires
        n_clusters > 0,
    ensures
        clusters@.len() == n_clusters,
        forall|c: int|
            0 <= c < n_clusters ==> (#[trigger] clusters@[c])@ == cluster_members(
                n_items as int,
                n_clusters as int,
                c,
            ),
{
    let mut clusters: Vec<Vec<usize>> = Vec::new();
    while clusters.len() < n_clusters
        invariant
            clusters@.len() <= n_clusters,
            forall|c: int| 0 <= c < clusters@.len() ==> (#[trigger] clusters@[c])@.len() == 0,
        decreases n_clusters - clusters@.len(),
    {
        clusters.push(Vec::new());
    }
    assert forall|c: int| 0 <= c < n_clusters implies (#[trigger] clusters@[c])@
        == cluster_members(0, n_clusters as int, c) by {
        assert(clusters@[c]@ =~= cluster_members(0, n_clusters as int, c));
    }
    let mut item: usize = 0;
    while item < n_items
        invariant
            n_clusters > 0,
            item <= n_items,
            clusters@.len() == n_clusters,
            forall|c: int|
                0 <= c < n_clusters ==> (#[trigger] clusters@[c])@ == cluster_members(
                    item as int,
                    n_clusters as int,
                    c,
                ),
        decreases n_items - item,
    {
        let cluster: usize = item % n_clusters;
        let ghost before = clusters@;
        clusters[cluster].push(item);
        proof {
            assert forall|c: int| 0 <= c < n_clusters implies (#[trigger] clusters@[c])@
                == cluster_members(item + 1, n_clusters as int, c) by {
                lemma_next_member(item as int, n_clusters as int, c);
                assert(before[c]@ == cluster_members(item as int, n_clusters as int, c));
            }
        }
        item = item + 1;
    }
    clusters
}

/// Synthetic positives with cluster structure: items dealt out to clusters in turn, each user tied
/// to one cluster and drawing 85% of its positives from it, the rest from the whole catalogue.
pub fn clustered_triples(
    n_items: usize,
    n_clusters: usize,
    n_users: usize,
    pos_per_user: usize,
    seed: u64,
) -> (data: TripleData)
    requires
        n_clusters > 0,
        n_users < usize::MAX,
        n_users * pos_per_user <= usize::MAX,
        n_users > 0 && pos_per_user > 0 ==> (n_users <= n_items || n_clusters <= n_items),
    ensures
        data.idx_to_item@.len() == n_items,
        forall|i: int| 0 <= i < n_items ==> (#[trigger] data.idx_to_item@[i])@ == item_name(i),
        is_index_of(id_entries(data.item_to_idx), texts(data.idx_to_item@)),
        data.idx_to_user@.len() == n_users + 1,
        data.idx_to_user@[0]@ == COLD_START_USER_ID@,
        forall|u: int|
            0 <= u < n_users ==> (#[trigger] data.idx_to_user@[u + 1])@ == user_name(u),
        forall|u: int|
            0 <= u < n_users ==> id_entries(data.user_to_idx).dom().contains(
                #[trigger] user_name(u),
            ) && id_entries(data.user_to_idx)[user_name(u)] == u + 1,
        forall|name: Seq<char>|
            #[trigger] id_entries(data.user_to_idx).dom().contains(name) ==> exists|u: int|
                0 <= u < n_users && name == #[trigger] user_name(u),
        data.triples@.len() == n_users * pos_per_user,
        forall|t: int|
            0 <= t < data.triples@.len() ==> #[trigger] data.triples@[t] == clustered_triple(
                n_items as int,
                n_clusters as int,
                pos_per_user as int,
                seed,
                t,
            ),
{
    let mut rng = Lcg::new(seed);
    let mut item_to_idx = new_id_map();
    let mut idx_to_item: Vec<String> = Vec::new();
    assert(texts(idx_to_item@) =~= Seq::empty());
    while idx_to_item.len() < n_items
        invariant
            idx_to_item@.len() <= n_items,
            is_index_of(id_entries(item_to_idx), texts(idx_to_item@)),
            forall|i: int|
                0 <= i < idx_to_item@.len() ==> (#[trigger] idx_to_item@[i])@ == item_name(i),
        decreases n_items - idx_to_item@.len(),
    {
        let i: usize = idx_to_item.len();
        let name = numbered("item_", i);
        proof {
            let names = texts(idx_to_item@);
            if names.contains(name@) {
                let k = choose|k: int| 0 <= k < names.len() && names[k] == name@;
                assert(idx_to_item@[k]@ == item_name(k));
                lemma_names_differ("item_"@, k as nat, i as nat);
            }
        }
        let index: usize = intern(&mut item_to_idx, &mut idx_to_item, name.as_str());
        proof {
            let names = texts(idx_to_item@);
            assert forall|j: int| 0 <= j < idx_to_item@.len() implies (
            #[trigger] idx_to_item@[j])@ == item_name(j) by {
                assert(names[j] == idx_to_item@[j]@);
            }
        }
    }
    let clusters = deal_clusters(n_items, n_clusters);
    let mut idx_to_user: Vec<String> = Vec::new();
    idx_to_user.push(COLD_START_USER_ID.to_owned());
    let mut user_to_idx = new_id_map();
    let mut triples: Vec<Triple> = Vec::new();
    let mut u: usize = 0;
    assert(0 * pos_per_user == 0) by (nonlinear_arith);
    while u < n_users
        invariant
            u <= n_users,
            n_users < usize::MAX,
            n_clusters > 0,
            n_users > 0 && pos_per_user > 0 ==> (n_users <= n_items || n_clusters <= n_items),
            n_users * pos_per_user <= usize::MAX,
            clusters@.len() == n_clusters,
            forall|c: int|
                0 <= c < n_clusters ==> (#[trigger] clusters@[c])@ == cluster_members(
                    n_items as int,
                    n_clusters as int,
                    c,
                ),
            idx_to_user@.len() == u + 1,
            idx_to_user@[0]@ == COLD_START_USER_ID@,
            forall|v: int|
                0 <= v < u ==> (#[trigger] idx_to_user@[v + 1])@ == user_name(v),
            forall|v: int|
                0 <= v < u ==> id_entries(user_to_idx).dom().contains(#[trigger] user_name(v))
                    && id_entries(user_to_idx)[user_name(v)] == v + 1,
            forall|name: Seq<char>|
                #[trigger] id_entries(user_to_idx).dom().contains(name) ==> exists|v: int|
                    0 <= v < u && name == #[trigger] user_name(v),
            triples@.len() == u * pos_per_user,
            rng.0 == lcg_word(seed, (2 * triples@.len()) as nat),
            forall|t: int|
                0 <= t < triples@.len() ==> #[trigger] triples@[t] == clustered_triple(
                    n_items as int,
                    n_clusters as int,
                    pos_per_user as int,
                    seed,
                    t,
                ),
        decreases n_users - u,
    {
        let user_id = numbered("user_", u);
        let ghost before = id_entries(user_to_idx);
        let user_idx: usize = idx_to_user.len();
        idx_to_user.push(user_id.clone());
        id_insert(&mut user_to_idx, user_id, user_idx);
        proof {
            assert(user_id@ == user_name(u as int));
            assert forall|v: int| 0 <= v < u + 1 implies id_entries(user_to_idx).dom().contains(
                #[trigger] user_name(v),
            ) && id_entries(user_to_idx)[user_name(v)] == v + 1 by {
                if v < u {
                    lemma_names_differ("user_"@, v as nat, u as nat);
                    assert(before.dom().contains(user_name(v)));
                }
            }
            assert forall|name: Seq<char>|
                #[trigger] id_entries(user_to_idx).dom().contains(name) implies exists|v: int|
                0 <= v < u + 1 && name == #[trigger] user_name(v) by {
                if name == user_name(u as int) {
                } else {
                    assert(before.dom().contains(name));
                    let v = choose|v: int| 0 <= v < u && name == #[trigger] user_name(v);
                    assert(name == user_name(v));
                }
            }
        }
        let cluster: usize = u % n_clusters;
        let members = &clusters[cluster];
        let mut p: usize = 0;
        assert(u * pos_per_user + pos_per_user == (u + 1) * pos_per_user) by (nonlinear_arith);
        while p < pos_per_user
            invariant
                p <= pos_per_user,
                u < n_users,
                n_users < usize::MAX,
                user_idx == u + 1,
                n_clusters > 0,
                cluster == u % n_clusters,
                pos_per_user > 0 ==> (n_users <= n_items || n_clusters <= n_items),
                members@ == cluster_members(n_items as int, n_clusters as int, cluster as int),
                triples@.len() == u * pos_per_user + p,
                rng.0 == lcg_word(seed, (2 * triples@.len()) as nat),
                forall|t: int|
                    0 <= t < triples@.len() ==> #[trigger] triples@[t] == clustered_triple(
                        n_items as int,
                        n_clusters as int,
                        pos_per_user as int,
                        seed,
                        t,
                    ),
            decreases pos_per_user - p,
        {
            let ghost t = triples@.len() as int;
            proof {
                lemma_fundamental_div_mod_converse(
                    t,
                    pos_per_user as int,
                    u as int,
                    p as int,
                );
                assert(u * pos_per_user == pos_per_user * u) by (nonlinear_arith);
                assert(cluster <= u) by {
                    lemma_mod_decreases(u as nat, n_clusters as nat);
                }
                assert(cluster < n_items);
                reveal_with_fuel(lcg_word, 3);
            }
            assert(members@.len() > 0) by (nonlinear_arith)
                requires
                    members@.len() == cluster_size(n_items as int, n_clusters as int, cluster as int),
                    cluster < n_items,
                    n_clusters > 0,
            ;
            let item_idx: usize = if rng.below(100) < 85 {
                members[rng.below(members.len())]
            } else {
                rng.below(n_items)
            };
            triples.push(Triple { user_idx, item_idx });
            proof {
                assert(rng.0 == lcg_word(seed, (2 * t + 2) as nat));
                assert(triples@[t] == clustered_triple(
                    n_items as int,
                    n_clusters as int,
                    pos_per_user as int,
                    seed,
                    t,
                ));
            }
            p = p + 1;
        }
        u = u + 1;
    }
    TripleData { triples, user_to_idx, idx_to_user, item_to_idx, idx_to_item }
}

/// The positives refer to existing items and to users after the reserved row.
pub proof fn clustered_triples_are_in_range(
    n_items: int,
    n_clusters: int,
    n_users: int,
    pos_per_user: int,
    seed: u64,
    t: int,
)
    requires
        0 < n_clusters,
        0 < pos_per_user,
        0 <= n_users < usize::MAX,
        0 < n_items <= usize::MAX,
        n_users <= n_items || n_clusters <= n_items,
        0 <= t < n_users * pos_per_user,
    ensures
        ({
            let triple = clustered_triple(n_items, n_clusters, pos_per_user, seed, t);
            &&& 1 <= triple.user_idx <= n_users
            &&& triple.item_idx < n_items
        }),
{
    let user = t / pos_per_user;
    assert(0 <= user < n_users) by (nonlinear_arith)
        requires
            user == t / pos_per_user,
            0 <= t < n_users * pos_per_user,
            0 < pos_per_user,
    ;
    let cluster = user % n_clusters;
    lemma_mod_bound(user, n_clusters);
    lemma_mod_decreases(user as nat, n_clusters as nat);
    let word = lcg_word(seed, (2 * t + 2) as nat) as int;
    let size = cluster_size(n_items, n_clusters, cluster);
    assert(size > 0) by (nonlinear_arith)
        requires
            size == (n_items - cluster - 1) / n_clusters + 1,
            cluster < n_items,
            n_clusters > 0,
    ;
    lemma_mod_bound(word, size);
    lemma_mod_bound(word, n_items);
    lemma_member_is_item(n_items, n_clusters, cluster, word % size);
}

/// The generator's next state is the linear congruential one, modulo two to the power of 64, and the
/// words are its states in turn.
pub proof fn words_are_linear_congruential(seed: u64, n: nat)
    ensures
        lcg_step(seed) == (seed * 6364136223846793005 + 1442695040888963407)
            % 0x1_0000_0000_0000_0000,
        lcg_word(seed, 0) == seed,
        lcg_word(seed, n + 1) == (lcg_word(seed, n) * 6364136223846793005 + 1442695040888963407)
            % 0x1_0000_0000_0000_0000,
{
    lemma_step(seed);
    lemma_step(lcg_word(seed, n));
}

proof fn lemma_step(state: u64)
    ensures
        lcg_step(state) == (state * 6364136223846793005 + 1442695040888963407)
            % 0x1_0000_0000_0000_0000,
{
    let product: int = state * 6364136223846793005;
    let modulus: int = 0x1_0000_0000_0000_0000;
    let reduced = state.wrapping_mul(LCG_MULTIPLIER) as int;
    assert(LCG_MULTIPLIER == 6364136223846793005 && LCG_INCREMENT == 1442695040888963407);
    assert(reduced == product % modulus);
    lemma_mod_bound(product, modulus);
    let sum = reduced + 1442695040888963407;
    assert(0 <= sum < 2 * modulus);
    if sum < modulus {
        lemma_small_mod(sum as nat, modulus as nat);
    } else {
        lemma_fundamental_div_mod_converse(sum, modulus, 1, sum - modulus);
    }
    assert(lcg_step(state) as int == sum % modulus);
    lemma_add_mod_noop_right(1442695040888963407, product, modulus);
}

/// The items are dealt out to the clusters in turn: a cluster's members are the items whose number
/// leaves it as the remainder, ascending.
pub proof fn clusters_hold_one_remainder(n_items: int, n_clusters: int, cluster: int)
    requires
        0 <= cluster < n_clusters,
        0 <= n_items <= usize::MAX,
    ensures
        cluster_members(n_items, n_clusters, cluster) == places(
            n_items as nat,
            |i: int| i % n_clusters == cluster,
        ).map_values(|i: int| i as usize),
{
    let grown = |k: int| cluster_members(k, n_clusters, cluster);
    assert(grown(0) =~= Seq::<usize>::empty());
    assert forall|k: int| 0 < k <= n_items implies #[trigger] grown(k) == (if (k - 1) % n_clusters
        == cluster {
        grown(k - 1).push((k - 1) as usize)
    } else {
        grown(k - 1)
    }) by {
        lemma_next_member(k - 1, n_clusters, cluster);
    }
    lemma_collects(
        n_items as nat,
        |i: int| i % n_clusters == cluster,
        |i: int| i as usize,
        grown,
    );
}

/// A user's positives come one after the other; each is drawn by two words: the first says whether
/// from the user's own cluster, at eighty-five of a hundred, and the second which item there, or
/// which of the whole catalogue.
pub proof fn positives_come_from_the_users_cluster(
    n_items: int,
    n_clusters: int,
    n_users: int,
    pos_per_user: int,
    seed: u64,
    t: int,
)
    requires
        0 < n_clusters,
        0 < pos_per_user,
        0 <= n_users < usize::MAX,
        0 < n_items <= usize::MAX,
        n_users <= n_items || n_clusters <= n_items,
        0 <= t < n_users * pos_per_user,
    ensures
        ({
            let triple = clustered_triple(n_items, n_clusters, pos_per_user, seed, t);
            let coin = lcg_word(seed, (2 * t + 1) as nat) as int % 100;
            let word = lcg_word(seed, (2 * t + 2) as nat) as int;
            let user = t / pos_per_user;
            &&& triple.user_idx == user + 1
            &&& coin < 85 ==> triple.item_idx as int % n_clusters == user % n_clusters
            &&& coin >= 85 ==> triple.item_idx == word % n_items
            &&& coin < 85 ==> triple.item_idx == user % n_clusters + (word % cluster_members(
                n_items,
                n_clusters,
                user % n_clusters,
            ).len() as int) * n_clusters
        }),
{
    clustered_triples_are_in_range(n_items, n_clusters, n_users, pos_per_user, seed, t);
    let user = t / pos_per_user;
    let cluster = user % n_clusters;
    lemma_fundamental_div_mod(t, pos_per_user);
    lemma_mod_bound(t, pos_per_user);
    lemma_mod_bound(user, n_clusters);
    assert(0 <= user < n_users) by (nonlinear_arith)
        requires
            0 <= t < n_users * pos_per_user,
            0 < pos_per_user,
            user == t / pos_per_user,
    ;
    lemma_mod_decreases(user as nat, n_clusters as nat);
    assert(cluster < n_items);
    let size = cluster_size(n_items, n_clusters, cluster);
    assert((n_items - cluster - 1) / n_clusters >= 0) by (nonlinear_arith)
        requires
            n_items - cluster - 1 >= 0,
            n_clusters > 0,
    ;
    let word = lcg_word(seed, (2 * t + 2) as nat) as int;
    lemma_mod_bound(word, size);
    lemma_mod_bound(word, n_items);
    let m = word % size;
    lemma_member_is_item(n_items, n_clusters, cluster, m);
    lemma_fundamental_div_mod_converse(cluster + m * n_clusters, n_clusters, m, cluster);
}

/// The names of items and users are numbered from zero.
pub proof fn names_are_numbered(i: int, u: int)
    ensures
        item_name(i) == "item_"@ + decimal_text(i as nat),
        user_name(u) == "user_"@ + decimal_text(u as nat),
{
}

} // verus!
