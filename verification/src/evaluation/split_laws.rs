//! How many rows of each user a split holds out, counted on the rows.

use crate::evaluation::splits::{
    draw_state, held_out, leave_k_counts, lemma_num_users, lemma_rows_len, lemma_selected_users,
    num_users, part_of, random_counts, selected, split_partitions_rows, splits_by, stats_match,
    user_has_drawn_test_rows, Split, SplitStats,
};
use crate::groups::{
    lemma_names_ascending, lemma_present, lemma_rows_of, names_of, rows_by_name, rows_of,
};
use crate::ids::{present, text_of};
use crate::sampling::{seeded_state, shuffled, state_after_shuffle};
use crate::selection::{lemma_tally_step, tally};
use vstd::prelude::*;
use vstd::std_specs::cmp::PartialOrdIs;

verus! {

/// Whether a row belongs to a user.
pub open spec fn is_row_of(users: Seq<Option<String>>, name: Seq<char>) -> spec_fn(int) -> bool {
    |i: int| users[i] is Some && users[i].unwrap()@ == name
}

/// Whether a row belongs to a user and `mask` selects it.
pub open spec fn is_row_in(
    users: Seq<Option<String>>,
    mask: Seq<bool>,
    name: Seq<char>,
) -> spec_fn(int) -> bool {
    |i: int| users[i] is Some && users[i].unwrap()@ == name && mask[i]
}

/// The number of rows of a user.
pub open spec fn num_rows_of(users: Seq<Option<String>>, name: Seq<char>) -> nat {
    tally(users.len(), is_row_of(users, name))
}

/// The number of rows of a user that `mask` selects.
pub open spec fn num_rows_in(
    users: Seq<Option<String>>,
    mask: Seq<bool>,
    name: Seq<char>,
) -> nat {
    tally(users.len(), is_row_in(users, mask, name))
}

proof fn lemma_num_rows(users: Seq<Option<String>>, name: Seq<char>, n: nat)
    requires
        n <= users.len(),
    ensures
        rows_of(users.take(n as int), name).len() == tally(n, is_row_of(users, name)),
    decreases n,
{
    let holds = is_row_of(users, name);
    if n > 0 {
        let m = (n - 1) as nat;
        lemma_num_rows(users, name, m);
        lemma_tally_step(m, holds);
        assert(users.take(n as int).drop_last() =~= users.take(m as int));
        assert(users.take(n as int).last() == users[n - 1]);
    } else {
        lemma_tally_step(0, holds);
    }
}

/// A user's test rows are as many as were drawn for the user's group.
proof fn lemma_test_rows(
    users: Seq<Option<String>>,
    counts: Seq<Option<usize>>,
    seed: u64,
    split: Split,
    name: Seq<char>,
) -> (g: int)
    requires
        users.len() <= usize::MAX,
        splits_by(users, counts, seed, split),
        num_rows_of(users, name) > 0,
    ensures
        0 <= g < rows_by_name(users).len(),
        rows_by_name(users)[g].len() == num_rows_of(users, name),
        num_rows_of(users, name) <= users.len(),
        num_rows_in(users, split.test@, name) == (match counts[g] {
            Some(count) => count as nat,
            None => 0,
        }),
{
    let rows = rows_of(users, name);
    lemma_num_rows(users, name, users.len());
    assert(users.take(users.len() as int) =~= users);
    lemma_rows_of(users, name);
    lemma_rows_len(users, name);
    lemma_names_ascending(users);
    lemma_present(users, name);
    assert(rows.len() == num_rows_of(users, name));
    let first = rows[0];
    assert(text_of(users[first as int]) == Some(name));
    assert(present(users).contains(name));
    assert(present(users).to_set().contains(name));
    assert(names_of(users).to_set().contains(name));
    let g = choose|g: int| 0 <= g < names_of(users).len() && names_of(users)[g] == name;
    let groups = rows_by_name(users);
    assert(groups[g] == rows);
    user_has_drawn_test_rows(users, counts, seed, split, g);
    let held = held_out(groups, counts, seed, g);
    let places = Seq::new(held.len(), |k: int| held[k] as int);
    assert(places.no_duplicates()) by {
        assert forall|a: int, b: int|
            0 <= a < places.len() && 0 <= b < places.len() && a != b implies places[a]
            != places[b] by {
            assert(held[a] != held[b]);
        }
    }
    places.unique_seq_to_set();
    let test = Set::new(
        |i: int|
            0 <= i < users.len() && (users[i] is Some && users[i].unwrap()@ == name
                && split.test@[i]),
    );
    assert forall|i: int| test.contains(i) <==> places.to_set().contains(i) by {
        if test.contains(i) {
            assert(text_of(users[i]) == Some(name));
            assert(rows.contains(i as usize));
            let q = choose|q: int| 0 <= q < rows.len() && rows[q] == i as usize;
            assert(split.test@[groups[g][q] as int] == held.contains(groups[g][q]));
            let k = choose|k: int| 0 <= k < held.len() && held[k] == i as usize;
            assert(places[k] == i);
        }
        if places.contains(i) {
            let k = choose|k: int| 0 <= k < places.len() && places[k] == i;
            assert(groups[g].contains(held[k]));
            let q = choose|q: int| 0 <= q < rows.len() && rows[q] == held[k];
            assert(held.contains(groups[g][q]));
            assert(split.test@[groups[g][q] as int]);
            assert(text_of(users[rows[q] as int]) == Some(name));
        }
    }
    assert(test =~= places.to_set());
    let holds = is_row_in(users, split.test@, name);
    assert(Set::new(|i: int| 0 <= i < users.len() && holds(i)) =~= test);
    g
}

/// A share strictly between zero and one holds out of a user with two or more rows as many as it
/// requests of that number, but at least one and at most all but one; a user with one row keeps it.
/// A share of zero holds nothing out, and a share of one everything. What is not held out stays.
pub proof fn random_split_tests_the_requested_rows<R: PartialOrd>(
    users: Seq<Option<String>>,
    test_ratio: R,
    zero: R,
    one: R,
    requested: Seq<usize>,
    seed: u64,
    split: Split,
    name: Seq<char>,
)
    requires
        users.len() <= usize::MAX,
        users.len() < requested.len(),
        num_rows_of(users, name) > 0,
        splits_by(
            users,
            random_counts(rows_by_name(users), test_ratio, zero, one, requested),
            seed,
            split,
        ),
    ensures
        ({
            let len = num_rows_of(users, name);
            let tested = num_rows_in(users, split.test@, name);
            let between = !test_ratio.is_le(&zero) && !one.is_le(&test_ratio);
            &&& between && len >= 2 && 1 <= requested[len as int] <= len - 1 ==> tested
                == requested[len as int]
            &&& between && len >= 2 && requested[len as int] < 1 ==> tested == 1
            &&& between && len >= 2 && requested[len as int] > len - 1 ==> tested == len - 1
            &&& between && len == 1 ==> tested == 0
            &&& test_ratio.is_le(&zero) ==> tested == 0
            &&& !test_ratio.is_le(&zero) && one.is_le(&test_ratio) ==> tested == len
            &&& forall|i: int| 0 <= i < users.len() ==> #[trigger] split.train@[i] != split.test@[i]
        }),
{
    let counts = random_counts(rows_by_name(users), test_ratio, zero, one, requested);
    let g = lemma_test_rows(users, counts, seed, split, name);
    split_partitions_rows(users, counts, seed, split);
}

/// A leave-k-out split holds `k` rows out of a user with more than `k` rows, and none of any other.
pub proof fn leave_k_out_tests_k_rows(
    users: Seq<Option<String>>,
    k: usize,
    seed: u64,
    split: Split,
    name: Seq<char>,
)
    requires
        users.len() <= usize::MAX,
        num_rows_of(users, name) > 0,
        splits_by(users, leave_k_counts(rows_by_name(users), k), seed, split),
    ensures
        num_rows_of(users, name) > k ==> num_rows_in(users, split.test@, name) == k,
        num_rows_of(users, name) <= k ==> num_rows_in(users, split.test@, name) == 0,
        forall|i: int| 0 <= i < users.len() ==> #[trigger] split.train@[i] != split.test@[i],
{
    let counts = leave_k_counts(rows_by_name(users), k);
    let g = lemma_test_rows(users, counts, seed, split, name);
    split_partitions_rows(users, counts, seed, split);
}

/// A drawn split leaves rows without a user in the training part.
pub proof fn rows_without_user_are_trained_on(
    users: Seq<Option<String>>,
    counts: Seq<Option<usize>>,
    seed: u64,
    split: Split,
    i: int,
)
    requires
        users.len() <= usize::MAX,
        splits_by(users, counts, seed, split),
        0 <= i < users.len(),
        users[i] is None,
    ensures
        split.train@[i],
        !split.test@[i],
{
    let groups = rows_by_name(users);
    if split.test@[i] {
        let g = choose|g: int|
            0 <= g < groups.len() && (#[trigger] held_out(groups, counts, seed, g)).contains(
                i as usize,
            );
        let held = held_out(groups, counts, seed, g);
        let k = choose|k: int| 0 <= k < held.len() && held[k] == i as usize;
        assert(groups[g].contains(held[k]));
        lemma_rows_of(users, names_of(users)[g]);
        assert(groups[g] == rows_of(users, names_of(users)[g]));
        let q = choose|q: int| 0 <= q < groups[g].len() && groups[g][q] == held[k];
        assert(text_of(users[groups[g][q] as int]) is Some);
    }
    split_partitions_rows(users, counts, seed, split);
}

/// The sizes of a split are counted on its rows: a part has as many interactions as rows, and as
/// many users as there are names with a row in it.
pub proof fn split_sizes_are_counted(
    users: Seq<Option<String>>,
    train: Seq<bool>,
    test: Seq<bool>,
    stats: SplitStats,
)
    requires
        stats_match(users, train, test, stats),
    ensures
        stats.train_interactions == tally(users.len(), |i: int| train[i]),
        stats.test_interactions == tally(users.len(), |i: int| test[i]),
        stats.train_users == Set::new(
            |name: Seq<char>|
                exists|i: int|
                    0 <= i < users.len() && train[i] && (#[trigger] users[i]) is Some
                        && users[i].unwrap()@ == name,
        ).len(),
        stats.test_users == Set::new(
            |name: Seq<char>|
                exists|i: int|
                    0 <= i < users.len() && test[i] && (#[trigger] users[i]) is Some
                        && users[i].unwrap()@ == name,
        ).len(),
{
    lemma_part_size(users, train, users.len());
    lemma_part_size(users, test, users.len());
    lemma_part_users(users, train);
    lemma_part_users(users, test);
}

proof fn lemma_part_size(users: Seq<Option<String>>, mask: Seq<bool>, n: nat)
    requires
        n <= users.len(),
    ensures
        selected(users, mask, n as int).len() == tally(n, |i: int| mask[i]),
    decreases n,
{
    let holds = |i: int| mask[i];
    if n > 0 {
        lemma_part_size(users, mask, (n - 1) as nat);
        lemma_tally_step((n - 1) as nat, holds);
    } else {
        lemma_tally_step(0, holds);
    }
}

proof fn lemma_part_users(users: Seq<Option<String>>, mask: Seq<bool>)
    ensures
        num_users(part_of(users, mask)) == Set::new(
            |name: Seq<char>|
                exists|i: int|
                    0 <= i < users.len() && mask[i] && (#[trigger] users[i]) is Some
                        && users[i].unwrap()@ == name,
        ).len(),
{
    let part = part_of(users, mask);
    let names = Set::new(
        |name: Seq<char>|
            exists|i: int|
                0 <= i < users.len() && mask[i] && (#[trigger] users[i]) is Some
                    && users[i].unwrap()@ == name,
    );
    lemma_num_users(part);
    assert forall|name: Seq<char>| #[trigger]
        present(part).to_set().contains(name) <==> names.contains(name) by {
        lemma_selected_users(users, mask, users.len() as int, name);
        if present(part).contains(name) {
            let i = choose|i: int|
                0 <= i < users.len() && mask[i] && text_of(#[trigger] users[i]) == Some(name);
            assert(users[i] is Some);
        }
        if names.contains(name) {
            let i = choose|i: int|
                0 <= i < users.len() && mask[i] && (#[trigger] users[i]) is Some
                    && users[i].unwrap()@ == name;
            assert(text_of(users[i]) == Some(name));
        }
    }
    assert(present(part).to_set() =~= names);
}

/// Rows are drawn group by group, the names ascending, from one generator that starts at the seed:
/// each group with a number is shuffled where the one before stopped, and its first rows are held
/// out, as many as the number says.
pub proof fn rows_are_drawn_in_turn(
    groups: Seq<Seq<usize>>,
    counts: Seq<Option<usize>>,
    seed: u64,
    g: int,
)
    requires
        0 <= g < groups.len() == counts.len(),
    ensures
        draw_state(groups, counts, seed, 0) == seeded_state(seed),
        counts[g] is Some ==> draw_state(groups, counts, seed, g + 1) == state_after_shuffle(
            groups[g].len(),
            draw_state(groups, counts, seed, g),
        ),
        counts[g] is None ==> draw_state(groups, counts, seed, g + 1) == draw_state(
            groups,
            counts,
            seed,
            g,
        ),
        counts[g] is None ==> held_out(groups, counts, seed, g).len() == 0,
        counts[g] matches Some(count) ==> count <= shuffled(
            groups[g],
            draw_state(groups, counts, seed, g),
        ).len() ==> held_out(groups, counts, seed, g).len() == count && forall|k: int|
            0 <= k < count ==> #[trigger] held_out(groups, counts, seed, g)[k] == shuffled(
                groups[g],
                draw_state(groups, counts, seed, g),
            )[k],
{
}

} // verus!
