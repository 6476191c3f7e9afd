//! Training and test splits of an interactions table.
//!
//! A split says of each row whether it belongs to the training part and whether it belongs to the
//! test part.

use crate::groups::{
    group_rows, lemma_first_seen, lemma_present, lemma_rows_of, lists_view, names_of,
    rows_by_name, rows_of,
};
use crate::ids::{
    first_seen, id_entries, intern, is_index_of, new_id_map, present, text_of, texts,
};
use crate::order::ordered_type;
use crate::sampling::{
    seeded_rng, seeded_state, shuffle, shuffled, state_after_shuffle, rng_state,
};
use vstd::prelude::*;
use vstd::std_specs::cmp::PartialOrdIs;

verus! {

/// Sizes of the two parts of a split.
#[derive(Debug, Clone, Copy, PartialEq, Eq, Structural)]
pub struct SplitStats {
    pub train_interactions: usize,
    pub test_interactions: usize,
    pub train_users: usize,
    pub test_users: usize,
}

/// For each row, whether it is a training row and whether it is a test row.
pub struct Split {
    pub train: Vec<bool>,
    pub test: Vec<bool>,
    pub stats: SplitStats,
}

/// Why a table could not be split.
#[derive(Debug, Clone, Copy, PartialEq, Eq, Structural)]
pub enum SplitError {
    /// The test share is not between zero and one.
    InvalidRatio,
    /// A row has no age.
    NullDaysAgo,
}

impl SplitError {
    /// A description for the caller.
    pub fn message(&self) -> (text: String)
        ensures
            text@ == match *self {
                SplitError::InvalidRatio => "test_ratio must be between 0.0 and 1.0"@,
                SplitError::NullDaysAgo =>
                    "days_ago contains null values; temporal_split requires non-null days_ago so every interaction is assigned to train or test"@,
            },
    {
        match self {
            SplitError::InvalidRatio => "test_ratio must be between 0.0 and 1.0".to_owned(),
            SplitError::NullDaysAgo =>
                "days_ago contains null values; temporal_split requires non-null days_ago so every interaction is assigned to train or test".to_owned(),
        }
    }
}

/// The cells of `column` at the selected rows among the first `n`.
pub open spec fn selected(
    column: Seq<Option<String>>,
    mask: Seq<bool>,
    n: int,
) -> Seq<Option<String>>
    decreases n,
{
    if n <= 0 {
        Seq::empty()
    } else if mask[n - 1] {
        selected(column, mask, n - 1).push(column[n - 1])
    } else {
        selected(column, mask, n - 1)
    }
}

/// The selected part of a whole column.
pub open spec fn part_of(column: Seq<Option<String>>, mask: Seq<bool>) -> Seq<Option<String>> {
    selected(column, mask, column.len() as int)
}

/// The number of distinct users in a column; missing cells do not count.
pub open spec fn num_users(column: Seq<Option<String>>) -> nat {
    first_seen(present(column)).len()
}

/// The sizes of the parts that two masks select.
pub open spec fn stats_match(
    users: Seq<Option<String>>,
    train: Seq<bool>,
    test: Seq<bool>,
    stats: SplitStats,
) -> bool {
    &&& stats.train_interactions == part_of(users, train).len()
    &&& stats.test_interactions == part_of(users, test).len()
    &&& stats.train_users == num_users(part_of(users, train))
    &&& stats.test_users == num_users(part_of(users, test))
}

/// Counts the rows and the distinct users that `mask` selects.
fn count_part(users: &[Option<String>], mask: &Vec<bool>) -> (counts: (usize, usize))
    requires
        users@.len() == mask@.len(),
    ensures
        counts.0 == part_of(users@, mask@).len(),
        counts.1 == num_users(part_of(users@, mask@)),
{
    let mut map = new_id_map();
    let mut names: Vec<String> = Vec::new();
    let mut rows: usize = 0;
    assert(texts(names@) =~= Seq::empty());
    let mut i: usize = 0;
    while i < users.len()
        invariant
            i <= users@.len(),
            users@.len() == mask@.len(),
            rows <= i,
            rows == selected(users@, mask@, i as int).len(),
            is_index_of(id_entries(map), texts(names@)),
            texts(names@) == first_seen(present(selected(users@, mask@, i as int))),
        decreases users@.len() - i,
    {
        if mask[i] {
            rows = rows + 1;
            let ghost before = selected(users@, mask@, i as int);
            proof {
                assert(before.push(users@[i as int]).drop_last() =~= before);
            }
            if let Some(user) = &users[i] {
                let index: usize = intern(&mut map, &mut names, user.as_str());
                proof {
                    let seen = present(before);
                    assert(present(before.push(users@[i as int])) =~= seen.push(user@));
                    assert(seen.push(user@).drop_last() =~= seen);
                }
            }
        }
        i = i + 1;
    }
    (rows, names.len())
}

/// The number of distinct users.
pub fn count_unique_users(users: &[Option<String>]) -> (count: usize)
    ensures
        count == num_users(users@),
{
    let mut mask: Vec<bool> = Vec::new();
    while mask.len() < users.len()
        invariant
            mask@.len() <= users@.len(),
            forall|i: int| 0 <= i < mask@.len() ==> mask@[i],
        decreases users@.len() - mask@.len(),
    {
        mask.push(true);
    }
    proof {
        lemma_all_selected(users@, mask@, users@.len() as int);
        assert(users@.take(users@.len() as int) =~= users@);
    }
    let (rows, count) = count_part(users, &mask);
    count
}

proof fn lemma_all_selected(column: Seq<Option<String>>, mask: Seq<bool>, n: int)
    requires
        0 <= n <= column.len(),
        mask.len() == column.len(),
        forall|i: int| 0 <= i < mask.len() ==> mask[i],
    ensures
        selected(column, mask, n) == column.take(n),
    decreases n,
{
    if n > 0 {
        lemma_all_selected(column, mask, n - 1);
        assert(column.take(n) =~= column.take(n - 1).push(column[n - 1]));
    } else {
        assert(column.take(n) =~= Seq::empty());
    }
}

/// The sizes of the parts that two masks select.
pub fn split_stats(users: &[Option<String>], train: &Vec<bool>, test: &Vec<bool>) -> (stats:
    SplitStats)
    requires
        users@.len() == train@.len(),
        users@.len() == test@.len(),
    ensures
        stats_match(users@, train@, test@, stats),
{
    let (train_interactions, train_users) = count_part(users, train);
    let (test_interactions, test_users) = count_part(users, test);
    SplitStats { train_interactions, test_interactions, train_users, test_users }
}

/// The generator's state before group `g` is drawn from, where each earlier group with a number was
/// shuffled.
pub open spec fn draw_state(
    groups: Seq<Seq<usize>>,
    counts: Seq<Option<usize>>,
    seed: u64,
    g: int,
) -> Seq<u8>
    decreases g,
{
    if g <= 0 {
        seeded_state(seed)
    } else {
        let state = draw_state(groups, counts, seed, g - 1);
        if counts[g - 1] is Some {
            state_after_shuffle(groups[g - 1].len(), state)
        } else {
            state
        }
    }
}

/// The rows of group `g` that are held out: the first ones after shuffling the group.
pub open spec fn held_out(
    groups: Seq<Seq<usize>>,
    counts: Seq<Option<usize>>,
    seed: u64,
    g: int,
) -> Seq<usize> {
    match counts[g] {
        None => Seq::empty(),
        Some(count) => shuffled(groups[g], draw_state(groups, counts, seed, g)).take(count as int),
    }
}

/// Row `i` is held out of one of the first `n` groups.
pub open spec fn is_held_out(
    groups: Seq<Seq<usize>>,
    counts: Seq<Option<usize>>,
    seed: u64,
    n: int,
    i: int,
) -> bool {
    exists|g: int|
        0 <= g < n && (#[trigger] held_out(groups, counts, seed, g)).contains(i as usize)
}

/// What is held out of a group is exactly `counts[g]` distinct rows of that group.
pub open spec fn draws_are_sound(
    groups: Seq<Seq<usize>>,
    counts: Seq<Option<usize>>,
    seed: u64,
    n: int,
) -> bool {
    forall|g: int|
        0 <= g < n ==> {
            &&& (#[trigger] held_out(groups, counts, seed, g)).no_duplicates()
            &&& held_out(groups, counts, seed, g).len() == (match counts[g] {
                Some(count) => count as nat,
                None => 0,
            })
            &&& forall|k: int|
                0 <= k < held_out(groups, counts, seed, g).len() ==> groups[g].contains(
                    #[trigger] held_out(groups, counts, seed, g)[k],
                )
        }
}

/// A prefix of a rearrangement holds distinct members of what was rearranged.
proof fn lemma_prefix_of_rearrangement(before: Seq<usize>, after: Seq<usize>, count: int)
    requires
        before.no_duplicates(),
        after.to_multiset() == before.to_multiset(),
        0 <= count <= before.len(),
    ensures
        after.len() == before.len(),
        after.no_duplicates(),
        after.take(count).no_duplicates(),
        after.take(count).len() == count,
        forall|k: int| 0 <= k < count ==> before.contains(#[trigger] after.take(count)[k]),
        forall|x: usize| after.contains(x) <==> before.contains(x),
{
    before.to_multiset_ensures();
    after.to_multiset_ensures();
    before.lemma_multiset_has_no_duplicates();
    after.lemma_multiset_has_no_duplicates_conv();
    assert forall|x: usize| after.contains(x) <==> before.contains(x) by {
        assert(after.contains(x) <==> after.to_multiset().contains(x));
        assert(before.contains(x) <==> before.to_multiset().contains(x));
    }
    assert forall|k: int| 0 <= k < count implies before.contains(
        #[trigger] after.take(count)[k],
    ) by {
        assert(after.take(count)[k] == after[k]);
        assert(after.contains(after[k]));
    }
}

/// Holds rows out of each group: shuffles the group and takes the first `counts[g]` rows.
fn hold_out(
    groups: Vec<Vec<usize>>,
    counts: &Vec<Option<usize>>,
    seed: u64,
    num_rows: usize,
) -> (train: Vec<bool>)
    requires
        groups@.len() == counts@.len(),
        forall|g: int, k: int|
            0 <= g < groups@.len() && 0 <= k < groups@[g]@.len() ==> #[trigger] groups@[g]@[k]
                < num_rows,
        forall|g: int| 0 <= g < groups@.len() ==> (#[trigger] groups@[g])@.no_duplicates(),
        forall|g: int|
            0 <= g < groups@.len() ==> ((#[trigger] counts@[g]) matches Some(count) ==> count
                <= groups@[g]@.len()),
    ensures
        train@.len() == num_rows,
        forall|i: int|
            0 <= i < num_rows ==> #[trigger] train@[i] == !is_held_out(
                lists_view(groups@),
                counts@,
                seed,
                groups@.len() as int,
                i,
            ),
        draws_are_sound(lists_view(groups@), counts@, seed, groups@.len() as int),
{
    let ghost all = lists_view(groups@);
    let mut train: Vec<bool> = Vec::new();
    while train.len() < num_rows
        invariant
            train@.len() <= num_rows,
            forall|i: int| 0 <= i < train@.len() ==> train@[i],
        decreases num_rows - train@.len(),
    {
        train.push(true);
    }
    let mut rng = seeded_rng(seed);
    let mut g: usize = 0;
    while g < groups.len()
        invariant
            g <= groups@.len(),
            groups@.len() == counts@.len(),
            all == lists_view(groups@),
            forall|g: int, k: int|
                0 <= g < groups@.len() && 0 <= k < groups@[g]@.len() ==> #[trigger] groups@[g]@[k]
                    < num_rows,
            forall|g: int| 0 <= g < groups@.len() ==> (#[trigger] groups@[g])@.no_duplicates(),
            forall|g: int|
                0 <= g < groups@.len() ==> ((#[trigger] counts@[g]) matches Some(count) ==> count
                    <= groups@[g]@.len()),
            train@.len() == num_rows,
            rng_state(rng) == draw_state(all, counts@, seed, g as int),
            forall|i: int|
                0 <= i < num_rows ==> #[trigger] train@[i] == !is_held_out(
                    all,
                    counts@,
                    seed,
                    g as int,
                    i,
                ),
            draws_are_sound(all, counts@, seed, g as int),
        decreases groups@.len() - g,
    {
        let ghost before = train@;
        let ghost held = held_out(all, counts@, seed, g as int);
        assert(all[g as int] == groups@[g as int]@);
        if let Some(count) = counts[g] {
            let mut rows: Vec<usize> = groups[g].clone();
            assert(rows@ =~= groups@[g as int]@);
            shuffle(&mut rows, &mut rng);
            proof {
                lemma_prefix_of_rearrangement(all[g as int], rows@, count as int);
                assert(held == rows@.take(count as int));
            }
            let mut k: usize = 0;
            while k < count
                invariant
                    k <= count,
                    count <= rows@.len(),
                    train@.len() == num_rows,
                    held == rows@.take(count as int),
                    forall|j: int| 0 <= j < count ==> (#[trigger] held[j]) < num_rows,
                    forall|i: int|
                        0 <= i < num_rows ==> #[trigger] train@[i] == (before[i] && !held.take(
                            k as int,
                        ).contains(i as usize)),
                decreases count - k,
            {
                let row: usize = rows[k];
                assert(held[k as int] == row);
                let ghost earlier = train@;
                train.set(row, false);
                proof {
                    assert(held.take(k + 1) =~= held.take(k as int).push(row));
                    assert forall|i: int| 0 <= i < num_rows implies #[trigger] train@[i] == (
                    before[i] && !held.take(k + 1).contains(i as usize)) by {
                        assert(earlier[i] == (before[i] && !held.take(k as int).contains(
                            i as usize,
                        )));
                        let shorter = held.take(k as int);
                        let longer = held.take(k + 1);
                        if i == row {
                            assert(longer[k as int] == row);
                        } else {
                            if longer.contains(i as usize) {
                                let j = choose|j: int|
                                    0 <= j < longer.len() && longer[j] == i as usize;
                                assert(shorter[j] == i as usize);
                            }
                            if shorter.contains(i as usize) {
                                let j = choose|j: int|
                                    0 <= j < shorter.len() && shorter[j] == i as usize;
                                assert(longer[j] == i as usize);
                            }
                        }
                    }
                }
                k = k + 1;
            }
            assert(held.take(count as int) =~= held);
        } else {
            assert(held =~= Seq::empty());
        }
        proof {
            assert forall|i: int| 0 <= i < num_rows implies #[trigger] train@[i] == !is_held_out(
                all,
                counts@,
                seed,
                g + 1,
                i,
            ) by {
                assert(before[i] == !is_held_out(all, counts@, seed, g as int, i));
                assert(train@[i] == (before[i] && !held.contains(i as usize)));
                if is_held_out(all, counts@, seed, g as int, i) {
                    let h = choose|h: int|
                        0 <= h < g && (#[trigger] held_out(all, counts@, seed, h)).contains(
                            i as usize,
                        );
                    assert(held_out(all, counts@, seed, h).contains(i as usize));
                }
                if is_held_out(all, counts@, seed, g + 1, i) {
                    let h = choose|h: int|
                        0 <= h < g + 1 && (#[trigger] held_out(all, counts@, seed, h)).contains(
                            i as usize,
                        );
                    if h < g {
                        assert(is_held_out(all, counts@, seed, g as int, i));
                    }
                }
            }
        }
        g = g + 1;
    }
    train
}

/// The complement of a mask.
fn negate(mask: &Vec<bool>) -> (negated: Vec<bool>)
    ensures
        negated@ == mask@.map_values(|b: bool| !b),
{
    let mut negated: Vec<bool> = Vec::new();
    let mut i: usize = 0;
    while i < mask.len()
        invariant
            i <= mask@.len(),
            negated@ == mask@.take(i as int).map_values(|b: bool| !b),
        decreases mask@.len() - i,
    {
        negated.push(!mask[i]);
        assert(negated@ =~= mask@.take(i + 1).map_values(|b: bool| !b));
        i = i + 1;
    }
    assert(mask@.take(i as int) =~= mask@);
    negated
}

/// The number of rows that share `test_ratio` holds out of `len` rows: none at `zero` and all at
/// `one`. Between them, a single row is kept for training; of more rows the `requested` number is
/// held out, but at least one, leaving at least one.
pub open spec fn test_share<R: PartialOrd>(
    len: nat,
    test_ratio: R,
    zero: R,
    one: R,
    requested: usize,
) -> usize {
    if test_ratio.is_le(&zero) {
        0
    } else if one.is_le(&test_ratio) {
        len as usize
    } else if len < 2 {
        0
    } else if requested < 1 {
        1
    } else if requested > len - 1 {
        (len - 1) as usize
    } else {
        requested
    }
}

/// The numbers that the random split holds out.
pub open spec fn random_counts<R: PartialOrd>(
    groups: Seq<Seq<usize>>,
    test_ratio: R,
    zero: R,
    one: R,
    requested: Seq<usize>,
) -> Seq<Option<usize>> {
    groups.map_values(
        |rows: Seq<usize>|
            Some(test_share(rows.len(), test_ratio, zero, one, requested[rows.len() as int])),
    )
}

/// The numbers that the leave-k-out split holds out: `k` of each group that has more rows.
pub open spec fn leave_k_counts(groups: Seq<Seq<usize>>, k: usize) -> Seq<Option<usize>> {
    groups.map_values(
        |rows: Seq<usize>|
            if rows.len() < k + 1 {
                None
            } else {
                Some(k)
            },
    )
}

/// `split` holds out `counts` rows of each user's rows: those rows are the test part, all others
/// the training part.
pub open spec fn splits_by(
    users: Seq<Option<String>>,
    counts: Seq<Option<usize>>,
    seed: u64,
    split: Split,
) -> bool {
    let groups = rows_by_name(users);
    &&& split.train@.len() == users.len()
    &&& split.test@.len() == users.len()
    &&& forall|i: int|
        0 <= i < users.len() ==> #[trigger] split.train@[i] == !is_held_out(
            groups,
            counts,
            seed,
            groups.len() as int,
            i,
        )
    &&& forall|i: int|
        0 <= i < users.len() ==> #[trigger] split.test@[i] == is_held_out(
            groups,
            counts,
            seed,
            groups.len() as int,
            i,
        )
    &&& draws_are_sound(groups, counts, seed, groups.len() as int)
    &&& stats_match(users, split.train@, split.test@, split.stats)
}

/// Every group of rows is inside the table and without repetition.
proof fn lemma_groups(users: Seq<Option<String>>, lists: Seq<Vec<usize>>)
    requires
        users.len() <= usize::MAX,
        lists_view(lists) == rows_by_name(users),
    ensures
        forall|g: int, k: int|
            0 <= g < lists.len() && 0 <= k < lists[g]@.len() ==> #[trigger] lists[g]@[k]
                < users.len(),
        forall|g: int| 0 <= g < lists.len() ==> (#[trigger] lists[g])@.no_duplicates(),
        forall|g: int| 0 <= g < lists.len() ==> (#[trigger] lists[g])@.len() <= users.len(),
{
    assert(lists.len() == names_of(users).len()) by {
        assert(lists_view(lists).len() == lists.len());
        assert(rows_by_name(users).len() == names_of(users).len());
    }
    assert forall|g: int| 0 <= g < lists.len() implies (#[trigger] lists[g])@ == rows_of(
        users,
        names_of(users)[g],
    ) by {
        assert(lists_view(lists)[g] == lists[g]@);
        assert(rows_by_name(users)[g] == rows_of(users, names_of(users)[g]));
    }
    assert forall|g: int, k: int| 0 <= g < lists.len() && 0 <= k < lists[g]@.len() implies
    #[trigger] lists[g]@[k] < users.len() by {
        lemma_rows_of(users, names_of(users)[g]);
    }
    assert forall|g: int| 0 <= g < lists.len() implies (#[trigger] lists[g])@.no_duplicates() by {
        lemma_rows_of(users, names_of(users)[g]);
    }
    assert forall|g: int| 0 <= g < lists.len() implies (#[trigger] lists[g])@.len()
        <= users.len() by {
        lemma_rows_len(users, names_of(users)[g]);
    }
}

pub proof fn lemma_rows_len(column: Seq<Option<String>>, name: Seq<char>)
    ensures
        rows_of(column, name).len() <= column.len(),
    decreases column.len(),
{
    if column.len() > 0 {
        lemma_rows_len(column.drop_last(), name);
    }
}

/// Refuses a share that does not lie between `zero` and `one`.
pub fn check_ratio<R: PartialOrd>(test_ratio: R, zero: R, one: R) -> (checked: Result<
    (),
    SplitError,
>)
    requires
        ordered_type::<R>(),
    ensures
        checked is Ok <==> zero.is_le(&test_ratio) && test_ratio.is_le(&one),
        checked matches Err(error) ==> error == SplitError::InvalidRatio,
{
    if zero <= test_ratio && test_ratio <= one {
        Ok(())
    } else {
        Err(SplitError::InvalidRatio)
    }
}

/// Holds the share `test_ratio` of each user's rows out, drawn at random.
///
/// `requested[len]` is the number of test rows that `test_ratio` asks for of `len` rows. For a share
/// between zero and one, a user with one row keeps it for training and any other has at least one
/// row in each part. Rows without a user stay in the training part. The draw is a function of the
/// seed.
pub fn random_split<R: PartialOrd + Copy>(
    users: &[Option<String>],
    test_ratio: R,
    zero: R,
    one: R,
    requested: &[usize],
    seed: u64,
) -> (split: Result<Split, SplitError>)
    requires
        ordered_type::<R>(),
        users@.len() < requested@.len(),
    ensures
        split is Ok <==> zero.is_le(&test_ratio) && test_ratio.is_le(&one),
        split matches Err(error) ==> error == SplitError::InvalidRatio,
        split matches Ok(parts) ==> splits_by(
            users@,
            random_counts(rows_by_name(users@), test_ratio, zero, one, requested@),
            seed,
            parts,
        ),
{
    if let Err(error) = check_ratio(test_ratio, zero, one) {
        return Err(error);
    }
    let num_rows: usize = users.len();
    let groups = group_rows(users);
    let ghost all = rows_by_name(users@);
    proof {
        lemma_groups(users@, groups.rows@);
    }
    let mut counts: Vec<Option<usize>> = Vec::new();
    let mut g: usize = 0;
    while g < groups.rows.len()
        invariant
            g <= groups.rows@.len(),
            num_rows == users@.len(),
            ordered_type::<R>(),
            users@.len() < requested@.len(),
            all == rows_by_name(users@),
            lists_view(groups.rows@) == all,
            forall|g: int|
                0 <= g < groups.rows@.len() ==> (#[trigger] groups.rows@[g])@.len() <= users@.len(),
            counts@ == random_counts(all, test_ratio, zero, one, requested@).take(g as int),
        decreases groups.rows@.len() - g,
    {
        let len: usize = groups.rows[g].len();
        assert(lists_view(groups.rows@)[g as int] == groups.rows@[g as int]@);
        let count: usize = if test_ratio <= zero {
            0
        } else if one <= test_ratio {
            len
        } else if len < 2 {
            0
        } else if requested[len] < 1 {
            1
        } else if requested[len] > len - 1 {
            len - 1
        } else {
            requested[len]
        };
        counts.push(Some(count));
        assert(counts@ =~= random_counts(all, test_ratio, zero, one, requested@).take(g + 1));
        g = g + 1;
    }
    assert(counts@ =~= random_counts(all, test_ratio, zero, one, requested@));
    proof {
        assert forall|g: int| 0 <= g < groups.rows@.len() implies ((
        #[trigger] counts@[g]) matches Some(count) ==> count <= groups.rows@[g]@.len()) by {
            assert(lists_view(groups.rows@)[g] == groups.rows@[g]@);
        }
    }
    let train = hold_out(groups.rows, &counts, seed, num_rows);
    let test = negate(&train);
    let stats = split_stats(users, &train, &test);
    Ok(Split { train, test, stats })
}

/// Holds exactly `k` rows of each user out; a user with at most `k` rows stays in the training part.
pub fn leave_k_out_split(users: &[Option<String>], k: usize, seed: u64) -> (split: Split)
    ensures
        splits_by(users@, leave_k_counts(rows_by_name(users@), k), seed, split),
{
    let num_rows: usize = users.len();
    let groups = group_rows(users);
    let ghost all = rows_by_name(users@);
    proof {
        lemma_groups(users@, groups.rows@);
    }
    let mut counts: Vec<Option<usize>> = Vec::new();
    let mut g: usize = 0;
    while g < groups.rows.len()
        invariant
            g <= groups.rows@.len(),
            all == rows_by_name(users@),
            lists_view(groups.rows@) == all,
            counts@ == leave_k_counts(all, k).take(g as int),
        decreases groups.rows@.len() - g,
    {
        let len: usize = groups.rows[g].len();
        assert(lists_view(groups.rows@)[g as int] == groups.rows@[g as int]@);
        if len <= k {
            counts.push(None);
        } else {
            counts.push(Some(k));
        }
        assert(counts@ =~= leave_k_counts(all, k).take(g + 1));
        g = g + 1;
    }
    assert(counts@ =~= leave_k_counts(all, k));
    proof {
        assert forall|g: int| 0 <= g < groups.rows@.len() implies ((
        #[trigger] counts@[g]) matches Some(count) ==> count <= groups.rows@[g]@.len()) by {
            assert(lists_view(groups.rows@)[g] == groups.rows@[g]@);
        }
    }
    let train = hold_out(groups.rows, &counts, seed, num_rows);
    let test = negate(&train);
    let stats = split_stats(users, &train, &test);
    Split { train, test, stats }
}

/// Splits by age: rows up to the cutoff test, the others train. Every row must have an age.
pub fn temporal_split<D: PartialOrd + Copy>(
    users: &[Option<String>],
    days_ago: &[Option<D>],
    cutoff: D,
) -> (split: Result<Split, SplitError>)
    requires
        ordered_type::<D>(),
        users@.len() == days_ago@.len(),
    ensures
        split is Ok <==> forall|i: int| 0 <= i < days_ago@.len() ==> days_ago@[i] is Some,
        split matches Err(error) ==> error == SplitError::NullDaysAgo,
        split matches Ok(parts) ==> {
            &&& parts.train@ == days_ago@.map_values(|day: Option<D>| !day.unwrap().is_le(&cutoff))
            &&& parts.test@ == days_ago@.map_values(|day: Option<D>| day.unwrap().is_le(&cutoff))
            &&& stats_match(users@, parts.train@, parts.test@, parts.stats)
        },
{
    let mut train: Vec<bool> = Vec::new();
    let mut test: Vec<bool> = Vec::new();
    let ghost older = |day: Option<D>| !day.unwrap().is_le(&cutoff);
    let ghost recent = |day: Option<D>| day.unwrap().is_le(&cutoff);
    let mut i: usize = 0;
    while i < days_ago.len()
        invariant
            i <= days_ago@.len(),
            ordered_type::<D>(),
            older == (|day: Option<D>| !day.unwrap().is_le(&cutoff)),
            recent == (|day: Option<D>| day.unwrap().is_le(&cutoff)),
            train@ == days_ago@.take(i as int).map_values(older),
            test@ == days_ago@.take(i as int).map_values(recent),
            forall|k: int| 0 <= k < i ==> days_ago@[k] is Some,
        decreases days_ago@.len() - i,
    {
        match days_ago[i] {
            None => {
                return Err(SplitError::NullDaysAgo);
            },
            Some(day) => {
                let is_recent: bool = day <= cutoff;
                train.push(!is_recent);
                test.push(is_recent);
            },
        }
        assert(train@ =~= days_ago@.take(i + 1).map_values(older));
        assert(test@ =~= days_ago@.take(i + 1).map_values(recent));
        i = i + 1;
    }
    assert(days_ago@.take(i as int) =~= days_ago@);
    let stats = split_stats(users, &train, &test);
    Ok(Split { train, test, stats })
}

/// Every row of a drawn split is in exactly one part, so the sizes of the parts add up.
pub proof fn split_partitions_rows(
    users: Seq<Option<String>>,
    counts: Seq<Option<usize>>,
    seed: u64,
    split: Split,
)
    requires
        splits_by(users, counts, seed, split),
    ensures
        forall|i: int| 0 <= i < users.len() ==> #[trigger] split.train@[i] != split.test@[i],
        split.stats.train_interactions + split.stats.test_interactions == users.len(),
{
    let groups = rows_by_name(users);
    assert forall|i: int| 0 <= i < users.len() implies #[trigger] split.train@[i]
        != split.test@[i] by {
        assert(split.test@[i] == is_held_out(groups, counts, seed, groups.len() as int, i));
    }
    lemma_parts_add_up(users, split.train@, split.test@, users.len() as int);
}

proof fn lemma_parts_add_up(
    column: Seq<Option<String>>,
    train: Seq<bool>,
    test: Seq<bool>,
    n: int,
)
    requires
        0 <= n <= column.len(),
        forall|i: int| 0 <= i < column.len() ==> #[trigger] train[i] != test[i],
    ensures
        selected(column, train, n).len() + selected(column, test, n).len() == n,
    decreases n,
{
    if n > 0 {
        lemma_parts_add_up(column, train, test, n - 1);
        assert(train[n - 1] != test[n - 1]);
    }
}

/// Of a user's rows, exactly the drawn ones are test rows, and there are as many as were asked for.
pub proof fn user_has_drawn_test_rows(
    users: Seq<Option<String>>,
    counts: Seq<Option<usize>>,
    seed: u64,
    split: Split,
    g: int,
)
    requires
        users.len() <= usize::MAX,
        splits_by(users, counts, seed, split),
        0 <= g < rows_by_name(users).len(),
    ensures
        held_out(rows_by_name(users), counts, seed, g).no_duplicates(),
        held_out(rows_by_name(users), counts, seed, g).len() == (match counts[g] {
            Some(count) => count as nat,
            None => 0,
        }),
        forall|k: int|
            0 <= k < rows_by_name(users)[g].len() ==> split.test@[#[trigger] rows_by_name(
                users,
            )[g][k] as int] == held_out(rows_by_name(users), counts, seed, g).contains(
                rows_by_name(users)[g][k],
            ),
{
    let groups = rows_by_name(users);
    assert(held_out(groups, counts, seed, g).no_duplicates());
    assert forall|k: int| 0 <= k < groups[g].len() implies split.test@[#[trigger] groups[g][k] as int]
        == held_out(groups, counts, seed, g).contains(groups[g][k]) by {
        let i = groups[g][k];
        lemma_rows_of(users, names_of(users)[g]);
        assert(groups[g] == rows_of(users, names_of(users)[g]));
        assert(i < users.len());
        assert(split.test@[i as int] == is_held_out(
            groups,
            counts,
            seed,
            groups.len() as int,
            i as int,
        ));
        if is_held_out(groups, counts, seed, groups.len() as int, i as int) {
            let h = choose|h: int|
                0 <= h < groups.len() && (#[trigger] held_out(groups, counts, seed, h)).contains(
                    i as usize,
                );
            let held = held_out(groups, counts, seed, h);
            let p = choose|p: int| 0 <= p < held.len() && held[p] == i;
            assert(groups[h].contains(held[p]));
            lemma_rows_of(users, names_of(users)[h]);
            assert(groups[h] == rows_of(users, names_of(users)[h]));
            let q = choose|q: int| 0 <= q < groups[h].len() && groups[h][q] == i;
            assert(names_of(users)[h] == names_of(users)[g]);
            lemma_names_distinct(users, g, h);
        }
    }
}

/// No name occurs twice among the names of a column.
proof fn lemma_names_distinct(users: Seq<Option<String>>, g: int, h: int)
    requires
        0 <= g < names_of(users).len(),
        0 <= h < names_of(users).len(),
        names_of(users)[g] == names_of(users)[h],
    ensures
        g == h,
{
    crate::groups::lemma_names_ascending(users);
    let names = names_of(users);
    if g != h {
        crate::order::text_order_is_total(names[g], names[h], names[g]);
        if g < h {
            assert(crate::order::text_before(names[g], names[h]));
        } else {
            assert(crate::order::text_before(names[h], names[g]));
        }
    }
}

/// A random split holds out of each user's rows the number that its share says.
pub proof fn random_split_holds_out_share<R: PartialOrd>(
    users: Seq<Option<String>>,
    test_ratio: R,
    zero: R,
    one: R,
    requested: Seq<usize>,
    seed: u64,
    split: Split,
    g: int,
)
    requires
        users.len() <= usize::MAX,
        users.len() < requested.len(),
        splits_by(
            users,
            random_counts(rows_by_name(users), test_ratio, zero, one, requested),
            seed,
            split,
        ),
        0 <= g < rows_by_name(users).len(),
    ensures
        held_out(
            rows_by_name(users),
            random_counts(rows_by_name(users), test_ratio, zero, one, requested),
            seed,
            g,
        ).len() == test_share(
            rows_by_name(users)[g].len(),
            test_ratio,
            zero,
            one,
            requested[rows_by_name(users)[g].len() as int],
        ),
{
    user_has_drawn_test_rows(
        users,
        random_counts(rows_by_name(users), test_ratio, zero, one, requested),
        seed,
        split,
        g,
    );
}

/// The users with a selected row, by name.
pub proof fn lemma_selected_users(
    column: Seq<Option<String>>,
    mask: Seq<bool>,
    n: int,
    name: Seq<char>,
)
    requires
        0 <= n <= column.len(),
    ensures
        present(selected(column, mask, n)).contains(name) <==> exists|i: int|
            0 <= i < n && mask[i] && text_of(#[trigger] column[i]) == Some(name),
    decreases n,
{
    if n > 0 {
        lemma_selected_users(column, mask, n - 1, name);
        let before = selected(column, mask, n - 1);
        if mask[n - 1] {
            let after = before.push(column[n - 1]);
            assert(after.drop_last() =~= before);
            if present(after).contains(name) {
                let k = choose|k: int| 0 <= k < present(after).len() && present(after)[k] == name;
                if k < present(before).len() {
                    assert(present(before)[k] == name);
                } else {
                    assert(text_of(column[n - 1]) == Some(name));
                }
            }
            if present(before).contains(name) {
                let k = choose|k: int| 0 <= k < present(before).len() && present(before)[k] == name;
                assert(present(after)[k] == name);
            }
            if text_of(column[n - 1]) == Some(name) {
                assert(present(after).last() == name);
            }
        }
    }
}

/// The number of users is that of the distinct names present.
pub proof fn lemma_num_users(column: Seq<Option<String>>)
    ensures
        num_users(column) == present(column).to_set().len(),
{
    lemma_first_seen(present(column));
    first_seen(present(column)).unique_seq_to_set();
}

/// The names with at least two rows.
pub open spec fn frequent_users(users: Seq<Option<String>>) -> Set<Seq<char>> {
    Set::new(|name: Seq<char>| rows_of(users, name).len() >= 2)
}

/// For a share between zero and one, every user with two or more rows has a row in each part, and
/// every other user has its rows in the training part alone: no user is lost for training, and the
/// test users are those with two or more rows.
pub proof fn random_split_keeps_users<R: PartialOrd>(
    users: Seq<Option<String>>,
    test_ratio: R,
    zero: R,
    one: R,
    requested: Seq<usize>,
    seed: u64,
    split: Split,
)
    requires
        users.len() <= usize::MAX,
        users.len() < requested.len(),
        !test_ratio.is_le(&zero),
        !one.is_le(&test_ratio),
        splits_by(
            users,
            random_counts(rows_by_name(users), test_ratio, zero, one, requested),
            seed,
            split,
        ),
    ensures
        forall|name: Seq<char>|
            #![trigger rows_of(users, name)]
            rows_of(users, name).len() >= 1 ==> exists|i: int|
                0 <= i < users.len() && split.train@[i] && text_of(#[trigger] users[i]) == Some(
                    name,
                ),
        forall|name: Seq<char>|
            #![trigger rows_of(users, name)]
            rows_of(users, name).len() >= 2 <==> exists|i: int|
                0 <= i < users.len() && split.test@[i] && text_of(#[trigger] users[i]) == Some(
                    name,
                ),
        split.stats.train_users == num_users(users),
        split.stats.test_users == frequent_users(users).len(),
{
    let groups = rows_by_name(users);
    let counts = random_counts(groups, test_ratio, zero, one, requested);
    assert forall|name: Seq<char>| #![trigger rows_of(users, name)] true implies {
        &&& rows_of(users, name).len() >= 1 ==> exists|i: int|
            0 <= i < users.len() && split.train@[i] && text_of(#[trigger] users[i]) == Some(name)
        &&& rows_of(users, name).len() >= 2 <==> exists|i: int|
            0 <= i < users.len() && split.test@[i] && text_of(#[trigger] users[i]) == Some(name)
    } by {
        lemma_user_parts(users, test_ratio, zero, one, requested, seed, split, name);
    }
    let len = users.len() as int;
    let train = present(part_of(users, split.train@));
    let test = present(part_of(users, split.test@));
    lemma_num_users(users);
    lemma_num_users(part_of(users, split.train@));
    lemma_num_users(part_of(users, split.test@));
    assert forall|name: Seq<char>| train.contains(name) <==> present(users).contains(name) by {
        lemma_selected_users(users, split.train@, len, name);
        lemma_present(users, name);
        lemma_rows_of(users, name);
        if present(users).contains(name) {
            let i = choose|i: int| 0 <= i < users.len() && text_of(#[trigger] users[i]) == Some(name);
            assert(rows_of(users, name).contains(i as usize));
        }
    }
    assert(train.to_set() =~= present(users).to_set());
    assert forall|name: Seq<char>| test.contains(name) <==> frequent_users(users).contains(name) by {
        lemma_selected_users(users, split.test@, len, name);
        assert(rows_of(users, name).len() == rows_of(users, name).len());
    }
    assert(test.to_set() =~= frequent_users(users));
}

/// The parts in which a user has rows.
proof fn lemma_user_parts<R: PartialOrd>(
    users: Seq<Option<String>>,
    test_ratio: R,
    zero: R,
    one: R,
    requested: Seq<usize>,
    seed: u64,
    split: Split,
    name: Seq<char>,
)
    requires
        users.len() <= usize::MAX,
        users.len() < requested.len(),
        !test_ratio.is_le(&zero),
        !one.is_le(&test_ratio),
        splits_by(
            users,
            random_counts(rows_by_name(users), test_ratio, zero, one, requested),
            seed,
            split,
        ),
    ensures
        rows_of(users, name).len() >= 1 ==> exists|i: int|
            0 <= i < users.len() && split.train@[i] && text_of(#[trigger] users[i]) == Some(name),
        rows_of(users, name).len() >= 2 <==> exists|i: int|
            0 <= i < users.len() && split.test@[i] && text_of(#[trigger] users[i]) == Some(name),
{
    let groups = rows_by_name(users);
    let counts = random_counts(groups, test_ratio, zero, one, requested);
    let rows = rows_of(users, name);
    lemma_rows_of(users, name);
    lemma_rows_len(users, name);
    crate::groups::lemma_names_ascending(users);
    lemma_present(users, name);
    if rows.len() >= 1 {
        assert(text_of(users[rows[0] as int]) == Some(name));
        assert(present(users).contains(name));
        assert(names_of(users).to_set().contains(name));
        let g = choose|g: int| 0 <= g < names_of(users).len() && names_of(users)[g] == name;
        assert(groups[g] == rows);
        user_has_drawn_test_rows(users, counts, seed, split, g);
        let held = held_out(groups, counts, seed, g);
        assert(counts[g] == Some(
            test_share(rows.len(), test_ratio, zero, one, requested[rows.len() as int]),
        ));
        assert(held.len() < rows.len());
        assert(exists|k: int| 0 <= k < rows.len() && !held.contains(#[trigger] rows[k])) by {
            if forall|k: int| 0 <= k < rows.len() ==> held.contains(#[trigger] rows[k]) {
                assert(rows.no_duplicates());
                rows.unique_seq_to_set();
                held.unique_seq_to_set();
                vstd::seq_lib::seq_to_set_is_finite(held);
                assert(rows.to_set().subset_of(held.to_set()));
                vstd::set_lib::lemma_len_subset(rows.to_set(), held.to_set());
            }
        }
        let k = choose|k: int| 0 <= k < rows.len() && !held.contains(#[trigger] rows[k]);
        assert(!split.test@[groups[g][k] as int]);
        split_partitions_rows(users, counts, seed, split);
        assert(split.train@[rows[k] as int] && text_of(users[rows[k] as int]) == Some(name));
        if rows.len() >= 2 {
            assert(groups[g].contains(held[0]));
            let q = choose|q: int| 0 <= q < rows.len() && rows[q] == held[0];
            assert(held.contains(groups[g][q]));
            assert(split.test@[groups[g][q] as int]);
            assert(text_of(users[rows[q] as int]) == Some(name));
        } else {
            assert(held.len() == 0);
            assert forall|i: int|
                0 <= i < users.len() && text_of(#[trigger] users[i]) == Some(name) implies
                !split.test@[i] by {
                assert(rows.contains(i as usize));
                let q = choose|q: int| 0 <= q < rows.len() && rows[q] == i;
                assert(!held.contains(groups[g][q]));
                assert(split.test@[groups[g][q] as int] == false);
            }
        }
    } else {
        assert forall|i: int| 0 <= i < users.len() && text_of(#[trigger] users[i]) == Some(
            name,
        ) implies false by {
            assert(rows.contains(i as usize));
        }
    }
}

/// At a share of zero, no row is held out.
pub proof fn zero_share_holds_nothing_out<R: PartialOrd>(
    users: Seq<Option<String>>,
    test_ratio: R,
    zero: R,
    one: R,
    requested: Seq<usize>,
    seed: u64,
    split: Split,
)
    requires
        users.len() <= usize::MAX,
        users.len() < requested.len(),
        test_ratio.is_le(&zero),
        splits_by(
            users,
            random_counts(rows_by_name(users), test_ratio, zero, one, requested),
            seed,
            split,
        ),
    ensures
        forall|i: int| 0 <= i < users.len() ==> !#[trigger] split.test@[i],
        split.stats.test_interactions == 0,
        split.stats.train_interactions == users.len(),
{
    let groups = rows_by_name(users);
    let counts = random_counts(groups, test_ratio, zero, one, requested);
    assert forall|i: int| 0 <= i < users.len() implies !#[trigger] split.test@[i] by {
        if is_held_out(groups, counts, seed, groups.len() as int, i) {
            let h = choose|h: int|
                0 <= h < groups.len() && (#[trigger] held_out(groups, counts, seed, h)).contains(
                    i as usize,
                );
            random_split_holds_out_share(
                users,
                test_ratio,
                zero,
                one,
                requested,
                seed,
                split,
                h,
            );
            assert(held_out(groups, counts, seed, h).len() == 0);
        }
    }
    lemma_none_selected(users, split.test@, users.len() as int);
    split_partitions_rows(users, counts, seed, split);
}

proof fn lemma_none_selected(column: Seq<Option<String>>, mask: Seq<bool>, n: int)
    requires
        0 <= n <= column.len(),
        forall|i: int| 0 <= i < column.len() ==> !#[trigger] mask[i],
    ensures
        selected(column, mask, n).len() == 0,
    decreases n,
{
    if n > 0 {
        lemma_none_selected(column, mask, n - 1);
        assert(!mask[n - 1]);
    }
}

/// A leave-k-out split holds out exactly `k` rows of a user with more than `k` rows, and none of any
/// other user.
pub proof fn leave_k_out_holds_out_k(
    users: Seq<Option<String>>,
    k: usize,
    seed: u64,
    split: Split,
    g: int,
)
    requires
        users.len() <= usize::MAX,
        splits_by(users, leave_k_counts(rows_by_name(users), k), seed, split),
        0 <= g < rows_by_name(users).len(),
    ensures
        held_out(
            rows_by_name(users),
            leave_k_counts(rows_by_name(users), k),
            seed,
            g,
        ).len() == (if rows_by_name(users)[g].len() > k {
            k as nat
        } else {
            0
        }),
{
    user_has_drawn_test_rows(users, leave_k_counts(rows_by_name(users), k), seed, split, g);
}

/// Every row of a temporal split is in exactly one part, so the sizes of the parts add up.
pub proof fn temporal_split_partitions_rows<D: PartialOrd>(
    users: Seq<Option<String>>,
    days_ago: Seq<Option<D>>,
    cutoff: D,
    split: Split,
)
    requires
        users.len() == days_ago.len(),
        split.train@ == days_ago.map_values(|day: Option<D>| !day.unwrap().is_le(&cutoff)),
        split.test@ == days_ago.map_values(|day: Option<D>| day.unwrap().is_le(&cutoff)),
        stats_match(users, split.train@, split.test@, split.stats),
    ensures
        forall|i: int| 0 <= i < users.len() ==> #[trigger] split.train@[i] != split.test@[i],
        split.stats.train_interactions + split.stats.test_interactions == users.len(),
{
    lemma_parts_add_up(users, split.train@, split.test@, users.len() as int);
}

/// Equal seeds draw equal splits: two splits of one table by one seed agree on every row.
pub proof fn split_is_determined_by_seed(
    users: Seq<Option<String>>,
    counts: Seq<Option<usize>>,
    seed: u64,
    one: Split,
    two: Split,
)
    requires
        splits_by(users, counts, seed, one),
        splits_by(users, counts, seed, two),
    ensures
        one.train@ == two.train@,
        one.test@ == two.test@,
        one.stats == two.stats,
{
    assert forall|i: int| 0 <= i < users.len() implies one.train@[i] == two.train@[i] by {
        let groups = rows_by_name(users);
        assert(one.train@[i] == !is_held_out(groups, counts, seed, groups.len() as int, i));
        assert(two.train@[i] == !is_held_out(groups, counts, seed, groups.len() as int, i));
    }
    assert forall|i: int| 0 <= i < users.len() implies one.test@[i] == two.test@[i] by {
        let groups = rows_by_name(users);
        assert(one.test@[i] == is_held_out(groups, counts, seed, groups.len() as int, i));
        assert(two.test@[i] == is_held_out(groups, counts, seed, groups.len() as int, i));
    }
    assert(one.train@ =~= two.train@);
    assert(one.test@ =~= two.test@);
}

} // verus!
