//! Fixed-length, left-padded item sequences for next-item models.
//!
//! Token `0` is padding; the item with index `i` has token `i + 1`. Left padding keeps the most
//! recent item at the last position.

use crate::data_pipeline::{common_rows, Mappings};
use crate::groups::{group_rows, lemma_rows_of, lists_view, names_of, rows_by_name, rows_of};
use crate::ids::{id_entries, id_get, text_of};
use crate::order::{
    comparable, outranks, rank_descending, ranking, ranking_exists, ranking_is_unique, ranks_above,
    rankings_descend, ranks_before,
};
use crate::selection::{lemma_collects, places, places_are_chosen};
use vstd::prelude::*;
use vstd::std_specs::cmp::PartialOrdIs;

verus! {

/// The padding token; never an item.
pub const PAD_TOKEN: usize = 0;

/// Fixed-length sequences with their next-item targets, both row by row.
#[derive(Debug, Clone)]
pub struct SequenceDataset {
    /// Left-padded item tokens, `seq_len` per sequence.
    pub inputs: Vec<i64>,
    /// The token that follows each input, `seq_len` per sequence.
    pub targets: Vec<i64>,
    /// The length of a sequence.
    pub seq_len: usize,
    /// Number of tokens, padding included.
    pub vocab_size: usize,
}

/// Why no sequences could be built.
#[derive(Debug, Clone, Copy, PartialEq, Eq, Structural)]
pub enum SequenceError {
    /// A sequence must have room for an item.
    ZeroLength,
    /// Without `days_ago` the order of a history is not known.
    MissingDaysAgo,
}

impl SequenceError {
    /// A description for the caller.
    pub fn message(&self) -> (text: String)
        ensures
            text@ == match *self {
                SequenceError::ZeroLength => "build_sequences: seq_len must be >= 1"@,
                SequenceError::MissingDaysAgo =>
                    "SASRec requires a `days_ago` column in the interactions file to order each user's history chronologically; it is absent. (ADR-0001 §Risks: we fail loudly rather than silently fall back to row order.)"@,
            },
    {
        match self {
            SequenceError::ZeroLength => "build_sequences: seq_len must be >= 1".to_owned(),
            SequenceError::MissingDaysAgo =>
                "SASRec requires a `days_ago` column in the interactions file to order each user's history chronologically; it is absent. (ADR-0001 §Risks: we fail loudly rather than silently fall back to row order.)".to_owned(),
        }
    }
}

/// The number of sequences in `total` tokens.
pub open spec fn num_sequences(total: nat, seq_len: usize) -> int {
    if seq_len == 0 {
        0
    } else {
        total as int / seq_len as int
    }
}

impl SequenceDataset {
    /// The number of sequences.
    pub fn len(&self) -> (len: usize)
        ensures
            len == num_sequences(self.inputs@.len(), self.seq_len),
    {
        if self.seq_len == 0 {
            0
        } else {
            self.inputs.len() / self.seq_len
        }
    }

    /// Whether there is no sequence.
    pub fn is_empty(&self) -> (empty: bool)
        ensures
            empty == (num_sequences(self.inputs@.len(), self.seq_len) == 0),
    {
        self.len() == 0
    }

    /// The input tokens of sequence `i`.
    pub fn input_row(&self, i: usize) -> (row: &[i64])
        requires
            (i + 1) * self.seq_len <= self.inputs@.len(),
        ensures
            row@ == self.inputs@.subrange(i * self.seq_len, (i + 1) * self.seq_len),
    {
        row_slice(&self.inputs, self.seq_len, i)
    }

    /// The target tokens of sequence `i`.
    pub fn target_row(&self, i: usize) -> (row: &[i64])
        requires
            (i + 1) * self.seq_len <= self.targets@.len(),
        ensures
            row@ == self.targets@.subrange(i * self.seq_len, (i + 1) * self.seq_len),
    {
        row_slice(&self.targets, self.seq_len, i)
    }
}

/// Row `i` of row-major `tokens`.
fn row_slice(tokens: &Vec<i64>, seq_len: usize, i: usize) -> (row: &[i64])
    requires
        (i + 1) * seq_len <= tokens@.len(),
    ensures
        row@ == tokens@.subrange(i * seq_len, (i + 1) * seq_len),
{
    assert(i * seq_len + seq_len == (i + 1) * seq_len) by (nonlinear_arith);
    assert(0 <= i * seq_len) by (nonlinear_arith);
    let total: usize = tokens.len();
    assert((i + 1) * seq_len <= total);
    let start: usize = i * seq_len;
    vstd::slice::slice_subrange(tokens.as_slice(), start, start + seq_len)
}

/// The token of item `item_idx`.
pub open spec fn token_of(item_idx: usize) -> i64 {
    (item_idx + 1) as i64
}

/// The token of a catalogue item.
pub fn item_to_token(item_idx: usize) -> (token: i64)
    requires
        item_idx < usize::MAX,
    ensures
        token == token_of(item_idx),
{
    (item_idx + 1) as i64
}

/// Row `i` is complete and its item is in the catalogue.
pub open spec fn is_eligible<D>(
    users: Seq<Option<String>>,
    items: Seq<Option<String>>,
    days: Seq<Option<D>>,
    catalogue: Map<Seq<char>, usize>,
    i: int,
) -> bool {
    &&& users[i] is Some
    &&& days[i] is Some
    &&& text_of(items[i]) matches Some(item) && catalogue.dom().contains(item)
}

/// The user column with the ineligible rows blanked.
pub open spec fn eligible_users<D>(
    users: Seq<Option<String>>,
    items: Seq<Option<String>>,
    days: Seq<Option<D>>,
    catalogue: Map<Seq<char>, usize>,
) -> Seq<Option<String>> {
    Seq::new(
        common_rows(users.len() as int, items.len() as int, days.len() as int) as nat,
        |i: int|
            if is_eligible(users, items, days, catalogue, i) {
                users[i]
            } else {
                None
            },
    )
}

/// The ages of the interactions at `rows`.
pub open spec fn ages<D>(days: Seq<Option<D>>, rows: Seq<usize>) -> Seq<D> {
    rows.map_values(|row: usize| days[row as int].unwrap())
}

/// The tokens of the interactions at `rows`, oldest first and of one age in row order.
pub open spec fn history<D: PartialOrd>(
    items: Seq<Option<String>>,
    days: Seq<Option<D>>,
    catalogue: Map<Seq<char>, usize>,
    rows: Seq<usize>,
) -> Seq<i64> {
    ranking(ages(days, rows)).map_values(
        |k: usize| token_of(catalogue[items[rows[k as int] as int].unwrap()@]),
    )
}

/// The input row of a history: position `p` holds the item `seq_len - p` places before the last
/// one, or padding where the history is not that long.
pub open spec fn input_tokens(history: Seq<i64>, seq_len: usize) -> Seq<i64> {
    Seq::new(
        seq_len as nat,
        |p: int|
            if seq_len - p < history.len() {
                history[history.len() - 1 - (seq_len - p)]
            } else {
                PAD_TOKEN as i64
            },
    )
}

/// The target row of a history: the item that follows each input, or padding.
pub open spec fn target_tokens(history: Seq<i64>, seq_len: usize) -> Seq<i64> {
    Seq::new(
        seq_len as nat,
        |p: int|
            if seq_len - p < history.len() {
                history[history.len() - (seq_len - p)]
            } else {
                PAD_TOKEN as i64
            },
    )
}

/// The groups among the first `n` with at least two rows.
pub open spec fn usable(groups: Seq<Seq<usize>>, n: int) -> Seq<Seq<usize>>
    decreases n,
{
    if n <= 0 {
        Seq::empty()
    } else if groups[n - 1].len() < 2 {
        usable(groups, n - 1)
    } else {
        usable(groups, n - 1).push(groups[n - 1])
    }
}

/// The histories that become sequences, in ascending order of their users.
pub open spec fn histories<D: PartialOrd>(
    users: Seq<Option<String>>,
    items: Seq<Option<String>>,
    days: Seq<Option<D>>,
    catalogue: Map<Seq<char>, usize>,
) -> Seq<Seq<i64>> {
    let groups = rows_by_name(eligible_users(users, items, days, catalogue));
    usable(groups, groups.len() as int).map_values(
        |rows: Seq<usize>| history(items, days, catalogue, rows),
    )
}

/// The input rows of `histories`, one after the other.
pub open spec fn all_inputs(histories: Seq<Seq<i64>>, seq_len: usize) -> Seq<i64>
    decreases histories.len(),
{
    if histories.len() == 0 {
        Seq::empty()
    } else {
        all_inputs(histories.drop_last(), seq_len) + input_tokens(histories.last(), seq_len)
    }
}

/// The target rows of `histories`, one after the other.
pub open spec fn all_targets(histories: Seq<Seq<i64>>, seq_len: usize) -> Seq<i64>
    decreases histories.len(),
{
    if histories.len() == 0 {
        Seq::empty()
    } else {
        all_targets(histories.drop_last(), seq_len) + target_tokens(histories.last(), seq_len)
    }
}

/// The ages within each user's history can be ordered.
pub open spec fn ages_comparable<D: PartialOrd>(
    users: Seq<Option<String>>,
    items: Seq<Option<String>>,
    days: Seq<Option<D>>,
    catalogue: Map<Seq<char>, usize>,
) -> bool {
    let groups = rows_by_name(eligible_users(users, items, days, catalogue));
    forall|g: int| 0 <= g < groups.len() ==> comparable(ages(days, #[trigger] groups[g]))
}

/// The user column with the ineligible rows blanked.
fn blank_ineligible<D: Copy>(
    users: &[Option<String>],
    items: &[Option<String>],
    days: &[Option<D>],
    mappings: &Mappings,
) -> (column: Vec<Option<String>>)
    ensures
        column@ == eligible_users(users@, items@, days@, id_entries(mappings.item_to_idx)),
{
    let ghost catalogue = id_entries(mappings.item_to_idx);
    let ghost all = eligible_users(users@, items@, days@, catalogue);
    let mut column: Vec<Option<String>> = Vec::new();
    let mut i: usize = 0;
    while i < users.len() && i < items.len() && i < days.len()
        invariant
            i <= users.len(),
            i <= items.len(),
            i <= days.len(),
            catalogue == id_entries(mappings.item_to_idx),
            all == eligible_users(users@, items@, days@, catalogue),
            column@ == all.take(i as int),
        decreases users.len() - i,
    {
        let mut cell: Option<String> = None;
        if let (Some(user), Some(item), Some(_)) = (&users[i], &items[i], &days[i]) {
            if id_get(&mappings.item_to_idx, item.as_str()).is_some() {
                cell = Some(user.clone());
            }
        }
        assert(cell == all[i as int]);
        column.push(cell);
        assert(column@ =~= all.take(i + 1));
        i = i + 1;
    }
    assert(all.take(i as int) =~= all);
    column
}

/// The history at `rows`.
fn build_history<D: PartialOrd + Copy>(
    items: &[Option<String>],
    days: &[Option<D>],
    mappings: &Mappings,
    rows: &Vec<usize>,
) -> (tokens: Vec<i64>)
    requires
        forall|k: int|
            0 <= k < rows@.len() ==> {
                &&& (#[trigger] rows@[k]) < items@.len()
                &&& rows@[k] < days@.len()
                &&& days@[rows@[k] as int] is Some
                &&& text_of(items@[rows@[k] as int]) matches Some(item) && id_entries(
                    mappings.item_to_idx,
                ).dom().contains(item)
            },
        forall|key: Seq<char>|
            #[trigger] id_entries(mappings.item_to_idx).dom().contains(key) ==> id_entries(
                mappings.item_to_idx,
            )[key] < usize::MAX,
        comparable(ages(days@, rows@)),
    ensures
        tokens@ == history(items@, days@, id_entries(mappings.item_to_idx), rows@),
{
    let ghost catalogue = id_entries(mappings.item_to_idx);
    let mut age: Vec<D> = Vec::new();
    let mut k: usize = 0;
    while k < rows.len()
        invariant
            k <= rows.len(),
            forall|k: int|
                0 <= k < rows@.len() ==> (#[trigger] rows@[k]) < days@.len()
                    && days@[rows@[k] as int] is Some,
            age@ == ages(days@, rows@).take(k as int),
        decreases rows.len() - k,
    {
        if let Some(day) = days[rows[k]] {
            age.push(day);
        }
        assert(age@ =~= ages(days@, rows@).take(k + 1));
        k = k + 1;
    }
    assert(age@ =~= ages(days@, rows@));
    let order = rank_descending(&age);
    proof {
        ranking_is_unique(order@, age@);
    }
    let ghost all = history(items@, days@, catalogue, rows@);
    let mut tokens: Vec<i64> = Vec::new();
    let mut j: usize = 0;
    while j < order.len()
        invariant
            j <= order.len(),
            catalogue == id_entries(mappings.item_to_idx),
            order@ == ranking(ages(days@, rows@)),
            forall|a: int| 0 <= a < order@.len() ==> (#[trigger] order@[a]) < rows@.len(),
            forall|k: int|
                0 <= k < rows@.len() ==> {
                    &&& (#[trigger] rows@[k]) < items@.len()
                    &&& text_of(items@[rows@[k] as int]) matches Some(item)
                        && catalogue.dom().contains(item)
                },
            forall|key: Seq<char>|
                #[trigger] catalogue.dom().contains(key) ==> catalogue[key] < usize::MAX,
            all == history(items@, days@, catalogue, rows@),
            tokens@ == all.take(j as int),
        decreases order.len() - j,
    {
        let row: usize = rows[order[j]];
        if let Some(item) = &items[row] {
            if let Some(item_idx) = id_get(&mappings.item_to_idx, item.as_str()) {
                tokens.push(item_to_token(item_idx));
            }
        }
        assert(tokens@ =~= all.take(j + 1));
        j = j + 1;
    }
    assert(tokens@ =~= all);
    tokens
}

/// Appends the padded input and target rows of a history.
fn push_rows(history: &Vec<i64>, seq_len: usize, inputs: &mut Vec<i64>, targets: &mut Vec<i64>)
    ensures
        final(inputs)@ == old(inputs)@ + input_tokens(history@, seq_len),
        final(targets)@ == old(targets)@ + target_tokens(history@, seq_len),
{
    let n: usize = history.len();
    let mut p: usize = 0;
    while p < seq_len
        invariant
            p <= seq_len,
            n == history@.len(),
            inputs@ == old(inputs)@ + input_tokens(history@, seq_len).take(p as int),
            targets@ == old(targets)@ + target_tokens(history@, seq_len).take(p as int),
        decreases seq_len - p,
    {
        let back: usize = seq_len - p;
        if back < n {
            inputs.push(history[n - 1 - back]);
            targets.push(history[n - back]);
        } else {
            inputs.push(PAD_TOKEN as i64);
            targets.push(PAD_TOKEN as i64);
        }
        assert(inputs@ =~= old(inputs)@ + input_tokens(history@, seq_len).take(p + 1));
        assert(targets@ =~= old(targets)@ + target_tokens(history@, seq_len).take(p + 1));
        p = p + 1;
    }
    assert(input_tokens(history@, seq_len).take(p as int) =~= input_tokens(history@, seq_len));
    assert(target_tokens(history@, seq_len).take(p as int) =~= target_tokens(history@, seq_len));
}

/// Builds the training sequences of an interactions table.
///
/// Rows with a missing cell or an item outside the catalogue are skipped. Each user with at least
/// two rows left gives one sequence, in ascending order of the users: the most recent items, oldest
/// first, left-padded, with the next item as the target.
pub fn build_sequences<D: PartialOrd + Copy>(
    users: &[Option<String>],
    items: &[Option<String>],
    days_ago: Option<&[Option<D>]>,
    mappings: &Mappings,
    seq_len: usize,
) -> (built: Result<SequenceDataset, SequenceError>)
    requires
        mappings.idx_to_item@.len() < usize::MAX,
        forall|key: Seq<char>|
            #[trigger] id_entries(mappings.item_to_idx).dom().contains(key) ==> id_entries(
                mappings.item_to_idx,
            )[key] < usize::MAX,
        days_ago matches Some(days) ==> ages_comparable(
            users@,
            items@,
            days@,
            id_entries(mappings.item_to_idx),
        ),
    ensures
        built == Err::<SequenceDataset, SequenceError>(SequenceError::ZeroLength) <==> seq_len == 0,
        built == Err::<SequenceDataset, SequenceError>(SequenceError::MissingDaysAgo) <==> seq_len
            > 0 && days_ago is None,
        built is Ok <==> seq_len > 0 && days_ago is Some,
        built matches Ok(dataset) ==> {
            let all = histories(
                users@,
                items@,
                days_ago.unwrap()@,
                id_entries(mappings.item_to_idx),
            );
            &&& dataset.seq_len == seq_len
            &&& dataset.vocab_size == mappings.idx_to_item@.len() + 1
            &&& dataset.inputs@ == all_inputs(all, seq_len)
            &&& dataset.targets@ == all_targets(all, seq_len)
        },
{
    if seq_len == 0 {
        return Err(SequenceError::ZeroLength);
    }
    let days = match days_ago {
        Some(days) => days,
        None => {
            return Err(SequenceError::MissingDaysAgo);
        },
    };
    let ghost catalogue = id_entries(mappings.item_to_idx);
    let column = blank_ineligible(users, items, days, mappings);
    let num_rows: usize = column.len();
    let groups = group_rows(&column);
    let ghost all_rows = rows_by_name(column@);
    let ghost to_history = |rows: Seq<usize>| history(items@, days@, catalogue, rows);
    let mut inputs: Vec<i64> = Vec::new();
    let mut targets: Vec<i64> = Vec::new();
    let mut g: usize = 0;
    while g < groups.rows.len()
        invariant
            g <= groups.rows.len(),
            catalogue == id_entries(mappings.item_to_idx),
            column@ == eligible_users(users@, items@, days@, catalogue),
            column@.len() == num_rows,
            all_rows == rows_by_name(column@),
            lists_view(groups.rows@) == all_rows,
            ages_comparable(users@, items@, days@, catalogue),
            forall|key: Seq<char>|
                #[trigger] catalogue.dom().contains(key) ==> catalogue[key] < usize::MAX,
            to_history == (|rows: Seq<usize>| history(items@, days@, catalogue, rows)),
            inputs@ == all_inputs(usable(all_rows, g as int).map_values(to_history), seq_len),
            targets@ == all_targets(usable(all_rows, g as int).map_values(to_history), seq_len),
        decreases groups.rows.len() - g,
    {
        let rows = &groups.rows[g];
        assert(rows@ == all_rows[g as int]) by {
            assert(lists_view(groups.rows@)[g as int] == rows@);
        }
        if rows.len() >= 2 {
            proof {
                let name = names_of(column@)[g as int];
                assert(all_rows[g as int] == rows_of(column@, name));
                lemma_rows_of(column@, name);
            }
            let tokens = build_history(items, days, mappings, rows);
            push_rows(&tokens, seq_len, &mut inputs, &mut targets);
            proof {
                let before = usable(all_rows, g as int).map_values(to_history);
                let after = usable(all_rows, g + 1).map_values(to_history);
                assert(after =~= before.push(tokens@));
                assert(after.drop_last() =~= before);
            }
        }
        g = g + 1;
    }
    proof {
        assert(histories(users@, items@, days@, catalogue) =~= usable(
            all_rows,
            all_rows.len() as int,
        ).map_values(to_history));
    }
    Ok(SequenceDataset { inputs, targets, seq_len, vocab_size: mappings.idx_to_item.len() + 1 })
}

/// The ages along a history never increase: the oldest interaction comes first.
pub proof fn history_is_chronological<D: PartialOrd>(
    days: Seq<Option<D>>,
    rows: Seq<usize>,
    a: int,
    b: int,
)
    requires
        rows.len() <= usize::MAX,
        comparable(ages(days, rows)),
        0 <= a < b < rows.len(),
    ensures
        ranking(ages(days, rows)).len() == rows.len(),
        !outranks(
            ages(days, rows)[ranking(ages(days, rows))[b] as int],
            ages(days, rows)[ranking(ages(days, rows))[a] as int],
        ),
{
    let age = ages(days, rows);
    let order = ranking(age);
    ranking_exists(age);
    assert(ranks_before(age, order[a] as int, order[b] as int));
    assert(order[a] < age.len() && order[b] < age.len());
    assert(ranks_above(age[order[a] as int], age[order[b] as int]) ==> !ranks_above(
        age[order[b] as int],
        age[order[a] as int],
    ));
}

/// Inputs and targets are the same history, shifted by one: a target is the next input, the last
/// target is the most recent item, and padding stands only in front of the items.
pub proof fn targets_follow_inputs(history: Seq<i64>, seq_len: usize, p: int)
    requires
        history.len() >= 2,
        0 <= p < seq_len,
    ensures
        seq_len - p < history.len() && p + 1 < seq_len ==> target_tokens(history, seq_len)[p]
            == input_tokens(history, seq_len)[p + 1],
        target_tokens(history, seq_len)[seq_len - 1] == history.last(),
        input_tokens(history, seq_len)[seq_len - 1] == history[history.len() - 2],
        seq_len - p >= history.len() ==> input_tokens(history, seq_len)[p] == PAD_TOKEN
            && target_tokens(history, seq_len)[p] == PAD_TOKEN,
        seq_len - p < history.len() && p + 1 < seq_len ==> seq_len - (p + 1) < history.len(),
{
}

/// Sequence `k` of a dataset is the padded row of history `k`, and there are as many sequences as
/// histories.
pub proof fn dataset_rows_are_histories(histories: Seq<Seq<i64>>, seq_len: usize, k: int)
    requires
        0 <= k < histories.len(),
    ensures
        all_inputs(histories, seq_len).len() == histories.len() * seq_len,
        all_targets(histories, seq_len).len() == histories.len() * seq_len,
        seq_len > 0 ==> num_sequences(all_inputs(histories, seq_len).len(), seq_len)
            == histories.len(),
        0 <= k * seq_len <= (k + 1) * seq_len <= histories.len() * seq_len,
        all_inputs(histories, seq_len).subrange(k * seq_len, (k + 1) * seq_len) == input_tokens(
            histories[k],
            seq_len,
        ),
        all_targets(histories, seq_len).subrange(k * seq_len, (k + 1) * seq_len) == target_tokens(
            histories[k],
            seq_len,
        ),
{
    lemma_dataset_len(histories, seq_len);
    lemma_dataset_row(histories, seq_len, k);
    let n = histories.len() as int;
    let s = seq_len as int;
    assert(k * s <= (k + 1) * s <= n * s && 0 <= k * s) by (nonlinear_arith)
        requires
            0 <= k < n,
            s >= 0,
    ;
    if s > 0 {
        assert((n * s) / s == n) by (nonlinear_arith)
            requires
                s > 0,
        ;
    }
}

proof fn lemma_dataset_len(histories: Seq<Seq<i64>>, seq_len: usize)
    ensures
        all_inputs(histories, seq_len).len() == histories.len() * seq_len,
        all_targets(histories, seq_len).len() == histories.len() * seq_len,
    decreases histories.len(),
{
    if histories.len() > 0 {
        lemma_dataset_len(histories.drop_last(), seq_len);
        let n = histories.len() as int;
        let s = seq_len as int;
        assert((n - 1) * s + s == n * s) by (nonlinear_arith);
    }
}

proof fn lemma_dataset_row(histories: Seq<Seq<i64>>, seq_len: usize, k: int)
    requires
        0 <= k < histories.len(),
    ensures
        all_inputs(histories, seq_len).subrange(k * seq_len, (k + 1) * seq_len) == input_tokens(
            histories[k],
            seq_len,
        ),
        all_targets(histories, seq_len).subrange(k * seq_len, (k + 1) * seq_len) == target_tokens(
            histories[k],
            seq_len,
        ),
    decreases histories.len(),
{
    let n = histories.len() as int;
    let s = seq_len as int;
    let shorter = histories.drop_last();
    lemma_dataset_len(shorter, seq_len);
    lemma_dataset_len(histories, seq_len);
    assert((k + 1) * s == k * s + s) by (nonlinear_arith);
    assert(0 <= k * s) by (nonlinear_arith)
        requires
            k >= 0,
            s >= 0,
    ;
    if k == n - 1 {
        assert(all_inputs(histories, seq_len).subrange(k * s, (k + 1) * s) =~= input_tokens(
            histories[k],
            seq_len,
        ));
        assert(all_targets(histories, seq_len).subrange(k * s, (k + 1) * s) =~= target_tokens(
            histories[k],
            seq_len,
        ));
    } else {
        lemma_dataset_row(shorter, seq_len, k);
        assert((k + 1) * s <= (n - 1) * s) by (nonlinear_arith)
            requires
                k + 1 <= n - 1,
                s >= 0,
        ;
        assert(all_inputs(histories, seq_len).subrange(k * s, (k + 1) * s) =~= all_inputs(
            shorter,
            seq_len,
        ).subrange(k * s, (k + 1) * s));
        assert(all_targets(histories, seq_len).subrange(k * s, (k + 1) * s) =~= all_targets(
            shorter,
            seq_len,
        ).subrange(k * s, (k + 1) * s));
    }
}

/// An item's token is its index and one; token zero is padding.
pub proof fn tokens_follow_indices(item_idx: usize)
    requires
        item_idx < i64::MAX,
    ensures
        token_of(item_idx) == item_idx + 1,
        token_of(item_idx) != PAD_TOKEN,
        PAD_TOKEN == 0,
{
}

/// A row belongs to its user's history exactly where user, item and age are present and the item is
/// in the catalogue; rows beyond the shortest column belong to none.
pub proof fn histories_hold_complete_rows<D>(
    users: Seq<Option<String>>,
    items: Seq<Option<String>>,
    days: Seq<Option<D>>,
    catalogue: Map<Seq<char>, usize>,
    i: int,
)
    requires
        0 <= i < users.len() && i < items.len() && i < days.len(),
    ensures
        ({
            let column = eligible_users(users, items, days, catalogue);
            &&& i < column.len()
            &&& column.len() <= users.len() && column.len() <= items.len() && column.len()
                <= days.len()
            &&& users[i] is Some && items[i] is Some && days[i] is Some && catalogue.dom().contains(
                items[i].unwrap()@,
            ) ==> column[i] == users[i]
            &&& users[i] is None || items[i] is None || days[i] is None
                || !catalogue.dom().contains(items[i].unwrap()@) ==> column[i] is None
        }),
{
}

/// Each user with two or more rows of history has a sequence, and no other user; the users ascend.
pub proof fn histories_need_two_rows<D: PartialOrd>(
    users: Seq<Option<String>>,
    items: Seq<Option<String>>,
    days: Seq<Option<D>>,
    catalogue: Map<Seq<char>, usize>,
)
    ensures
        ({
            let column = eligible_users(users, items, days, catalogue);
            let names = names_of(column);
            histories(users, items, days, catalogue) == places(
                names.len(),
                |g: int| rows_of(column, names[g]).len() >= 2,
            ).map_values(|g: int| history(items, days, catalogue, rows_of(column, names[g])))
        }),
{
    let column = eligible_users(users, items, days, catalogue);
    let names = names_of(column);
    let groups = rows_by_name(column);
    let kept = |g: int| rows_of(column, names[g]).len() >= 2;
    let grown = |k: int| usable(groups, k);
    assert forall|k: int| 0 < k <= names.len() implies #[trigger] grown(k) == (if kept(k - 1) {
        grown(k - 1).push(groups[k - 1])
    } else {
        grown(k - 1)
    }) by {
        assert(groups[k - 1] == rows_of(column, names[k - 1]));
    }
    lemma_collects(names.len(), kept, |g: int| groups[g], grown);
    places_are_chosen(names.len(), kept);
    assert(histories(users, items, days, catalogue) =~= places(names.len(), kept).map_values(
        |g: int| history(items, days, catalogue, rows_of(column, names[g])),
    ));
}

/// A history holds each of its rows once, as the index of its item and one: no row is followed by an
/// older one, and rows of one age keep their order.
pub proof fn history_orders_items_by_age<D: PartialOrd>(
    items: Seq<Option<String>>,
    days: Seq<Option<D>>,
    catalogue: Map<Seq<char>, usize>,
    rows: Seq<usize>,
    a: int,
    b: int,
)
    requires
        rows.len() <= usize::MAX,
        comparable(ages(days, rows)),
        forall|key: Seq<char>| #[trigger]
            catalogue.dom().contains(key) ==> catalogue[key] < i64::MAX,
        forall|k: int|
            0 <= k < rows.len() ==> catalogue.dom().contains(
                items[#[trigger] rows[k] as int].unwrap()@,
            ),
        0 <= a < b < rows.len(),
    ensures
        ({
            let order = ranking(ages(days, rows));
            let tokens = history(items, days, catalogue, rows);
            let x = rows[order[a] as int] as int;
            let y = rows[order[b] as int] as int;
            &&& tokens.len() == rows.len() == order.len()
            &&& order.no_duplicates()
            &&& order[a] < rows.len() && order[b] < rows.len()
            &&& tokens[a] == catalogue[items[x].unwrap()@] + 1
            &&& tokens[b] == catalogue[items[y].unwrap()@] + 1
            &&& !days[y].unwrap().is_gt(&days[x].unwrap())
            &&& !days[x].unwrap().is_gt(&days[y].unwrap()) && days[y].unwrap().is_le(
                &days[y].unwrap(),
            ) ==> order[a] < order[b]
        }),
{
    let age = ages(days, rows);
    let order = ranking(age);
    ranking_exists(age);
    rankings_descend(order, age, a, b);
    assert(catalogue.dom().contains(items[rows[order[a] as int] as int].unwrap()@));
    assert(catalogue.dom().contains(items[rows[order[b] as int] as int].unwrap()@));
}

/// Inputs are the items before the most recent one and targets the items after the first of these:
/// the last `seq_len` of them where there are as many, and else all of them behind padding.
pub proof fn rows_are_windows_of_the_history(history: Seq<i64>, seq_len: usize)
    requires
        history.len() >= 2,
    ensures
        history.len() > seq_len ==> input_tokens(history, seq_len) == history.subrange(
            history.len() - 1 - seq_len,
            history.len() - 1,
        ) && target_tokens(history, seq_len) == history.subrange(
            history.len() - seq_len,
            history.len() as int,
        ),
        history.len() <= seq_len ==> input_tokens(history, seq_len) == Seq::new(
            (seq_len - (history.len() - 1)) as nat,
            |p: int| 0i64,
        ) + history.drop_last() && target_tokens(history, seq_len) == Seq::new(
            (seq_len - (history.len() - 1)) as nat,
            |p: int| 0i64,
        ) + history.drop_first(),
{
    if history.len() > seq_len {
        assert(input_tokens(history, seq_len) =~= history.subrange(
            history.len() - 1 - seq_len,
            history.len() - 1,
        ));
        assert(target_tokens(history, seq_len) =~= history.subrange(
            history.len() - seq_len,
            history.len() as int,
        ));
    } else {
        let pad = Seq::new((seq_len - (history.len() - 1)) as nat, |p: int| 0i64);
        assert(input_tokens(history, seq_len) =~= pad + history.drop_last());
        assert(target_tokens(history, seq_len) =~= pad + history.drop_first());
    }
}

} // verus!
