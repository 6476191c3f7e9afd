//! Turning raw user attributes into the feature keys that a model was trained on.

use crate::ids::{first_seen, id_entries, intern, is_index_of, new_id_map, texts};
use crate::order::ordered_type;
use crate::text::{decimal, decimal_text, join, joined};
use vstd::prelude::*;
use vstd::std_specs::cmp::PartialOrdIs;
use vstd::string::StrSliceExecFns;

verus! {

/// A raw attribute value.
#[derive(Debug, Clone)]
pub enum RawValue<V> {
    /// A text, and the number that it spells, if it spells one.
    Text { text: String, number: Option<V> },
    /// A truth value.
    Flag { value: bool },
    /// A number as it is written, and its value.
    Number { text: String, value: Option<V> },
    /// Anything else.
    Other,
}

/// Buckets for one numeric column.
///
/// `labels[i]` names the values above `boundaries[i - 1]` up to and including `boundaries[i]`; the
/// last label names those above the last boundary.
#[derive(Debug, Clone)]
pub struct NumericalBucketConfig<V> {
    pub prefix: String,
    pub boundaries: Vec<V>,
    pub labels: Vec<String>,
}

/// Why a bucket configuration is refused.
#[derive(Debug, Clone, Copy, PartialEq, Eq, Structural)]
pub enum BucketError {
    /// There is not exactly one label per bucket.
    LabelCount { labels: usize, boundaries: usize },
    /// A boundary is not below the next one.
    NotAscending,
}

/// The text of a bucket error.
pub open spec fn bucket_message(error: BucketError) -> Seq<char> {
    match error {
        BucketError::LabelCount { labels, boundaries } =>
            "labels must have exactly boundaries + 1 entries (one per bucket, plus the above-last-boundary catch-all): got "@
            + decimal_text(labels as nat) + " labels for "@ + decimal_text(boundaries as nat)
            + " boundaries"@,
        BucketError::NotAscending => "boundaries must be strictly ascending"@,
    }
}

impl BucketError {
    /// A description for the caller.
    pub fn message(&self) -> (text: String)
        ensures
            text@ == bucket_message(*self),
    {
        match self {
            BucketError::LabelCount { labels, boundaries } => {
                let n_labels = decimal(*labels as u64);
                let n_boundaries = decimal(*boundaries as u64);
                let parts: [&str; 5] = [
                    "labels must have exactly boundaries + 1 entries (one per bucket, plus the above-last-boundary catch-all): got ",
                    n_labels.as_str(),
                    " labels for ",
                    n_boundaries.as_str(),
                    " boundaries",
                ];
                proof {
                    reveal_with_fuel(joined, 6);
                    assert(joined(parts@) =~= bucket_message(*self));
                }
                join(&parts)
            },
            BucketError::NotAscending => "boundaries must be strictly ascending".to_owned(),
        }
    }
}

/// `prefix` without one trailing underscore.
pub open spec fn normalized(prefix: Seq<char>) -> Seq<char> {
    if prefix.len() > 0 && prefix.last() == '_' {
        prefix.drop_last()
    } else {
        prefix
    }
}

/// Strips one trailing underscore, so that both spellings of a prefix configure the same keys.
fn normalize_prefix(prefix: &str) -> (stripped: String)
    ensures
        stripped@ == normalized(prefix@),
{
    let n: usize = prefix.unicode_len();
    if n > 0 && prefix.get_char(n - 1) == '_' {
        let shorter = prefix.substring_char(0, n - 1);
        assert(shorter@ =~= prefix@.drop_last());
        return shorter.to_owned();
    }
    prefix.to_owned()
}

/// With and without the trailing underscore, a prefix is the same.
pub proof fn prefix_spellings_agree(prefix: Seq<char>)
    requires
        prefix.len() == 0 || prefix.last() != '_',
    ensures
        normalized(prefix) == prefix,
        normalized(prefix.push('_')) == prefix,
{
    assert(prefix.push('_').drop_last() =~= prefix);
}

/// Boundary `i` is at or above the next one.
pub open spec fn not_below_next<V: PartialOrd>(boundaries: Seq<V>, i: int) -> bool {
    boundaries[i].is_ge(&boundaries[i + 1])
}

/// Some boundary is at or above the next one.
pub open spec fn out_of_order<V: PartialOrd>(boundaries: Seq<V>) -> bool {
    exists|i: int| 0 <= i < boundaries.len() - 1 && #[trigger] not_below_next(boundaries, i)
}

impl<V> NumericalBucketConfig<V> {
    /// There is one label per bucket.
    pub open spec fn wf(&self) -> bool {
        self.labels@.len() == self.boundaries@.len() + 1
    }
}

impl<V: PartialOrd> NumericalBucketConfig<V> {
    /// A configuration, if there is one label per bucket and the boundaries ascend strictly.
    pub fn try_new(prefix: String, boundaries: Vec<V>, labels: Vec<String>) -> (config: Result<
        Self,
        BucketError,
    >)
        requires
            ordered_type::<V>(),
        ensures
            match config {
                Err(BucketError::LabelCount { labels: found, boundaries: bounds }) => labels@.len()
                    != boundaries@.len() + 1 && found == labels@.len() && bounds
                    == boundaries@.len(),
                Err(BucketError::NotAscending) => labels@.len() == boundaries@.len() + 1
                    && out_of_order(boundaries@),
                Ok(made) => {
                    &&& labels@.len() == boundaries@.len() + 1
                    &&& !out_of_order(boundaries@)
                    &&& made.wf()
                    &&& made.prefix@ == normalized(prefix@)
                    &&& made.boundaries == boundaries
                    &&& made.labels == labels
                },
            },
    {
        let n_labels: usize = labels.len();
        let n_boundaries: usize = boundaries.len();
        if n_labels == 0 || n_labels - 1 != n_boundaries {
            return Err(BucketError::LabelCount { labels: n_labels, boundaries: n_boundaries });
        }
        let mut i: usize = 1;
        while i < boundaries.len()
            invariant
                1 <= i,
                ordered_type::<V>(),
                labels@.len() == boundaries@.len() + 1,
                forall|k: int|
                    0 <= k < i - 1 && k < boundaries@.len() - 1 ==> !(#[trigger] not_below_next(
                        boundaries@,
                        k,
                    )),
            decreases boundaries@.len() - i,
        {
            if boundaries[i - 1] >= boundaries[i] {
                assert(not_below_next(boundaries@, i - 1));
                return Err(BucketError::NotAscending);
            }
            i = i + 1;
        }
        Ok(NumericalBucketConfig { prefix: normalize_prefix(prefix.as_str()), boundaries, labels })
    }
}

/// Which columns become features: categorical ones by their text, numeric ones by their bucket.
pub struct FeatureTransformationSchema<V> {
    /// Column and key prefix.
    pub categorical_features: Vec<(String, String)>,
    /// Column and buckets.
    pub numerical_features: Vec<(String, NumericalBucketConfig<V>)>,
}

/// The columns of a list.
pub open spec fn columns<T>(list: Seq<(String, T)>) -> Seq<Seq<char>> {
    list.map_values(|entry: (String, T)| entry.0@)
}

/// The entries of the categorical columns.
pub open spec fn prefixes(list: Seq<(String, String)>) -> Seq<Seq<char>> {
    list.map_values(|entry: (String, String)| entry.1@)
}

/// The entries of the numeric columns.
pub open spec fn buckets<V>(
    list: Seq<(String, NumericalBucketConfig<V>)>,
) -> Seq<NumericalBucketConfig<V>> {
    list.map_values(|entry: (String, NumericalBucketConfig<V>)| entry.1)
}

impl<V> FeatureTransformationSchema<V> {
    /// No column occurs twice among the categorical ones, nor among the numeric ones, and every
    /// bucket has its label.
    pub open spec fn wf(&self) -> bool {
        &&& columns(self.categorical_features@).no_duplicates()
        &&& columns(self.numerical_features@).no_duplicates()
        &&& forall|i: int|
            0 <= i < self.numerical_features@.len() ==> (#[trigger] buckets(
                self.numerical_features@,
            )[i]).wf()
    }

    /// A schema without columns.
    pub fn new() -> (schema: Self)
        ensures
            schema.wf(),
            schema.categorical_features@.len() == 0,
            schema.numerical_features@.len() == 0,
    {
        FeatureTransformationSchema {
            categorical_features: Vec::new(),
            numerical_features: Vec::new(),
        }
    }

    /// Makes `col` a categorical column under `prefix`, in place of what it was among these.
    pub fn add_categorical(&mut self, col: String, prefix: String)
        requires
            old(self).wf(),
        ensures
            final(self).wf(),
            final(self).numerical_features == old(self).numerical_features,
            columns(final(self).categorical_features@) == with_column(
                columns(old(self).categorical_features@),
                col@,
            ),
            prefixes(final(self).categorical_features@) == with_value(
                columns(old(self).categorical_features@),
                prefixes(old(self).categorical_features@),
                col@,
                normalized(prefix@),
            ),
    {
        let stripped = normalize_prefix(prefix.as_str());
        let found = find_column(&self.categorical_features, &col);
        let ghost before = self.categorical_features@;
        match found {
            Some(i) => {
                self.categorical_features.set(i, (col, stripped));
                proof {
                    assert(columns(before)[i as int] == col@);
                    lemma_index_of(columns(before), i as int);
                    assert(columns(self.categorical_features@) =~= columns(before));
                    assert(prefixes(self.categorical_features@) =~= prefixes(before).update(
                        i as int,
                        normalized(prefix@),
                    ));
                }
            },
            None => {
                self.categorical_features.push((col, stripped));
                proof {
                    assert(columns(self.categorical_features@) =~= columns(before).push(col@));
                    assert(prefixes(self.categorical_features@) =~= prefixes(before).push(
                        normalized(prefix@),
                    ));
                }
            },
        }
    }

    /// Makes `col` a numeric column with the given buckets, in place of what it was among these.
    pub fn add_numerical(&mut self, col: String, config: NumericalBucketConfig<V>)
        requires
            old(self).wf(),
            config.wf(),
        ensures
            final(self).wf(),
            final(self).categorical_features == old(self).categorical_features,
            columns(final(self).numerical_features@) == with_column(
                columns(old(self).numerical_features@),
                col@,
            ),
            buckets(final(self).numerical_features@) == with_value(
                columns(old(self).numerical_features@),
                buckets(old(self).numerical_features@),
                col@,
                config,
            ),
    {
        let found = find_column(&self.numerical_features, &col);
        let ghost before = self.numerical_features@;
        proof {
            assert forall|k: int| 0 <= k < before.len() implies (#[trigger] buckets(
                before,
            )[k]).wf() by {}
        }
        match found {
            Some(i) => {
                self.numerical_features.set(i, (col, config));
                proof {
                    assert(columns(before)[i as int] == col@);
                    lemma_index_of(columns(before), i as int);
                    assert(columns(self.numerical_features@) =~= columns(before));
                    assert(buckets(self.numerical_features@) =~= buckets(before).update(
                        i as int,
                        config,
                    ));
                }
            },
            None => {
                self.numerical_features.push((col, config));
                proof {
                    assert(columns(self.numerical_features@) =~= columns(before).push(col@));
                    assert(buckets(self.numerical_features@) =~= buckets(before).push(config));
                }
            },
        }
    }
}

/// The columns after `col` was put among them.
pub open spec fn with_column(names: Seq<Seq<char>>, col: Seq<char>) -> Seq<Seq<char>> {
    if names.contains(col) {
        names
    } else {
        names.push(col)
    }
}

/// The entries after that of `col` was put among them.
pub open spec fn with_value<T>(
    names: Seq<Seq<char>>,
    values: Seq<T>,
    col: Seq<char>,
    value: T,
) -> Seq<T> {
    if names.contains(col) {
        values.update(names.index_of(col), value)
    } else {
        values.push(value)
    }
}

/// In names without repetition, the index of a name is its place.
proof fn lemma_index_of(names: Seq<Seq<char>>, i: int)
    requires
        names.no_duplicates(),
        0 <= i < names.len(),
    ensures
        names.contains(names[i]),
        names.index_of(names[i]) == i,
{
    assert(names.contains(names[i]));
    let k = names.index_of(names[i]);
    assert(0 <= k < names.len() && names[k] == names[i]);
}

/// The place of a column.
fn find_column<T>(list: &Vec<(String, T)>, col: &String) -> (found: Option<usize>)
    ensures
        match found {
            Some(i) => i < list@.len() && columns(list@)[i as int] == col@,
            None => !columns(list@).contains(col@),
        },
{
    let mut i: usize = 0;
    while i < list.len()
        invariant
            i <= list@.len(),
            forall|k: int| 0 <= k < i ==> #[trigger] columns(list@)[k] != col@,
        decreases list@.len() - i,
    {
        if list[i].0 == *col {
            return Some(i);
        }
        assert(columns(list@)[i as int] == list@[i as int].0@);
        i = i + 1;
    }
    None
}

/// Setting a column sets that column and no other.
pub proof fn setting_a_column_is_local<T>(
    names: Seq<Seq<char>>,
    values: Seq<T>,
    col: Seq<char>,
    value: T,
    i: int,
)
    requires
        names.no_duplicates(),
        names.len() == values.len(),
        0 <= i < with_column(names, col).len(),
    ensures
        with_column(names, col).no_duplicates(),
        with_column(names, col).contains(col),
        with_value(names, values, col, value).len() == with_column(names, col).len(),
        with_column(names, col)[i] == col ==> with_value(names, values, col, value)[i] == value,
        with_column(names, col)[i] != col ==> i < names.len() && with_column(names, col)[i]
            == names[i] && with_value(names, values, col, value)[i] == values[i],
{
    if names.contains(col) {
        let k = names.index_of(col);
        assert(names[k] == col);
    } else {
        assert(names.push(col).last() == col);
        assert(names.push(col)[names.len() as int] == col);
    }
}

/// The value of the last attribute called `col`, if there is one, among the first `n`.
pub open spec fn attribute<V>(
    raw: Seq<(String, RawValue<V>)>,
    col: Seq<char>,
    n: int,
) -> Option<RawValue<V>>
    decreases n,
{
    if n <= 0 {
        None
    } else if raw[n - 1].0@ == col {
        Some(raw[n - 1].1)
    } else {
        attribute(raw, col, n - 1)
    }
}

/// The text of a value as a category; values that are no text, number or truth value have none.
pub open spec fn category<V>(value: Option<RawValue<V>>) -> Option<Seq<char>> {
    match value {
        Some(RawValue::Text { text, .. }) => Some(text@),
        Some(RawValue::Number { text, .. }) => Some(text@),
        Some(RawValue::Flag { value }) => Some(
            if value {
                "true"@
            } else {
                "false"@
            },
        ),
        _ => None,
    }
}

/// The number of a value, if it is one or spells one.
pub open spec fn quantity<V>(value: Option<RawValue<V>>) -> Option<V> {
    match value {
        Some(RawValue::Text { number, .. }) => number,
        Some(RawValue::Number { value, .. }) => value,
        _ => None,
    }
}

/// The key of a prefix and a suffix.
pub open spec fn key_text(prefix: Seq<char>, suffix: Seq<char>) -> Seq<char> {
    prefix + "_"@ + suffix
}

/// The key of a categorical column: its text, or `unknown`.
pub open spec fn categorical_key<V>(
    prefix: Seq<char>,
    value: Option<RawValue<V>>,
) -> Seq<char> {
    match category(value) {
        Some(text) => key_text(prefix, text),
        None => key_text(prefix, "unknown"@),
    }
}

/// The first of the boundaries from `i` on that `value` does not exceed, or their number.
pub open spec fn bucket_from<V: PartialOrd>(boundaries: Seq<V>, value: V, i: int) -> int
    decreases boundaries.len() - i,
{
    if i >= boundaries.len() {
        boundaries.len() as int
    } else if value.is_le(&boundaries[i]) {
        i
    } else {
        bucket_from(boundaries, value, i + 1)
    }
}

/// The bucket of `value`.
pub open spec fn bucket_of<V: PartialOrd>(boundaries: Seq<V>, value: V) -> int {
    bucket_from(boundaries, value, 0)
}

/// The key of a numeric column: the label of its bucket, or `unknown`.
pub open spec fn numerical_key<V: PartialOrd>(
    config: NumericalBucketConfig<V>,
    value: Option<RawValue<V>>,
) -> Seq<char> {
    match quantity(value) {
        Some(number) => key_text(
            config.prefix@,
            config.labels@[bucket_of(config.boundaries@, number)]@,
        ),
        None => key_text(config.prefix@, "unknown"@),
    }
}

/// The keys of all columns: the categorical ones, then the numeric ones.
pub open spec fn all_keys<V: PartialOrd>(
    raw: Seq<(String, RawValue<V>)>,
    schema: FeatureTransformationSchema<V>,
) -> Seq<Seq<char>> {
    schema.categorical_features@.map_values(
        |entry: (String, String)|
            categorical_key(entry.1@, attribute(raw, entry.0@, raw.len() as int)),
    ) + schema.numerical_features@.map_values(
        |entry: (String, NumericalBucketConfig<V>)|
            numerical_key(entry.1, attribute(raw, entry.0@, raw.len() as int)),
    )
}

/// Buckets end with their boundary: a value lies above every boundary before its bucket and at or
/// below the boundary of its bucket, if that has one.
pub proof fn buckets_are_inclusive<V: PartialOrd>(boundaries: Seq<V>, value: V, from: int)
    requires
        0 <= from <= boundaries.len(),
    ensures
        ({
            let b = bucket_from(boundaries, value, from);
            &&& from <= b <= boundaries.len()
            &&& b < boundaries.len() ==> value.is_le(&boundaries[b])
            &&& forall|i: int|
                #![trigger boundaries[i]]
                from <= i < b ==> !value.is_le(&boundaries[i])
        }),
    decreases boundaries.len() - from,
{
    if from < boundaries.len() && !value.is_le(&boundaries[from]) {
        buckets_are_inclusive(boundaries, value, from + 1);
    }
}

/// The attribute called `col`.
fn find_attribute<'a, V>(raw: &'a [(String, RawValue<V>)], col: &String) -> (found: Option<
    &'a RawValue<V>,
>)
    ensures
        match found {
            Some(value) => attribute(raw@, col@, raw@.len() as int) == Some(*value),
            None => attribute(raw@, col@, raw@.len() as int) is None,
        },
{
    let mut i: usize = raw.len();
    while i > 0
        invariant
            i <= raw@.len(),
            attribute(raw@, col@, raw@.len() as int) == attribute(raw@, col@, i as int),
        decreases i,
    {
        if raw[i - 1].0 == *col {
            return Some(&raw[i - 1].1);
        }
        i = i - 1;
    }
    None
}

/// The key of a prefix and a suffix.
fn key(prefix: &str, suffix: &str) -> (text: String)
    ensures
        text@ == key_text(prefix@, suffix@),
{
    let parts: [&str; 3] = [prefix, "_", suffix];
    proof {
        reveal_with_fuel(joined, 4);
        assert(joined(parts@) =~= key_text(prefix@, suffix@));
    }
    join(&parts)
}

/// The bucket of `value`.
fn find_bucket<V: PartialOrd>(boundaries: &Vec<V>, value: &V) -> (bucket: usize)
    requires
        ordered_type::<V>(),
    ensures
        bucket == bucket_of(boundaries@, *value),
        bucket <= boundaries@.len(),
{
    let mut i: usize = 0;
    while i < boundaries.len()
        invariant
            i <= boundaries@.len(),
            ordered_type::<V>(),
            bucket_of(boundaries@, *value) == bucket_from(boundaries@, *value, i as int),
        decreases boundaries@.len() - i,
    {
        if *value <= boundaries[i] {
            return i;
        }
        i = i + 1;
    }
    i
}

/// The feature keys of a user's attributes: one per column, each distinct key once. A column that is
/// missing or has no usable value gives the key `unknown` of its prefix.
pub fn transform_features<V: PartialOrd + Copy>(
    raw: &[(String, RawValue<V>)],
    schema: &FeatureTransformationSchema<V>,
) -> (keys: Vec<String>)
    requires
        schema.wf(),
        ordered_type::<V>(),
    ensures
        texts(keys@) == first_seen(all_keys(raw@, *schema)),
{
    let ghost all = all_keys(raw@, *schema);
    let ghost n_cat = schema.categorical_features@.len() as int;
    let mut seen = new_id_map();
    let mut keys: Vec<String> = Vec::new();
    assert(texts(keys@) =~= Seq::empty());
    assert(all.take(0) =~= Seq::empty());
    let mut i: usize = 0;
    while i < schema.categorical_features.len()
        invariant
            i <= schema.categorical_features@.len(),
            n_cat == schema.categorical_features@.len(),
            all == all_keys(raw@, *schema),
            is_index_of(id_entries(seen), texts(keys@)),
            texts(keys@) == first_seen(all.take(i as int)),
        decreases schema.categorical_features@.len() - i,
    {
        let entry = &schema.categorical_features[i];
        let value = find_attribute(raw, &entry.0);
        let made: String = match value {
            Some(RawValue::Text { text, .. }) => key(entry.1.as_str(), text.as_str()),
            Some(RawValue::Number { text, .. }) => key(entry.1.as_str(), text.as_str()),
            Some(RawValue::Flag { value: true }) => key(entry.1.as_str(), "true"),
            Some(RawValue::Flag { value: false }) => key(entry.1.as_str(), "false"),
            Some(RawValue::Other) => key(entry.1.as_str(), "unknown"),
            None => key(entry.1.as_str(), "unknown"),
        };
        proof {
            assert(made@ == all[i as int]);
            assert(all.take(i + 1).drop_last() =~= all.take(i as int));
        }
        let _slot: usize = intern(&mut seen, &mut keys, made.as_str());
        i = i + 1;
    }
    let mut j: usize = 0;
    while j < schema.numerical_features.len()
        invariant
            j <= schema.numerical_features@.len(),
            n_cat == schema.categorical_features@.len(),
            schema.wf(),
            ordered_type::<V>(),
            all == all_keys(raw@, *schema),
            is_index_of(id_entries(seen), texts(keys@)),
            texts(keys@) == first_seen(all.take(n_cat + j)),
        decreases schema.numerical_features@.len() - j,
    {
        let entry = &schema.numerical_features[j];
        let config = &entry.1;
        assert(buckets(schema.numerical_features@)[j as int].wf());
        let value = find_attribute(raw, &entry.0);
        let number: Option<V> = match value {
            Some(RawValue::Text { number, .. }) => *number,
            Some(RawValue::Number { value, .. }) => *value,
            Some(RawValue::Flag { .. }) => None,
            Some(RawValue::Other) => None,
            None => None,
        };
        let made: String = match &number {
            Some(number) => {
                let b: usize = find_bucket(&config.boundaries, number);
                key(config.prefix.as_str(), config.labels[b].as_str())
            },
            None => key(config.prefix.as_str(), "unknown"),
        };
        proof {
            assert(made@ == all[n_cat + j]);
            assert(all.take(n_cat + j + 1).drop_last() =~= all.take(n_cat + j));
        }
        let _slot: usize = intern(&mut seen, &mut keys, made.as_str());
        j = j + 1;
    }
    assert(all.take(n_cat + j) =~= all);
    keys
}

/// One trailing underscore is taken off a prefix, and nothing else.
pub proof fn one_underscore_is_taken_off(prefix: Seq<char>)
    ensures
        normalized(prefix.push('_')) == prefix,
        prefix.len() == 0 || prefix.last() != '_' ==> normalized(prefix) == prefix,
{
    assert(prefix.push('_').drop_last() =~= prefix);
}

/// Boundaries are refused exactly where one of them is at or above the next.
pub proof fn boundaries_must_ascend<V: PartialOrd>(boundaries: Seq<V>)
    ensures
        out_of_order(boundaries) <==> exists|i: int, j: int|
            #![trigger boundaries[i], boundaries[j]]
            0 <= i < boundaries.len() && j == i + 1 && j < boundaries.len() && boundaries[i].is_ge(
                &boundaries[j],
            ),
{
    if out_of_order(boundaries) {
        let i = choose|i: int| 0 <= i < boundaries.len() - 1 && not_below_next(boundaries, i);
        assert(boundaries[i].is_ge(&boundaries[i + 1]));
    }
    if exists|i: int, j: int|
        #![trigger boundaries[i], boundaries[j]]
            0 <= i < boundaries.len() && j == i + 1 && j < boundaries.len() && boundaries[i].is_ge(
                &boundaries[j],
            ) {
        let (i, j) = choose|i: int, j: int|
            #![trigger boundaries[i], boundaries[j]]
            0 <= i < boundaries.len() && j == i + 1 && j < boundaries.len() && boundaries[i].is_ge(
                &boundaries[j],
            );
        assert(not_below_next(boundaries, i));
    }
}

/// `value` is that of the last attribute called `col`.
pub open spec fn is_last_attribute<V>(
    raw: Seq<(String, RawValue<V>)>,
    col: Seq<char>,
    value: RawValue<V>,
) -> bool {
    exists|j: int|
        0 <= j < raw.len() && (#[trigger] raw[j]).0@ == col && raw[j].1 == value && (forall|k: int|
            j < k < raw.len() ==> (#[trigger] raw[k]).0@ != col)
}

/// No attribute is called `col`.
pub open spec fn has_no_attribute<V>(raw: Seq<(String, RawValue<V>)>, col: Seq<char>) -> bool {
    forall|k: int| 0 <= k < raw.len() ==> (#[trigger] raw[k]).0@ != col
}

proof fn lemma_attribute<V>(raw: Seq<(String, RawValue<V>)>, col: Seq<char>, n: int)
    requires
        0 <= n <= raw.len(),
    ensures
        (forall|k: int| 0 <= k < n ==> (#[trigger] raw[k]).0@ != col) ==> attribute(
            raw,
            col,
            n,
        ) is None,
        forall|j: int|
            0 <= j < n && (#[trigger] raw[j]).0@ == col && (forall|k: int|
                j < k < n ==> (#[trigger] raw[k]).0@ != col) ==> attribute(raw, col, n) == Some(
                raw[j].1,
            ),
    decreases n,
{
    if n > 0 {
        lemma_attribute(raw, col, n - 1);
        if forall|k: int| 0 <= k < n ==> (#[trigger] raw[k]).0@ != col {
            assert(raw[n - 1].0@ != col);
        }
        assert forall|j: int|
            0 <= j < n && (#[trigger] raw[j]).0@ == col && (forall|k: int|
                j < k < n ==> (#[trigger] raw[k]).0@ != col) implies attribute(raw, col, n) == Some(
            raw[j].1,
        ) by {
            if j < n - 1 {
                assert(raw[n - 1].0@ != col);
            }
        }
    }
}

/// The key of a categorical column is its prefix, an underscore and the text of its last value:
/// texts and numbers as they are written, truth values spelled out, and `unknown` where there is no
/// such value.
pub proof fn categorical_columns_give_their_text<V: PartialOrd>(
    raw: Seq<(String, RawValue<V>)>,
    schema: FeatureTransformationSchema<V>,
    i: int,
    value: RawValue<V>,
)
    requires
        0 <= i < schema.categorical_features@.len(),
    ensures
        ({
            let col = schema.categorical_features@[i].0@;
            let start = schema.categorical_features@[i].1@ + "_"@;
            let key = all_keys(raw, schema)[i];
            &&& is_last_attribute(raw, col, value) ==> {
                &&& value matches RawValue::Text { text, .. } ==> key == start + text@
                &&& value matches RawValue::Number { text, .. } ==> key == start + text@
                &&& value matches RawValue::Flag { value: flag } ==> key == start + (if flag {
                    "true"@
                } else {
                    "false"@
                })
                &&& value is Other ==> key == start + "unknown"@
            }
            &&& has_no_attribute(raw, col) ==> key == start + "unknown"@
        }),
{
    lemma_attribute(raw, schema.categorical_features@[i].0@, raw.len() as int);
}

/// The key of a numeric column is its prefix, an underscore and the label of its bucket: the first
/// whose boundary the number of the last value is at or below, or the last one. It is `unknown`
/// where the value has no number.
pub proof fn numeric_columns_give_their_bucket<V: PartialOrd>(
    raw: Seq<(String, RawValue<V>)>,
    schema: FeatureTransformationSchema<V>,
    i: int,
    value: RawValue<V>,
    number: V,
    b: int,
)
    requires
        0 <= i < schema.numerical_features@.len(),
    ensures
        ({
            let col = schema.numerical_features@[i].0@;
            let config = schema.numerical_features@[i].1;
            let start = config.prefix@ + "_"@;
            let key = all_keys(raw, schema)[schema.categorical_features@.len() + i];
            let bounds = config.boundaries@;
            let spells = (value matches RawValue::Text { number: Some(n), .. } && n == number) || (
            value matches RawValue::Number { value: Some(n), .. } && n == number);
            let blank = (value matches RawValue::Text { number: None, .. }) || (
            value matches RawValue::Number { value: None, .. }) || value is Flag || value is Other;
            &&& is_last_attribute(raw, col, value) && spells && 0 <= b <= bounds.len() && (forall|
                j: int,
            |
                #![trigger bounds[j]]
                0 <= j < b ==> !number.is_le(&bounds[j])) && (b < bounds.len()
                ==> number.is_le(&bounds[b])) ==> key == start + config.labels@[b]@
            &&& is_last_attribute(raw, col, value) && blank ==> key == start + "unknown"@
            &&& has_no_attribute(raw, col) ==> key == start + "unknown"@
            &&& all_keys(raw, schema).len() == schema.categorical_features@.len()
                + schema.numerical_features@.len()
        }),
{
    lemma_attribute(raw, schema.numerical_features@[i].0@, raw.len() as int);
    let bounds = schema.numerical_features@[i].1.boundaries@;
    buckets_are_inclusive(bounds, number, 0);
    let found = bucket_of(bounds, number);
    if 0 <= b <= bounds.len() && (forall|j: int|
        #![trigger bounds[j]]
        0 <= j < b ==> !number.is_le(&bounds[j])) && (b < bounds.len() ==> number.is_le(
        &bounds[b],
    )) {
        assert(found == b) by {
            if found < b {
                assert(!number.is_le(&bounds[found]));
            }
            if b < found {
                assert(!number.is_le(&bounds[b]));
            }
        }
    }
}

/// Columns, prefixes and buckets are those of the entries, in order.
pub proof fn entries_keep_their_columns<V>(schema: FeatureTransformationSchema<V>, i: int)
    ensures
        0 <= i < schema.categorical_features@.len() ==> columns(schema.categorical_features@)[i]
            == schema.categorical_features@[i].0@ && prefixes(schema.categorical_features@)[i]
            == schema.categorical_features@[i].1@,
        0 <= i < schema.numerical_features@.len() ==> columns(schema.numerical_features@)[i]
            == schema.numerical_features@[i].0@ && buckets(schema.numerical_features@)[i]
            == schema.numerical_features@[i].1,
        columns(schema.categorical_features@).len() == schema.categorical_features@.len(),
        columns(schema.numerical_features@).len() == schema.numerical_features@.len(),
{
}

} // verus!
