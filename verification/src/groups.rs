//! Grouping the rows of a table by a text column.

use crate::ids::{first_seen, id_entries, intern, is_index_of, new_id_map, present, text_of, texts};
use crate::order::{
    ascending, sort_text_positions, sorted_texts, sorted_texts_is_unique, text_before,
    text_order_is_total,
};
use crate::selection::{lemma_collects, lemma_same_places, places};
use vstd::prelude::*;

verus! {

/// The rows whose cell holds `name`, in ascending order.
pub open spec fn rows_of(column: Seq<Option<String>>, name: Seq<char>) -> Seq<usize>
    decreases column.len(),
{
    if column.len() == 0 {
        Seq::empty()
    } else {
        let earlier = rows_of(column.drop_last(), name);
        if text_of(column.last()) == Some(name) {
            earlier.push((column.len() - 1) as usize)
        } else {
            earlier
        }
    }
}

/// The distinct names of `column`, in ascending order.
pub open spec fn names_of(column: Seq<Option<String>>) -> Seq<Seq<char>> {
    sorted_texts(present(column))
}

/// The rows of each name of `column`, in the order of the names.
pub open spec fn rows_by_name(column: Seq<Option<String>>) -> Seq<Seq<usize>> {
    names_of(column).map_values(|name: Seq<char>| rows_of(column, name))
}

/// The rows of a table grouped by a column: names in ascending order, each with its rows.
pub struct Groups {
    pub names: Vec<String>,
    pub rows: Vec<Vec<usize>>,
}

/// The sequences that `lists` holds.
pub open spec fn lists_view(lists: Seq<Vec<usize>>) -> Seq<Seq<usize>> {
    lists.map_values(|list: Vec<usize>| list@)
}

/// A member of `present` is the text of a cell, and the other way round.
pub proof fn lemma_present(column: Seq<Option<String>>, name: Seq<char>)
    ensures
        present(column).contains(name) <==> exists|i: int|
            0 <= i < column.len() && text_of(#[trigger] column[i]) == Some(name),
    decreases column.len(),
{
    if column.len() > 0 {
        let shorter = column.drop_last();
        lemma_present(shorter, name);
        let before = present(shorter);
        let after = present(column);
        if after.contains(name) {
            let k = choose|k: int| 0 <= k < after.len() && after[k] == name;
            if k < before.len() {
                assert(before[k] == name);
                let i = choose|i: int|
                    0 <= i < shorter.len() && text_of(#[trigger] shorter[i]) == Some(name);
                assert(column[i] == shorter[i]);
            } else {
                assert(text_of(column[column.len() - 1]) == Some(name));
            }
        }
        if exists|i: int| 0 <= i < column.len() && text_of(#[trigger] column[i]) == Some(name) {
            let i = choose|i: int|
                0 <= i < column.len() && text_of(#[trigger] column[i]) == Some(name);
            if i < shorter.len() {
                assert(shorter[i] == column[i]);
                let k = choose|k: int| 0 <= k < before.len() && before[k] == name;
                assert(after[k] == name);
            } else {
                assert(after.last() == name);
            }
        }
    }
}

/// What `rows_of` holds: rows in ascending order, exactly those whose cell is `name`.
pub proof fn lemma_rows_of(column: Seq<Option<String>>, name: Seq<char>)
    requires
        column.len() <= usize::MAX,
    ensures
        forall|k: int|
            #![trigger rows_of(column, name)[k]]
            0 <= k < rows_of(column, name).len() ==> rows_of(column, name)[k] < column.len()
                && text_of(column[rows_of(column, name)[k] as int]) == Some(name),
        forall|a: int, b: int|
            #![trigger rows_of(column, name)[a], rows_of(column, name)[b]]
            0 <= a < b < rows_of(column, name).len() ==> rows_of(column, name)[a] < rows_of(
                column,
                name,
            )[b],
        forall|i: int|
            0 <= i < column.len() && text_of(#[trigger] column[i]) == Some(name) ==> rows_of(
                column,
                name,
            ).contains(i as usize),
    decreases column.len(),
{
    if column.len() > 0 {
        let shorter = column.drop_last();
        lemma_rows_of(shorter, name);
        let before = rows_of(shorter, name);
        let after = rows_of(column, name);
        assert forall|k: int| #![trigger after[k]] 0 <= k < after.len() implies after[k]
            < column.len() && text_of(column[after[k] as int]) == Some(name) by {
            if k < before.len() {
                assert(after[k] == before[k]);
                assert(column[before[k] as int] == shorter[before[k] as int]);
            }
        }
        assert forall|a: int, b: int|
            #![trigger after[a], after[b]]
            0 <= a < b < after.len() implies after[a] < after[b] by {
            assert(after[a] == before[a]);
            if b < before.len() {
                assert(after[b] == before[b]);
            }
        }
        assert forall|i: int|
            0 <= i < column.len() && text_of(#[trigger] column[i]) == Some(name) implies after.contains(
        i as usize) by {
            if i < shorter.len() {
                assert(shorter[i] == column[i]);
                let k = choose|k: int| 0 <= k < before.len() && before[k] == i as usize;
                assert(after[k] == i as usize);
            } else {
                assert(after.last() == i as usize);
            }
        }
    }
}

/// No row holds a name that is not present.
proof fn lemma_no_rows(column: Seq<Option<String>>, name: Seq<char>)
    requires
        !present(column).contains(name),
    ensures
        rows_of(column, name).len() == 0,
    decreases column.len(),
{
    if column.len() > 0 {
        let shorter = column.drop_last();
        lemma_present(column, name);
        lemma_present(shorter, name);
        assert(column[column.len() - 1] == column.last());
        assert forall|i: int| 0 <= i < shorter.len() implies text_of(#[trigger] shorter[i]) != Some(
            name,
        ) by {
            assert(column[i] == shorter[i]);
        }
        lemma_no_rows(shorter, name);
    }
}

/// `first_seen` keeps every member, once.
pub proof fn lemma_first_seen(s: Seq<Seq<char>>)
    ensures
        first_seen(s).no_duplicates(),
        first_seen(s).to_set() == s.to_set(),
        forall|x: Seq<char>| #[trigger] first_seen(s).contains(x) <==> s.contains(x),
    decreases s.len(),
{
    if s.len() > 0 {
        let shorter = s.drop_last();
        lemma_first_seen(shorter);
        let before = first_seen(shorter);
        let after = first_seen(s);
        assert forall|x: Seq<char>| #[trigger] after.contains(x) <==> s.contains(x) by {
            assert(s[s.len() - 1] == s.last());
            if s.contains(x) {
                let k = choose|k: int| 0 <= k < s.len() && s[k] == x;
                if k < shorter.len() {
                    assert(shorter[k] == x);
                    assert(before.contains(x));
                }
                if before.contains(x) {
                    let j = choose|j: int| 0 <= j < before.len() && before[j] == x;
                    assert(after[j] == x);
                } else {
                    assert(after.last() == x);
                }
            }
            if after.contains(x) {
                let j = choose|j: int| 0 <= j < after.len() && after[j] == x;
                if j < before.len() {
                    assert(before[j] == x);
                    assert(first_seen(shorter).contains(x));
                    assert(shorter.contains(x));
                    let k = choose|k: int| 0 <= k < shorter.len() && shorter[k] == x;
                    assert(s[k] == x);
                }
            }
        }
        assert(after.no_duplicates());
    }
    assert(first_seen(s).to_set() =~= s.to_set()) by {
        assert forall|x: Seq<char>|
            first_seen(s).to_set().contains(x) <==> s.to_set().contains(x) by {
            assert(first_seen(s).contains(x) <==> s.contains(x));
        }
    }
}

/// Groups the rows of `column` by name.
pub fn group_rows(column: &[Option<String>]) -> (groups: Groups)
    ensures
        texts(groups.names@) == names_of(column@),
        lists_view(groups.rows@) == rows_by_name(column@),
{
    let mut map = new_id_map();
    let mut seen: Vec<String> = Vec::new();
    let mut lists: Vec<Vec<usize>> = Vec::new();
    let mut i: usize = 0;
    assert(column@.take(0) =~= Seq::empty());
    assert(texts(seen@) =~= Seq::empty());
    while i < column.len()
        invariant
            i <= column.len(),
            is_index_of(id_entries(map), texts(seen@)),
            texts(seen@) == first_seen(present(column@.take(i as int))),
            lists@.len() == seen@.len(),
            forall|j: int|
                0 <= j < lists@.len() ==> (#[trigger] lists@[j])@ == rows_of(
                    column@.take(i as int),
                    texts(seen@)[j],
                ),
        decreases column.len() - i,
    {
        let ghost prefix = column@.take(i as int);
        let ghost names = texts(seen@);
        proof {
            assert(column@.take(i + 1) =~= prefix.push(column@[i as int]));
            assert(prefix.push(column@[i as int]).drop_last() =~= prefix);
        }
        if let Some(name) = &column[i] {
            let index: usize = intern(&mut map, &mut seen, name.as_str());
            proof {
                assert(present(column@.take(i + 1)) =~= present(prefix).push(name@));
                assert(present(prefix).push(name@).drop_last() =~= present(prefix));
                lemma_first_seen(present(prefix));
                if !names.contains(name@) {
                    lemma_no_rows(prefix, name@);
                }
            }
            if index == lists.len() {
                lists.push(Vec::new());
            }
            assert(lists@.len() == seen@.len());
            assert(forall|j: int|
                0 <= j < lists@.len() ==> (#[trigger] lists@[j])@ == rows_of(
                    prefix,
                    texts(seen@)[j],
                ));
            let ghost before = lists@;
            lists[index].push(i);
            proof {
                assert forall|j: int| 0 <= j < lists@.len() implies (#[trigger] lists@[j])@
                    == rows_of(column@.take(i + 1), texts(seen@)[j]) by {
                    assert(texts(seen@).no_duplicates());
                    assert(before[j]@ == rows_of(prefix, texts(seen@)[j]));
                    if j != index {
                        assert(texts(seen@)[j] != texts(seen@)[index as int]);
                    }
                }
            }
        } else {
            proof {
                assert(present(column@.take(i + 1)) =~= present(prefix));
            }
        }
        i = i + 1;
    }
    assert(column@.take(i as int) =~= column@);
    let order = sort_text_positions(&seen);
    let mut names: Vec<String> = Vec::new();
    let mut rows: Vec<Vec<usize>> = Vec::new();
    let mut k: usize = 0;
    while k < order.len()
        invariant
            k <= order.len(),
            order@.len() == seen@.len(),
            forall|a: int| 0 <= a < order@.len() ==> #[trigger] order@[a] < seen@.len(),
            lists@.len() == seen@.len(),
            names@.len() == k,
            rows@.len() == k,
            forall|a: int| 0 <= a < k ==> #[trigger] names@[a]@ == seen@[order@[a] as int]@,
            forall|a: int| 0 <= a < k ==> #[trigger] rows@[a]@ == lists@[order@[a] as int]@,
        decreases order.len() - k,
    {
        let source: usize = order[k];
        names.push(seen[source].clone());
        let list = lists[source].clone();
        assert(list@ =~= lists@[source as int]@);
        rows.push(list);
        k = k + 1;
    }
    proof {
        let sorted = texts(names@);
        lemma_first_seen(present(column@));
        assert(ascending(sorted)) by {
            assert forall|a: int, b: int|
                #![trigger sorted[a], sorted[b]]
                0 <= a < b < sorted.len() implies text_before(
                sorted[a],
                sorted[b],
            ) by {
                assert(names@[a]@ == seen@[order@[a] as int]@);
                assert(names@[b]@ == seen@[order@[b] as int]@);
            }
        }
        assert(sorted.to_set() =~= texts(seen@).to_set()) by {
            assert forall|x: Seq<char>|
                sorted.to_set().contains(x) <==> texts(seen@).to_set().contains(x) by {
                if sorted.contains(x) {
                    let a = choose|a: int| 0 <= a < sorted.len() && sorted[a] == x;
                    assert(names@[a]@ == x);
                    assert(texts(seen@)[order@[a] as int] == x);
                }
                if texts(seen@).contains(x) {
                    let p = choose|p: int| 0 <= p < seen@.len() && texts(seen@)[p] == x;
                    assert(order@.contains(p as usize));
                    let a = choose|a: int| 0 <= a < order@.len() && order@[a] == p as usize;
                    assert(names@[a]@ == x);
                    assert(sorted[a] == x);
                }
            }
        }
        sorted_texts_is_unique(sorted, present(column@));
        assert(lists_view(rows@) =~= rows_by_name(column@)) by {
            assert forall|a: int| 0 <= a < rows@.len() implies #[trigger] rows@[a]@ == rows_of(
                column@,
                names_of(column@)[a],
            ) by {
                assert(names@[a]@ == seen@[order@[a] as int]@);
                assert(sorted[a] == names@[a]@);
            }
        }
    }
    Groups { names, rows }
}

/// The names of a column exist: they are in ascending order and exactly those present.
pub proof fn lemma_names_ascending(column: Seq<Option<String>>)
    ensures
        ascending(names_of(column)),
        names_of(column).to_set() == present(column).to_set(),
{
    lemma_sorted_texts_exist(present(column));
}

proof fn lemma_sorted_texts_exist(s: Seq<Seq<char>>)
    ensures
        ascending(sorted_texts(s)),
        sorted_texts(s).to_set() == s.to_set(),
    decreases s.len(),
{
    if s.len() == 0 {
        assert(ascending(s) && s.to_set() == s.to_set());
    } else {
        let shorter = s.drop_last();
        lemma_sorted_texts_exist(shorter);
        let t = sorted_texts(shorter);
        let x = s.last();
        assert(s =~= shorter.push(x));
        assert(s.to_set() =~= shorter.to_set().insert(x)) by {
            assert forall|y: Seq<char>|
                s.to_set().contains(y) <==> shorter.to_set().insert(x).contains(y) by {
                if s.contains(y) {
                    let k = choose|k: int| 0 <= k < s.len() && s[k] == y;
                    if k < shorter.len() {
                        assert(shorter[k] == y);
                    }
                }
                if shorter.contains(y) {
                    let k = choose|k: int| 0 <= k < shorter.len() && shorter[k] == y;
                    assert(s[k] == y);
                }
                assert(s[s.len() - 1] == x);
            }
        }
        let u = lemma_insert_ascending(t, x);
        assert(ascending(u) && u.to_set() == s.to_set());
    }
}

/// A text can be put into an ascending sequence.
proof fn lemma_insert_ascending(t: Seq<Seq<char>>, x: Seq<char>) -> (u: Seq<Seq<char>>)
    requires
        ascending(t),
    ensures
        ascending(u),
        u.to_set() == t.to_set().insert(x),
    decreases t.len(),
{
    if t.contains(x) {
        assert(t.to_set().insert(x) =~= t.to_set());
        t
    } else if t.len() == 0 || text_before(t.last(), x) {
        let u = t.push(x);
        assert forall|a: int, b: int|
            #![trigger u[a], u[b]]
            0 <= a < b < u.len() implies text_before(u[a], u[b]) by {
            assert(u[a] == t[a]);
            if b == t.len() && a < t.len() - 1 {
                assert(text_before(t[a], t[t.len() - 1]));
                text_order_is_total(t[a], t.last(), x);
            }
        }
        assert(u.to_set() =~= t.to_set().insert(x)) by {
            lemma_push_set(t, x);
        }
        u
    } else {
        let shorter = t.drop_last();
        let last = t.last();
        assert(t[t.len() - 1] == last);
        text_order_is_total(last, x, last);
        assert(t.contains(last));
        assert(text_before(x, last));
        let v = lemma_insert_ascending(shorter, x);
        let u = v.push(last);
        assert forall|a: int, b: int|
            #![trigger u[a], u[b]]
            0 <= a < b < u.len() implies text_before(u[a], u[b]) by {
            if b < v.len() {
                assert(text_before(v[a], v[b]));
            } else {
                assert(v.to_set().contains(v[a]));
                if v[a] != x {
                    assert(shorter.to_set().contains(v[a]));
                    let k = choose|k: int| 0 <= k < shorter.len() && shorter[k] == v[a];
                    assert(text_before(t[k], t[t.len() - 1]));
                }
            }
        }
        lemma_push_set(v, last);
        lemma_push_set(shorter, last);
        assert(t =~= shorter.push(last));
        assert(u.to_set() =~= t.to_set().insert(x));
        u
    }
}

proof fn lemma_push_set(t: Seq<Seq<char>>, x: Seq<char>)
    ensures
        t.push(x).to_set() =~= t.to_set().insert(x),
{
    let u = t.push(x);
    assert forall|y: Seq<char>| u.to_set().contains(y) <==> t.to_set().insert(x).contains(y) by {
        if u.contains(y) {
            let k = choose|k: int| 0 <= k < u.len() && u[k] == y;
            if k < t.len() {
                assert(t[k] == y);
            }
        }
        if t.contains(y) {
            let k = choose|k: int| 0 <= k < t.len() && t[k] == y;
            assert(u[k] == y);
        }
        assert(u[t.len() as int] == x);
    }
}

/// What `first_seen` lists are the members that do not occur earlier, in the order of the sequence.
pub proof fn first_seen_lists_first_occurrences(s: Seq<Seq<char>>)
    ensures
        first_seen(s) == places(
            s.len(),
            |i: int| forall|j: int| 0 <= j < i ==> #[trigger] s[j] != s[i],
        ).map_values(|i: int| s[i]),
{
    let holds = |i: int| forall|j: int| 0 <= j < i ==> #[trigger] s[j] != s[i];
    let grown = |k: int| first_seen(s.take(k));
    assert forall|k: int| 0 < k <= s.len() implies #[trigger] grown(k) == (if holds(k - 1) {
        grown(k - 1).push(s[k - 1])
    } else {
        grown(k - 1)
    }) by {
        let shorter = s.take(k - 1);
        assert(s.take(k).drop_last() =~= shorter);
        assert(s.take(k).last() == s[k - 1]);
        lemma_first_seen(shorter);
        if shorter.contains(s[k - 1]) {
            let j = choose|j: int| 0 <= j < shorter.len() && shorter[j] == s[k - 1];
            assert(s[j] == s[k - 1]);
            assert(!holds(k - 1));
        } else {
            assert forall|j: int| 0 <= j < k - 1 implies #[trigger] s[j] != s[k - 1] by {
                assert(shorter[j] == s[j]);
            }
        }
    }
    assert(s.take(0) =~= Seq::<Seq<char>>::empty());
    lemma_collects(s.len(), holds, |i: int| s[i], grown);
    assert(s.take(s.len() as int) =~= s);
}

/// What is present are the texts of the cells that are not missing, in order.
pub proof fn present_lists_the_cells(column: Seq<Option<String>>)
    ensures
        present(column) == places(column.len(), |i: int| column[i] is Some).map_values(
            |i: int| column[i].unwrap()@,
        ),
{
    let grown = |k: int| present(column.take(k));
    assert forall|k: int| 0 < k <= column.len() implies #[trigger] grown(k) == (if column[k
        - 1] is Some {
        grown(k - 1).push(column[k - 1].unwrap()@)
    } else {
        grown(k - 1)
    }) by {
        assert(column.take(k).drop_last() =~= column.take(k - 1));
        assert(column.take(k).last() == column[k - 1]);
    }
    assert(column.take(0) =~= Seq::<Option<String>>::empty());
    lemma_collects(
        column.len(),
        |i: int| column[i] is Some,
        |i: int| column[i].unwrap()@,
        grown,
    );
    assert(column.take(column.len() as int) =~= column);
}

/// The rows of a name are the places of its cells, in order.
pub proof fn rows_of_a_name_are_its_places(column: Seq<Option<String>>, name: Seq<char>)
    ensures
        rows_of(column, name) == places(
            column.len(),
            |i: int| column[i] is Some && column[i].unwrap()@ == name,
        ).map_values(|i: int| i as usize),
{
    let holds = |i: int| column[i] is Some && column[i].unwrap()@ == name;
    let grown = |k: int| rows_of(column.take(k), name);
    assert forall|k: int| 0 < k <= column.len() implies #[trigger] grown(k) == (if holds(k - 1) {
        grown(k - 1).push((k - 1) as usize)
    } else {
        grown(k - 1)
    }) by {
        assert(column.take(k).drop_last() =~= column.take(k - 1));
        assert(column.take(k).last() == column[k - 1]);
    }
    assert(column.take(0) =~= Seq::<Option<String>>::empty());
    lemma_collects(column.len(), holds, |i: int| i as usize, grown);
    assert(column.take(column.len() as int) =~= column);
}

/// The names of a column are the texts of its cells, each once and in ascending order; each has its
/// own rows.
pub proof fn names_are_the_texts_of_cells(column: Seq<Option<String>>, name: Seq<char>, g: int)
    requires
        0 <= g < names_of(column).len(),
    ensures
        names_of(column).contains(name) <==> exists|i: int|
            0 <= i < column.len() && (#[trigger] column[i]) is Some && column[i].unwrap()@ == name,
        forall|a: int, b: int|
            #![trigger names_of(column)[a], names_of(column)[b]]
            0 <= a < b < names_of(column).len() ==> text_before(
                names_of(column)[a],
                names_of(column)[b],
            ),
        rows_by_name(column).len() == names_of(column).len(),
        rows_by_name(column)[g] == places(
            column.len(),
            |i: int| column[i] is Some && column[i].unwrap()@ == names_of(column)[g],
        ).map_values(|i: int| i as usize),
{
    lemma_names_ascending(column);
    lemma_present(column, name);
    let own = names_of(column)[g];
    rows_of_a_name_are_its_places(column, own);
    lemma_same_places(
        column.len(),
        |i: int| column[i] is Some && column[i].unwrap()@ == own,
        |i: int| column[i] is Some && column[i].unwrap()@ == names_of(column)[g],
    );
    assert(names_of(column).to_set().contains(name) <==> names_of(column).contains(name));
    assert(present(column).to_set().contains(name) <==> present(column).contains(name));
    if present(column).contains(name) {
        let i = choose|i: int|
            0 <= i < column.len() && text_of(#[trigger] column[i]) == Some(name);
        assert(column[i] is Some);
    }
    if exists|i: int|
        0 <= i < column.len() && (#[trigger] column[i]) is Some && column[i].unwrap()@ == name {
        let i = choose|i: int|
            0 <= i < column.len() && (#[trigger] column[i]) is Some && column[i].unwrap()@ == name;
        assert(text_of(column[i]) == Some(name));
    }
}

} // verus!
