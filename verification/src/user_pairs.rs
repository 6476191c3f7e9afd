//! Indexed values by user.

use crate::data_pipeline::{common_rows, LongTable};
use crate::ids::{
    id_entries, id_get, index_and_names_are_inverse, intern, is_index_of, new_id_map, text_of,
    texts,
};
use crate::selection::{lemma_collects, lemma_places_step, places, places_are_chosen};
use ahash::AHashMap;
use vstd::prelude::*;

verus! {

/// For each user of a table, the values of its rows by the index of their column.
pub struct UserPairs<V> {
    users: AHashMap<String, usize>,
    names: Vec<String>,
    lists: Vec<Vec<(usize, V)>>,
}

/// The `(index, value)` pairs of `user` in the first `n` rows: those with a value and a known column,
/// in order.
pub open spec fn pairs_of<V>(
    table: LongTable<V>,
    columns: Map<Seq<char>, usize>,
    user: Seq<char>,
    n: int,
) -> Seq<(usize, V)>
    decreases n,
{
    if n <= 0 {
        Seq::empty()
    } else {
        let earlier = pairs_of(table, columns, user, n - 1);
        match (text_of(table.rows@[n - 1]), text_of(table.cols@[n - 1]), table.values@[n - 1]) {
            (Some(name), Some(column), Some(value)) => if name == user && columns.dom().contains(
                column,
            ) {
                earlier.push((columns[column], value))
            } else {
                earlier
            },
            _ => earlier,
        }
    }
}

/// The number of rows of a table.
pub open spec fn num_rows<V>(table: LongTable<V>) -> int {
    common_rows(
        table.rows@.len() as int,
        table.cols@.len() as int,
        table.values@.len() as int,
    )
}

/// All `(index, value)` pairs of `user`.
pub open spec fn all_pairs_of<V>(
    table: LongTable<V>,
    columns: Map<Seq<char>, usize>,
    user: Seq<char>,
) -> Seq<(usize, V)> {
    pairs_of(table, columns, user, num_rows(table))
}

/// `names` are the users of `table` that have pairs, each once.
pub open spec fn lists_users<V>(
    names: Seq<Seq<char>>,
    table: LongTable<V>,
    columns: Map<Seq<char>, usize>,
) -> bool {
    &&& names.no_duplicates()
    &&& forall|user: Seq<char>|
        #[trigger] names.contains(user) <==> all_pairs_of(table, columns, user).len() > 0
}

impl<V> UserPairs<V> {
    /// The pairs are those of the first `n` rows of `table`.
    closed spec fn holds_rows(
        &self,
        table: LongTable<V>,
        columns: Map<Seq<char>, usize>,
        n: int,
    ) -> bool {
        &&& is_index_of(id_entries(self.users), texts(self.names@))
        &&& self.lists@.len() == self.names@.len()
        &&& forall|j: int|
            0 <= j < self.lists@.len() ==> (#[trigger] self.lists@[j])@ == pairs_of(
                table,
                columns,
                texts(self.names@)[j],
                n,
            )
        &&& forall|user: Seq<char>|
            #[trigger] texts(self.names@).contains(user) <==> pairs_of(
                table,
                columns,
                user,
                n,
            ).len() > 0
    }

    /// The pairs are those of `table`.
    pub closed spec fn holds(&self, table: LongTable<V>, columns: Map<Seq<char>, usize>) -> bool {
        self.holds_rows(table, columns, num_rows(table))
    }

    /// No user has pairs.
    pub closed spec fn is_blank(&self) -> bool {
        &&& is_index_of(id_entries(self.users), texts(self.names@))
        &&& self.names@.len() == 0
        &&& self.lists@.len() == 0
    }

    /// A collection without pairs.
    pub fn blank() -> (pairs: Self)
        ensures
            pairs.is_blank(),
    {
        let pairs = UserPairs { users: new_id_map(), names: Vec::new(), lists: Vec::new() };
        assert(texts(pairs.names@) =~= Seq::empty());
        pairs
    }

    /// The users that have pairs, each once.
    pub fn users(&self) -> (names: Vec<String>)
        ensures
            forall|table: LongTable<V>, columns: Map<Seq<char>, usize>|
                #[trigger] self.holds(table, columns) ==> lists_users(
                    texts(names@),
                    table,
                    columns,
                ),
    {
        let mut names: Vec<String> = Vec::new();
        let mut i: usize = 0;
        while i < self.names.len()
            invariant
                i <= self.names@.len(),
                texts(names@) == texts(self.names@).take(i as int),
            decreases self.names@.len() - i,
        {
            let ghost before = texts(names@);
            names.push(self.names[i].clone());
            assert(texts(names@) =~= before.push(self.names@[i as int]@));
            assert(before.push(texts(self.names@)[i as int]) =~= texts(self.names@).take(i + 1));
            i = i + 1;
        }
        assert(texts(names@) =~= texts(self.names@));
        names
    }
}

impl<V: Copy> UserPairs<V> {
    /// Collects the pairs of every user of `table`.
    pub fn build(table: &LongTable<V>, columns: &AHashMap<String, usize>) -> (pairs: Self)
        ensures
            pairs.holds(*table, id_entries(*columns)),
    {
        let ghost index = id_entries(*columns);
        let mut pairs = UserPairs { users: new_id_map(), names: Vec::new(), lists: Vec::new() };
        assert(texts(pairs.names@) =~= Seq::empty());
        let mut i: usize = 0;
        while i < table.rows.len() && i < table.cols.len() && i < table.values.len()
            invariant
                i <= table.rows@.len(),
                i <= table.cols@.len(),
                i <= table.values@.len(),
                index == id_entries(*columns),
                pairs.holds_rows(*table, index, i as int),
            decreases table.rows@.len() - i,
        {
            match (&table.rows[i], &table.cols[i], table.values[i]) {
                (Some(user), Some(column), Some(value)) => {
                    if let Some(idx) = id_get(columns, column.as_str()) {
                        let ghost before = pairs;
                        let slot: usize = intern(
                            &mut pairs.users,
                            &mut pairs.names,
                            user.as_str(),
                        );
                        if slot == pairs.lists.len() {
                            pairs.lists.push(Vec::new());
                            assert(pairs_of(*table, index, user@, i as int).len() == 0);
                        }
                        proof {
                            assert(pairs.lists@.len() == pairs.names@.len());
                            assert forall|j: int| 0 <= j < pairs.lists@.len() implies (
                            #[trigger] pairs.lists@[j])@ == pairs_of(
                                *table,
                                index,
                                texts(pairs.names@)[j],
                                i as int,
                            ) by {
                                if j < before.lists@.len() {
                                    assert(before.lists@[j]@ == pairs_of(
                                        *table,
                                        index,
                                        texts(before.names@)[j],
                                        i as int,
                                    ));
                                    assert(texts(pairs.names@)[j] == texts(before.names@)[j]);
                                } else {
                                    assert(pairs.lists@[j]@ =~= Seq::empty());
                                    assert(pairs_of(*table, index, user@, i as int) =~= Seq::empty());
                                }
                            }
                        }
                        let ghost extended = pairs.lists@;
                        pairs.lists[slot].push((idx, value));
                        proof {
                            assert forall|j: int| 0 <= j < pairs.lists@.len() implies (
                            #[trigger] pairs.lists@[j])@ == pairs_of(
                                *table,
                                index,
                                texts(pairs.names@)[j],
                                i + 1,
                            ) by {
                                assert(extended[j]@ == pairs_of(
                                    *table,
                                    index,
                                    texts(pairs.names@)[j],
                                    i as int,
                                ));
                                if j != slot {
                                    assert(texts(pairs.names@)[j] != texts(
                                        pairs.names@,
                                    )[slot as int]);
                                }
                            }
                            assert forall|name: Seq<char>|
                                !texts(pairs.names@).contains(name) implies (#[trigger] pairs_of(
                                *table,
                                index,
                                name,
                                i + 1,
                            )).len() == 0 by {
                                assert(texts(pairs.names@)[slot as int] == user@);
                                if texts(before.names@).contains(name) {
                                    let k = choose|k: int|
                                        0 <= k < texts(before.names@).len() && texts(
                                            before.names@,
                                        )[k] == name;
                                    assert(texts(pairs.names@)[k] == name);
                                }
                                assert(pairs_of(*table, index, name, i as int).len() == 0);
                            }
                        }
                    } else {
                        proof {
                            lemma_row_skipped(*table, index, i as int);
                        }
                    }
                },
                _ => {
                    proof {
                        lemma_row_skipped(*table, index, i as int);
                    }
                },
            }
            i = i + 1;
        }
        pairs
    }

    /// The pairs of a user; none where the user is not known.
    pub fn get(&self, user: &str) -> (found: Vec<(usize, V)>)
        ensures
            forall|table: LongTable<V>, columns: Map<Seq<char>, usize>|
                #[trigger] self.holds(table, columns) ==> found@ == all_pairs_of(
                    table,
                    columns,
                    user@,
                ),
            self.is_blank() ==> found@.len() == 0,
    {
        let mut found: Vec<(usize, V)> = Vec::new();
        match id_get(&self.users, user) {
            Some(slot) => {
                if slot < self.lists.len() {
                    let list = &self.lists[slot];
                    let mut k: usize = 0;
                    while k < list.len()
                        invariant
                            k <= list@.len(),
                            found@ == list@.take(k as int),
                        decreases list@.len() - k,
                    {
                        found.push(list[k]);
                        assert(found@ =~= list@.take(k + 1));
                        k = k + 1;
                    }
                    assert(found@ =~= list@);
                }
                proof {
                    if is_index_of(id_entries(self.users), texts(self.names@)) {
                        index_and_names_are_inverse(
                            id_entries(self.users),
                            texts(self.names@),
                            user@,
                            0,
                        );
                    }
                    assert forall|table: LongTable<V>, columns: Map<Seq<char>, usize>|
                        #[trigger] self.holds(table, columns) implies found@ == all_pairs_of(
                        table,
                        columns,
                        user@,
                    ) by {
                        assert(self.lists@[slot as int]@ == pairs_of(
                            table,
                            columns,
                            texts(self.names@)[slot as int],
                            num_rows(table),
                        ));
                    }
                }
            },
            None => {
                proof {
                    assert forall|table: LongTable<V>, columns: Map<Seq<char>, usize>|
                        #[trigger] self.holds(table, columns) implies found@ == all_pairs_of(
                        table,
                        columns,
                        user@,
                    ) by {
                        assert(!texts(self.names@).contains(user@));
                        assert(pairs_of(table, columns, user@, num_rows(table)).len() == 0);
                        assert(found@ =~= all_pairs_of(table, columns, user@));
                    }
                }
            },
        }
        found
    }
}

/// A row that is incomplete or has an unknown column adds no pair.
proof fn lemma_row_skipped<V>(table: LongTable<V>, columns: Map<Seq<char>, usize>, i: int)
    requires
        0 <= i,
        match (text_of(table.rows@[i]), text_of(table.cols@[i]), table.values@[i]) {
            (Some(_), Some(column), Some(_)) => !columns.dom().contains(column),
            _ => true,
        },
    ensures
        forall|user: Seq<char>|
            #[trigger] pairs_of(table, columns, user, i + 1) == pairs_of(table, columns, user, i),
{
}

/// Row `i` is complete, belongs to `user` and has a known column.
pub open spec fn is_known_row<V>(
    table: LongTable<V>,
    columns: Map<Seq<char>, usize>,
    user: Seq<char>,
    i: int,
) -> bool {
    &&& i < table.rows@.len() && i < table.cols@.len() && i < table.values@.len()
    &&& table.rows@[i] is Some && table.rows@[i].unwrap()@ == user
    &&& table.cols@[i] is Some && columns.dom().contains(table.cols@[i].unwrap()@)
    &&& table.values@[i] is Some
}

/// The index of the column and the value of each known row of `user`, in the order of the rows.
pub open spec fn known_rows<V>(
    table: LongTable<V>,
    columns: Map<Seq<char>, usize>,
    user: Seq<char>,
) -> Seq<(usize, V)> {
    places(table.rows@.len(), |i: int| is_known_row(table, columns, user, i)).map_values(
        |i: int| (columns[table.cols@[i].unwrap()@], table.values@[i].unwrap()),
    )
}

/// A user's pairs are those of the complete rows of that user with a known column: each such row
/// contributes its pair, nothing else does, and they stand in the order of the rows.
pub proof fn pairs_are_the_known_rows<V>(
    table: LongTable<V>,
    columns: Map<Seq<char>, usize>,
    user: Seq<char>,
)
    ensures
        all_pairs_of(table, columns, user) == known_rows(table, columns, user),
        forall|i: int|
            0 <= i && #[trigger] is_known_row(table, columns, user, i) ==> all_pairs_of(
                table,
                columns,
                user,
            ).contains((columns[table.cols@[i].unwrap()@], table.values@[i].unwrap())),
{
    let n = num_rows(table) as nat;
    let holds = |i: int| is_known_row(table, columns, user, i);
    let pair = |i: int| (columns[table.cols@[i].unwrap()@], table.values@[i].unwrap());
    lemma_collects(n, holds, pair, |k: int| pairs_of(table, columns, user, k));
    lemma_no_more_places(n, table.rows@.len(), holds);
    places_are_chosen(table.rows@.len(), holds);
    let rows = places(table.rows@.len(), holds);
    let pairs = all_pairs_of(table, columns, user);
    assert forall|i: int|
        0 <= i && #[trigger] is_known_row(table, columns, user, i) implies pairs.contains(
        pair(i),
    ) by {
        assert(holds(i));
        let a = choose|a: int| 0 <= a < rows.len() && rows[a] == i;
        assert(pairs[a] == pair(i));
    }
}

/// Where the property fails beyond `n`, no place beyond it is chosen.
proof fn lemma_no_more_places(n: nat, m: nat, holds: spec_fn(int) -> bool)
    requires
        n <= m,
        forall|i: int| n <= i ==> !#[trigger] holds(i),
    ensures
        places(m, holds) == places(n, holds),
    decreases m,
{
    if n < m {
        lemma_no_more_places(n, (m - 1) as nat, holds);
        lemma_places_step((m - 1) as nat, holds);
    }
}

/// The users with pairs are those with a complete row whose column is known, each once.
pub proof fn listed_users_have_known_rows<V>(
    names: Seq<Seq<char>>,
    table: LongTable<V>,
    columns: Map<Seq<char>, usize>,
    user: Seq<char>,
)
    requires
        lists_users(names, table, columns),
    ensures
        names.no_duplicates(),
        names.contains(user) <==> exists|i: int|
            0 <= i && #[trigger] is_known_row(table, columns, user, i),
{
    pairs_are_the_known_rows(table, columns, user);
    let holds = |i: int| is_known_row(table, columns, user, i);
    let n = table.rows@.len();
    places_are_chosen(n, holds);
    let pairs = all_pairs_of(table, columns, user);
    if pairs.len() > 0 {
        let i = places(n, holds)[0];
        assert(holds(i));
        assert(is_known_row(table, columns, user, i));
    }
    if exists|i: int| 0 <= i && #[trigger] is_known_row(table, columns, user, i) {
        let i = choose|i: int| 0 <= i && #[trigger] is_known_row(table, columns, user, i);
        assert(pairs.contains((columns[table.cols@[i].unwrap()@], table.values@[i].unwrap())));
    }
}

} // verus!
