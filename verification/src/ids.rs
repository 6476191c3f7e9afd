//! String identifiers and the dense indices that stand for them.

use ahash::{AHashMap, AHashSet};
use vstd::prelude::*;

verus! {

/// The hasher state of `ahash`.
#[verifier::external_type_specification]
#[verifier::external_body]
pub struct ExRandomState(ahash::RandomState);

/// The hash map of `ahash`.
#[verifier::external_type_specification]
#[verifier::external_body]
#[verifier::reject_recursive_types(K)]
#[verifier::reject_recursive_types(V)]
#[verifier::reject_recursive_types(S)]
pub struct ExAHashMap<K, V, S>(ahash::AHashMap<K, V, S>);

/// The hash set of `ahash`.
#[verifier::external_type_specification]
#[verifier::external_body]
#[verifier::reject_recursive_types(T)]
#[verifier::reject_recursive_types(S)]
pub struct ExAHashSet<T, S>(ahash::AHashSet<T, S>);

/// The entries of an identifier map: each key by its characters.
pub uninterp spec fn id_entries(map: AHashMap<String, usize>) -> Map<Seq<char>, usize>;

/// The members of an index set.
pub uninterp spec fn index_members(set: AHashSet<usize>) -> Set<usize>;

/// The entries of a map from indices to counts.
pub uninterp spec fn count_entries(map: AHashMap<usize, usize>) -> Map<usize, usize>;

/// `AHashMap::new`: a map without entries.
#[verifier::external_body]
pub(crate) fn new_id_map() -> (created: AHashMap<String, usize>)
    ensures
        id_entries(created).dom() == Set::<Seq<char>>::empty(),
{
    AHashMap::new()
}

/// `AHashMap::get` with a borrowed key: the value stored under the key, if there is one.
#[verifier::external_body]
pub(crate) fn id_get(map: &AHashMap<String, usize>, key: &str) -> (found: Option<usize>)
    ensures
        found == (if id_entries(*map).dom().contains(key@) {
            Some(id_entries(*map)[key@])
        } else {
            None
        }),
{
    map.get(key).copied()
}

/// `AHashMap::insert`: stores the value under the key, in place of what was there.
#[verifier::external_body]
pub(crate) fn id_insert(map: &mut AHashMap<String, usize>, key: String, value: usize)
    ensures
        id_entries(*final(map)) == id_entries(*old(map)).insert(key@, value),
{
    map.insert(key, value);
}

/// `AHashMap::remove`: takes the key's entry out and returns its value, if there is one.
#[verifier::external_body]
pub(crate) fn id_remove(map: &mut AHashMap<String, usize>, key: &str) -> (removed: Option<usize>)
    ensures
        id_entries(*final(map)) == id_entries(*old(map)).remove(key@),
        removed == (if id_entries(*old(map)).dom().contains(key@) {
            Some(id_entries(*old(map))[key@])
        } else {
            None
        }),
{
    map.remove(key)
}

/// `HashMap::len` through the map's `Deref`: the number of entries.
#[verifier::external_body]
pub(crate) fn id_count(map: &AHashMap<String, usize>) -> (count: usize)
    ensures
        count == id_entries(*map).dom().len(),
{
    map.len()
}

/// `HashMap::keys` through the map's `Deref`: every key once, in an order that is not specified.
#[verifier::external_body]
pub(crate) fn id_keys(map: &AHashMap<String, usize>) -> (keys: Vec<String>)
    ensures
        texts(keys@).no_duplicates(),
        forall|key: Seq<char>|
            #[trigger] texts(keys@).contains(key) <==> id_entries(*map).dom().contains(key),
{
    map.keys().cloned().collect()
}

/// `AHashSet::new`: a set without members.
#[verifier::external_body]
pub(crate) fn new_index_set() -> (created: AHashSet<usize>)
    ensures
        index_members(created) == Set::<usize>::empty(),
{
    AHashSet::new()
}

/// `HashSet::insert` through the set's `DerefMut`: adds the index.
#[verifier::external_body]
pub(crate) fn index_insert(set: &mut AHashSet<usize>, index: usize)
    ensures
        index_members(*final(set)) == index_members(*old(set)).insert(index),
{
    set.insert(index);
}

/// `HashSet::contains` through the set's `Deref`: whether the index is a member.
#[verifier::external_body]
pub(crate) fn index_contains(set: &AHashSet<usize>, index: usize) -> (found: bool)
    ensures
        found == index_members(*set).contains(index),
{
    set.contains(&index)
}

/// `HashSet::len` through the set's `Deref`: the number of members.
#[verifier::external_body]
pub(crate) fn index_count(set: &AHashSet<usize>) -> (count: usize)
    ensures
        count == index_members(*set).len(),
{
    set.len()
}

/// `AHashMap::new`: a map without entries.
#[verifier::external_body]
pub(crate) fn new_count_map() -> (created: AHashMap<usize, usize>)
    ensures
        count_entries(created).dom() == Set::<usize>::empty(),
{
    AHashMap::new()
}

/// `AHashMap::get`: the count stored under the index, if there is one.
#[verifier::external_body]
pub(crate) fn count_get(map: &AHashMap<usize, usize>, index: usize) -> (found: Option<usize>)
    ensures
        found == (if count_entries(*map).dom().contains(index) {
            Some(count_entries(*map)[index])
        } else {
            None
        }),
{
    map.get(&index).copied()
}

/// `AHashMap::insert`: stores the count under the index, in place of what was there.
#[verifier::external_body]
pub(crate) fn count_insert(map: &mut AHashMap<usize, usize>, index: usize, count: usize)
    ensures
        count_entries(*final(map)) == count_entries(*old(map)).insert(index, count),
{
    map.insert(index, count);
}

/// The characters of each string.
pub open spec fn texts(strings: Seq<String>) -> Seq<Seq<char>> {
    strings.map_values(|s: String| s@)
}

/// The characters of an optional string.
pub open spec fn text_of(cell: Option<String>) -> Option<Seq<char>> {
    match cell {
        Some(s) => Some(s@),
        None => None,
    }
}

/// The distinct members of `s` in order of first occurrence.
pub open spec fn first_seen(s: Seq<Seq<char>>) -> Seq<Seq<char>>
    decreases s.len(),
{
    if s.len() == 0 {
        Seq::empty()
    } else {
        let shorter = first_seen(s.drop_last());
        if shorter.contains(s.last()) {
            shorter
        } else {
            shorter.push(s.last())
        }
    }
}

/// The texts of the cells that are present, in order.
pub open spec fn present(column: Seq<Option<String>>) -> Seq<Seq<char>>
    decreases column.len(),
{
    if column.len() == 0 {
        Seq::empty()
    } else {
        match column.last() {
            Some(s) => present(column.drop_last()).push(s@),
            None => present(column.drop_last()),
        }
    }
}

/// `entries` maps the names of `names` to their positions, and nothing else: the two are inverse to
/// each other.
pub open spec fn is_index_of(entries: Map<Seq<char>, usize>, names: Seq<Seq<char>>) -> bool {
    &&& names.no_duplicates()
    &&& forall|key: Seq<char>| #[trigger] entries.dom().contains(key) <==> names.contains(key)
    &&& forall|i: int|
        0 <= i < names.len() ==> entries.dom().contains(#[trigger] names[i])
            && entries[names[i]] == i
}

/// Looking up the name at an index gives the index back, and the name at a found index is the name
/// that was looked up.
pub proof fn index_and_names_are_inverse(
    entries: Map<Seq<char>, usize>,
    names: Seq<Seq<char>>,
    name: Seq<char>,
    i: int,
)
    requires
        is_index_of(entries, names),
    ensures
        0 <= i < names.len() ==> entries.dom().contains(names[i]) && entries[names[i]] == i,
        entries.dom().contains(name) ==> entries[name] < names.len() && names[entries[name] as int]
            == name,
{
    if entries.dom().contains(name) {
        assert(names.contains(name));
        let k = choose|k: int| 0 <= k < names.len() && names[k] == name;
        assert(entries[names[k]] == k);
    }
}

/// Adding a new name at the end keeps the index.
proof fn lemma_extend_index(entries: Map<Seq<char>, usize>, names: Seq<Seq<char>>, name: Seq<char>)
    requires
        is_index_of(entries, names),
        !names.contains(name),
        names.len() <= usize::MAX,
    ensures
        is_index_of(entries.insert(name, names.len() as usize), names.push(name)),
{
    let longer = names.push(name);
    let more = entries.insert(name, names.len() as usize);
    assert forall|key: Seq<char>| #[trigger] more.dom().contains(key) <==> longer.contains(key) by {
        if longer.contains(key) {
            let k = choose|k: int| 0 <= k < longer.len() && longer[k] == key;
            if k < names.len() {
                assert(names[k] == key);
            }
        }
        if names.contains(key) {
            let k = choose|k: int| 0 <= k < names.len() && names[k] == key;
            assert(longer[k] == key);
        }
        assert(longer[names.len() as int] == name);
    }
    assert forall|i: int| 0 <= i < longer.len() implies more.dom().contains(#[trigger] longer[i])
        && more[longer[i]] == i by {
        if i < names.len() {
            assert(longer[i] == names[i]);
            assert(names.contains(names[i]));
        }
    }
    assert forall|i: int, j: int|
        0 <= i < longer.len() && 0 <= j < longer.len() && i != j implies longer[i] != longer[j] by {
        if i < names.len() {
            assert(names.contains(names[i]));
        }
        if j < names.len() {
            assert(names.contains(names[j]));
        }
    }
}

/// The index of `key`: the one it has, or the next free one, which it gets.
pub fn intern(map: &mut AHashMap<String, usize>, vec: &mut Vec<String>, key: &str) -> (index: usize)
    requires
        is_index_of(id_entries(*old(map)), texts(old(vec)@)),
    ensures
        is_index_of(id_entries(*final(map)), texts(final(vec)@)),
        texts(final(vec)@) == (if texts(old(vec)@).contains(key@) {
            texts(old(vec)@)
        } else {
            texts(old(vec)@).push(key@)
        }),
        index < final(vec)@.len(),
        texts(final(vec)@)[index as int] == key@,
{
    let ghost names = texts(vec@);
    if let Some(i) = id_get(map, key) {
        proof {
            index_and_names_are_inverse(id_entries(*map), names, key@, 0);
        }
        return i;
    }
    let i: usize = vec.len();
    proof {
        lemma_extend_index(id_entries(*map), names, key@);
    }
    id_insert(map, key.to_owned(), i);
    vec.push(key.to_owned());
    assert(texts(vec@) =~= names.push(key@));
    i
}

/// The keys of listed entries.
pub open spec fn listed_keys(list: Seq<(String, usize)>) -> Seq<Seq<char>> {
    list.map_values(|entry: (String, usize)| entry.0@)
}

/// `list` holds the entries of a map, each once.
pub open spec fn lists_entries(list: Seq<(String, usize)>, entries: Map<Seq<char>, usize>) -> bool {
    &&& listed_keys(list).no_duplicates()
    &&& forall|key: Seq<char>|
        #[trigger] entries.dom().contains(key) <==> listed_keys(list).contains(key)
    &&& forall|i: int|
        0 <= i < list.len() ==> (#[trigger] list[i]).1 == entries[list[i].0@]
}

/// The map that the first `n` listed entries make, a later one in place of an earlier one with the
/// same key.
pub open spec fn entries_of(list: Seq<(String, usize)>, n: int) -> Map<Seq<char>, usize>
    decreases n,
{
    if n <= 0 {
        Map::empty()
    } else {
        entries_of(list, n - 1).insert(list[n - 1].0@, list[n - 1].1)
    }
}

/// Lists the entries of a map, in an order that is not specified.
pub fn list_entries(map: &AHashMap<String, usize>) -> (list: Vec<(String, usize)>)
    ensures
        lists_entries(list@, id_entries(*map)),
{
    let keys = id_keys(map);
    let ghost entries = id_entries(*map);
    let mut list: Vec<(String, usize)> = Vec::new();
    let mut i: usize = 0;
    while i < keys.len()
        invariant
            i <= keys@.len(),
            entries == id_entries(*map),
            texts(keys@).no_duplicates(),
            forall|key: Seq<char>|
                #[trigger] texts(keys@).contains(key) <==> entries.dom().contains(key),
            list@.len() == i,
            forall|k: int|
                0 <= k < i ==> (#[trigger] list@[k]).0@ == texts(keys@)[k] && list@[k].1
                    == entries[texts(keys@)[k]],
        decreases keys@.len() - i,
    {
        assert(texts(keys@)[i as int] == keys@[i as int]@);
        assert(texts(keys@).contains(texts(keys@)[i as int]));
        match id_get(map, keys[i].as_str()) {
            Some(value) => {
                list.push((keys[i].clone(), value));
            },
            None => {
                list.push((keys[i].clone(), 0));
            },
        }
        i = i + 1;
    }
    assert(listed_keys(list@) =~= texts(keys@));
    list
}

/// Makes a map of listed entries.
pub fn collect_entries(list: &Vec<(String, usize)>) -> (map: AHashMap<String, usize>)
    ensures
        id_entries(map) == entries_of(list@, list@.len() as int),
{
    let mut map = new_id_map();
    let mut i: usize = 0;
    assert(id_entries(map) =~= Map::empty());
    while i < list.len()
        invariant
            i <= list@.len(),
            id_entries(map) == entries_of(list@, i as int),
        decreases list@.len() - i,
    {
        id_insert(&mut map, list[i].0.clone(), list[i].1);
        i = i + 1;
    }
    map
}

/// Listing a map and collecting the list gives the map back.
pub proof fn listing_is_lossless(list: Seq<(String, usize)>, entries: Map<Seq<char>, usize>)
    requires
        lists_entries(list, entries),
    ensures
        entries_of(list, list.len() as int) == entries,
{
    lemma_entries_of(list, list.len() as int);
    let made = entries_of(list, list.len() as int);
    assert forall|key: Seq<char>|
        #[trigger] made.dom().contains(key) <==> entries.dom().contains(key) by {
        if listed_keys(list).contains(key) {
            let i = choose|i: int| 0 <= i < list.len() && listed_keys(list)[i] == key;
            assert(list[i].0@ == key);
        }
        if made.dom().contains(key) {
            let i = choose|i: int| 0 <= i < list.len() && (#[trigger] list[i]).0@ == key;
            assert(listed_keys(list)[i] == key);
        }
    }
    assert forall|key: Seq<char>| #[trigger] made.dom().contains(key) implies made[key]
        == entries[key] by {
        let i = choose|i: int|
            0 <= i < list.len() && (#[trigger] list[i]).0@ == key && made[key] == list[i].1;
        assert(list[i].1 == entries[list[i].0@]);
    }
    assert(made =~= entries);
}

proof fn lemma_entries_of(list: Seq<(String, usize)>, n: int)
    requires
        0 <= n <= list.len(),
    ensures
        forall|key: Seq<char>|
            #[trigger] entries_of(list, n).dom().contains(key) <==> exists|i: int|
                0 <= i < n && (#[trigger] list[i]).0@ == key,
        forall|key: Seq<char>| #[trigger]
            entries_of(list, n).dom().contains(key) ==> exists|i: int|
                0 <= i < n && (#[trigger] list[i]).0@ == key && entries_of(list, n)[key]
                    == list[i].1,
    decreases n,
{
    if n > 0 {
        lemma_entries_of(list, n - 1);
        let earlier = entries_of(list, n - 1);
        let made = entries_of(list, n);
        assert forall|key: Seq<char>|
            #[trigger] made.dom().contains(key) <==> exists|i: int|
                0 <= i < n && (#[trigger] list[i]).0@ == key by {
            if earlier.dom().contains(key) {
                let i = choose|i: int| 0 <= i < n - 1 && (#[trigger] list[i]).0@ == key;
                assert(0 <= i < n && list[i].0@ == key);
            }
            if list[n - 1].0@ == key {
                assert(0 <= n - 1 < n && list[n - 1].0@ == key);
            }
            if exists|i: int| 0 <= i < n && (#[trigger] list[i]).0@ == key {
                let i = choose|i: int| 0 <= i < n && (#[trigger] list[i]).0@ == key;
                if i < n - 1 {
                    assert(earlier.dom().contains(key));
                }
            }
        }
        assert forall|key: Seq<char>| #[trigger] made.dom().contains(key) implies exists|i: int|
            0 <= i < n && (#[trigger] list[i]).0@ == key && made[key] == list[i].1 by {
            if list[n - 1].0@ == key {
                assert(0 <= n - 1 < n && list[n - 1].0@ == key);
            } else {
                assert(earlier.dom().contains(key));
                let i = choose|i: int|
                    0 <= i < n - 1 && (#[trigger] list[i]).0@ == key && earlier[key] == list[i].1;
                assert(0 <= i < n && list[i].0@ == key);
            }
        }
    }
}

/// Texts are the characters of the strings, and a cell's those of its string, if it has one.
pub proof fn texts_are_the_characters(strings: Seq<String>, cell: Option<String>, i: int)
    requires
        0 <= i < strings.len(),
    ensures
        texts(strings).len() == strings.len(),
        texts(strings)[i] == strings[i]@,
        text_of(cell) is Some <==> cell is Some,
        cell is Some ==> text_of(cell) == Some(cell.unwrap()@),
{
}

/// Of listed entries with one key the last one counts, and a key that is not listed has none.
pub proof fn the_last_listed_entry_counts(list: Seq<(String, usize)>, n: int, key: Seq<char>)
    requires
        0 <= n <= list.len(),
    ensures
        forall|i: int|
            0 <= i < n && (#[trigger] list[i]).0@ == key && (forall|k: int|
                i < k < n ==> (#[trigger] list[k]).0@ != key) ==> entries_of(
                list,
                n,
            ).dom().contains(key) && entries_of(list, n)[key] == list[i].1,
        (forall|k: int| 0 <= k < n ==> (#[trigger] list[k]).0@ != key) ==> !entries_of(
            list,
            n,
        ).dom().contains(key),
    decreases n,
{
    if n > 0 {
        the_last_listed_entry_counts(list, n - 1, key);
        assert(list[n - 1].0@ == key || list[n - 1].0@ != key);
        if forall|k: int| 0 <= k < n ==> (#[trigger] list[k]).0@ != key {
            assert(list[n - 1].0@ != key);
            assert(forall|k: int| 0 <= k < n - 1 ==> (#[trigger] list[k]).0@ != key);
        }
        assert forall|i: int|
            0 <= i < n && (#[trigger] list[i]).0@ == key && (forall|k: int|
                i < k < n ==> (#[trigger] list[k]).0@ != key) implies entries_of(
            list,
            n,
        ).dom().contains(key) && entries_of(list, n)[key] == list[i].1 by {
            if i < n - 1 {
                assert(list[n - 1].0@ != key);
            }
        }
    }
}

} // verus!
