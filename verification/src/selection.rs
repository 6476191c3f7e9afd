//! Choosing and counting places by a property.

use vstd::prelude::*;

verus! {

/// The places below `n` at which `holds` is true, in ascending order.
pub open spec fn places(n: nat, holds: spec_fn(int) -> bool) -> Seq<int> {
    Seq::new(n, |i: int| i).filter(holds)
}

/// The number of places below `n` at which `holds` is true.
pub open spec fn tally(n: nat, holds: spec_fn(int) -> bool) -> nat {
    Set::new(|i: int| 0 <= i < n && holds(i)).len()
}

/// One more place is chosen where the property holds there.
pub proof fn lemma_places_step(n: nat, holds: spec_fn(int) -> bool)
    ensures
        places(0, holds) == Seq::<int>::empty(),
        places(n + 1, holds) == (if holds(n as int) {
            places(n, holds).push(n as int)
        } else {
            places(n, holds)
        }),
{
    reveal_with_fuel(Seq::filter, 2);
    let all = Seq::new(n + 1, |i: int| i);
    assert(all.drop_last() =~= Seq::new(n, |i: int| i));
    assert(all.last() == n);
    assert(Seq::new(0, |i: int| i) =~= Seq::<int>::empty());
}

/// What is chosen are exactly the places where the property holds, each once and ascending.
pub proof fn places_are_chosen(n: nat, holds: spec_fn(int) -> bool)
    ensures
        places(n, holds).len() <= n,
        forall|a: int|
            0 <= a < places(n, holds).len() ==> 0 <= #[trigger] places(n, holds)[a] < n && holds(
                places(n, holds)[a],
            ),
        forall|a: int, b: int|
            #![trigger places(n, holds)[a], places(n, holds)[b]]
            0 <= a < b < places(n, holds).len() ==> places(n, holds)[a] < places(n, holds)[b],
        forall|i: int| 0 <= i < n && #[trigger] holds(i) ==> places(n, holds).contains(i),
    decreases n,
{
    if n > 0 {
        let m = (n - 1) as nat;
        places_are_chosen(m, holds);
        lemma_places_step(m, holds);
        let earlier = places(m, holds);
        let all = places(n, holds);
        assert forall|i: int| 0 <= i < n && #[trigger] holds(i) implies all.contains(i) by {
            if i < m {
                let a = choose|a: int| 0 <= a < earlier.len() && earlier[a] == i;
                assert(all[a] == i);
            } else {
                assert(all[earlier.len() as int] == i);
            }
        }
    } else {
        lemma_places_step(0, holds);
    }
}

/// The count goes up by one where the property holds.
pub proof fn lemma_tally_step(n: nat, holds: spec_fn(int) -> bool)
    ensures
        tally(0, holds) == 0,
        tally(n + 1, holds) == tally(n, holds) + (if holds(n as int) {
            1nat
        } else {
            0nat
        }),
        tally(n, holds) <= n,
        Set::new(|i: int| 0 <= i < n && holds(i)).finite(),
    decreases n,
{
    let before = Set::new(|i: int| 0 <= i < n && holds(i));
    let after = Set::new(|i: int| 0 <= i < n + 1 && holds(i));
    assert(Set::new(|i: int| 0 <= i < 0 && holds(i)) =~= Set::<int>::empty());
    if n > 0 {
        lemma_tally_step((n - 1) as nat, holds);
        let shorter = Set::new(|i: int| 0 <= i < n - 1 && holds(i));
        assert(shorter =~= Set::new(|i: int| 0 <= i < (n - 1) as nat && holds(i)));
        if holds(n - 1) {
            assert(before =~= shorter.insert(n - 1));
        } else {
            assert(before =~= shorter);
        }
    } else {
        assert(before =~= Set::<int>::empty());
    }
    if holds(n as int) {
        assert(after =~= before.insert(n as int));
    } else {
        assert(after =~= before);
    }
}

/// A sequence that grows by `value(k)` at each place `k` where `holds` is true, in order, holds the
/// values of the chosen places.
pub proof fn lemma_collects<T>(
    n: nat,
    holds: spec_fn(int) -> bool,
    value: spec_fn(int) -> T,
    grown: spec_fn(int) -> Seq<T>,
)
    requires
        grown(0) == Seq::<T>::empty(),
        forall|k: int|
            0 < k <= n ==> #[trigger] grown(k) == (if holds(k - 1) {
                grown(k - 1).push(value(k - 1))
            } else {
                grown(k - 1)
            }),
    ensures
        grown(n as int) == places(n, holds).map_values(value),
    decreases n,
{
    if n > 0 {
        let m = (n - 1) as nat;
        lemma_collects(m, holds, value, grown);
        lemma_places_step(m, holds);
        assert(grown(n as int) =~= places(n, holds).map_values(value));
    } else {
        lemma_places_step(0, holds);
        assert(grown(0) =~= places(0, holds).map_values(value));
    }
}

/// A number that grows by one at each place where `holds` is true counts these places.
pub proof fn lemma_counts(n: nat, holds: spec_fn(int) -> bool, grown: spec_fn(int) -> nat)
    requires
        grown(0) == 0,
        forall|k: int|
            0 < k <= n ==> #[trigger] grown(k) == (if holds(k - 1) {
                grown(k - 1) + 1
            } else {
                grown(k - 1)
            }),
    ensures
        grown(n as int) == tally(n, holds),
    decreases n,
{
    if n > 0 {
        let m = (n - 1) as nat;
        lemma_counts(m, holds, grown);
        lemma_tally_step(m, holds);
    } else {
        lemma_tally_step(0, holds);
    }
}

/// A value that takes in one element after the other is the fold of them.
pub proof fn lemma_folds<A, B>(
    values: Seq<A>,
    start: B,
    step: spec_fn(B, A) -> B,
    grown: spec_fn(int) -> B,
    n: nat,
)
    requires
        n <= values.len(),
        grown(0) == start,
        forall|k: int|
            0 < k <= values.len() ==> #[trigger] grown(k) == step(grown(k - 1), values[k - 1]),
    ensures
        grown(n as int) == values.take(n as int).fold_left(start, step),
    decreases n,
{
    if n > 0 {
        lemma_folds(values, start, step, grown, (n - 1) as nat);
        assert(values.take(n as int).drop_last() =~= values.take(n - 1));
        assert(values.take(n as int).last() == values[n - 1]);
    }
}

/// Properties that agree below `n` choose the same places, and as many.
pub proof fn lemma_same_places(n: nat, here: spec_fn(int) -> bool, there: spec_fn(int) -> bool)
    requires
        forall|i: int| 0 <= i < n ==> #[trigger] here(i) == there(i),
    ensures
        places(n, here) == places(n, there),
        tally(n, here) == tally(n, there),
    decreases n,
{
    if n > 0 {
        let m = (n - 1) as nat;
        lemma_same_places(m, here, there);
        lemma_places_step(m, here);
        lemma_places_step(m, there);
        assert(here(n - 1) == there(n - 1));
    } else {
        lemma_places_step(0, here);
        lemma_places_step(0, there);
    }
    assert(Set::new(|i: int| 0 <= i < n && here(i)) =~= Set::new(
        |i: int| 0 <= i < n && there(i),
    ));
}

} // verus!
