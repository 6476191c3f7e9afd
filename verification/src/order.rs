//! Comparison of scores and identifiers, and the stable orders built on it.

use crate::ids::texts;
use vstd::prelude::*;
use vstd::std_specs::cmp::{PartialOrdIs, PartialOrdSpec};
use vstd::utf8::{encode_utf8, encode_utf8_decode_utf8};

verus! {

/// The comparison operators of `T` compute what its comparison is specified to be.
pub open spec fn ordered_type<T: PartialOrd>() -> bool {
    T::obeys_partial_cmp_spec()
}

/// `a` compares strictly greater than `b`.
pub open spec fn outranks<T: PartialOrd>(a: T, b: T) -> bool {
    a.is_gt(&b)
}

/// `value` has a place in the order: it is at most itself. Only a value that is not a number (NaN)
/// has none.
pub open spec fn has_place<T: PartialOrd>(value: T) -> bool {
    value.is_le(&value)
}

/// `a` ranks above `b`: it is greater, or it has a place in the order and `b` has none.
pub open spec fn ranks_above<T: PartialOrd>(a: T, b: T) -> bool {
    outranks(a, b) || (has_place(a) && !has_place(b))
}

/// The values of `s` can be ranked: what ranks above another is not below it, and ranks above every
/// third value or that one ranks above the other. Integers and floating-point numbers always
/// satisfy this, NaN included, which ranks last.
pub open spec fn comparable<T: PartialOrd>(s: Seq<T>) -> bool {
    &&& ordered_type::<T>()
    &&& forall|i: int, j: int|
        0 <= i < s.len() && 0 <= j < s.len() && #[trigger] ranks_above(s[i], s[j]) ==> !ranks_above(
            s[j],
            s[i],
        )
    &&& forall|i: int, j: int, k: int|
        #![trigger ranks_above(s[i], s[k]), ranks_above(s[i], s[j])]
        #![trigger ranks_above(s[i], s[k]), ranks_above(s[j], s[k])]
        0 <= i < s.len() && 0 <= j < s.len() && 0 <= k < s.len() && ranks_above(s[i], s[k])
            ==> ranks_above(s[i], s[j]) || ranks_above(s[j], s[k])
}

/// Position `i` comes before position `j` in the ranking of `s`: its value ranks above the other, or
/// neither does and `i` is the earlier position.
pub open spec fn ranks_before<T: PartialOrd>(s: Seq<T>, i: int, j: int) -> bool {
    ranks_above(s[i], s[j]) || (!ranks_above(s[j], s[i]) && i < j)
}

/// Whether `a` ranks above `b`.
fn is_above<T: PartialOrd>(a: &T, b: &T) -> (above: bool)
    requires
        ordered_type::<T>(),
    ensures
        above == ranks_above(*a, *b),
{
    *a > *b || (*a <= *a && !(*b <= *b))
}

/// `lt` is a strict total order on `lo..hi`.
pub open spec fn strict_total(lt: spec_fn(int, int) -> bool, lo: int, hi: int) -> bool {
    &&& forall|i: int, j: int|
        lo <= i < hi && lo <= j < hi && #[trigger] lt(i, j) ==> !lt(j, i)
    &&& forall|i: int, j: int, k: int|
        lo <= i < hi && lo <= j < hi && lo <= k < hi && #[trigger] lt(i, j) && #[trigger] lt(j, k)
            ==> lt(i, k)
    &&& forall|i: int, j: int|
        #![trigger lt(i, j)]
        lo <= i < hi && lo <= j < hi && i != j ==> lt(i, j) || lt(j, i)
}

/// `s` holds every position of `lo..hi` exactly once.
pub open spec fn holds_positions(s: Seq<usize>, lo: int, hi: int) -> bool {
    &&& s.len() == hi - lo
    &&& s.no_duplicates()
    &&& forall|k: int| 0 <= k < s.len() ==> lo <= #[trigger] s[k] < hi
    &&& forall|x: usize| lo <= x < hi ==> #[trigger] s.contains(x)
}

/// `s` is sorted by `lt`.
pub open spec fn sorted_by_lt(s: Seq<usize>, lt: spec_fn(int, int) -> bool) -> bool {
    forall|a: int, b: int|
        #![trigger s[a], s[b]]
        0 <= a < b < s.len() ==> lt(s[a] as int, s[b] as int)
}

/// `order` is the ranking of `scores`: every position once, highest score first, equal scores in
/// ascending position. There is exactly one such sequence.
pub open spec fn is_ranking<T: PartialOrd>(order: Seq<usize>, scores: Seq<T>) -> bool {
    &&& holds_positions(order, 0, scores.len() as int)
    &&& forall|a: int, b: int|
        #![trigger order[a], order[b]]
        0 <= a < b < order.len() ==> ranks_before(scores, order[a] as int, order[b] as int)
}

/// Merges two sorted runs that hold adjacent ranges of positions.
fn merge_runs<F: Fn(usize, usize) -> bool>(
    left: Vec<usize>,
    right: Vec<usize>,
    lo: usize,
    mid: usize,
    hi: usize,
    less: &F,
    Ghost(lt): Ghost<spec_fn(int, int) -> bool>,
) -> (merged: Vec<usize>)
    requires
        lo <= mid <= hi,
        holds_positions(left@, lo as int, mid as int),
        holds_positions(right@, mid as int, hi as int),
        sorted_by_lt(left@, lt),
        sorted_by_lt(right@, lt),
        strict_total(lt, lo as int, hi as int),
        forall|i: usize, j: usize|
            lo <= i < hi && lo <= j < hi ==> #[trigger] less.requires((i, j)),
        forall|i: usize, j: usize, r: bool|
            lo <= i < hi && lo <= j < hi && #[trigger] less.ensures((i, j), r) ==> r == lt(
                i as int,
                j as int,
            ),
    ensures
        holds_positions(merged@, lo as int, hi as int),
        sorted_by_lt(merged@, lt),
{
    let mut merged: Vec<usize> = Vec::new();
    let mut a: usize = 0;
    let mut b: usize = 0;
    while a < left.len() || b < right.len()
        invariant
            lo <= mid <= hi,
            a <= left.len(),
            b <= right.len(),
            merged.len() == a + b,
            holds_positions(left@, lo as int, mid as int),
            holds_positions(right@, mid as int, hi as int),
            sorted_by_lt(left@, lt),
            sorted_by_lt(right@, lt),
            strict_total(lt, lo as int, hi as int),
            forall|i: usize, j: usize|
                lo <= i < hi && lo <= j < hi ==> #[trigger] less.requires((i, j)),
            forall|i: usize, j: usize, r: bool|
                lo <= i < hi && lo <= j < hi && #[trigger] less.ensures((i, j), r) ==> r == lt(
                    i as int,
                    j as int,
                ),
            sorted_by_lt(merged@, lt),
            forall|k: int|
                0 <= k < merged.len() ==> (exists|p: int| 0 <= p < a && left[p] == #[trigger] merged[k])
                    || (exists|p: int| 0 <= p < b && right[p] == merged[k]),
            forall|p: int| 0 <= p < a ==> merged@.contains(#[trigger] left[p]),
            forall|p: int| 0 <= p < b ==> merged@.contains(#[trigger] right[p]),
            forall|k: int, p: int|
                #![trigger merged[k], left[p]]
                0 <= k < merged.len() && a <= p < left.len() ==> lt(merged[k] as int, left[p] as int),
            forall|k: int, p: int|
                #![trigger merged[k], right[p]]
                0 <= k < merged.len() && b <= p < right.len() ==> lt(
                    merged[k] as int,
                    right[p] as int,
                ),
        decreases left.len() - a + right.len() - b,
    {
        let take_left: bool = if a == left.len() {
            false
        } else if b == right.len() {
            true
        } else {
            less(left[a], right[b])
        };
        let ghost before = merged@;
        if take_left {
            merged.push(left[a]);
            a = a + 1;
        } else {
            merged.push(right[b]);
            b = b + 1;
        }
        proof {
            assert forall|x: usize| before.contains(x) implies merged@.contains(x) by {
                let k = choose|k: int| 0 <= k < before.len() && before[k] == x;
                assert(merged@[k] == x);
            }
            assert(merged@[merged.len() - 1] == merged@.last());
            if take_left {
                assert(merged@.contains(left[a - 1]));
                assert forall|p: int| b <= p < right.len() implies lt(left[a - 1] as int, #[trigger] right[p] as int) by {
                    if b < right.len() {
                        assert(lt(left[a - 1] as int, right[b as int] as int));
                        assert(p == b || lt(right[b as int] as int, right[p] as int));
                    }
                }
            } else {
                assert(merged@.contains(right[b - 1]));
                assert forall|p: int| a <= p < left.len() implies lt(right[b - 1] as int, #[trigger] left[p] as int) by {
                    if a < left.len() {
                        assert(left[a as int] != right[b - 1]);
                        assert(lt(right[b - 1] as int, left[a as int] as int));
                        assert(p == a || lt(left[a as int] as int, left[p] as int));
                    }
                }
            }
        }
    }
    proof {
        assert forall|x: usize| lo <= x < hi implies #[trigger] merged@.contains(x) by {
            if x < mid {
                assert(left@.contains(x));
                let p = choose|p: int| 0 <= p < left.len() && left@[p] == x;
                assert(merged@.contains(left[p]));
            } else {
                assert(right@.contains(x));
                let p = choose|p: int| 0 <= p < right.len() && right@[p] == x;
                assert(merged@.contains(right[p]));
            }
        }
        assert forall|i: int, j: int| 0 <= i < merged.len() && 0 <= j < merged.len() && i != j implies merged@[i] != merged@[j] by {
            if i < j {
                assert(lt(merged[i] as int, merged[j] as int));
            } else {
                assert(lt(merged[j] as int, merged[i] as int));
            }
        }
    }
    merged
}

/// Sorts the positions `lo..hi` by `less`, which decides the strict total order `lt` on them.
pub(crate) fn sort_positions<F: Fn(usize, usize) -> bool>(
    lo: usize,
    hi: usize,
    less: &F,
    Ghost(lt): Ghost<spec_fn(int, int) -> bool>,
) -> (order: Vec<usize>)
    requires
        lo <= hi,
        strict_total(lt, lo as int, hi as int),
        forall|i: usize, j: usize|
            lo <= i < hi && lo <= j < hi ==> #[trigger] less.requires((i, j)),
        forall|i: usize, j: usize, r: bool|
            lo <= i < hi && lo <= j < hi && #[trigger] less.ensures((i, j), r) ==> r == lt(
                i as int,
                j as int,
            ),
    ensures
        holds_positions(order@, lo as int, hi as int),
        sorted_by_lt(order@, lt),
    decreases hi - lo,
{
    if hi - lo <= 1 {
        let mut order: Vec<usize> = Vec::new();
        if lo < hi {
            order.push(lo);
            assert(order@[0] == lo);
        }
        order
    } else {
        let mid: usize = lo + (hi - lo) / 2;
        let left = sort_positions(lo, mid, less, Ghost(lt));
        let right = sort_positions(mid, hi, less, Ghost(lt));
        merge_runs(left, right, lo, mid, hi, less, Ghost(lt))
    }
}

/// The positions of `scores`, highest score first and equal scores in ascending position; scores
/// without a place in the order come last.
pub fn rank_descending<T: PartialOrd + Copy>(scores: &[T]) -> (order: Vec<usize>)
    requires
        comparable(scores@),
    ensures
        is_ranking(order@, scores@),
{
    let ghost lt = |i: int, j: int| ranks_before(scores@, i, j);
    let less = |i: usize, j: usize| -> (r: bool)
        requires
            i < scores@.len(),
            j < scores@.len(),
            ordered_type::<T>(),
        ensures
            r == ranks_before(scores@, i as int, j as int),
        {
            is_above(&scores[i], &scores[j]) || (!is_above(&scores[j], &scores[i]) && i < j)
        };
    let order = sort_positions(0, scores.len(), &less, Ghost(lt));
    proof {
        assert forall|a: int, b: int|
            #![trigger order@[a], order@[b]]
            0 <= a < b < order@.len() implies ranks_before(scores@, order@[a] as int, order@[b] as int) by {
            assert(lt(order@[a] as int, order@[b] as int));
        }
    }
    order
}

/// The ranking of `scores`.
pub open spec fn ranking<T: PartialOrd>(scores: Seq<T>) -> Seq<usize> {
    choose|order: Seq<usize>| is_ranking(order, scores)
}

/// There is only one ranking of comparable scores.
pub proof fn ranking_is_unique<T: PartialOrd>(order: Seq<usize>, scores: Seq<T>)
    requires
        comparable(scores),
        is_ranking(order, scores),
    ensures
        order == ranking(scores),
{
    let other = ranking(scores);
    assert(is_ranking(other, scores));
    lemma_rankings_agree(order, other, scores, order.len() as int);
    assert(order =~= other);
}

proof fn lemma_rankings_agree<T: PartialOrd>(
    one: Seq<usize>,
    two: Seq<usize>,
    scores: Seq<T>,
    n: int,
)
    requires
        comparable(scores),
        is_ranking(one, scores),
        is_ranking(two, scores),
        0 <= n <= one.len(),
    ensures
        forall|k: int| 0 <= k < n ==> one[k] == two[k],
    decreases n,
{
    if n > 0 {
        let k = n - 1;
        lemma_rankings_agree(one, two, scores, k);
        if one[k] != two[k] {
            assert(two.contains(one[k]));
            assert(one.contains(two[k]));
            let a = choose|a: int| 0 <= a < two.len() && two[a] == one[k];
            let b = choose|b: int| 0 <= b < one.len() && one[b] == two[k];
            assert(a > k) by {
                if a < k {
                    assert(one[a] == two[a]);
                }
            }
            assert(b > k) by {
                if b < k {
                    assert(one[b] == two[b]);
                }
            }
            assert(ranks_before(scores, one[k] as int, one[b] as int));
            assert(ranks_before(scores, two[k] as int, two[a] as int));
            assert(ranks_above(scores[one[k] as int], scores[two[k] as int]) ==> !ranks_above(
                scores[two[k] as int],
                scores[one[k] as int],
            ));
        }
    }
}

/// Comparable scores have a ranking.
pub proof fn ranking_exists<T: PartialOrd>(scores: Seq<T>)
    requires
        comparable(scores),
        scores.len() <= usize::MAX,
    ensures
        is_ranking(ranking(scores), scores),
{
    let order = lemma_rank_prefix(scores, scores.len() as int);
    assert(is_ranking(order, scores)) by {
        assert forall|x: usize| 0 <= x < scores.len() implies #[trigger] order.contains(x) by {}
    }
}

/// The first `n` positions can be put into ranking order.
proof fn lemma_rank_prefix<T: PartialOrd>(scores: Seq<T>, n: int) -> (order: Seq<usize>)
    requires
        comparable(scores),
        0 <= n <= scores.len() <= usize::MAX,
    ensures
        holds_positions(order, 0, n),
        forall|a: int, b: int|
            #![trigger order[a], order[b]]
            0 <= a < b < order.len() ==> ranks_before(scores, order[a] as int, order[b] as int),
    decreases n,
{
    if n == 0 {
        Seq::empty()
    } else {
        let shorter = lemma_rank_prefix(scores, n - 1);
        let order = lemma_insert_ranked(scores, shorter, (n - 1) as usize);
        assert forall|x: usize| 0 <= x < n implies #[trigger] order.contains(x) by {
            if x < n - 1 {
                assert(shorter.contains(x));
            }
        }
        assert forall|k: int| 0 <= k < order.len() implies 0 <= #[trigger] order[k] < n by {
            assert(order.contains(order[k]));
            if order[k] != n - 1 {
                assert(shorter.contains(order[k]));
                let j = choose|j: int| 0 <= j < shorter.len() && shorter[j] == order[k];
            }
        }
        order
    }
}

/// A position can be put into a ranked sequence of other positions.
proof fn lemma_insert_ranked<T: PartialOrd>(scores: Seq<T>, order: Seq<usize>, x: usize) -> (longer:
    Seq<usize>)
    requires
        comparable(scores),
        x < scores.len(),
        order.no_duplicates(),
        !order.contains(x),
        forall|k: int| 0 <= k < order.len() ==> (#[trigger] order[k]) < scores.len(),
        forall|a: int, b: int|
            #![trigger order[a], order[b]]
            0 <= a < b < order.len() ==> ranks_before(scores, order[a] as int, order[b] as int),
    ensures
        longer.len() == order.len() + 1,
        longer.no_duplicates(),
        forall|y: usize| #[trigger] longer.contains(y) <==> order.contains(y) || y == x,
        forall|a: int, b: int|
            #![trigger longer[a], longer[b]]
            0 <= a < b < longer.len() ==> ranks_before(scores, longer[a] as int, longer[b] as int),
    decreases order.len(),
{
    if order.len() == 0 || ranks_before(scores, order.last() as int, x as int) {
        let longer = order.push(x);
        assert forall|a: int, b: int|
            #![trigger longer[a], longer[b]]
            0 <= a < b < longer.len() implies ranks_before(
            scores,
            longer[a] as int,
            longer[b] as int,
        ) by {
            assert(longer[a] == order[a]);
            if b == order.len() && a < order.len() - 1 {
                assert(ranks_before(scores, order[a] as int, order[order.len() - 1] as int));
            }
        }
        lemma_push_members(order, x);
        longer
    } else {
        let last = order.last();
        let shorter = order.drop_last();
        assert(order[order.len() - 1] == last);
        assert(order.contains(last));
        assert(ranks_before(scores, x as int, last as int));
        assert forall|k: int| 0 <= k < shorter.len() implies (#[trigger] shorter[k])
            < scores.len() by {
            assert(shorter[k] == order[k]);
        }
        assert(!shorter.contains(x)) by {
            if shorter.contains(x) {
                let k = choose|k: int| 0 <= k < shorter.len() && shorter[k] == x;
                assert(order[k] == x);
            }
        }
        let inner = lemma_insert_ranked(scores, shorter, x);
        let longer = inner.push(last);
        assert forall|a: int, b: int|
            #![trigger longer[a], longer[b]]
            0 <= a < b < longer.len() implies ranks_before(
            scores,
            longer[a] as int,
            longer[b] as int,
        ) by {
            if b < inner.len() {
                assert(ranks_before(scores, inner[a] as int, inner[b] as int));
            } else {
                assert(inner.contains(inner[a]));
                if inner[a] != x {
                    let k = choose|k: int| 0 <= k < shorter.len() && shorter[k] == inner[a];
                    assert(ranks_before(scores, order[k] as int, order[order.len() - 1] as int));
                }
            }
        }
        assert(!inner.contains(last)) by {
            if inner.contains(last) {
                let k = choose|k: int| 0 <= k < shorter.len() && shorter[k] == last;
                assert(order[k] == order[order.len() - 1]);
            }
        }
        lemma_push_members(inner, last);
        lemma_push_members(shorter, last);
        assert(order =~= shorter.push(last));
        longer
    }
}

proof fn lemma_push_members(s: Seq<usize>, x: usize)
    ensures
        forall|y: usize| #[trigger] s.push(x).contains(y) <==> s.contains(y) || y == x,
{
    let u = s.push(x);
    assert forall|y: usize| #[trigger] u.contains(y) <==> s.contains(y) || y == x by {
        if u.contains(y) {
            let k = choose|k: int| 0 <= k < u.len() && u[k] == y;
            if k < s.len() {
                assert(s[k] == y);
            }
        }
        if s.contains(y) {
            let k = choose|k: int| 0 <= k < s.len() && s[k] == y;
            assert(u[k] == y);
        }
        assert(u[s.len() as int] == x);
    }
}

/// Byte strings in lexicographic order: `a` comes strictly before `b`.
pub open spec fn bytes_before(a: Seq<u8>, b: Seq<u8>) -> bool
    decreases a.len(),
{
    if b.len() == 0 {
        false
    } else if a.len() == 0 {
        true
    } else {
        a[0] < b[0] || (a[0] == b[0] && bytes_before(a.drop_first(), b.drop_first()))
    }
}

/// Texts in the order of their UTF-8 bytes: `a` comes strictly before `b`.
pub open spec fn text_before(a: Seq<char>, b: Seq<char>) -> bool {
    bytes_before(encode_utf8(a), encode_utf8(b))
}

proof fn lemma_bytes_asymmetric(a: Seq<u8>, b: Seq<u8>)
    ensures
        bytes_before(a, b) ==> !bytes_before(b, a),
    decreases a.len(),
{
    if a.len() > 0 && b.len() > 0 {
        lemma_bytes_asymmetric(a.drop_first(), b.drop_first());
    }
}

proof fn lemma_bytes_transitive(a: Seq<u8>, b: Seq<u8>, c: Seq<u8>)
    ensures
        bytes_before(a, b) && bytes_before(b, c) ==> bytes_before(a, c),
    decreases a.len(),
{
    if a.len() > 0 && b.len() > 0 && c.len() > 0 {
        lemma_bytes_transitive(a.drop_first(), b.drop_first(), c.drop_first());
    }
}

proof fn lemma_bytes_total(a: Seq<u8>, b: Seq<u8>)
    ensures
        a == b || bytes_before(a, b) || bytes_before(b, a),
    decreases a.len(),
{
    if a.len() == 0 && b.len() == 0 {
        assert(a =~= b);
    } else if a.len() > 0 && b.len() > 0 {
        lemma_bytes_total(a.drop_first(), b.drop_first());
        if a[0] == b[0] && a.drop_first() == b.drop_first() {
            assert(a =~= seq![a[0]] + a.drop_first());
            assert(b =~= seq![b[0]] + b.drop_first());
        }
    }
}

/// `text_before` is a strict total order on texts.
pub proof fn text_order_is_total(a: Seq<char>, b: Seq<char>, c: Seq<char>)
    ensures
        text_before(a, b) ==> !text_before(b, a),
        text_before(a, b) && text_before(b, c) ==> text_before(a, c),
        a == b || text_before(a, b) || text_before(b, a),
{
    lemma_bytes_asymmetric(encode_utf8(a), encode_utf8(b));
    lemma_bytes_transitive(encode_utf8(a), encode_utf8(b), encode_utf8(c));
    lemma_bytes_total(encode_utf8(a), encode_utf8(b));
    encode_utf8_decode_utf8(a);
    encode_utf8_decode_utf8(b);
}

/// Whether text `a` comes strictly before text `b`.
pub fn text_less(a: &str, b: &str) -> (less: bool)
    ensures
        less == text_before(a@, b@),
{
    let left = a.as_bytes();
    let right = b.as_bytes();
    let mut i: usize = 0;
    assert(left@.skip(0) =~= left@);
    assert(right@.skip(0) =~= right@);
    while i < left.len() && i < right.len()
        invariant
            i <= left.len(),
            i <= right.len(),
            left@ == encode_utf8(a@),
            right@ == encode_utf8(b@),
            bytes_before(left@, right@) == bytes_before(
                left@.skip(i as int),
                right@.skip(i as int),
            ),
        decreases left.len() - i,
    {
        if left[i] < right[i] {
            return true;
        }
        if right[i] < left[i] {
            return false;
        }
        assert(left@.skip(i as int).drop_first() =~= left@.skip(i + 1));
        assert(right@.skip(i as int).drop_first() =~= right@.skip(i + 1));
        i = i + 1;
    }
    i < right.len()
}

/// The texts of `s` are distinct and in ascending order.
pub open spec fn ascending(s: Seq<Seq<char>>) -> bool {
    forall|a: int, b: int|
        #![trigger s[a], s[b]]
        0 <= a < b < s.len() ==> text_before(s[a], s[b])
}

/// The distinct members of `s` in ascending order.
pub open spec fn sorted_texts(s: Seq<Seq<char>>) -> Seq<Seq<char>> {
    choose|t: Seq<Seq<char>>| ascending(t) && t.to_set() == s.to_set()
}

/// There is only one ascending sequence of given members.
pub proof fn sorted_texts_is_unique(t: Seq<Seq<char>>, s: Seq<Seq<char>>)
    requires
        ascending(t),
        t.to_set() == s.to_set(),
    ensures
        t == sorted_texts(s),
{
    let other = sorted_texts(s);
    assert(ascending(other) && other.to_set() == s.to_set());
    lemma_ascending_distinct(t);
    lemma_ascending_distinct(other);
    t.unique_seq_to_set();
    other.unique_seq_to_set();
    lemma_ascending_agree(t, other, t.len() as int);
    assert(t =~= other);
}

proof fn lemma_ascending_distinct(t: Seq<Seq<char>>)
    requires
        ascending(t),
    ensures
        t.no_duplicates(),
{
    assert forall|a: int, b: int| 0 <= a < t.len() && 0 <= b < t.len() && a != b implies t[a]
        != t[b] by {
        text_order_is_total(t[a], t[b], t[a]);
        if a < b {
            assert(text_before(t[a], t[b]));
        } else {
            assert(text_before(t[b], t[a]));
        }
    }
}

proof fn lemma_ascending_agree(one: Seq<Seq<char>>, two: Seq<Seq<char>>, n: int)
    requires
        ascending(one),
        ascending(two),
        one.to_set() == two.to_set(),
        one.len() == two.len(),
        0 <= n <= one.len(),
    ensures
        forall|k: int| 0 <= k < n ==> one[k] == two[k],
    decreases n,
{
    if n > 0 {
        let k = n - 1;
        lemma_ascending_agree(one, two, k);
        lemma_ascending_distinct(one);
        lemma_ascending_distinct(two);
        if one[k] != two[k] {
            assert(one.to_set().contains(one[k]));
            assert(two.to_set().contains(two[k]));
            assert(two.contains(one[k]));
            assert(one.contains(two[k]));
            let a = choose|a: int| 0 <= a < two.len() && two[a] == one[k];
            let b = choose|b: int| 0 <= b < one.len() && one[b] == two[k];
            assert(a > k) by {
                if a < k {
                    assert(one[a] == two[a]);
                }
            }
            assert(b > k) by {
                if b < k {
                    assert(one[b] == two[b]);
                }
            }
            assert(text_before(one[k], one[b]));
            assert(text_before(two[k], two[a]));
            text_order_is_total(one[k], two[k], one[k]);
        }
    }
}

/// The positions of distinct texts, in ascending order of the texts.
pub fn sort_text_positions(names: &Vec<String>) -> (order: Vec<usize>)
    requires
        texts(names@).no_duplicates(),
    ensures
        holds_positions(order@, 0, names@.len() as int),
        forall|a: int, b: int|
            #![trigger order@[a], order@[b]]
            0 <= a < b < order@.len() ==> text_before(
                names@[order@[a] as int]@,
                names@[order@[b] as int]@,
            ),
{
    let ghost lt = |i: int, j: int| text_before(names@[i]@, names@[j]@);
    let less = |i: usize, j: usize| -> (r: bool)
        requires
            i < names@.len(),
            j < names@.len(),
        ensures
            r == text_before(names@[i as int]@, names@[j as int]@),
        { text_less(names[i].as_str(), names[j].as_str()) };
    proof {
        let n = names@.len() as int;
        assert forall|i: int, j: int| 0 <= i < n && 0 <= j < n && #[trigger] lt(i, j) implies !lt(
            j,
            i,
        ) by {
            text_order_is_total(names@[i]@, names@[j]@, names@[i]@);
        }
        assert forall|i: int, j: int, k: int|
            0 <= i < n && 0 <= j < n && 0 <= k < n && #[trigger] lt(i, j) && #[trigger] lt(
                j,
                k,
            ) implies lt(i, k) by {
            text_order_is_total(names@[i]@, names@[j]@, names@[k]@);
        }
        assert forall|i: int, j: int|
            #![trigger lt(i, j)]
            0 <= i < n && 0 <= j < n && i != j implies lt(i, j) || lt(j, i) by {
            text_order_is_total(names@[i]@, names@[j]@, names@[i]@);
            assert(texts(names@)[i] != texts(names@)[j]);
        }
    }
    let order = sort_positions(0, names.len(), &less, Ghost(lt));
    proof {
        assert forall|a: int, b: int|
            #![trigger order@[a], order@[b]]
            0 <= a < b < order@.len() implies text_before(
            names@[order@[a] as int]@,
            names@[order@[b] as int]@,
        ) by {
            assert(lt(order@[a] as int, order@[b] as int));
        }
    }
    order
}

/// Texts are ordered by the first byte in which they differ, and a text comes after its beginnings.
pub proof fn texts_are_ordered_by_first_difference(a: Seq<char>, b: Seq<char>)
    ensures
        text_before(a, b) <==> exists|k: int| first_differs(encode_utf8(a), encode_utf8(b), k),
{
    lemma_first_difference(encode_utf8(a), encode_utf8(b));
}

/// `a` and `b` agree before place `k`, where `a` ends or has the lower byte.
pub open spec fn first_differs(a: Seq<u8>, b: Seq<u8>, k: int) -> bool {
    &&& 0 <= k < b.len() && k <= a.len()
    &&& forall|i: int| 0 <= i < k ==> #[trigger] a[i] == b[i]
    &&& k == a.len() || a[k] < b[k]
}

proof fn lemma_first_difference(a: Seq<u8>, b: Seq<u8>)
    ensures
        bytes_before(a, b) <==> exists|k: int| first_differs(a, b, k),
    decreases a.len(),
{
    if b.len() == 0 {
    } else if a.len() == 0 {
        assert(first_differs(a, b, 0));
    } else {
        let (c, d) = (a.drop_first(), b.drop_first());
        lemma_first_difference(c, d);
        if bytes_before(a, b) {
            if a[0] < b[0] {
                assert(first_differs(a, b, 0));
            } else {
                let k = choose|k: int| first_differs(c, d, k);
                assert forall|i: int| 0 <= i < k + 1 implies #[trigger] a[i] == b[i] by {
                    if i > 0 {
                        assert(c[i - 1] == d[i - 1]);
                    }
                }
                assert(first_differs(a, b, k + 1));
            }
        }
        if exists|k: int| first_differs(a, b, k) {
            let k = choose|k: int| first_differs(a, b, k);
            if k > 0 {
                assert(a[0] == b[0]);
                assert forall|i: int| 0 <= i < k - 1 implies #[trigger] c[i] == d[i] by {
                    assert(a[i + 1] == b[i + 1]);
                }
                assert(first_differs(c, d, k - 1));
            }
        }
    }
}

/// A ranking holds every position once and descends: no score is followed by a greater one, nor one
/// that is no number by a number, and equal ones stand in ascending position.
pub proof fn rankings_descend<T: PartialOrd>(order: Seq<usize>, scores: Seq<T>, a: int, b: int)
    requires
        comparable(scores),
        is_ranking(order, scores),
        0 <= a < b < order.len(),
    ensures
        order.len() == scores.len(),
        order[a] < scores.len(),
        order[b] < scores.len(),
        order[a] != order[b],
        !scores[order[b] as int].is_gt(&scores[order[a] as int]),
        scores[order[b] as int].is_le(&scores[order[b] as int]) ==> scores[order[a] as int].is_le(
            &scores[order[a] as int],
        ),
        !scores[order[a] as int].is_gt(&scores[order[b] as int]) && (scores[order[a] as int].is_le(
            &scores[order[a] as int],
        ) ==> scores[order[b] as int].is_le(&scores[order[b] as int])) ==> order[a] < order[b],
{
    assert(ranks_before(scores, order[a] as int, order[b] as int));
    let (x, y) = (scores[order[a] as int], scores[order[b] as int]);
    if ranks_above(x, y) {
        assert(!ranks_above(y, x));
    }
}

} // verus!
