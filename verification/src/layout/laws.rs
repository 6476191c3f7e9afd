//! What the layout solver guarantees of the pages it returns.

use crate::layout::{
    format_at, format_code, is_laid_out, layout_task, occurrences, sequence_allowed, slot_allowed,
    transition_allowed, ConstraintRule, Format, LayoutTask, Tray, NUM_FORMATS,
};
use crate::numeric::total;
use crate::order::outranks;
use crate::selection::{lemma_tally_step, tally};
use std::ops::Add;
use vstd::prelude::*;

verus! {

/// No banner follows a banner on a page that obeys the rule against it.
pub proof fn no_two_banners_in_a_row<U: PartialOrd + Add<Output = U>>(
    task: LayoutTask<U>,
    choice: Seq<int>,
    i: int,
)
    requires
        task.is_solution(choice),
        task.rules.contains(ConstraintRule::NoConsecutive(Format::Banner)),
        0 <= i,
        i + 1 < task.trays.len(),
    ensures
        !(task.formats(choice)[i] == Format::Banner && task.formats(choice)[i + 1]
            == Format::Banner),
{
    let c = choose|c: int|
        0 <= c < task.rules.len() && task.rules[c] == ConstraintRule::NoConsecutive(Format::Banner);
    assert(choice[i] == choice[i] && choice[i + 1] == choice[i + 1]);
    assert(transition_allowed(task.rules, task.formats(choice)[i], task.formats(choice)[i + 1]));
    assert(task.rules[c].allows_transition(task.formats(choice)[i], task.formats(choice)[i + 1]));
}

/// A limited format occurs on a page at most as often as the limit says.
pub proof fn limits_are_kept<U: PartialOrd + Add<Output = U>>(
    task: LayoutTask<U>,
    choice: Seq<int>,
    format: Format,
    limit: usize,
)
    requires
        task.is_solution(choice),
        task.rules.contains(ConstraintRule::MaxOccurrences { format, limit }),
    ensures
        occurrences(task.formats(choice), format) <= limit,
{
    let c = choose|c: int|
        0 <= c < task.rules.len() && task.rules[c] == (ConstraintRule::MaxOccurrences {
            format,
            limit,
        });
    assert(sequence_allowed(task.rules, task.formats(choice)));
    assert(task.rules[c].allows_sequence(task.formats(choice)));
}

/// A greater height budget never makes the best page worse.
pub proof fn a_greater_budget_is_not_worse<U: PartialOrd + Add<Output = U>>(
    small: LayoutTask<U>,
    large: LayoutTask<U>,
    choice: Seq<int>,
    other: Seq<int>,
)
    requires
        large == (LayoutTask { max_height: large.max_height, ..small }),
        small.max_height <= large.max_height,
        small.is_solution(choice),
        large.is_best_solution(other),
    ensures
        !large.outdoes(choice, other),
{
    lemma_same_measures(small, large, choice);
    assert forall|k: int| 0 < k <= choice.len() implies large.utility(
        #[trigger] choice.take(k),
    ) == small.utility(choice.take(k)) by {
        lemma_same_measures(small, large, choice.take(k));
    }
    assert(large.formats(choice) =~= small.formats(choice));
    assert(large.is_choice(choice)) by {
        assert forall|i: int| 0 <= i < choice.len() implies large.option(choice, i)
            == #[trigger] small.option(choice, i) by {}
    }
    assert(large.is_solution(choice));
}

/// Height and utility of a choice do not depend on the budget.
proof fn lemma_same_measures<U: PartialOrd + Add<Output = U>>(
    small: LayoutTask<U>,
    large: LayoutTask<U>,
    choice: Seq<int>,
)
    requires
        small.trays == large.trays,
    ensures
        small.height(choice) == large.height(choice),
        small.utility(choice) == large.utility(choice),
    decreases choice.len(),
{
    if choice.len() > 0 {
        lemma_same_measures(small, large, choice.drop_last());
    }
}

/// Every utility lies between `-bound` and `bound`.
pub open spec fn utilities_within(trays: Seq<Tray<i64>>, bound: int) -> bool {
    forall|i: int, n: int|
        0 <= i < trays.len() && 0 <= n < trays[i].options@.len() ==> -bound <= (
        #[trigger] trays[i].options@[n]).utility <= bound
}

/// The utility of a choice is the sum of its options' utilities, within the bound for their number.
proof fn lemma_whole_utility(task: LayoutTask<i64>, choice: Seq<int>, bound: int)
    requires
        utilities_within(task.trays, bound),
        0 <= bound,
        task.trays.len() * bound <= i64::MAX,
        0 < choice.len() <= task.trays.len(),
        forall|i: int|
            0 <= i < choice.len() ==> 0 <= #[trigger] choice[i] < task.trays[i].options@.len(),
    ensures
        -(choice.len() * bound) <= task.utility(choice) <= choice.len() * bound,
        choice.len() * bound <= task.trays.len() * bound,
        choice.len() > 1 ==> task.utility(choice) == task.utility(choice.drop_last()) + task.option(
            choice,
            choice.len() - 1,
        ).utility,
    decreases choice.len(),
{
    let len = choice.len() as int;
    let count = task.trays.len() as int;
    assert(len * bound <= count * bound) by (nonlinear_arith)
        requires
            0 <= len <= count,
            0 <= bound,
    ;
    assert(choice[len - 1] == choice[len - 1]);
    let last = task.option(choice, len - 1).utility;
    assert(-bound <= last <= bound);
    if len > 1 {
        let shorter = choice.drop_last();
        assert forall|i: int| 0 <= i < shorter.len() implies 0 <= #[trigger] shorter[i]
            < task.trays[i].options@.len() by {
            assert(shorter[i] == choice[i]);
        }
        lemma_whole_utility(task, shorter, bound);
        assert((len - 1) * bound + bound == len * bound) by (nonlinear_arith);
    } else {
        assert(len * bound == bound) by (nonlinear_arith)
            requires
                len == 1,
        ;
    }
}

/// Whole utilities whose sums do not overflow are ordered as the solver asks.
pub proof fn whole_utilities_are_ordered(task: LayoutTask<i64>, bound: int)
    requires
        utilities_within(task.trays, bound),
        0 <= bound,
        task.trays.len() * bound <= i64::MAX,
    ensures
        task.is_ordered(),
{
    assert forall|choice: Seq<int>, n: int|
        0 < choice.len() < task.trays.len() && task.is_choice(choice) && 0 <= n
            < task.trays[choice.len() as int].options@.len() implies #[trigger] task.sum_defined(
        choice,
        n,
    ) && task.utility(choice.push(n)) == task.utility(choice)
        + task.trays[choice.len() as int].options@[n].utility by {
        let longer = choice.push(n);
        assert forall|i: int| 0 <= i < longer.len() implies 0 <= #[trigger] longer[i]
            < task.trays[i].options@.len() by {
            if i < choice.len() {
                assert(longer[i] == choice[i]);
            }
        }
        assert(longer.drop_last() =~= choice);
        assert(longer[choice.len() as int] == n);
        lemma_whole_utility(task, choice, bound);
        lemma_whole_utility(task, longer, bound);
    }
    assert forall|a: Seq<int>, b: Seq<int>, n: int|
        task.admits(a) && task.admits(b) && 0 < a.len() == b.len() && a.len() < task.trays.len()
            && 0 <= n < task.trays[a.len() as int].options@.len() && !task.outdoes(a, b)
            && outranks(task.utility(a.push(n)), task.floor) implies #[trigger] task.order_kept(
        a,
        b,
        n,
    ) by {
        assert(task.sum_defined(a, n) && task.sum_defined(b, n));
    }
}

/// The formats are numbered from zero in the order hidden, carousel, grid, banner; a number that none
/// has stands for hidden.
pub proof fn format_numbers_read_back(format: Format, val: int)
    ensures
        format_code(Format::Hidden) == 0,
        format_code(Format::Carousel) == 1,
        format_code(Format::Grid2x3) == 2,
        format_code(Format::Banner) == 3,
        format_at(format_code(format)) == format,
        val < 0 || val > 3 ==> format_at(val) == Format::Hidden,
{
}

/// The format of tray `i` under a choice.
pub open spec fn chosen_format(task: LayoutTask<i64>, choice: Seq<int>, i: int) -> Format {
    task.trays[i].options@[choice[i]].format
}

/// The height of the first `n` trays under a choice.
pub open spec fn chosen_height(task: LayoutTask<i64>, choice: Seq<int>, n: nat) -> int {
    total(n, |i: int| task.trays[i].options@[choice[i]].height as int)
}

/// The utility of the first `n` trays under a choice.
pub open spec fn chosen_utility(task: LayoutTask<i64>, choice: Seq<int>, n: nat) -> int {
    total(n, |i: int| task.trays[i].options@[choice[i]].utility as int)
}

/// The choice takes one option of each tray; no format that must not follow itself does, none stands
/// where it must not, and none occurs more often than its limit; the heights stay within the
/// budget, and the utilities of the first trays together are always above the floor.
pub open spec fn fits(task: LayoutTask<i64>, choice: Seq<int>) -> bool {
    let n = task.trays.len();
    &&& choice.len() == n
    &&& forall|i: int| 0 <= i < n ==> 0 <= #[trigger] choice[i] < task.trays[i].options@.len()
    &&& forall|c: int, i: int, j: int|
        #![trigger task.rules[c], choice[i], choice[j]]
        0 <= c < task.rules.len() && 0 <= i && j == i + 1 && j < n ==> match task.rules[c] {
            ConstraintRule::NoConsecutive(format) => !(chosen_format(task, choice, i) == format
                && chosen_format(task, choice, j) == format),
            _ => true,
        }
    &&& forall|c: int, i: int|
        #![trigger task.rules[c], choice[i]]
        0 <= c < task.rules.len() && 0 <= i < n ==> match task.rules[c] {
            ConstraintRule::DisallowedAtSlot { format, slot_idx } => !(i == slot_idx
                && chosen_format(task, choice, i) == format),
            _ => true,
        }
    &&& forall|c: int|
        0 <= c < task.rules.len() ==> match #[trigger] task.rules[c] {
            ConstraintRule::MaxOccurrences { format, limit } => tally(
                n,
                of_format(task, choice, format),
            ) <= limit,
            _ => true,
        }
    &&& chosen_height(task, choice, n) <= task.max_height
    &&& forall|k: nat| 0 < k <= n ==> #[trigger] chosen_utility(task, choice, k) > task.floor
}

/// Whether a tray has a format under a choice.
pub open spec fn of_format(task: LayoutTask<i64>, choice: Seq<int>, format: Format) -> spec_fn(
    int,
) -> bool {
    |i: int| chosen_format(task, choice, i) == format
}

/// Height and utility of a choice are sums over its trays.
proof fn lemma_whole_sums(task: LayoutTask<i64>, choice: Seq<int>, bound: int, n: nat)
    requires
        utilities_within(task.trays, bound),
        0 <= bound,
        task.trays.len() * bound <= i64::MAX,
        n <= choice.len() <= task.trays.len(),
        forall|i: int|
            0 <= i < choice.len() ==> 0 <= #[trigger] choice[i] < task.trays[i].options@.len(),
    ensures
        task.height(choice.take(n as int)) == chosen_height(task, choice, n),
        n > 0 ==> task.utility(choice.take(n as int)) == chosen_utility(task, choice, n),
    decreases n,
{
    let part = choice.take(n as int);
    if n > 0 {
        let m = (n - 1) as nat;
        lemma_whole_sums(task, choice, bound, m);
        assert(part.drop_last() =~= choice.take(m as int));
        assert(part[n - 1] == choice[n - 1]);
        assert forall|i: int| 0 <= i < part.len() implies 0 <= #[trigger] part[i]
            < task.trays[i].options@.len() by {
            assert(part[i] == choice[i]);
        }
        lemma_whole_utility(task, part, bound);
        let heights = |i: int| task.trays[i].options@[choice[i]].height as int;
        let utilities = |i: int| task.trays[i].options@[choice[i]].utility as int;
        assert(total(n, heights) == total(m, heights) + heights(n - 1));
        assert(total(n, utilities) == total(m, utilities) + utilities(n - 1));
        if n == 1 {
            assert(total(0, utilities) == 0);
        }
    }
}

/// A format occurs as often as trays have it.
proof fn lemma_whole_occurrences(
    task: LayoutTask<i64>,
    choice: Seq<int>,
    format: Format,
    n: nat,
)
    requires
        n <= choice.len(),
    ensures
        occurrences(task.formats(choice).take(n as int), format) == tally(
            n,
            of_format(task, choice, format),
        ),
    decreases n,
{
    broadcast use vstd::seq_lib::group_to_multiset_ensures;

    let formats = task.formats(choice);
    let part = formats.take(n as int);
    if n > 0 {
        let m = (n - 1) as nat;
        lemma_whole_occurrences(task, choice, format, m);
        lemma_tally_step(m, of_format(task, choice, format));
        assert(part =~= formats.take(m as int).push(formats[n - 1]));
        assert(formats[n - 1] == chosen_format(task, choice, n - 1));
    } else {
        lemma_tally_step(0, of_format(task, choice, format));
        assert(part =~= Seq::<Format>::empty());
    }
}

/// The solutions of a page with whole utilities are the choices that fit.
pub proof fn solutions_are_the_fitting_choices(
    task: LayoutTask<i64>,
    bound: int,
    choice: Seq<int>,
)
    requires
        utilities_within(task.trays, bound),
        0 <= bound,
        task.trays.len() * bound <= i64::MAX,
    ensures
        task.is_solution(choice) <==> fits(task, choice),
{
    let n = task.trays.len();
    let formats = task.formats(choice);
    if choice.len() == n && (forall|i: int|
        0 <= i < n ==> 0 <= #[trigger] choice[i] < task.trays[i].options@.len()) {
        lemma_whole_sums(task, choice, bound, n);
        assert(choice.take(n as int) =~= choice);
        assert(formats.take(n as int) =~= formats);
        assert forall|k: nat| 0 < k <= n implies task.utility(choice.take(k as int))
            == #[trigger] chosen_utility(task, choice, k) by {
            lemma_whole_sums(task, choice, bound, k);
        }
        assert forall|c: int| 0 <= c < task.rules.len() implies (match #[trigger] task.rules[c] {
            ConstraintRule::MaxOccurrences { format, limit } => occurrences(formats, format)
                == tally(n, of_format(task, choice, format)),
            _ => true,
        }) by {
            if let ConstraintRule::MaxOccurrences { format, limit } = task.rules[c] {
                lemma_whole_occurrences(task, choice, format, n);
            }
        }
        if task.is_solution(choice) {
            assert forall|k: nat| 0 < k <= n implies #[trigger] chosen_utility(task, choice, k)
                > task.floor by {
                assert(outranks(task.utility(choice.take(k as int)), task.floor));
            }
            assert forall|c: int, i: int, j: int|
                #![trigger task.rules[c], choice[i], choice[j]]
                0 <= c < task.rules.len() && 0 <= i && j == i + 1 && j < n implies (
            match task.rules[c] {
                ConstraintRule::NoConsecutive(format) => !(chosen_format(task, choice, i) == format
                    && chosen_format(task, choice, j) == format),
                _ => true,
            }) by {
                assert(transition_allowed(
                    task.rules,
                    task.option(choice, i).format,
                    task.option(choice, j).format,
                ));
                assert(task.rules[c].allows_transition(
                    task.option(choice, i).format,
                    task.option(choice, j).format,
                ));
            }
            assert forall|c: int, i: int|
                #![trigger task.rules[c], choice[i]]
                0 <= c < task.rules.len() && 0 <= i < n implies (match task.rules[c] {
                ConstraintRule::DisallowedAtSlot { format, slot_idx } => !(i == slot_idx
                    && chosen_format(task, choice, i) == format),
                _ => true,
            }) by {
                assert(slot_allowed(task.rules, task.option(choice, i).format, i));
                assert(task.rules[c].allows_slot(task.option(choice, i).format, i));
            }
            assert forall|c: int| 0 <= c < task.rules.len() implies (
            match #[trigger] task.rules[c] {
                ConstraintRule::MaxOccurrences { format, limit } => tally(
                    n,
                    of_format(task, choice, format),
                ) <= limit,
                _ => true,
            }) by {
                assert(task.rules[c].allows_sequence(formats));
            }
        }
        if fits(task, choice) {
            assert forall|k: int| 0 < k <= choice.len() implies outranks(
                task.utility(#[trigger] choice.take(k)),
                task.floor,
            ) by {
                assert(chosen_utility(task, choice, k as nat) > task.floor);
            }
            assert forall|c: int| 0 <= c < task.rules.len() implies (
            #[trigger] task.rules[c]).allows_sequence(formats) by {}
            assert forall|i: int| 0 <= i < choice.len() implies 0 <= #[trigger] choice[i]
                < task.trays[i].options@.len() && slot_allowed(
                task.rules,
                task.option(choice, i).format,
                i,
            ) by {
                assert forall|c: int| 0 <= c < task.rules.len() implies (
                #[trigger] task.rules[c]).allows_slot(task.option(choice, i).format, i) by {}
            }
            assert forall|i: int, j: int|
                #![trigger choice[i], choice[j]]
                0 <= i < choice.len() && j == i + 1 && j < choice.len() implies transition_allowed(
                task.rules,
                task.option(choice, i).format,
                task.option(choice, j).format,
            ) by {
                assert forall|c: int| 0 <= c < task.rules.len() implies (
                #[trigger] task.rules[c]).allows_transition(
                    task.option(choice, i).format,
                    task.option(choice, j).format,
                ) by {}
            }
        }
    } else if task.is_solution(choice) {
        assert(forall|i: int|
            0 <= i < n ==> 0 <= #[trigger] choice[i] < task.trays[i].options@.len());
    }
}

/// A page with whole utilities is that of a fitting choice of the greatest utility, which is
/// returned; of several, one of the least height and, of these, one whose last tray has the lowest
/// format number. Where no choice fits or there is no tray, every tray is hidden.
pub proof fn pages_have_the_greatest_utility(
    task: LayoutTask<i64>,
    bound: int,
    utility: i64,
    page: Seq<Format>,
    other: Seq<int>,
)
    requires
        utilities_within(task.trays, bound),
        0 <= bound,
        task.trays.len() * bound <= i64::MAX,
        is_laid_out(task, utility, page),
    ensures
        page.len() == task.trays.len(),
        task.trays.len() > 0 && fits(task, other) ==> exists|choice: Seq<int>| #[trigger]
            fits(task, choice) && {
                let n = task.trays.len();
                let last = format_code(page.last());
                let rival = format_code(chosen_format(task, other, n - 1));
                &&& utility == chosen_utility(task, choice, n)
                &&& forall|i: int| 0 <= i < n ==> #[trigger] page[i] == chosen_format(task, choice, i)
                &&& chosen_utility(task, other, n) <= utility
                &&& chosen_utility(task, other, n) == utility ==> chosen_height(task, choice, n)
                    <= chosen_height(task, other, n)
                &&& chosen_utility(task, other, n) == utility && chosen_height(task, choice, n)
                    == chosen_height(task, other, n) ==> last <= rival
            },
        (forall|choice: Seq<int>| !#[trigger] fits(task, choice)) || task.trays.len() == 0
            ==> forall|i: int| 0 <= i < page.len() ==> #[trigger] page[i] == Format::Hidden,
{
    let n = task.trays.len();
    assert forall|choice: Seq<int>| #[trigger] task.is_solution(choice) <==> fits(task, choice) by {
        solutions_are_the_fitting_choices(task, bound, choice);
    }
    if n > 0 && exists|choice: Seq<int>| #[trigger] task.is_solution(choice) {
        let choice = choose|choice: Seq<int>| #[trigger]
            task.is_best_solution(choice) && page == task.formats(choice) && utility
                == task.utility(choice);
        assert(task.is_solution(choice));
        assert(fits(task, choice));
        lemma_whole_sums(task, choice, bound, n);
        assert(choice.take(n as int) =~= choice);
        if fits(task, other) {
            assert(task.is_solution(other));
            lemma_whole_sums(task, other, bound, n);
            assert(other.take(n as int) =~= other);
            assert(!task.outdoes(other, choice));
            assert(task.formats(other).last() == chosen_format(task, other, n - 1));
            assert(0 <= format_code(page.last()) < 4);
            assert(0 <= format_code(task.formats(other).last()) < 4);
            if chosen_utility(task, other, n) == utility {
                assert(task.place(choice) <= task.place(other));
            }
        }
    } else if n > 0 && fits(task, other) {
        assert(task.is_solution(other));
    }
}

/// The task of a page has the trays, the rules and the floor as given, and the height as its budget.
pub proof fn tasks_are_as_given<U>(
    trays: Seq<Tray<U>>,
    max_height: usize,
    rules: Seq<ConstraintRule>,
    floor: U,
)
    ensures
        layout_task(trays, max_height, rules, floor).trays == trays,
        layout_task(trays, max_height, rules, floor).rules == rules,
        layout_task(trays, max_height, rules, floor).max_height == max_height,
        layout_task(trays, max_height, rules, floor).floor == floor,
        NUM_FORMATS == 4,
{
}

} // verus!
