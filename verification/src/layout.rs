//! Whole-page layout: choosing one visual format per tray so that the page's total utility is as
//! high as possible within a height budget, under slot, adjacency and page-wide rules.

pub mod laws;

use crate::order::{ordered_type, outranks};
use std::ops::Add;
use vstd::prelude::*;
use vstd::std_specs::ops::AddSpec;

verus! {

/// Formats in which a tray can be rendered.
#[derive(Debug, Clone, Copy, PartialEq, Eq, Hash, Structural)]
pub enum Format {
    /// The tray is not rendered.
    Hidden,
    Carousel,
    Grid2x3,
    Banner,
}

/// The number of formats.
pub const NUM_FORMATS: usize = 4;

/// The position of `format` in the declaration order.
pub open spec fn format_code(format: Format) -> int {
    match format {
        Format::Hidden => 0,
        Format::Carousel => 1,
        Format::Grid2x3 => 2,
        Format::Banner => 3,
    }
}

/// The format at position `val`; every other number stands for no rendering.
pub open spec fn format_at(val: int) -> Format {
    if val == 1 {
        Format::Carousel
    } else if val == 2 {
        Format::Grid2x3
    } else if val == 3 {
        Format::Banner
    } else {
        Format::Hidden
    }
}

impl Format {
    /// The format with number `val`, or `Format::Hidden` where there is none.
    pub fn from_usize(val: usize) -> (format: Self)
        ensures
            format == format_at(val as int),
    {
        match val {
            1 => Format::Carousel,
            2 => Format::Grid2x3,
            3 => Format::Banner,
            _ => Format::Hidden,
        }
    }

    /// The number of this format.
    pub fn to_usize(self) -> (val: usize)
        ensures
            val == format_code(self),
            val < NUM_FORMATS,
    {
        match self {
            Format::Hidden => 0,
            Format::Carousel => 1,
            Format::Grid2x3 => 2,
            Format::Banner => 3,
        }
    }
}

/// One way to render a tray.
#[derive(Debug, Clone)]
pub struct TrayOption<U> {
    pub format: Format,
    /// Rendering height in page units.
    pub height: usize,
    /// Predicted utility of the tray in this format.
    pub utility: U,
    /// Number of items that the format displays.
    pub item_count: usize,
}

/// A vertical slot of the page with the formats it can take.
#[derive(Debug, Clone)]
pub struct Tray<U> {
    pub id: usize,
    pub options: Vec<TrayOption<U>>,
}

/// A modular rule on page layouts. Each check accepts everything unless it is overridden.
pub trait LayoutConstraint {
    /// May `curr_format` at tray `current_tray_idx` follow `prev_format`?
    fn is_valid_transition(
        &self,
        prev_format: Format,
        curr_format: Format,
        current_tray_idx: usize,
    ) -> (valid: bool)
        default_ensures
            valid,
    {
        true
    }

    /// May `format` be placed at `tray_idx`?
    fn is_valid_format_at_slot(&self, format: Format, tray_idx: usize) -> (valid: bool)
        default_ensures
            valid,
    {
        true
    }

    /// Does the whole page satisfy the rule?
    fn is_valid_sequence(&self, sequence: &[Format]) -> (valid: bool)
        default_ensures
            valid,
    {
        true
    }
}

/// The rules that the solver knows.
#[derive(Debug, Clone, PartialEq, Eq, Structural)]
pub enum ConstraintRule {
    /// The format never follows itself.
    NoConsecutive(Format),
    /// The format is not placed at the slot.
    DisallowedAtSlot { format: Format, slot_idx: usize },
    /// The format is placed at most `limit` times on the page.
    MaxOccurrences { format: Format, limit: usize },
}

/// How often `format` occurs in `sequence`.
pub open spec fn occurrences(sequence: Seq<Format>, format: Format) -> nat {
    sequence.to_multiset().count(format)
}

impl ConstraintRule {
    /// The rule lets `curr` follow `prev`.
    pub open spec fn allows_transition(self, prev: Format, curr: Format) -> bool {
        match self {
            ConstraintRule::NoConsecutive(target) => !(curr == target && prev == target),
            _ => true,
        }
    }

    /// The rule lets `format` stand at slot `tray_idx`.
    pub open spec fn allows_slot(self, format: Format, tray_idx: int) -> bool {
        match self {
            ConstraintRule::DisallowedAtSlot { format: target, slot_idx } => !(format == target
                && tray_idx == slot_idx),
            _ => true,
        }
    }

    /// The rule accepts the page `sequence`.
    pub open spec fn allows_sequence(self, sequence: Seq<Format>) -> bool {
        match self {
            ConstraintRule::MaxOccurrences { format: target, limit } => occurrences(
                sequence,
                target,
            ) <= limit,
            _ => true,
        }
    }
}

/// Counts the occurrences of `format`.
fn count_format(sequence: &[Format], format: Format) -> (count: usize)
    ensures
        count == occurrences(sequence@, format),
{
    broadcast use vstd::seq_lib::group_to_multiset_ensures;

    let mut count: usize = 0;
    let mut i: usize = 0;
    assert(sequence@.take(0) =~= Seq::<Format>::empty());
    while i < sequence.len()
        invariant
            i <= sequence.len(),
            count <= i,
            count == occurrences(sequence@.take(i as int), format),
        decreases sequence.len() - i,
    {
        proof {
            broadcast use vstd::seq_lib::group_to_multiset_ensures;

            assert(sequence@.take(i + 1) =~= sequence@.take(i as int).push(sequence@[i as int]));
        }
        if sequence[i] == format {
            count = count + 1;
        }
        i = i + 1;
    }
    assert(sequence@.take(i as int) =~= sequence@);
    count
}

impl LayoutConstraint for ConstraintRule {
    fn is_valid_transition(
        &self,
        prev_format: Format,
        curr_format: Format,
        current_tray_idx: usize,
    ) -> (valid: bool)
        ensures
            valid == self.allows_transition(prev_format, curr_format),
    {
        match self {
            ConstraintRule::NoConsecutive(target) => {
                !(curr_format == *target && prev_format == *target)
            },
            _ => true,
        }
    }

    fn is_valid_format_at_slot(&self, format: Format, tray_idx: usize) -> (valid: bool)
        ensures
            valid == self.allows_slot(format, tray_idx as int),
    {
        match self {
            ConstraintRule::DisallowedAtSlot { format: target, slot_idx } => {
                !(format == *target && tray_idx == *slot_idx)
            },
            _ => true,
        }
    }

    fn is_valid_sequence(&self, sequence: &[Format]) -> (valid: bool)
        ensures
            valid == self.allows_sequence(sequence@),
    {
        match self {
            ConstraintRule::MaxOccurrences { format: target, limit } => {
                count_format(sequence, *target) <= *limit
            },
            _ => true,
        }
    }
}

/// Every rule lets `format` stand at `slot`.
pub open spec fn slot_allowed(rules: Seq<ConstraintRule>, format: Format, slot: int) -> bool {
    forall|c: int| 0 <= c < rules.len() ==> (#[trigger] rules[c]).allows_slot(format, slot)
}

/// Every rule lets `curr` follow `prev`.
pub open spec fn transition_allowed(
    rules: Seq<ConstraintRule>,
    prev: Format,
    curr: Format,
) -> bool {
    forall|c: int| 0 <= c < rules.len() ==> (#[trigger] rules[c]).allows_transition(prev, curr)
}

/// Every rule accepts the page `sequence`.
pub open spec fn sequence_allowed(rules: Seq<ConstraintRule>, sequence: Seq<Format>) -> bool {
    forall|c: int| 0 <= c < rules.len() ==> (#[trigger] rules[c]).allows_sequence(sequence)
}

/// A page to lay out: its trays, the rules, the height budget, and the value that a utility has to
/// exceed to count.
pub struct LayoutTask<U> {
    pub trays: Seq<Tray<U>>,
    pub rules: Seq<ConstraintRule>,
    pub max_height: int,
    pub floor: U,
}

/// A choice gives each of the first trays of a page one of its options, by position.
impl<U: PartialOrd + Add<Output = U>> LayoutTask<U> {
    /// The option that `choice` takes of tray `i`.
    pub open spec fn option(self, choice: Seq<int>, i: int) -> TrayOption<U> {
        self.trays[i].options@[choice[i]]
    }

    /// The formats that `choice` gives the trays.
    pub open spec fn formats(self, choice: Seq<int>) -> Seq<Format> {
        Seq::new(choice.len(), |i: int| self.option(choice, i).format)
    }

    /// The total height of the chosen options.
    pub open spec fn height(self, choice: Seq<int>) -> int
        decreases choice.len(),
    {
        if choice.len() == 0 {
            0
        } else {
            self.height(choice.drop_last()) + self.option(choice, choice.len() - 1).height
        }
    }

    /// The total utility of the chosen options, summed from the first tray on.
    pub open spec fn utility(self, choice: Seq<int>) -> U
        decreases choice.len(),
    {
        let last = self.option(choice, choice.len() - 1).utility;
        if choice.len() <= 1 {
            last
        } else {
            self.utility(choice.drop_last()).add_spec(last)
        }
    }

    /// Every tray takes an option that it has, in a format that the rules let stand at its slot and
    /// follow the format before it.
    pub open spec fn is_choice(self, choice: Seq<int>) -> bool {
        &&& choice.len() <= self.trays.len()
        &&& forall|i: int|
            0 <= i < choice.len() ==> 0 <= #[trigger] choice[i] < self.trays[i].options@.len()
                && slot_allowed(self.rules, self.option(choice, i).format, i)
        &&& forall|i: int, j: int|
            #![trigger choice[i], choice[j]]
            0 <= i < choice.len() && j == i + 1 && j < choice.len() ==> transition_allowed(
                self.rules,
                self.option(choice, i).format,
                self.option(choice, j).format,
            )
    }

    /// The utility exceeds the floor at every tray.
    pub open spec fn exceeds_floor(self, choice: Seq<int>) -> bool {
        forall|k: int|
            0 < k <= choice.len() ==> outranks(self.utility(#[trigger] choice.take(k)), self.floor)
    }

    /// The choice obeys every rule, stays within the height budget, and counts.
    pub open spec fn admits(self, choice: Seq<int>) -> bool {
        &&& self.is_choice(choice)
        &&& sequence_allowed(self.rules, self.formats(choice))
        &&& self.height(choice) <= self.max_height
        &&& self.exceeds_floor(choice)
    }

    /// An admitted choice for the whole page.
    pub open spec fn is_solution(self, choice: Seq<int>) -> bool {
        choice.len() == self.trays.len() && self.admits(choice)
    }

    /// The utility of `a` is greater than that of `b`.
    pub open spec fn outdoes(self, a: Seq<int>, b: Seq<int>) -> bool {
        outranks(self.utility(a), self.utility(b))
    }

    /// Where a choice stands among those of equal utility: lower pages come first, then formats of
    /// the last tray in the order of their numbers.
    pub open spec fn place(self, choice: Seq<int>) -> int {
        self.height(choice) * 4 + format_code(self.formats(choice).last())
    }

    /// No solution has a greater utility, and none of equal utility comes first.
    pub open spec fn is_best_solution(self, choice: Seq<int>) -> bool {
        &&& self.is_solution(choice)
        &&& forall|other: Seq<int>| #[trigger]
            self.is_solution(other) ==> !self.outdoes(other, choice) && (self.outdoes(choice, other)
                || self.place(choice) <= self.place(other))
    }

    /// Option `n` of the next tray can be added to `choice`.
    pub open spec fn sum_defined(self, choice: Seq<int>, n: int) -> bool {
        self.utility(choice).add_req(self.trays[choice.len() as int].options@[n].utility)
    }

    /// Adding option `n` of the next tray keeps the order of `a` and `b`.
    pub open spec fn order_kept(self, a: Seq<int>, b: Seq<int>, n: int) -> bool {
        &&& !self.outdoes(a.push(n), b.push(n))
        &&& outranks(self.utility(b.push(n)), self.floor)
    }

    /// What the solver asks of utilities: sums are defined, utilities of as many trays can be
    /// ranked, and an addition keeps their order. Floating-point utilities rank and keep their
    /// order, since a utility that is not a number exceeds no floor; so do integers that do not
    /// overflow.
    pub open spec fn is_ordered(self) -> bool {
        &&& ordered_type::<U>()
        &&& U::obeys_add_spec()
        &&& forall|choice: Seq<int>, n: int|
            0 < choice.len() < self.trays.len() && self.admits(choice) && 0 <= n
                < self.trays[choice.len() as int].options@.len() && self.height(choice)
                + self.trays[choice.len() as int].options@[n].height <= self.max_height
                ==> #[trigger] self.sum_defined(choice, n)
        &&& forall|a: Seq<int>, b: Seq<int>|
            self.admits(a) && self.admits(b) && 0 < a.len() == b.len() && #[trigger] self.outdoes(
                a,
                b,
            ) ==> !self.outdoes(b, a)
        &&& forall|a: Seq<int>, b: Seq<int>, c: Seq<int>|
            #![trigger self.outdoes(a, c), self.outdoes(a, b)]
            #![trigger self.outdoes(a, c), self.outdoes(b, c)]
            self.admits(a) && self.admits(b) && self.admits(c) && 0 < a.len() == b.len()
                && b.len() == c.len() && self.outdoes(a, c) ==> self.outdoes(a, b) || self.outdoes(
                b,
                c,
            )
        &&& forall|a: Seq<int>, b: Seq<int>, n: int|
            self.admits(a) && self.admits(b) && 0 < a.len() == b.len() && a.len()
                < self.trays.len() && 0 <= n < self.trays[a.len() as int].options@.len()
                && !self.outdoes(a, b) && outranks(self.utility(a.push(n)), self.floor)
                ==> #[trigger] self.order_kept(a, b, n)
    }
}

/// The number of pairs of a height and a format.
pub open spec fn num_states(max_height: int) -> int {
    (max_height + 1) * 4
}

/// The task of laying out `trays` within `max_height` under `rules`.
pub open spec fn layout_task<U>(
    trays: Seq<Tray<U>>,
    max_height: usize,
    rules: Seq<ConstraintRule>,
    floor: U,
) -> LayoutTask<U> {
    LayoutTask { trays, rules, max_height: max_height as int, floor }
}

/// `page` is the page of the best solution and `utility` its utility; where there is no solution,
/// every tray is hidden and the utility is the default one.
pub open spec fn is_laid_out<U: PartialOrd + Add<Output = U> + Default>(
    task: LayoutTask<U>,
    utility: U,
    page: Seq<Format>,
) -> bool {
    if task.trays.len() > 0 && exists|choice: Seq<int>| #[trigger] task.is_solution(choice) {
        exists|choice: Seq<int>| #[trigger]
            task.is_best_solution(choice) && page == task.formats(choice) && utility
                == task.utility(choice)
    } else {
        page == Seq::new(task.trays.len(), |i: int| Format::Hidden) && call_ensures(
            U::default,
            (),
            utility,
        )
    }
}

/// Checks `format` at `slot` against every rule.
fn slot_ok(rules: &[ConstraintRule], format: Format, slot: usize) -> (ok: bool)
    ensures
        ok == slot_allowed(rules@, format, slot as int),
{
    let mut c: usize = 0;
    while c < rules.len()
        invariant
            c <= rules.len(),
            forall|k: int|
                0 <= k < c ==> (#[trigger] rules@[k]).allows_slot(format, slot as int),
        decreases rules.len() - c,
    {
        if !rules[c].is_valid_format_at_slot(format, slot) {
            return false;
        }
        c = c + 1;
    }
    true
}

/// Checks the adjacency of `prev` and `curr` at tray `i` against every rule.
fn transition_ok(rules: &[ConstraintRule], prev: Format, curr: Format, i: usize) -> (ok: bool)
    ensures
        ok == transition_allowed(rules@, prev, curr),
{
    let mut c: usize = 0;
    while c < rules.len()
        invariant
            c <= rules.len(),
            forall|k: int|
                0 <= k < c ==> (#[trigger] rules@[k]).allows_transition(prev, curr),
        decreases rules.len() - c,
    {
        if !rules[c].is_valid_transition(prev, curr, i) {
            return false;
        }
        c = c + 1;
    }
    true
}

/// How often `rule` sees the format that it limits in `formats`.
spec fn use_of(rule: ConstraintRule, formats: Seq<Format>) -> int {
    match rule {
        ConstraintRule::MaxOccurrences { format, limit } => occurrences(formats, format) as int,
        _ => 0,
    }
}

/// The use of the limited formats in `formats`, rule by rule.
spec fn uses(rules: Seq<ConstraintRule>, formats: Seq<Format>) -> Seq<int> {
    Seq::new(rules.len(), |c: int| use_of(rules[c], formats))
}

/// The best known way to lay out the first trays with one height, one last format and one use of
/// the limited formats.
struct Prefix<U> {
    utility: U,
    used: Vec<usize>,
    formats: Vec<Format>,
    choice: Ghost<Seq<int>>,
}

/// The utilities of `task` are ordered as the solver asks.
#[verifier::opaque]
spec fn ordered<U: PartialOrd + Add<Output = U>>(task: LayoutTask<U>) -> bool {
    task.is_ordered()
}

proof fn lemma_asymmetric<U: PartialOrd + Add<Output = U>>(
    task: LayoutTask<U>,
    a: Seq<int>,
    b: Seq<int>,
)
    requires
        ordered(task),
        task.admits(a),
        task.admits(b),
        0 < a.len() == b.len(),
    ensures
        task.outdoes(a, b) ==> !task.outdoes(b, a),
{
    reveal(ordered);
}

/// What outdoes one choice outdoes every other, or the other outdoes that choice.
proof fn lemma_between<U: PartialOrd + Add<Output = U>>(
    task: LayoutTask<U>,
    a: Seq<int>,
    b: Seq<int>,
    c: Seq<int>,
)
    requires
        ordered(task),
        task.admits(a),
        task.admits(b),
        task.admits(c),
        0 < a.len() == b.len(),
        b.len() == c.len(),
    ensures
        task.outdoes(a, c) ==> task.outdoes(a, b) || task.outdoes(b, c),
{
    reveal(ordered);
}

/// `used` holds the uses of the limited formats in `formats`.
spec fn holds_uses(used: Seq<usize>, rules: Seq<ConstraintRule>, formats: Seq<Format>) -> bool {
    &&& used.len() == rules.len()
    &&& forall|c: int| 0 <= c < used.len() ==> #[trigger] used[c] == uses(rules, formats)[c]
}

/// `prefix` is an admitted choice for the first `len` trays.
spec fn is_prefix<U: PartialOrd + Add<Output = U>>(
    task: LayoutTask<U>,
    prefix: Prefix<U>,
    len: int,
) -> bool {
    &&& task.admits(prefix.choice@)
    &&& prefix.choice@.len() == len
    &&& prefix.utility == task.utility(prefix.choice@)
    &&& prefix.formats@ == task.formats(prefix.choice@)
    &&& holds_uses(prefix.used@, task.rules, prefix.formats@)
}

/// `prefix` uses the limited formats as `choice` does, and `choice` is not worth more.
spec fn stands_for<U: PartialOrd + Add<Output = U>>(
    task: LayoutTask<U>,
    prefix: Prefix<U>,
    choice: Seq<int>,
) -> bool {
    &&& uses(task.rules, task.formats(prefix.choice@)) == uses(task.rules, task.formats(choice))
    &&& !task.outdoes(choice, prefix.choice@)
}

/// One of `prefixes` stands for `choice`.
spec fn covers<U: PartialOrd + Add<Output = U>>(
    task: LayoutTask<U>,
    prefixes: Seq<Prefix<U>>,
    choice: Seq<int>,
) -> bool {
    exists|j: int| 0 <= j < prefixes.len() && stands_for(task, #[trigger] prefixes[j], choice)
}

/// Each of `prefixes` is an admitted choice for the first `len` trays with the given height and last
/// format.
spec fn is_cell<U: PartialOrd + Add<Output = U>>(
    task: LayoutTask<U>,
    prefixes: Seq<Prefix<U>>,
    len: int,
    height: int,
    format: Format,
) -> bool {
    forall|j: int|
        0 <= j < prefixes.len() ==> {
            &&& is_prefix(task, #[trigger] prefixes[j], len)
            &&& task.height(prefixes[j].choice@) == height
            &&& prefixes[j].formats@.last() == format
        }
}

/// `cells` holds, by height and last format, admitted choices for the first `len` trays that stand
/// for all of them.
spec fn is_layer<U: PartialOrd + Add<Output = U>>(
    task: LayoutTask<U>,
    cells: Seq<Vec<Prefix<U>>>,
    len: int,
) -> bool {
    &&& cells.len() == num_states(task.max_height)
    &&& forall|state: int|
        0 <= state < cells.len() ==> is_cell(
            task,
            (#[trigger] cells[state])@,
            len,
            state / 4,
            format_at(state % 4),
        )
    &&& forall|choice: Seq<int>| #[trigger] is_covered(task, cells, len, choice)
}

/// Where `choice` is an admitted choice for the first `len` trays and has its place in `cells`, it
/// is covered there.
spec fn is_covered<U: PartialOrd + Add<Output = U>>(
    task: LayoutTask<U>,
    cells: Seq<Vec<Prefix<U>>>,
    len: int,
    choice: Seq<int>,
) -> bool {
    task.admits(choice) && choice.len() == len && task.place(choice) < cells.len() ==> covers(
        task,
        cells[task.place(choice)]@,
        choice,
    )
}

proof fn lemma_occurrences(formats: Seq<Format>, last: Format, format: Format)
    ensures
        occurrences(formats.push(last), format) == occurrences(formats, format) + (if last
            == format {
            1int
        } else {
            0int
        }),
        occurrences(formats, format) <= formats.len(),
    decreases formats.len(),
{
    broadcast use vstd::seq_lib::group_to_multiset_ensures;

    if formats.len() > 0 {
        lemma_occurrences(formats.drop_last(), formats.last(), format);
        assert(formats.drop_last().push(formats.last()) =~= formats);
    }
}

/// A choice is admitted with one more option where it is admitted without it and the option obeys
/// the rules, the budget and the floor at its place.
proof fn lemma_push<U: PartialOrd + Add<Output = U>>(
    task: LayoutTask<U>,
    choice: Seq<int>,
    n: int,
)
    requires
        choice.len() < task.trays.len(),
    ensures
        ({
            let longer = choice.push(n);
            let option = task.trays[choice.len() as int].options@[n];
            &&& task.formats(longer) == task.formats(choice).push(option.format)
            &&& task.height(longer) == task.height(choice) + option.height
            &&& task.utility(longer) == (if choice.len() == 0 {
                option.utility
            } else {
                task.utility(choice).add_spec(option.utility)
            })
            &&& task.admits(longer) <==> {
                &&& task.admits(choice)
                &&& 0 <= n < task.trays[choice.len() as int].options@.len()
                &&& slot_allowed(task.rules, option.format, choice.len() as int)
                &&& choice.len() > 0 ==> transition_allowed(
                    task.rules,
                    task.formats(choice).last(),
                    option.format,
                )
                &&& sequence_allowed(task.rules, task.formats(choice).push(option.format))
                &&& task.height(choice) + option.height <= task.max_height
                &&& outranks(task.utility(longer), task.floor)
            }
        }),
{
    let longer = choice.push(n);
    let len = choice.len() as int;
    let option = task.trays[len].options@[n];
    assert(longer.drop_last() =~= choice);
    assert forall|i: int| 0 <= i < len implies task.option(longer, i) == task.option(choice, i) by {
        assert(longer[i] == choice[i]);
    }
    assert(longer[len] == n);
    assert(task.formats(longer) =~= task.formats(choice).push(option.format));
    assert(longer.take(len + 1) =~= longer);
    assert forall|k: int| 0 < k <= len implies longer.take(k) == #[trigger] choice.take(k) by {
        assert(longer.take(k) =~= choice.take(k));
    }
    if task.admits(longer) {
        assert forall|i: int| 0 <= i < len implies 0 <= #[trigger] choice[i]
            < task.trays[i].options@.len() && slot_allowed(
            task.rules,
            task.option(choice, i).format,
            i,
        ) by {
            assert(longer[i] == choice[i]);
        }
        assert forall|i: int, j: int|
            #![trigger choice[i], choice[j]]
            0 <= i < len && j == i + 1 && j < len implies transition_allowed(
            task.rules,
            task.option(choice, i).format,
            task.option(choice, j).format,
        ) by {
            assert(longer[i] == choice[i] && longer[j] == choice[j]);
        }
        assert forall|c: int| 0 <= c < task.rules.len() implies (
        #[trigger] task.rules[c]).allows_sequence(task.formats(choice)) by {
            assert(task.rules[c].allows_sequence(task.formats(longer)));
            if let ConstraintRule::MaxOccurrences { format, limit } = task.rules[c] {
                lemma_occurrences(task.formats(choice), option.format, format);
            }
        }
        assert forall|k: int| 0 < k <= len implies outranks(
            task.utility(#[trigger] choice.take(k)),
            task.floor,
        ) by {
            assert(longer.take(k) == choice.take(k));
        }
        assert(outranks(task.utility(longer.take(len + 1)), task.floor));
        if len > 0 {
            assert(longer[len - 1] == choice[len - 1]);
            assert(task.formats(choice).last() == task.option(choice, len - 1).format);
        }
    }
    if task.admits(choice) && 0 <= n < task.trays[len].options@.len() && slot_allowed(
        task.rules,
        option.format,
        len,
    ) && (len > 0 ==> transition_allowed(task.rules, task.formats(choice).last(), option.format))
        && sequence_allowed(task.rules, task.formats(choice).push(option.format)) && task.height(
        choice,
    ) + option.height <= task.max_height && outranks(task.utility(longer), task.floor) {
        assert forall|i: int| 0 <= i < longer.len() implies 0 <= #[trigger] longer[i]
            < task.trays[i].options@.len() && slot_allowed(
            task.rules,
            task.option(longer, i).format,
            i,
        ) by {
            if i < len {
                assert(longer[i] == choice[i]);
            }
        }
        assert forall|i: int, j: int|
            #![trigger longer[i], longer[j]]
            0 <= i < longer.len() && j == i + 1 && j < longer.len() implies transition_allowed(
            task.rules,
            task.option(longer, i).format,
            task.option(longer, j).format,
        ) by {
            assert(longer[i] == choice[i]);
            if j < len {
                assert(longer[j] == choice[j]);
            } else {
                assert(task.formats(choice).last() == task.option(choice, i).format);
            }
        }
        assert forall|k: int| 0 < k <= longer.len() implies outranks(
            task.utility(#[trigger] longer.take(k)),
            task.floor,
        ) by {
            if k <= len {
                assert(longer.take(k) == choice.take(k));
            }
        }
    }
}

/// Heights are not negative.
proof fn lemma_height<U: PartialOrd + Add<Output = U>>(task: LayoutTask<U>, choice: Seq<int>)
    ensures
        task.height(choice) >= 0,
    decreases choice.len(),
{
    if choice.len() > 0 {
        lemma_height(task, choice.drop_last());
    }
}

/// An admitted choice has a place in the tables.
proof fn lemma_place<U: PartialOrd + Add<Output = U>>(task: LayoutTask<U>, choice: Seq<int>)
    requires
        task.admits(choice),
        choice.len() > 0,
    ensures
        0 <= task.place(choice) < num_states(task.max_height),
        task.place(choice) / 4 == task.height(choice),
        format_at(task.place(choice) % 4) == task.formats(choice).last(),
{
    lemma_height(task, choice);
}

/// The uses of the limited formats after one more `format`, unless that is more than some rule
/// admits.
fn add_use(
    rules: &[ConstraintRule],
    used: &Vec<usize>,
    format: Format,
    Ghost(formats): Ghost<Seq<Format>>,
) -> (longer: Option<Vec<usize>>)
    requires
        holds_uses(used@, rules@, formats),
        formats.len() < usize::MAX,
    ensures
        match longer {
            Some(longer) => holds_uses(longer@, rules@, formats.push(format)) && sequence_allowed(
                rules@,
                formats.push(format),
            ),
            None => !sequence_allowed(rules@, formats.push(format)),
        },
{
    let mut longer: Vec<usize> = Vec::new();
    let mut c: usize = 0;
    while c < rules.len()
        invariant
            c <= rules@.len(),
            holds_uses(used@, rules@, formats),
            formats.len() < usize::MAX,
            longer@.len() == c,
            forall|k: int|
                0 <= k < c ==> #[trigger] longer@[k] == use_of(rules@[k], formats.push(format)),
            forall|k: int|
                0 <= k < c ==> (#[trigger] rules@[k]).allows_sequence(formats.push(format)),
        decreases rules@.len() - c,
    {
        let mut count: usize = used[c];
        assert(count == uses(rules@, formats)[c as int]);
        if let ConstraintRule::MaxOccurrences { format: target, limit } = &rules[c] {
            proof {
                lemma_occurrences(formats, format, *target);
            }
            if format == *target {
                count = count + 1;
            }
            if count > *limit {
                assert(!rules@[c as int].allows_sequence(formats.push(format)));
                return None;
            }
        }
        longer.push(count);
        assert(count == use_of(rules@[c as int], formats.push(format)));
        assert(rules@[c as int].allows_sequence(formats.push(format)));
        c = c + 1;
    }
    Some(longer)
}

/// Whether two lists of uses agree.
fn same_uses(a: &Vec<usize>, b: &Vec<usize>) -> (same: bool)
    ensures
        same == (a@ == b@),
{
    if a.len() != b.len() {
        return false;
    }
    let mut c: usize = 0;
    while c < a.len()
        invariant
            c <= a@.len() == b@.len(),
            forall|k: int| 0 <= k < c ==> a@[k] == b@[k],
        decreases a@.len() - c,
    {
        if a[c] != b[c] {
            return false;
        }
        c = c + 1;
    }
    assert(a@ =~= b@);
    true
}

/// A copy of `formats`.
fn copy_formats(formats: &Vec<Format>) -> (copy: Vec<Format>)
    ensures
        copy@ == formats@,
{
    let mut copy: Vec<Format> = Vec::new();
    let mut i: usize = 0;
    while i < formats.len()
        invariant
            i <= formats@.len(),
            copy@ == formats@.take(i as int),
        decreases formats@.len() - i,
    {
        copy.push(formats[i]);
        i = i + 1;
        assert(copy@ =~= formats@.take(i as int));
    }
    assert(copy@ =~= formats@);
    copy
}

/// The formats with one more at the end.
fn append_format(formats: &Vec<Format>, format: Format) -> (longer: Vec<Format>)
    ensures
        longer@ == formats@.push(format),
{
    let mut longer = copy_formats(formats);
    longer.push(format);
    longer
}

/// Equal uses, whichever list holds them.
proof fn lemma_same_uses(
    a: Seq<usize>,
    b: Seq<usize>,
    rules: Seq<ConstraintRule>,
    left: Seq<Format>,
    right: Seq<Format>,
)
    requires
        holds_uses(a, rules, left),
        holds_uses(b, rules, right),
    ensures
        a == b <==> uses(rules, left) == uses(rules, right),
{
    if a == b {
        assert forall|c: int| 0 <= c < rules.len() implies uses(rules, left)[c] == uses(
            rules,
            right,
        )[c] by {
            assert(a[c] == uses(rules, left)[c] && b[c] == uses(rules, right)[c]);
        }
        assert(uses(rules, left) =~= uses(rules, right));
    }
    if uses(rules, left) == uses(rules, right) {
        assert forall|c: int| 0 <= c < rules.len() implies a[c] == b[c] by {
            assert(a[c] == uses(rules, left)[c] && b[c] == uses(rules, right)[c]);
        }
        assert(a =~= b);
    }
}

/// Takes `candidate` into a cell, in place of a prefix with the same uses that it outdoes.
fn offer<U: PartialOrd + Add<Output = U> + Copy>(
    cell: &mut Vec<Prefix<U>>,
    candidate: Prefix<U>,
    Ghost(task): Ghost<LayoutTask<U>>,
    Ghost(len): Ghost<int>,
    Ghost(height): Ghost<int>,
    Ghost(format): Ghost<Format>,
)
    requires
        len > 0,
        ordered(task),
        is_cell(task, old(cell)@, len, height, format),
        is_prefix(task, candidate, len),
        task.height(candidate.choice@) == height,
        candidate.formats@.last() == format,
    ensures
        is_cell(task, final(cell)@, len, height, format),
        covers(task, final(cell)@, candidate.choice@),
        forall|choice: Seq<int>|
            task.admits(choice) && choice.len() == len && covers(task, old(cell)@, choice)
                ==> #[trigger] covers(task, final(cell)@, choice),
{
    let ghost before = cell@;
    let ghost new = candidate.choice@;
    proof {
        lemma_asymmetric(task, new, new);
    }
    let mut j: usize = 0;
    while j < cell.len()
        invariant
            cell@ == before,
            j <= before.len(),
            is_cell(task, before, len, height, format),
            is_prefix(task, candidate, len),
            forall|k: int| 0 <= k < j ==> (#[trigger] before[k]).used@ != candidate.used@,
        ensures
            cell@ == before,
            j <= before.len(),
            j < before.len() ==> before[j as int].used@ == candidate.used@,
        decreases cell@.len() - j,
    {
        if same_uses(&cell[j].used, &candidate.used) {
            break;
        }
        j = j + 1;
    }
    if j < cell.len() {
        let ghost former = before[j as int].choice@;
        proof {
            assert(is_prefix(task, before[j as int], len));
            lemma_same_uses(
                before[j as int].used@,
                candidate.used@,
                task.rules,
                before[j as int].formats@,
                candidate.formats@,
            );
        }
        proof {
            reveal(ordered);
        }
        if candidate.utility > cell[j].utility {
            cell[j] = candidate;
            proof {
                assert(task.outdoes(new, former));
                assert forall|choice: Seq<int>|
                    task.admits(choice) && choice.len() == len && covers(
                        task,
                        before,
                        choice,
                    ) implies #[trigger] covers(task, cell@, choice) by {
                    let k = choose|k: int|
                        0 <= k < before.len() && stands_for(task, #[trigger] before[k], choice);
                    if k == j {
                        lemma_between(task, choice, former, new);
                        lemma_asymmetric(task, new, former);
                        assert(stands_for(task, cell@[j as int], choice));
                    } else {
                        assert(cell@[k] == before[k]);
                    }
                }
                assert(stands_for(task, cell@[j as int], new));
            }
        } else {
            assert(!task.outdoes(new, former));
            assert(stands_for(task, cell@[j as int], new));
        }
    } else {
        cell.push(candidate);
        proof {
            assert forall|choice: Seq<int>|
                task.admits(choice) && choice.len() == len && covers(
                    task,
                    before,
                    choice,
                ) implies #[trigger] covers(task, cell@, choice) by {
                let k = choose|k: int|
                    0 <= k < before.len() && stands_for(task, #[trigger] before[k], choice);
                assert(cell@[k] == before[k]);
            }
            assert(stands_for(task, cell@[before.len() as int], new));
        }
    }
}

/// Extends every prefix of `sources` by option `n` of tray `len - 1` and takes what is admitted into
/// `cell`.
fn offer_from<U: PartialOrd + Add<Output = U> + Copy>(
    cell: &mut Vec<Prefix<U>>,
    sources: &Vec<Prefix<U>>,
    rules: &[ConstraintRule],
    floor: U,
    option: &TrayOption<U>,
    Ghost(task): Ghost<LayoutTask<U>>,
    Ghost(i): Ghost<int>,
    Ghost(n): Ghost<int>,
    Ghost(height): Ghost<int>,
    Ghost(before): Ghost<Format>,
)
    requires
        0 < i < task.trays.len() <= usize::MAX,
        ordered(task),
        task.rules == rules@,
        task.floor == floor,
        0 <= n < task.trays[i].options@.len(),
        *option == task.trays[i].options@[n],
        slot_allowed(rules@, option.format, i),
        transition_allowed(rules@, before, option.format),
        height <= task.max_height,
        is_cell(task, sources@, i, height - option.height, before),
        is_cell(task, old(cell)@, i + 1, height, option.format),
    ensures
        is_cell(task, final(cell)@, i + 1, height, option.format),
        forall|choice: Seq<int>|
            task.admits(choice) && choice.len() == i + 1 && covers(task, old(cell)@, choice)
                ==> #[trigger] covers(task, final(cell)@, choice),
        forall|m: int|
            0 <= m < sources@.len() && task.admits((#[trigger] sources@[m]).choice@.push(n))
                ==> covers(task, final(cell)@, sources@[m].choice@.push(n)),
{
    let ghost start = cell@;
    let mut m: usize = 0;
    while m < sources.len()
        invariant
            m <= sources@.len(),
            0 < i < task.trays.len() <= usize::MAX,
            ordered(task),
            task.rules == rules@,
            task.floor == floor,
            0 <= n < task.trays[i].options@.len(),
            *option == task.trays[i].options@[n],
            slot_allowed(rules@, option.format, i),
            transition_allowed(rules@, before, option.format),
            height <= task.max_height,
            is_cell(task, sources@, i, height - option.height, before),
            is_cell(task, cell@, i + 1, height, option.format),
            forall|choice: Seq<int>|
                task.admits(choice) && choice.len() == i + 1 && covers(task, start, choice)
                    ==> #[trigger] covers(task, cell@, choice),
            forall|k: int|
                0 <= k < m && task.admits((#[trigger] sources@[k]).choice@.push(n)) ==> covers(
                    task,
                    cell@,
                    sources@[k].choice@.push(n),
                ),
        decreases sources@.len() - m,
    {
        let source = &sources[m];
        let ghost old_choice = source.choice@;
        let ghost new_choice = old_choice.push(n);
        let ghost earlier = cell@;
        proof {
            assert(is_prefix(task, sources@[m as int], i));
            lemma_push(task, old_choice, n);
            assert(task.sum_defined(old_choice, n)) by {
                reveal(ordered);
            }
            assert(U::obeys_add_spec() && ordered_type::<U>()) by {
                reveal(ordered);
            }
        }
        let utility: U = source.utility + option.utility;
        if utility > floor {
            if let Some(used) = add_use(rules, &source.used, option.format, Ghost(source.formats@)) {
                let formats = append_format(&source.formats, option.format);
                let candidate = Prefix { utility, used, formats, choice: Ghost(new_choice) };
                offer(
                    cell,
                    candidate,
                    Ghost(task),
                    Ghost(i + 1),
                    Ghost(height),
                    Ghost(option.format),
                );
            }
        }
        assert forall|k: int|
            0 <= k < m + 1 && task.admits((#[trigger] sources@[k]).choice@.push(n)) implies covers(
            task,
            cell@,
            sources@[k].choice@.push(n),
        ) by {
            if k < m {
                assert(covers(task, earlier, sources@[k].choice@.push(n)));
                assert(is_prefix(task, sources@[k], i));
            }
        }
        m = m + 1;
    }
}

/// The last option of a choice, and the choice before it.
proof fn lemma_split<U: PartialOrd + Add<Output = U>>(task: LayoutTask<U>, choice: Seq<int>)
    requires
        task.admits(choice),
        choice.len() > 0,
    ensures
        ({
            let shorter = choice.drop_last();
            &&& choice == shorter.push(choice.last())
            &&& task.admits(shorter)
            &&& 0 <= choice.last() < task.trays[choice.len() - 1].options@.len()
            &&& task.formats(choice).last() == task.trays[choice.len()
                - 1].options@[choice.last()].format
        }),
{
    let shorter = choice.drop_last();
    assert(choice =~= shorter.push(choice.last()));
    lemma_push(task, shorter, choice.last());
}

/// Extends what the layer `prev` holds by option `n` of tray `i`, to total height `height`.
fn offer_option<U: PartialOrd + Add<Output = U> + Copy>(
    cell: &mut Vec<Prefix<U>>,
    prev: &Vec<Vec<Prefix<U>>>,
    rules: &[ConstraintRule],
    floor: U,
    option: &TrayOption<U>,
    i: usize,
    height: usize,
    Ghost(task): Ghost<LayoutTask<U>>,
    Ghost(n): Ghost<int>,
)
    requires
        0 < i < task.trays.len() <= usize::MAX,
        ordered(task),
        task.rules == rules@,
        task.floor == floor,
        0 <= n < task.trays[i as int].options@.len(),
        *option == task.trays[i as int].options@[n],
        slot_allowed(rules@, option.format, i as int),
        option.height <= height <= task.max_height,
        num_states(task.max_height) <= usize::MAX,
        is_layer(task, prev@, i as int),
        is_cell(task, old(cell)@, i + 1, height as int, option.format),
    ensures
        is_cell(task, final(cell)@, i + 1, height as int, option.format),
        forall|choice: Seq<int>|
            task.admits(choice) && choice.len() == i + 1 && (covers(task, old(cell)@, choice) || (
            choice.last() == n && task.height(choice) == height)) ==> #[trigger] covers(
                task,
                final(cell)@,
                choice,
            ),
{
    let ghost start = cell@;
    let rest: usize = height - option.height;
    let mut k: usize = 0;
    while k < NUM_FORMATS
        invariant
            k <= NUM_FORMATS,
            rest == height - option.height,
            0 < i < task.trays.len() <= usize::MAX,
            ordered(task),
            task.rules == rules@,
            task.floor == floor,
            0 <= n < task.trays[i as int].options@.len(),
            *option == task.trays[i as int].options@[n],
            slot_allowed(rules@, option.format, i as int),
            option.height <= height <= task.max_height,
            num_states(task.max_height) <= usize::MAX,
            is_layer(task, prev@, i as int),
            is_cell(task, cell@, i + 1, height as int, option.format),
            forall|choice: Seq<int>|
                task.admits(choice) && choice.len() == i + 1 && covers(task, start, choice)
                    ==> #[trigger] covers(task, cell@, choice),
            forall|state: int, m: int|
                #![trigger prev@[state]@[m]]
                rest * 4 <= state < rest * 4 + k && 0 <= m < prev@[state]@.len() && task.admits(
                    prev@[state]@[m].choice@.push(n),
                ) ==> covers(task, cell@, prev@[state]@[m].choice@.push(n)),
        decreases NUM_FORMATS - k,
    {
        let before = Format::from_usize(k);
        let state: usize = rest * 4 + k;
        let ghost earlier = cell@;
        assert(is_cell(task, prev@[state as int]@, i as int, rest as int, before));
        if transition_ok(rules, before, option.format, i) {
            offer_from(
                cell,
                &prev[state],
                rules,
                floor,
                option,
                Ghost(task),
                Ghost(i as int),
                Ghost(n),
                Ghost(height as int),
                Ghost(before),
            );
        }
        assert forall|s: int, m: int|
            #![trigger prev@[s]@[m]]
            rest * 4 <= s < rest * 4 + k + 1 && 0 <= m < prev@[s]@.len() && task.admits(
                prev@[s]@[m].choice@.push(n),
            ) implies covers(task, cell@, prev@[s]@[m].choice@.push(n)) by {
            let found = prev@[s]@[m].choice@;
            assert(is_cell(task, prev@[s]@, i as int, s / 4, format_at(s % 4)));
            assert(is_prefix(task, prev@[s]@[m], i as int));
            if s < rest * 4 + k {
                assert(covers(task, earlier, found.push(n)));
            } else {
                lemma_push(task, found, n);
                assert(prev@[state as int]@[m].choice@ == found);
            }
        }
        k = k + 1;
    }
    proof {
        assert forall|choice: Seq<int>|
            task.admits(choice) && choice.len() == i + 1 && choice.last() == n && task.height(
                choice,
            ) == height implies #[trigger] covers(task, cell@, choice) by {
            lemma_split(task, choice);
            let shorter = choice.drop_last();
            lemma_push(task, shorter, n);
            lemma_place(task, shorter);
            let state = task.place(shorter);
            assert(is_covered(task, prev@, i as int, shorter));
            let m = choose|m: int|
                0 <= m < prev@[state]@.len() && stands_for(
                    task,
                    #[trigger] prev@[state]@[m],
                    shorter,
                );
            let found = prev@[state]@[m].choice@;
            assert(is_cell(task, prev@[state]@, i as int, state / 4, format_at(state % 4)));
            assert(is_prefix(task, prev@[state]@[m], i as int));
            assert(task.order_kept(shorter, found, n)) by {
                reveal(ordered);
            }
            lemma_push(task, found, n);
            lemma_uses_push(task.rules, task.formats(shorter), task.formats(found), option.format);
            assert(task.admits(found.push(n)));
            assert(covers(task, cell@, found.push(n)));
            let j = choose|j: int|
                0 <= j < cell@.len() && stands_for(task, #[trigger] cell@[j], found.push(n));
            assert(is_prefix(task, cell@[j], i + 1));
            let kept = cell@[j].choice@;
            lemma_between(task, choice, found.push(n), kept);
            assert(stands_for(task, cell@[j], choice));
        }
    }
}

/// Pages with equal uses have equal uses after one more format, and the rules accept both or none.
proof fn lemma_uses_push(
    rules: Seq<ConstraintRule>,
    a: Seq<Format>,
    b: Seq<Format>,
    format: Format,
)
    requires
        uses(rules, a) == uses(rules, b),
    ensures
        uses(rules, a.push(format)) == uses(rules, b.push(format)),
        sequence_allowed(rules, a.push(format)) == sequence_allowed(rules, b.push(format)),
{
    assert forall|c: int| 0 <= c < rules.len() implies {
        &&& #[trigger] use_of(rules[c], a.push(format)) == use_of(rules[c], b.push(format))
        &&& rules[c].allows_sequence(a.push(format)) == rules[c].allows_sequence(b.push(format))
    } by {
        assert(uses(rules, a)[c] == use_of(rules[c], a));
        assert(uses(rules, b)[c] == use_of(rules[c], b));
        assert(use_of(rules[c], a) == use_of(rules[c], b));
        match rules[c] {
            ConstraintRule::MaxOccurrences { format: target, limit } => {
                lemma_occurrences(a, format, target);
                lemma_occurrences(b, format, target);
                assert(use_of(rules[c], a) == occurrences(a, target));
                assert(use_of(rules[c], b) == occurrences(b, target));
                assert(use_of(rules[c], a.push(format)) == occurrences(a.push(format), target));
                assert(use_of(rules[c], b.push(format)) == occurrences(b.push(format), target));
                assert(occurrences(a.push(format), target) == occurrences(b.push(format), target));
            },
            _ => {},
        }
    }
    assert forall|c: int| 0 <= c < rules.len() implies (
    #[trigger] rules[c]).allows_sequence(a.push(format)) == rules[c].allows_sequence(
        b.push(format),
    ) by {
        assert(use_of(rules[c], a.push(format)) == use_of(rules[c], b.push(format)));
    }
    assert(uses(rules, a.push(format)) =~= uses(rules, b.push(format)));
}

/// The uses of a page without trays.
fn no_uses(rules: &[ConstraintRule]) -> (used: Vec<usize>)
    ensures
        holds_uses(used@, rules@, Seq::empty()),
{
    broadcast use vstd::seq_lib::group_to_multiset_ensures;

    let mut used: Vec<usize> = Vec::new();
    while used.len() < rules.len()
        invariant
            used@.len() <= rules@.len(),
            forall|c: int| 0 <= c < used@.len() ==> used@[c] == 0,
        decreases rules@.len() - used@.len(),
    {
        used.push(0);
    }
    assert forall|c: int| 0 <= c < used@.len() implies #[trigger] used@[c] == uses(
        rules@,
        Seq::empty(),
    )[c] by {
        if let ConstraintRule::MaxOccurrences { format, limit } = rules@[c] {
            lemma_occurrences(Seq::empty(), format, format);
        }
    }
    used
}

/// Takes option `n` of the first tray into `cell`.
fn offer_first<U: PartialOrd + Add<Output = U> + Copy>(
    cell: &mut Vec<Prefix<U>>,
    rules: &[ConstraintRule],
    floor: U,
    option: &TrayOption<U>,
    Ghost(task): Ghost<LayoutTask<U>>,
    Ghost(n): Ghost<int>,
)
    requires
        0 < task.trays.len(),
        ordered(task),
        task.rules == rules@,
        task.floor == floor,
        0 <= n < task.trays[0].options@.len(),
        *option == task.trays[0].options@[n],
        slot_allowed(rules@, option.format, 0),
        option.height <= task.max_height,
        is_cell(task, old(cell)@, 1, option.height as int, option.format),
    ensures
        is_cell(task, final(cell)@, 1, option.height as int, option.format),
        forall|choice: Seq<int>|
            task.admits(choice) && choice.len() == 1 && (covers(task, old(cell)@, choice)
                || choice.last() == n) ==> #[trigger] covers(task, final(cell)@, choice),
{
    let ghost start = cell@;
    let ghost none = Seq::<int>::empty();
    let ghost new = none.push(n);
    proof {
        lemma_push(task, none, n);
        assert(task.formats(none) =~= Seq::<Format>::empty());
        assert forall|c: int| 0 <= c < task.rules.len() implies (
        #[trigger] task.rules[c]).allows_sequence(task.formats(none)) by {
            if let ConstraintRule::MaxOccurrences { format, limit } = task.rules[c] {
                lemma_occurrences(task.formats(none), format, format);
            }
        }
        assert(task.admits(none));
        assert(ordered_type::<U>()) by {
            reveal(ordered);
        }
    }
    if option.utility > floor {
        let used = no_uses(rules);
        if let Some(used) = add_use(rules, &used, option.format, Ghost(Seq::empty())) {
            let no_formats: Vec<Format> = Vec::new();
            let formats = append_format(&no_formats, option.format);
            let candidate = Prefix { utility: option.utility, used, formats, choice: Ghost(new) };
            offer(
                cell,
                candidate,
                Ghost(task),
                Ghost(1),
                Ghost(option.height as int),
                Ghost(option.format),
            );
        }
    }
    proof {
        assert forall|choice: Seq<int>|
            task.admits(choice) && choice.len() == 1 && choice.last() == n implies #[trigger] covers(
            task,
            cell@,
            choice,
        ) by {
            assert(choice =~= new);
        }
    }
}

/// The prefixes through tray `i` with total height `height` and last format `format`.
fn fill_cell<U: PartialOrd + Add<Output = U> + Copy>(
    trays: &[Tray<U>],
    rules: &[ConstraintRule],
    floor: U,
    i: usize,
    prev: &Vec<Vec<Prefix<U>>>,
    height: usize,
    format: Format,
    Ghost(task): Ghost<LayoutTask<U>>,
) -> (cell: Vec<Prefix<U>>)
    requires
        i < trays@.len(),
        task.trays == trays@,
        task.rules == rules@,
        task.floor == floor,
        ordered(task),
        height <= task.max_height,
        num_states(task.max_height) <= usize::MAX,
        i > 0 ==> is_layer(task, prev@, i as int),
    ensures
        is_cell(task, cell@, i + 1, height as int, format),
        forall|choice: Seq<int>|
            task.admits(choice) && choice.len() == i + 1 && task.height(choice) == height
                && task.formats(choice).last() == format ==> #[trigger] covers(task, cell@, choice),
{
    let mut cell: Vec<Prefix<U>> = Vec::new();
    let allowed = slot_ok(rules, format, i);
    let mut n: usize = 0;
    while n < trays[i].options.len()
        invariant
            i < trays@.len(),
            n <= trays@[i as int].options@.len(),
            task.trays == trays@,
            task.rules == rules@,
            task.floor == floor,
            ordered(task),
            height <= task.max_height,
            num_states(task.max_height) <= usize::MAX,
            i > 0 ==> is_layer(task, prev@, i as int),
            allowed == slot_allowed(rules@, format, i as int),
            is_cell(task, cell@, i + 1, height as int, format),
            forall|choice: Seq<int>|
                task.admits(choice) && choice.len() == i + 1 && task.height(choice) == height
                    && task.formats(choice).last() == format && choice.last() < n
                    ==> #[trigger] covers(task, cell@, choice),
        decreases trays@[i as int].options@.len() - n,
    {
        let option = &trays[i].options[n];
        let ghost earlier = cell@;
        if option.format == format && allowed && option.height <= height {
            if i > 0 {
                offer_option(
                    &mut cell,
                    prev,
                    rules,
                    floor,
                    option,
                    i,
                    height,
                    Ghost(task),
                    Ghost(n as int),
                );
            } else if option.height == height {
                offer_first(&mut cell, rules, floor, option, Ghost(task), Ghost(n as int));
            }
        }
        proof {
            assert forall|choice: Seq<int>|
                task.admits(choice) && choice.len() == i + 1 && task.height(choice) == height
                    && task.formats(choice).last() == format && choice.last()
                    < n + 1 implies #[trigger] covers(task, cell@, choice) by {
                lemma_split(task, choice);
                let shorter = choice.drop_last();
                lemma_push(task, shorter, choice.last());
                lemma_height(task, shorter);
                if choice.last() < n {
                    assert(covers(task, earlier, choice));
                } else {
                    assert(task.trays[i as int].options@[choice.last()] == *option);
                    if i == 0 {
                        assert(shorter =~= Seq::<int>::empty());
                    }
                }
            }
        }
        n = n + 1;
    }
    proof {
        assert forall|choice: Seq<int>|
            task.admits(choice) && choice.len() == i + 1 && task.height(choice) == height
                && task.formats(choice).last() == format implies #[trigger] covers(
            task,
            cell@,
            choice,
        ) by {
            lemma_split(task, choice);
        }
    }
    cell
}

/// Computes the layer of tray `i` from that of the tray before it.
fn fill_layer<U: PartialOrd + Add<Output = U> + Copy>(
    trays: &[Tray<U>],
    rules: &[ConstraintRule],
    max_height: usize,
    floor: U,
    i: usize,
    prev: &Vec<Vec<Prefix<U>>>,
    Ghost(task): Ghost<LayoutTask<U>>,
) -> (cells: Vec<Vec<Prefix<U>>>)
    requires
        i < trays@.len(),
        task.trays == trays@,
        task.rules == rules@,
        task.max_height == max_height,
        task.floor == floor,
        ordered(task),
        num_states(max_height as int) <= usize::MAX,
        i > 0 ==> is_layer(task, prev@, i as int),
    ensures
        is_layer(task, cells@, i + 1),
{
    let mut cells: Vec<Vec<Prefix<U>>> = Vec::new();
    let mut height: usize = 0;
    let mut f: usize = 0;
    let total: usize = (max_height + 1) * 4;
    proof {
        assert forall|choice: Seq<int>| #[trigger] is_covered(task, cells@, i + 1, choice) by {
            if task.admits(choice) && choice.len() == i + 1 {
                lemma_place(task, choice);
            }
        }
    }
    while cells.len() < total
        invariant
            i < trays@.len(),
            task.trays == trays@,
            task.rules == rules@,
            task.max_height == max_height,
            task.floor == floor,
            ordered(task),
            num_states(max_height as int) <= usize::MAX,
            i > 0 ==> is_layer(task, prev@, i as int),
            total == num_states(max_height as int),
            cells@.len() <= total,
            f < NUM_FORMATS,
            cells@.len() == height * 4 + f,
            forall|state: int|
                0 <= state < cells@.len() ==> is_cell(
                    task,
                    (#[trigger] cells@[state])@,
                    i + 1,
                    state / 4,
                    format_at(state % 4),
                ),
            forall|choice: Seq<int>| #[trigger] is_covered(task, cells@, i + 1, choice),
        decreases total - cells@.len(),
    {
        let format = Format::from_usize(f);
        let ghost earlier = cells@;
        let cell = fill_cell(trays, rules, floor, i, prev, height, format, Ghost(task));
        cells.push(cell);
        proof {
            let state = earlier.len() as int;
            assert(state / 4 == height && state % 4 == f);
            assert forall|s: int| 0 <= s < cells@.len() implies is_cell(
                task,
                (#[trigger] cells@[s])@,
                i + 1,
                s / 4,
                format_at(s % 4),
            ) by {
                if s < state {
                    assert(cells@[s] == earlier[s]);
                }
            }
            assert forall|choice: Seq<int>| #[trigger] is_covered(task, cells@, i + 1, choice) by {
                if task.admits(choice) && choice.len() == i + 1 && task.place(choice)
                    < cells@.len() {
                    lemma_place(task, choice);
                    assert(is_covered(task, earlier, i + 1, choice));
                    if task.place(choice) < state {
                        assert(cells@[task.place(choice)] == earlier[task.place(choice)]);
                    } else {
                        assert(covers(task, cell@, choice));
                    }
                }
            }
        }
        if f + 1 == NUM_FORMATS {
            f = 0;
            height = height + 1;
        } else {
            f = f + 1;
        }
    }
    cells
}

/// The prefix `best` is worth as much as every prefix of the first `state` cells and the first `m`
/// of the next, and comes first among its equals.
spec fn leads<U: PartialOrd + Add<Output = U>>(
    task: LayoutTask<U>,
    cells: Seq<Vec<Prefix<U>>>,
    best: Seq<int>,
    state: int,
    m: int,
) -> bool {
    forall|s: int, j: int|
        #![trigger cells[s]@[j]]
        0 <= s < cells.len() && 0 <= j < cells[s]@.len() && (s < state || (s == state && j < m))
            ==> !task.outdoes(cells[s]@[j].choice@, best) && (task.outdoes(
            best,
            cells[s]@[j].choice@,
        ) || task.place(best) <= s)
}

/// The prefix with the greatest utility, by its cell and its position there.
fn find_best<U: PartialOrd + Add<Output = U> + Copy>(
    cells: &Vec<Vec<Prefix<U>>>,
    Ghost(task): Ghost<LayoutTask<U>>,
) -> (found: Option<(usize, usize)>)
    requires
        task.trays.len() > 0,
        ordered(task),
        is_layer(task, cells@, task.trays.len() as int),
    ensures
        match found {
            Some((state, m)) => {
                &&& state < cells@.len()
                &&& m < cells@[state as int]@.len()
                &&& leads(
                    task,
                    cells@,
                    cells@[state as int]@[m as int].choice@,
                    cells@.len() as int,
                    0,
                )
            },
            None => forall|s: int|
                0 <= s < cells@.len() ==> (#[trigger] cells@[s])@.len() == 0,
        },
{
    let mut found: Option<(usize, usize)> = None;
    let mut state: usize = 0;
    while state < cells.len()
        invariant
            state <= cells@.len(),
            task.trays.len() > 0,
            ordered(task),
            is_layer(task, cells@, task.trays.len() as int),
            match found {
                Some((s, m)) => {
                    &&& s < state
                    &&& m < cells@[s as int]@.len()
                    &&& leads(task, cells@, cells@[s as int]@[m as int].choice@, state as int, 0)
                },
                None => forall|s: int| 0 <= s < state ==> (#[trigger] cells@[s])@.len() == 0,
            },
        decreases cells@.len() - state,
    {
        let mut m: usize = 0;
        while m < cells[state].len()
            invariant
                state < cells@.len(),
                m <= cells@[state as int]@.len(),
                task.trays.len() > 0,
                ordered(task),
                is_layer(task, cells@, task.trays.len() as int),
                match found {
                    Some((s, j)) => {
                        &&& s <= state
                        &&& j < cells@[s as int]@.len()
                        &&& leads(
                            task,
                            cells@,
                            cells@[s as int]@[j as int].choice@,
                            state as int,
                            m as int,
                        )
                    },
                    None => m == 0 && forall|s: int|
                        0 <= s < state ==> (#[trigger] cells@[s])@.len() == 0,
                },
            decreases cells@[state as int]@.len() - m,
        {
            let ghost new = cells@[state as int]@[m as int].choice@;
            let ghost len = task.trays.len() as int;
            proof {
                assert(is_cell(
                    task,
                    cells@[state as int]@,
                    len,
                    state as int / 4,
                    format_at(state as int % 4),
                ));
                assert(is_prefix(task, cells@[state as int]@[m as int], len));
                lemma_place(task, new);
                assert(task.place(new) == state) by {
                    assert(format_code(format_at(state as int % 4)) == state as int % 4);
                }
                lemma_asymmetric(task, new, new);
                assert(ordered_type::<U>()) by {
                    reveal(ordered);
                }
            }
            let better: bool = match found {
                Some((s, j)) => cells[state][m].utility > cells[s][j].utility,
                None => true,
            };
            proof {
                if let Some((s, j)) = found {
                    let old_best = cells@[s as int]@[j as int].choice@;
                    assert(is_cell(
                        task,
                        cells@[s as int]@,
                        len,
                        s as int / 4,
                        format_at(s as int % 4),
                    ));
                    assert(is_prefix(task, cells@[s as int]@[j as int], len));
                    lemma_place(task, old_best);
                    assert(task.place(old_best) == s) by {
                        assert(format_code(format_at(s as int % 4)) == s as int % 4);
                    }
                    assert(better == task.outdoes(new, old_best));
                    assert forall|t: int, q: int|
                        #![trigger cells@[t]@[q]]
                        0 <= t < cells@.len() && 0 <= q < cells@[t]@.len() && (t < state || (t
                            == state && q < m + 1)) implies {
                        let best = if better {
                            new
                        } else {
                            old_best
                        };
                        !task.outdoes(cells@[t]@[q].choice@, best) && (task.outdoes(
                            best,
                            cells@[t]@[q].choice@,
                        ) || task.place(best) <= t)
                    } by {
                        let other = cells@[t]@[q].choice@;
                        assert(is_cell(task, cells@[t]@, len, t / 4, format_at(t % 4)));
                        assert(is_prefix(task, cells@[t]@[q], len));
                        if t < state || q < m {
                            assert(!task.outdoes(other, old_best));
                            if better {
                                lemma_between(task, new, other, old_best);
                                lemma_asymmetric(task, new, other);
                            }
                        } else {
                            assert(other == new);
                        }
                    }
                }
            }
            if better {
                found = Some((state, m));
            }
            m = m + 1;
        }
        state = state + 1;
    }
    found
}

/// Lays out a page of `trays` within `max_height` under `constraints`.
///
/// The result is the best page that obeys every rule, with its total utility; of equally good pages
/// the lowest, and of those one with the first format of the last tray. Only utilities above `floor`
/// count (minus infinity, for floating point). Where there is no such page, every tray is hidden and
/// the utility is the default one.
pub fn solve_tray_layout_with_constraints<U: PartialOrd + Add<Output = U> + Copy + Default>(
    trays: &[Tray<U>],
    max_height: usize,
    constraints: &[ConstraintRule],
    floor: U,
) -> (result: (U, Vec<Format>))
    requires
        num_states(max_height as int) <= usize::MAX,
        layout_task(trays@, max_height, constraints@, floor).is_ordered(),
    ensures
        is_laid_out(layout_task(trays@, max_height, constraints@, floor), result.0, result.1@),
{
    let ghost task = layout_task(trays@, max_height, constraints@, floor);
    let n: usize = trays.len();
    if n == 0 {
        let none: Vec<Format> = Vec::new();
        assert(none@ =~= Seq::new(trays@.len(), |i: int| Format::Hidden));
        return (U::default(), none);
    }
    proof {
        reveal(ordered);
    }
    let no_layer: Vec<Vec<Prefix<U>>> = Vec::new();
    let mut cells = fill_layer(trays, constraints, max_height, floor, 0, &no_layer, Ghost(task));
    let mut i: usize = 1;
    while i < n
        invariant
            n == trays@.len(),
            1 <= i <= n,
            num_states(max_height as int) <= usize::MAX,
            task == layout_task(trays@, max_height, constraints@, floor),
            ordered(task),
            is_layer(task, cells@, i as int),
        decreases n - i,
    {
        cells = fill_layer(trays, constraints, max_height, floor, i, &cells, Ghost(task));
        i = i + 1;
    }
    match find_best(&cells, Ghost(task)) {
        Some((state, m)) => {
            let best = &cells[state][m];
            proof {
                let choice = best.choice@;
                assert(is_cell(
                    task,
                    cells@[state as int]@,
                    n as int,
                    state as int / 4,
                    format_at(state as int % 4),
                ));
                assert(is_prefix(task, cells@[state as int]@[m as int], n as int));
                assert forall|other: Seq<int>| #[trigger] task.is_solution(other) implies {
                    &&& !task.outdoes(other, choice)
                    &&& task.outdoes(choice, other) || task.place(choice) <= task.place(other)
                } by {
                    lemma_place(task, other);
                    let t = task.place(other);
                    assert(is_covered(task, cells@, n as int, other));
                    let q = choose|q: int|
                        0 <= q < cells@[t]@.len() && stands_for(
                            task,
                            #[trigger] cells@[t]@[q],
                            other,
                        );
                    assert(is_cell(task, cells@[t]@, n as int, t / 4, format_at(t % 4)));
                    assert(is_prefix(task, cells@[t]@[q], n as int));
                    let kept = cells@[t]@[q].choice@;
                    assert(!task.outdoes(kept, choice));
                    lemma_between(task, other, kept, choice);
                    lemma_between(task, choice, other, kept);
                }
                assert(task.is_best_solution(choice));
            }
            (best.utility, copy_formats(&best.formats))
        },
        None => {
            proof {
                assert forall|other: Seq<int>| !#[trigger] task.is_solution(other) by {
                    if task.is_solution(other) {
                        lemma_place(task, other);
                        assert(is_covered(task, cells@, n as int, other));
                    }
                }
            }
            (U::default(), hide_all(n))
        },
    }
}

/// A page of `n` hidden trays.
fn hide_all(n: usize) -> (hidden: Vec<Format>)
    ensures
        hidden@ == Seq::new(n as nat, |i: int| Format::Hidden),
{
    let mut hidden: Vec<Format> = Vec::new();
    while hidden.len() < n
        invariant
            hidden@ == Seq::new(hidden@.len(), |i: int| Format::Hidden),
            hidden.len() <= n,
        decreases n - hidden.len(),
    {
        hidden.push(Format::Hidden);
        assert(hidden@ =~= Seq::new(hidden@.len(), |i: int| Format::Hidden));
    }
    hidden
}

/// Lays out a page on which no banner follows a banner.
pub fn solve_tray_layout<U: PartialOrd + Add<Output = U> + Copy + Default>(
    trays: &[Tray<U>],
    max_height: usize,
    floor: U,
) -> (result: (U, Vec<Format>))
    requires
        num_states(max_height as int) <= usize::MAX,
        layout_task(
            trays@,
            max_height,
            seq![ConstraintRule::NoConsecutive(Format::Banner)],
            floor,
        ).is_ordered(),
    ensures
        is_laid_out(
            layout_task(
                trays@,
                max_height,
                seq![ConstraintRule::NoConsecutive(Format::Banner)],
                floor,
            ),
            result.0,
            result.1@,
        ),
{
    let mut rules: Vec<ConstraintRule> = Vec::new();
    rules.push(ConstraintRule::NoConsecutive(Format::Banner));
    assert(rules@ =~= seq![ConstraintRule::NoConsecutive(Format::Banner)]);
    solve_tray_layout_with_constraints(trays, max_height, &rules, floor)
}

} // verus!
