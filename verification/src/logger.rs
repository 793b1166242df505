//! The guest-side logger: a default threshold, thresholds for single modules,
//! and the decision whether an event is carried to the host.

use vstd::prelude::*;
use vstd::utf8::*;
use crate::level::{Level, LevelFilter};
use crate::text::{decimal_text, push_decimal, starts_with};
use crate::transport::{request, HostCall, LogRecord, TransportError, FUNC_ID_LOG};
use crate::wire::{encodable, encoding, WireRecord};

verus! {

/// A threshold for every target that begins with `prefix`.
pub struct Override {
    /// Beginning of the names of the modules that the threshold is for.
    pub prefix: Seq<char>,
    /// The threshold.
    pub level: LevelFilter,
}

/// What a logger holds: the default threshold and the overrides in the order
/// in which they are consulted.
pub struct LoggerView {
    /// Threshold for targets that no override speaks for.
    pub default_level: LevelFilter,
    /// Thresholds for single modules, first consulted first.
    pub overrides: Seq<Override>,
}

impl Override {
    /// Whether this override speaks for `target`.
    pub open spec fn covers(self, target: Seq<char>) -> bool {
        self.prefix.is_prefix_of(target)
    }

    /// How specific this override is: the length of its prefix in bytes of
    /// UTF-8.
    pub open spec fn weight(self) -> nat {
        encode_utf8(self.prefix).len()
    }
}

/// The test "has weight `weight`" on overrides.
pub open spec fn has_weight(weight: nat) -> spec_fn(Override) -> bool {
    |entry: Override| entry.weight() == weight
}

/// Whether `entries` go from the most specific override to the least.
pub open spec fn is_descending(entries: Seq<Override>) -> bool {
    forall|i: int, j: int|
        0 <= i < j < entries.len() ==> (#[trigger] entries[i]).weight() >= (
        #[trigger] entries[j]).weight()
}

/// Whether `sorted` holds the entries of `given` from the most specific to
/// the least, those of one weight in the order they have in `given`.
pub open spec fn is_stable_sort_of(sorted: Seq<Override>, given: Seq<Override>) -> bool {
    &&& sorted.len() == given.len()
    &&& is_descending(sorted)
    &&& forall|weight: nat| #[trigger]
        sorted.filter(has_weight(weight)) == given.filter(has_weight(weight))
}

impl LoggerView {
    /// Whether the override at `index` is the first one that speaks for
    /// `target`.
    pub open spec fn is_first_cover(self, target: Seq<char>, index: int) -> bool {
        &&& 0 <= index < self.overrides.len()
        &&& self.overrides[index].covers(target)
        &&& forall|j: int| 0 <= j < index ==> !(#[trigger] self.overrides[j]).covers(target)
    }

    /// The threshold that holds for `target`: that of the first override
    /// whose prefix begins `target`, or the default where there is none.
    pub open spec fn threshold(self, target: Seq<char>) -> LevelFilter {
        if exists|i: int| self.is_first_cover(target, i) {
            self.overrides[choose|i: int| self.is_first_cover(target, i)].level
        } else {
            self.default_level
        }
    }

    /// Whether an event of `level` for `target` is let through.
    pub open spec fn enabled(self, target: Seq<char>, level: Level) -> bool {
        self.threshold(target).admits(level)
    }

    /// The most verbose threshold among the default and all overrides.
    pub open spec fn max_level(self) -> LevelFilter
        decreases self.overrides.len(),
    {
        if self.overrides.len() == 0 {
            self.default_level
        } else {
            LoggerView {
                default_level: self.default_level,
                overrides: self.overrides.drop_last(),
            }.max_level().join(self.overrides.last().level)
        }
    }
}

/// The target of a record: the target of the event widened by the place of
/// the call, as `target:file:line`.
pub open spec fn call_site(target: Seq<char>, file: Seq<char>, line: u32) -> Seq<char> {
    target + seq![':'] + file + seq![':'] + decimal_text(line as nat)
}

/// The record that stands for one event.
pub open spec fn record_of(
    level: Level,
    target: Seq<char>,
    file: Seq<char>,
    line: u32,
    message: Seq<char>,
) -> WireRecord {
    WireRecord {
        level: level.rank() as u32,
        target: encode_utf8(call_site(target, file, line)),
        args: encode_utf8(message),
    }
}

/// Logger of the guest side.
#[derive(Clone, Debug)]
pub struct InkLogger {
    /// Threshold for targets that no override speaks for.
    default_level: LevelFilter,
    /// Thresholds for single modules, in the order in which they are
    /// consulted.
    module_levels: Vec<(String, LevelFilter)>,
}

/// The overrides that a vector of pairs stands for.
pub open spec fn overrides_of(entries: Seq<(String, LevelFilter)>) -> Seq<Override> {
    Seq::new(entries.len(), |i: int| Override { prefix: entries[i].0@, level: entries[i].1 })
}

impl View for InkLogger {
    type V = LoggerView;

    closed spec fn view(&self) -> LoggerView {
        LoggerView {
            default_level: self.default_level,
            overrides: overrides_of(self.module_levels@),
        }
    }
}

/// Why a logger was not installed.
#[derive(Clone, Copy, Debug, PartialEq, Eq, Structural)]
pub enum InstallError {
    /// A logger had been installed before.
    AlreadyInstalled,
}

/// The place of the one active logger. It starts out empty, takes a logger
/// once and keeps it from then on.
#[derive(Debug)]
pub struct LoggerSlot {
    active: Option<InkLogger>,
    max_level: LevelFilter,
}

impl LoggerSlot {
    #[verifier::type_invariant]
    spec fn well_formed(self) -> bool {
        match self.active {
            Some(logger) => is_descending(logger@.overrides) && self.max_level
                == logger@.max_level(),
            None => self.max_level == LevelFilter::Off,
        }
    }

    /// What the installed logger holds, if one is installed.
    pub closed spec fn installed(self) -> Option<LoggerView> {
        match self.active {
            Some(logger) => Some(logger@),
            None => None,
        }
    }

    /// The threshold beyond which no event is let through for any target.
    pub closed spec fn ceiling(self) -> LevelFilter {
        self.max_level
    }

    /// An empty slot. Until a logger is installed nothing is let through.
    pub fn new() -> (slot: LoggerSlot)
        ensures
            slot.installed() is None,
            slot.ceiling() == LevelFilter::Off,
    {
        LoggerSlot { active: None, max_level: LevelFilter::Off }
    }

    /// The active logger. Its overrides go from the most specific to the
    /// least.
    pub fn logger(&self) -> (logger: Option<&InkLogger>)
        ensures
            match logger {
                Some(active) => self.installed() == Some(active@) && is_descending(
                    active@.overrides,
                ),
                None => self.installed() is None,
            },
    {
        proof {
            use_type_invariant(self);
        }
        self.active.as_ref()
    }

    /// The most verbose threshold of the active logger, `Off` while there is
    /// none.
    pub fn max_level(&self) -> (top: LevelFilter)
        ensures
            top == self.ceiling(),
            match self.installed() {
                Some(view) => top == view.max_level(),
                None => top == LevelFilter::Off,
            },
    {
        proof {
            use_type_invariant(self);
        }
        self.max_level
    }
}

/// Putting an entry ahead of all that are not more specific keeps the order
/// of a sorted sequence, and keeps the entries of each weight in the order
/// in which they came.
proof fn lemma_stable_insert(
    sorted: Seq<Override>,
    entry: Override,
    pos: int,
    later: Seq<Override>,
)
    requires
        0 <= pos <= sorted.len(),
        is_descending(sorted),
        forall|j: int| 0 <= j < pos ==> (#[trigger] sorted[j]).weight() > entry.weight(),
        forall|j: int| pos <= j < sorted.len() ==> (#[trigger] sorted[j]).weight() <= entry.weight(),
        forall|weight: nat| #[trigger]
            sorted.filter(has_weight(weight)) == later.filter(has_weight(weight)),
    ensures
        is_descending(sorted.insert(pos, entry)),
        forall|weight: nat| #[trigger]
            sorted.insert(pos, entry).filter(has_weight(weight)) == (seq![entry] + later).filter(
                has_weight(weight),
            ),
{
    let grown = sorted.insert(pos, entry);
    let ahead = sorted.take(pos);
    let behind = sorted.skip(pos);
    let single = seq![entry];
    assert(grown =~= ahead + single + behind);
    assert(sorted =~= ahead + behind);
    assert forall|i: int, j: int| 0 <= i < j < grown.len() implies (#[trigger] grown[i]).weight()
        >= (#[trigger] grown[j]).weight() by {
        if i < pos {
            assert(grown[i] == sorted[i]);
        } else if i > pos {
            assert(grown[i] == sorted[i - 1]);
        }
        if j < pos {
            assert(grown[j] == sorted[j]);
        } else if j > pos {
            assert(grown[j] == sorted[j - 1]);
        }
    }
    assert forall|weight: nat| #[trigger]
        grown.filter(has_weight(weight)) == (single + later).filter(has_weight(weight)) by {
        let pred = has_weight(weight);
        Seq::filter_distributes_over_add(ahead + single, behind, pred);
        Seq::filter_distributes_over_add(ahead, single, pred);
        Seq::filter_distributes_over_add(ahead, behind, pred);
        Seq::filter_distributes_over_add(single, later, pred);
        assert(sorted.filter(pred) == later.filter(pred));
        assert(single.filter(pred) =~= if pred(entry) {
            single
        } else {
            Seq::<Override>::empty()
        }) by {
            reveal_with_fuel(Seq::filter, 2);
            assert(single.drop_last() =~= Seq::<Override>::empty());
        }
        if pred(entry) {
            assert forall|i: int| 0 <= i < ahead.len() implies !pred(#[trigger] ahead[i]) by {
                assert(ahead[i] == sorted[i]);
            }
            ahead.lemma_all_neg_filter_empty(pred);
            assert(ahead.filter(pred) =~= Seq::<Override>::empty());
            assert(grown.filter(pred) =~= single + behind.filter(pred));
            assert(sorted.filter(pred) =~= behind.filter(pred));
        } else {
            assert(grown.filter(pred) =~= ahead.filter(pred) + behind.filter(pred));
        }
    }
}

/// A sorted sequence holds the same entries as the one it was sorted from.
pub proof fn lemma_stable_sort_same_entries(sorted: Seq<Override>, given: Seq<Override>)
    requires
        is_stable_sort_of(sorted, given),
    ensures
        forall|entry: Override| #[trigger] sorted.contains(entry) <==> given.contains(entry),
{
    assert forall|entry: Override| #[trigger] sorted.contains(entry) <==> given.contains(
        entry,
    ) by {
        let pred = has_weight(entry.weight());
        assert(sorted.filter(pred) == given.filter(pred));
        if sorted.contains(entry) {
            let i = choose|i: int| 0 <= i < sorted.len() && sorted[i] == entry;
            sorted.lemma_filter_contains(pred, i);
            given.lemma_filter_contains_rev(pred, entry);
        }
        if given.contains(entry) {
            let i = choose|i: int| 0 <= i < given.len() && given[i] == entry;
            given.lemma_filter_contains(pred, i);
            sorted.lemma_filter_contains_rev(pred, entry);
        }
    }
}

/// Two sorted sequences that agree on the entries of every weight, in their
/// order, are the same sequence.
proof fn lemma_same_by_weight(first: Seq<Override>, second: Seq<Override>)
    requires
        first.len() == second.len(),
        is_descending(first),
        is_descending(second),
        forall|weight: nat| #[trigger]
            first.filter(has_weight(weight)) == second.filter(has_weight(weight)),
    ensures
        first == second,
    decreases first.len(),
{
    if first.len() == 0 {
        assert(first =~= second);
    } else {
        let a = first.drop_last();
        let b = second.drop_last();
        let la = first.last();
        let lb = second.last();
        let end = first.len() - 1;
        assert(first.filter(has_weight(la.weight())) == second.filter(has_weight(la.weight())));
        assert(first.filter(has_weight(lb.weight())) == second.filter(has_weight(lb.weight())));
        first.lemma_filter_contains(has_weight(la.weight()), end);
        second.lemma_filter_contains_rev(has_weight(la.weight()), la);
        let k = choose|k: int| 0 <= k < second.len() && second[k] == la;
        assert(second[k].weight() >= second[end].weight());
        second.lemma_filter_contains(has_weight(lb.weight()), end);
        first.lemma_filter_contains_rev(has_weight(lb.weight()), lb);
        let m = choose|m: int| 0 <= m < first.len() && first[m] == lb;
        assert(first[m].weight() >= first[end].weight());
        assert(la.weight() == lb.weight());
        assert forall|weight: nat| #[trigger]
            a.filter(has_weight(weight)) == b.filter(has_weight(weight)) by {
            let pred = has_weight(weight);
            assert(first.filter(pred) == second.filter(pred));
            reveal(Seq::filter);
            if pred(la) {
                assert(first.filter(pred) == a.filter(pred).push(la));
                assert(second.filter(pred) == b.filter(pred).push(lb));
                assert(a.filter(pred) =~= first.filter(pred).drop_last());
                assert(b.filter(pred) =~= second.filter(pred).drop_last());
            }
        }
        assert(la == lb) by {
            let pred = has_weight(la.weight());
            reveal(Seq::filter);
            assert(first.filter(pred) == a.filter(pred).push(la));
            assert(second.filter(pred) == b.filter(pred).push(lb));
            assert(first.filter(pred).last() == la);
            assert(second.filter(pred).last() == lb);
        }
        assert forall|i: int, j: int| 0 <= i < j < a.len() implies (#[trigger] a[i]).weight() >= (
        #[trigger] a[j]).weight() by {
            assert(a[i] == first[i] && a[j] == first[j]);
        }
        assert forall|i: int, j: int| 0 <= i < j < b.len() implies (#[trigger] b[i]).weight() >= (
        #[trigger] b[j]).weight() by {
            assert(b[i] == second[i] && b[j] == second[j]);
        }
        lemma_same_by_weight(a, b);
        assert(first =~= a.push(la));
        assert(second =~= b.push(lb));
    }
}

/// Sorting has one result: two sequences that both hold the entries of a
/// third from the most specific to the least, those of one weight in the
/// order they have there, are the same sequence.
pub proof fn lemma_stable_sort_is_unique(
    first: Seq<Override>,
    second: Seq<Override>,
    given: Seq<Override>,
)
    requires
        is_stable_sort_of(first, given),
        is_stable_sort_of(second, given),
    ensures
        first == second,
{
    assert forall|weight: nat| #[trigger]
        first.filter(has_weight(weight)) == second.filter(has_weight(weight)) by {
        assert(first.filter(has_weight(weight)) == given.filter(has_weight(weight)));
        assert(second.filter(has_weight(weight)) == given.filter(has_weight(weight)));
    }
    lemma_same_by_weight(first, second);
}

/// The most verbose threshold is at least as verbose as the default and as
/// every override, and it is one of them.
pub proof fn lemma_max_level_bounds(view: LoggerView)
    ensures
        view.default_level.rank() <= view.max_level().rank(),
        forall|i: int|
            0 <= i < view.overrides.len() ==> (#[trigger] view.overrides[i]).level.rank()
                <= view.max_level().rank(),
        view.max_level() == view.default_level || exists|i: int|
            0 <= i < view.overrides.len() && (#[trigger] view.overrides[i]).level
                == view.max_level(),
    decreases view.overrides.len(),
{
    if view.overrides.len() > 0 {
        let shorter = LoggerView {
            default_level: view.default_level,
            overrides: view.overrides.drop_last(),
        };
        let last = view.overrides.len() - 1;
        lemma_max_level_bounds(shorter);
        assert forall|i: int| 0 <= i < view.overrides.len() implies (
        #[trigger] view.overrides[i]).level.rank() <= view.max_level().rank() by {
            if i < last {
                assert(shorter.overrides[i] == view.overrides[i]);
            }
        }
        if view.max_level() != view.default_level {
            if view.max_level() == view.overrides[last].level {
            } else {
                let i = choose|i: int|
                    0 <= i < shorter.overrides.len() && (#[trigger] shorter.overrides[i]).level
                        == shorter.max_level();
                assert(view.overrides[i].level == view.max_level());
            }
        }
    }
}

/// Nothing less severe than the most verbose threshold is ever let through.
pub proof fn lemma_enabled_within_max(view: LoggerView, target: Seq<char>, level: Level)
    requires
        view.enabled(target, level),
    ensures
        view.max_level().admits(level),
{
    lemma_max_level_bounds(view);
    if exists|i: int| view.is_first_cover(target, i) {
        let i = choose|i: int| view.is_first_cover(target, i);
        assert(view.overrides[i].level.rank() <= view.max_level().rank());
    }
}

/// Sorting the overrides does not change the most verbose threshold.
pub proof fn lemma_sort_keeps_max_level(sorted: LoggerView, given: LoggerView)
    requires
        sorted.default_level == given.default_level,
        is_stable_sort_of(sorted.overrides, given.overrides),
    ensures
        sorted.max_level() == given.max_level(),
{
    lemma_max_level_bounds(sorted);
    lemma_max_level_bounds(given);
    lemma_stable_sort_same_entries(sorted.overrides, given.overrides);
    assert forall|i: int| 0 <= i < sorted.overrides.len() implies (
    #[trigger] sorted.overrides[i]).level.rank() <= given.max_level().rank() by {
        let entry = sorted.overrides[i];
        assert(sorted.overrides.contains(entry));
        assert(given.overrides.contains(entry));
        let k = choose|k: int| 0 <= k < given.overrides.len() && given.overrides[k] == entry;
        assert(given.overrides[k].level.rank() <= given.max_level().rank());
    }
    assert forall|i: int| 0 <= i < given.overrides.len() implies (
    #[trigger] given.overrides[i]).level.rank() <= sorted.max_level().rank() by {
        let entry = given.overrides[i];
        assert(given.overrides.contains(entry));
        assert(sorted.overrides.contains(entry));
        let k = choose|k: int| 0 <= k < sorted.overrides.len() && sorted.overrides[k] == entry;
        assert(sorted.overrides[k].level.rank() <= sorted.max_level().rank());
    }
    crate::level::lemma_rank_determines_filter(sorted.max_level(), given.max_level());
}

/// In a sorted logger the override that sets the threshold for a target is
/// the most specific of all that speak for it.
pub proof fn lemma_first_cover_is_most_specific(
    view: LoggerView,
    target: Seq<char>,
    first: int,
    other: int,
)
    requires
        is_descending(view.overrides),
        view.is_first_cover(target, first),
        0 <= other < view.overrides.len(),
        view.overrides[other].covers(target),
    ensures
        view.overrides[other].weight() <= view.overrides[first].weight(),
{
    if other < first {
        assert(!view.overrides[other].covers(target));
    }
}

/// The test "speaks for `target`" on overrides.
pub open spec fn covering(target: Seq<char>) -> spec_fn(Override) -> bool {
    |entry: Override| entry.covers(target)
}

/// The test "has weight `weight` and speaks for `target`" on overrides.
pub open spec fn covering_with_weight(target: Seq<char>, weight: nat) -> spec_fn(Override) -> bool {
    |entry: Override| entry.weight() == weight && entry.covers(target)
}

/// The first entry that passes `test`, if any does.
spec fn first_entry(entries: Seq<Override>, test: spec_fn(Override) -> bool) -> Option<Override>
    decreases entries.len(),
{
    if entries.len() == 0 {
        None
    } else {
        match first_entry(entries.drop_last(), test) {
            Some(entry) => Some(entry),
            None => if test(entries.last()) {
                Some(entries.last())
            } else {
                None
            },
        }
    }
}

/// The first entry that passes a test is the entry at the least index that
/// passes it.
proof fn lemma_first_entry_at(entries: Seq<Override>, test: spec_fn(Override) -> bool, index: int)
    requires
        0 <= index < entries.len(),
        test(entries[index]),
        forall|j: int| 0 <= j < index ==> !test(#[trigger] entries[j]),
    ensures
        first_entry(entries, test) == Some(entries[index]),
    decreases entries.len(),
{
    let shorter = entries.drop_last();
    if index < entries.len() - 1 {
        assert(shorter[index] == entries[index]);
        assert forall|j: int| 0 <= j < index implies !test(#[trigger] shorter[j]) by {
            assert(shorter[j] == entries[j]);
        }
        lemma_first_entry_at(shorter, test, index);
    } else {
        assert forall|j: int| 0 <= j < shorter.len() implies !test(#[trigger] shorter[j]) by {
            assert(shorter[j] == entries[j]);
        }
        lemma_first_entry_none(shorter, test);
    }
}

/// Where no entry passes a test there is no first one.
proof fn lemma_first_entry_none(entries: Seq<Override>, test: spec_fn(Override) -> bool)
    requires
        forall|j: int| 0 <= j < entries.len() ==> !test(#[trigger] entries[j]),
    ensures
        first_entry(entries, test) is None,
    decreases entries.len(),
{
    if entries.len() > 0 {
        let shorter = entries.drop_last();
        assert forall|j: int| 0 <= j < shorter.len() implies !test(#[trigger] shorter[j]) by {
            assert(shorter[j] == entries[j]);
        }
        lemma_first_entry_none(shorter, test);
        assert(entries.last() == entries[entries.len() - 1]);
    }
}

/// Among the entries of one weight, the first that speaks for a target is
/// the first of all entries that has the weight and speaks for the target.
proof fn lemma_first_entry_of_weight(entries: Seq<Override>, target: Seq<char>, weight: nat)
    ensures
        first_entry(entries.filter(has_weight(weight)), covering(target)) == first_entry(
            entries,
            covering_with_weight(target, weight),
        ),
    decreases entries.len(),
{
    reveal(Seq::filter);
    if entries.len() > 0 {
        let shorter = entries.drop_last();
        let last = entries.last();
        lemma_first_entry_of_weight(shorter, target, weight);
        if has_weight(weight)(last) {
            let kept = shorter.filter(has_weight(weight)).push(last);
            assert(entries.filter(has_weight(weight)) == kept);
            assert(kept.drop_last() =~= shorter.filter(has_weight(weight)));
            assert(kept.last() == last);
        }
    }
}

/// Where an override speaks for a target there is a first one that does.
proof fn lemma_first_cover_exists(view: LoggerView, target: Seq<char>, index: int)
    requires
        0 <= index < view.overrides.len(),
        view.overrides[index].covers(target),
    ensures
        exists|i: int| 0 <= i <= index && view.is_first_cover(target, i),
    decreases index,
{
    if exists|j: int| 0 <= j < index && (#[trigger] view.overrides[j]).covers(target) {
        let j = choose|j: int| 0 <= j < index && (#[trigger] view.overrides[j]).covers(target);
        lemma_first_cover_exists(view, target, j);
    } else {
        assert(view.is_first_cover(target, index));
    }
}

impl LoggerView {
    /// Whether the override at `index` is the one that counts for `target`
    /// whatever the order of the overrides: it speaks for `target`, none
    /// that does is more specific, and those ahead of it that do are less
    /// specific.
    pub open spec fn is_most_specific(self, target: Seq<char>, index: int) -> bool {
        &&& 0 <= index < self.overrides.len()
        &&& self.overrides[index].covers(target)
        &&& forall|j: int|
            0 <= j < self.overrides.len() && (#[trigger] self.overrides[j]).covers(target)
                ==> self.overrides[j].weight() <= self.overrides[index].weight()
        &&& forall|j: int|
            0 <= j < index && (#[trigger] self.overrides[j]).covers(target)
                ==> self.overrides[j].weight() < self.overrides[index].weight()
    }
}

/// Once the overrides are sorted, the threshold for a target is that of the
/// most specific override that speaks for it, in whatever order the
/// overrides were added; of several that are equally specific the one added
/// first counts.
pub proof fn lemma_sorted_threshold(
    sorted: LoggerView,
    given: LoggerView,
    target: Seq<char>,
    index: int,
)
    requires
        is_stable_sort_of(sorted.overrides, given.overrides),
        given.is_most_specific(target, index),
    ensures
        sorted.threshold(target) == given.overrides[index].level,
{
    let best = given.overrides[index];
    let weight = best.weight();
    lemma_stable_sort_same_entries(sorted.overrides, given.overrides);
    assert(given.overrides.contains(best));
    assert(sorted.overrides.contains(best));
    let at = choose|k: int| 0 <= k < sorted.overrides.len() && sorted.overrides[k] == best;
    lemma_first_cover_exists(sorted, target, at);
    let first = choose|i: int| sorted.is_first_cover(target, i);
    let found = sorted.overrides[first];
    lemma_first_cover_is_most_specific(sorted, target, first, at);
    assert(sorted.overrides.contains(found));
    assert(given.overrides.contains(found));
    let back = choose|k: int| 0 <= k < given.overrides.len() && given.overrides[k] == found;
    assert(given.overrides[back].covers(target));
    assert(found.weight() == weight);
    let test = covering_with_weight(target, weight);
    assert forall|j: int| 0 <= j < first implies !test(#[trigger] sorted.overrides[j]) by {}
    lemma_first_entry_at(sorted.overrides, test, first);
    assert forall|j: int| 0 <= j < index implies !test(#[trigger] given.overrides[j]) by {}
    lemma_first_entry_at(given.overrides, test, index);
    lemma_first_entry_of_weight(sorted.overrides, target, weight);
    lemma_first_entry_of_weight(given.overrides, target, weight);
    assert(sorted.overrides.filter(has_weight(weight)) == given.overrides.filter(
        has_weight(weight),
    ));
    assert(found == best);
}

/// Sorting the overrides leaves the default in charge of every target that
/// no override speaks for.
pub proof fn lemma_sorted_threshold_default(
    sorted: LoggerView,
    given: LoggerView,
    target: Seq<char>,
)
    requires
        sorted.default_level == given.default_level,
        is_stable_sort_of(sorted.overrides, given.overrides),
        forall|j: int|
            0 <= j < given.overrides.len() ==> !(#[trigger] given.overrides[j]).covers(target),
    ensures
        sorted.threshold(target) == given.default_level,
{
    lemma_stable_sort_same_entries(sorted.overrides, given.overrides);
    if exists|i: int| sorted.is_first_cover(target, i) {
        let i = choose|i: int| sorted.is_first_cover(target, i);
        let found = sorted.overrides[i];
        assert(sorted.overrides.contains(found));
        assert(given.overrides.contains(found));
        let back = choose|k: int|
            0 <= k < given.overrides.len() && given.overrides[k] == found;
        assert(given.overrides[back].covers(target));
    }
}

/// Where a new entry of weight `weight` goes: behind all that are more
/// specific and ahead of the rest.
fn insertion_point(sorted: &Vec<(String, LevelFilter)>, weight: usize) -> (pos: usize)
    requires
        is_descending(overrides_of(sorted@)),
    ensures
        pos <= sorted@.len(),
        forall|j: int| 0 <= j < pos ==> (#[trigger] overrides_of(sorted@)[j]).weight() > weight,
        forall|j: int|
            pos <= j < sorted@.len() ==> (#[trigger] overrides_of(sorted@)[j]).weight() <= weight,
{
    let mut pos: usize = 0;
    while pos < sorted.len()
        invariant
            pos <= sorted@.len(),
            is_descending(overrides_of(sorted@)),
            forall|j: int| 0 <= j < pos ==> (#[trigger] overrides_of(sorted@)[j]).weight() > weight,
        decreases sorted@.len() - pos,
    {
        if sorted[pos].0.as_str().as_bytes().len() <= weight {
            assert forall|j: int| pos <= j < sorted@.len() implies (
            #[trigger] overrides_of(sorted@)[j]).weight() <= weight by {
                if j > pos {
                    assert(overrides_of(sorted@)[pos as int].weight() >= overrides_of(
                        sorted@,
                    )[j].weight());
                }
            }
            return pos;
        }
        pos += 1;
    }
    pos
}

/// Sorts overrides from the most specific to the least; those of one weight
/// stay in the order in which they came.
fn sort_by_specificity(entries: Vec<(String, LevelFilter)>) -> (sorted: Vec<
    (String, LevelFilter),
>)
    ensures
        is_stable_sort_of(overrides_of(sorted@), overrides_of(entries@)),
{
    let ghost given = overrides_of(entries@);
    let mut rest = entries;
    let mut sorted: Vec<(String, LevelFilter)> = Vec::new();
    assert(overrides_of(sorted@) =~= Seq::<Override>::empty());
    assert(given.skip(given.len() as int) =~= Seq::<Override>::empty());
    while rest.len() > 0
        invariant
            rest@.len() <= given.len(),
            overrides_of(rest@) == given.take(rest@.len() as int),
            sorted@.len() + rest@.len() == given.len(),
            is_descending(overrides_of(sorted@)),
            forall|weight: nat| #[trigger]
                overrides_of(sorted@).filter(has_weight(weight)) == given.skip(
                    rest@.len() as int,
                ).filter(has_weight(weight)),
        decreases rest@.len(),
    {
        let ghost before = overrides_of(sorted@);
        let ghost later = given.skip(rest@.len() as int);
        let ghost left = rest@.len() - 1;
        let ghost taken = overrides_of(rest@)[left];
        assert(taken == given[left]);
        let entry = rest.pop().unwrap();
        let pos = insertion_point(&sorted, entry.0.as_str().as_bytes().len());
        sorted.insert(pos, entry);
        proof {
            lemma_stable_insert(before, taken, pos as int, later);
            assert(overrides_of(sorted@) =~= before.insert(pos as int, taken));
            assert(given.skip(left) =~= seq![taken] + later);
            assert(overrides_of(rest@) =~= given.take(left));
        }
    }
    assert(given.skip(0) =~= given);
    sorted
}

impl Default for InkLogger {
    /// The logger that `new` gives.
    fn default() -> (logger: InkLogger)
        ensures
            logger@ == (LoggerView {
                default_level: LevelFilter::Trace,
                overrides: Seq::<Override>::empty(),
            }),
    {
        InkLogger::new()
    }
}

impl InkLogger {
    /// A logger that lets everything through and has no overrides.
    pub fn new() -> (logger: InkLogger)
        ensures
            logger@ == (LoggerView {
                default_level: LevelFilter::Trace,
                overrides: Seq::<Override>::empty(),
            }),
    {
        let logger = InkLogger { default_level: LevelFilter::Trace, module_levels: Vec::new() };
        assert(logger@.overrides =~= Seq::<Override>::empty());
        logger
    }

    /// Replaces the default threshold.
    pub fn with_level(self, level: LevelFilter) -> (logger: InkLogger)
        ensures
            logger@ == (LoggerView { default_level: level, overrides: self@.overrides }),
    {
        InkLogger { default_level: level, module_levels: self.module_levels }
    }

    /// Adds a threshold for the targets that begin with `target`. It is
    /// consulted after those added before.
    pub fn with_module_level(self, target: &str, level: LevelFilter) -> (logger: InkLogger)
        ensures
            logger@ == (LoggerView {
                default_level: self@.default_level,
                overrides: self@.overrides.push(Override { prefix: target@, level }),
            }),
    {
        let mut module_levels = self.module_levels;
        module_levels.push((String::from_str(target), level));
        let logger = InkLogger { default_level: self.default_level, module_levels };
        assert(logger@.overrides =~= self@.overrides.push(Override { prefix: target@, level }));
        logger
    }

    /// Decides whether an event of `level` for `target` is let through: the
    /// first override whose prefix begins `target` sets the threshold, the
    /// default where there is none, and the event passes when it is at least
    /// as severe as the threshold.
    pub fn enabled(&self, target: &str, level: Level) -> (yes: bool)
        ensures
            yes == self@.enabled(target@, level),
    {
        let mut i: usize = 0;
        while i < self.module_levels.len()
            invariant
                i <= self.module_levels@.len(),
                forall|j: int| 0 <= j < i ==> !(#[trigger] self@.overrides[j]).covers(target@),
            decreases self.module_levels@.len() - i,
        {
            if starts_with(target, self.module_levels[i].0.as_str()) {
                assert(self@.overrides[i as int].covers(target@));
                assert(self@.is_first_cover(target@, i as int));
                let ghost found = choose|k: int| self@.is_first_cover(target@, k);
                assert(found == i) by {
                    if found < i {
                        assert(self@.overrides[found].covers(target@));
                    }
                    if i < found {
                        assert(!self@.overrides[i as int].covers(target@));
                    }
                }
                return self.module_levels[i].1.allows(level);
            }
            i += 1;
        }
        assert forall|k: int| !self@.is_first_cover(target@, k) by {
            if self@.is_first_cover(target@, k) {
                assert(self@.overrides[k].covers(target@));
            }
        }
        self.default_level.allows(level)
    }

    /// The most verbose threshold among the default and all overrides.
    pub fn max_level(&self) -> (top: LevelFilter)
        ensures
            top == self@.max_level(),
    {
        let mut top = self.default_level;
        let mut i: usize = 0;
        while i < self.module_levels.len()
            invariant
                i <= self.module_levels@.len(),
                top == (LoggerView {
                    default_level: self@.default_level,
                    overrides: self@.overrides.take(i as int),
                }).max_level(),
            decreases self.module_levels@.len() - i,
        {
            assert(self@.overrides.take(i + 1).drop_last() =~= self@.overrides.take(i as int));
            top = top.max(self.module_levels[i].1);
            i += 1;
        }
        assert(self@.overrides.take(i as int) =~= self@.overrides);
        top
    }

    /// The same logger with its overrides sorted from the most specific to
    /// the least, so that the first override that speaks for a target is the
    /// most specific one. Overrides of one weight keep their order.
    pub fn sorted(self) -> (logger: InkLogger)
        ensures
            logger@.default_level == self@.default_level,
            is_stable_sort_of(logger@.overrides, self@.overrides),
    {
        InkLogger {
            default_level: self.default_level,
            module_levels: sort_by_specificity(self.module_levels),
        }
    }

    /// Installs this logger as the one active logger. Its overrides are
    /// sorted from the most specific to the least, those of one weight in the
    /// order in which they were added, and the most verbose of its thresholds
    /// becomes the ceiling of the slot. A slot takes a logger once: a second
    /// one is refused and changes nothing.
    pub fn init(self, slot: &mut LoggerSlot) -> (outcome: Result<(), InstallError>)
        ensures
            match outcome {
                Ok(()) => {
                    &&& old(slot).installed() is None
                    &&& final(slot).installed() is Some
                    &&& final(slot).installed()->0.default_level == self@.default_level
                    &&& is_stable_sort_of(final(slot).installed()->0.overrides, self@.overrides)
                    &&& final(slot).ceiling() == self@.max_level()
                },
                Err(e) => {
                    &&& e == InstallError::AlreadyInstalled
                    &&& old(slot).installed() is Some
                    &&& *final(slot) == *old(slot)
                },
            },
    {
        if slot.active.is_some() {
            return Err(InstallError::AlreadyInstalled);
        }
        let ghost given = self@;
        let max_level = self.max_level();
        let sorted = self.sorted();
        proof {
            lemma_sort_keeps_max_level(sorted@, given);
        }
        *slot = LoggerSlot { active: Some(sorted), max_level };
        Ok(())
    }

    /// Carries one event towards the host, or drops it. An event that is not
    /// let through for its target gives no call at all. Any other gives the
    /// one call that hands its record to the host, with the place of the log
    /// call made part of the target.
    pub fn log(&self, level: Level, target: &str, file: &str, line: u32, message: &str) -> (call:
        Result<Option<HostCall>, TransportError>)
        ensures
            match call {
                Ok(None) => !self@.enabled(target@, level),
                Ok(Some(c)) => {
                    &&& self@.enabled(target@, level)
                    &&& encodable(record_of(level, target@, file@, line, message@))
                    &&& c.func_id == FUNC_ID_LOG
                    &&& c.input@ == encoding(record_of(level, target@, file@, line, message@))
                },
                Err(e) => {
                    &&& self@.enabled(target@, level)
                    &&& !encodable(record_of(level, target@, file@, line, message@))
                    &&& e == TransportError::Unencodable
                },
            },
    {
        if !self.enabled(target, level) {
            return Ok(None);
        }
        proof {
            reveal_strlit(":");
        }
        let mut site = String::from_str(target);
        site.append(":");
        site.append(file);
        site.append(":");
        push_decimal(&mut site, line);
        assert(site@ =~= call_site(target@, file@, line));
        let record = LogRecord {
            level: level.code(),
            target: site.as_str().as_bytes_vec(),
            args: message.as_bytes_vec(),
        };
        assert(record@ =~= record_of(level, target@, file@, line, message@));
        match request(&record) {
            Ok(call) => Ok(Some(call)),
            Err(e) => Err(e),
        }
    }
}

} // verus!
