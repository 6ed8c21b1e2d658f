//! Previews that are shown, and their order in the text.

use crate::backend::{MathPreviewBackend, MathPreviewKind};
use crate::ranges::OffsetRange;
use crate::svg::SvgSize;
use vstd::prelude::*;

verus! {

/// A formula with its picture.
#[derive(Debug)]
pub struct MathPreviewEntry {
    /// Where the formula stands, with its delimiters.
    pub range: OffsetRange,
    pub kind: MathPreviewKind,
    pub backend: MathPreviewBackend,
    /// The file of the picture.
    pub svg_path: String,
    /// The size of the picture.
    pub size: SvgSize,
    /// Whether the picture is wanted in place of the formula.
    pub inline_enabled: bool,
    /// Whether the picture is wanted in a popover.
    pub popover_enabled: bool,
}

impl MathPreviewEntry {
    /// Both show the same in the same way.
    pub open spec fn same(self, other: MathPreviewEntry) -> bool {
        &&& self.range == other.range
        &&& self.kind == other.kind
        &&& self.backend == other.backend
        &&& self.svg_path@ == other.svg_path@
        &&& self.size.same(other.size)
        &&& self.inline_enabled == other.inline_enabled
        &&& self.popover_enabled == other.popover_enabled
    }

    /// Whether both show the same in the same way.
    pub fn is_same(&self, other: &MathPreviewEntry) -> (r: bool)
        ensures
            r == self.same(*other),
            r ==> self.range == other.range && self.kind == other.kind && self.backend
                == other.backend && self.svg_path@ == other.svg_path@ && self.inline_enabled
                == other.inline_enabled && self.popover_enabled == other.popover_enabled,
    {
        self.range == other.range && self.kind == other.kind && self.backend == other.backend
            && self.svg_path == other.svg_path && self.size.is_same(&other.size)
            && self.inline_enabled == other.inline_enabled && self.popover_enabled
            == other.popover_enabled
    }
}

/// Both lists show the same, one by one.
pub open spec fn all_same(a: Seq<MathPreviewEntry>, b: Seq<MathPreviewEntry>) -> bool {
    a.len() == b.len() && forall|i: int| 0 <= i < a.len() ==> (#[trigger] a[i]).same(b[i])
}

/// Whether both lists show the same, one by one.
pub fn is_all_same(a: &Vec<MathPreviewEntry>, b: &Vec<MathPreviewEntry>) -> (r: bool)
    ensures
        r == all_same(a@, b@),
{
    if a.len() != b.len() {
        return false;
    }
    for i in 0..a.len()
        invariant
            a@.len() == b@.len(),
            forall|j: int| 0 <= j < i ==> (#[trigger] a@[j]).same(b@[j]),
    {
        if !a[i].is_same(&b[i]) {
            assert(!a@[i as int].same(b@[i as int]));
            return false;
        }
    }
    true
}

/// `entries` with `entry` put in its place: behind all that do not start after it.
pub open spec fn placed(
    entries: Seq<MathPreviewEntry>,
    entry: MathPreviewEntry,
) -> Seq<MathPreviewEntry>
    decreases entries.len(),
{
    if entries.len() > 0 && entry.range.start < entries.last().range.start {
        placed(entries.drop_last(), entry).push(entries.last())
    } else {
        entries.push(entry)
    }
}

/// `entries` in the order of where they start. Those that start together stay in their order.
pub open spec fn ordered(entries: Seq<MathPreviewEntry>) -> Seq<MathPreviewEntry>
    decreases entries.len(),
{
    if entries.len() == 0 {
        entries
    } else {
        placed(ordered(entries.drop_last()), entries.last())
    }
}

/// Puts `entries` in the order of where they start. Those that start together stay in their
/// order.
pub fn order_by_start(entries: Vec<MathPreviewEntry>) -> (r: Vec<MathPreviewEntry>)
    ensures
        r@ == ordered(entries@),
{
    let mut sorted: Vec<MathPreviewEntry> = Vec::new();
    let ghost all = entries@;
    assert(all.take(0) =~= seq![]);
    for entry in it: entries
        invariant
            it.seq() == all,
            sorted@ == ordered(all.take(it.index())),
    {
        let mut at: usize = sorted.len();
        let ghost before = sorted@;
        assert(before.take(at as int) =~= before);
        assert(placed(before, entry) =~= placed(before.take(at as int), entry) + before.skip(
            at as int,
        ));
        while at > 0 && entry.range.start < sorted[at - 1].range.start
            invariant
                at <= sorted@.len(),
                sorted@ == before,
                placed(before, entry) == placed(before.take(at as int), entry) + before.skip(
                    at as int,
                ),
            decreases at,
        {
            proof {
                let head = before.take(at as int);
                assert(head.drop_last() =~= before.take(at - 1));
                assert(head.last() == before[at - 1]);
                assert(placed(head, entry) + before.skip(at as int) =~= placed(
                    before.take(at - 1),
                    entry,
                ) + before.skip(at - 1));
            }
            at -= 1;
        }
        let ghost new = entry;
        sorted.insert(at, entry);
        proof {
            assert(before.take(at as int).push(new) + before.skip(at as int) =~= before.insert(
                at as int,
                new,
            ));
            assert(all.take(it.index() + 1).drop_last() =~= all.take(it.index()));
        }
    }
    assert(all.take(all.len() as int) =~= all);
    sorted
}

/// No entry starts before one that stands ahead of it.
pub open spec fn in_order(entries: Seq<MathPreviewEntry>) -> bool {
    forall|i: int, j: int|
        0 <= i <= j < entries.len() ==> entries[i].range.start <= entries[j].range.start
}

/// The entries that start at `start`, in their order.
pub open spec fn starting_at(
    entries: Seq<MathPreviewEntry>,
    start: usize,
) -> Seq<MathPreviewEntry>
    decreases entries.len(),
{
    if entries.len() == 0 {
        seq![]
    } else {
        let before = starting_at(entries.drop_last(), start);
        if entries.last().range.start == start {
            before.push(entries.last())
        } else {
            before
        }
    }
}

/// Putting an entry in its place keeps the order.
proof fn lemma_placed_in_order(entries: Seq<MathPreviewEntry>, entry: MathPreviewEntry)
    requires
        in_order(entries),
    ensures
        in_order(placed(entries, entry)),
        placed(entries, entry).len() == entries.len() + 1,
        forall|i: int|
            0 <= i < placed(entries, entry).len() ==> (#[trigger] placed(entries, entry)[i]) == entry
                || entries.contains(placed(entries, entry)[i]),
    decreases entries.len(),
{
    if entries.len() > 0 && entry.range.start < entries.last().range.start {
        let less = entries.drop_last();
        lemma_placed_in_order(less, entry);
        let inner = placed(less, entry);
        let all = placed(entries, entry);
        assert forall|i: int| 0 <= i < all.len() implies (#[trigger] all[i]) == entry
            || entries.contains(all[i]) by {
            if i < inner.len() {
                assert(inner[i] == entry || less.contains(inner[i]));
                if less.contains(inner[i]) {
                    assert(entries[less.index_of(inner[i])] == inner[i]);
                }
            } else {
                assert(entries[entries.len() - 1] == all[i]);
            }
        }
        assert forall|i: int, j: int| 0 <= i <= j < all.len() implies all[i].range.start
            <= all[j].range.start by {
            if j == all.len() - 1 && i < j {
                assert(inner[i] == entry || less.contains(inner[i]));
                if less.contains(inner[i]) {
                    assert(entries[less.index_of(inner[i])] == inner[i]);
                }
            }
        }
    } else {
        let all = entries.push(entry);
        assert forall|i: int| 0 <= i < all.len() implies (#[trigger] all[i]) == entry
            || entries.contains(all[i]) by {
            if i < entries.len() {
                assert(entries[i] == all[i]);
            }
        }
    }
}

/// Putting an entry in its place puts it behind those that start with it.
proof fn lemma_placed_starting_at(
    entries: Seq<MathPreviewEntry>,
    entry: MathPreviewEntry,
    start: usize,
)
    ensures
        starting_at(placed(entries, entry), start) == starting_at(entries.push(entry), start),
    decreases entries.len(),
{
    assert(entries.push(entry).drop_last() =~= entries);
    if entries.len() > 0 && entry.range.start < entries.last().range.start {
        let less = entries.drop_last();
        lemma_placed_starting_at(less, entry, start);
        assert(less.push(entry).drop_last() =~= less);
        let all = placed(entries, entry);
        assert(all.drop_last() =~= placed(less, entry));
        assert(all.last() == entries.last());
        assert(starting_at(entries, start) == if entries.last().range.start == start {
            starting_at(less, start).push(entries.last())
        } else {
            starting_at(less, start)
        });
    }
}

/// Entries that were put in order are in order.
pub proof fn law_ordered_is_in_order(entries: Seq<MathPreviewEntry>)
    ensures
        in_order(ordered(entries)),
        ordered(entries).len() == entries.len(),
    decreases entries.len(),
{
    if entries.len() > 0 {
        law_ordered_is_in_order(entries.drop_last());
        lemma_placed_in_order(ordered(entries.drop_last()), entries.last());
    }
}

/// Putting entries in order loses none, adds none, and leaves those that start together in
/// their order.
pub proof fn law_ordered_keeps_ties(entries: Seq<MathPreviewEntry>, start: usize)
    ensures
        starting_at(ordered(entries), start) == starting_at(entries, start),
    decreases entries.len(),
{
    if entries.len() > 0 {
        let less = entries.drop_last();
        law_ordered_keeps_ties(less, start);
        lemma_placed_starting_at(ordered(less), entries.last(), start);
        assert(ordered(less).push(entries.last()).drop_last() =~= ordered(less));
    }
}

/// Entries that are in order are left as they are.
pub proof fn law_ordered_of_in_order(entries: Seq<MathPreviewEntry>)
    requires
        in_order(entries),
    ensures
        ordered(entries) == entries,
    decreases entries.len(),
{
    if entries.len() > 0 {
        let less = entries.drop_last();
        law_ordered_of_in_order(less);
        if less.len() > 0 {
            assert(less.last() == entries[entries.len() - 2]);
            assert(entries[entries.len() - 2].range.start <= entries[entries.len()
                - 1].range.start);
        }
        assert(less.push(entries.last()) =~= entries);
    }
}

/// An entry that starts at `start` is among those that do.
proof fn lemma_starting_at_holds(entries: Seq<MathPreviewEntry>, start: usize)
    ensures
        starting_at(entries, start).len() > 0 ==> exists|i: int|
            0 <= i < entries.len() && (#[trigger] entries[i]).range.start == start,
    decreases entries.len(),
{
    if entries.len() > 0 {
        let less = entries.drop_last();
        lemma_starting_at_holds(less, start);
        if entries.last().range.start == start {
            assert(entries[entries.len() - 1].range.start == start);
        } else if starting_at(less, start).len() > 0 {
            let i = choose|i: int|
                0 <= i < less.len() && (#[trigger] less[i]).range.start == start;
            assert(entries[i].range.start == start);
        }
    }
}

/// Two lists in order that hold the same entries for each start, in the same order, are the
/// same list.
pub proof fn law_order_is_unique(a: Seq<MathPreviewEntry>, b: Seq<MathPreviewEntry>)
    requires
        in_order(a),
        in_order(b),
        forall|start: usize| #[trigger] starting_at(a, start) == starting_at(b, start),
    ensures
        a == b,
    decreases a.len(),
{
    if a.len() == 0 {
        if b.len() > 0 {
            let start = b.last().range.start;
            assert(starting_at(a, start) == starting_at(b, start));
        }
        assert(a =~= b);
    } else {
        let last = a.last().range.start;
        assert(starting_at(a, last) == starting_at(b, last));
        lemma_starting_at_holds(b, last);
        let i = choose|i: int| 0 <= i < b.len() && (#[trigger] b[i]).range.start == last;
        assert(b[i].range.start <= b[b.len() - 1].range.start);
        let other = b.last().range.start;
        assert(starting_at(a, other) == starting_at(b, other));
        lemma_starting_at_holds(a, other);
        let j = choose|j: int| 0 <= j < a.len() && (#[trigger] a[j]).range.start == other;
        assert(a[j].range.start <= a[a.len() - 1].range.start);
        assert(starting_at(a, last).last() == a.last());
        assert(starting_at(b, last).last() == b.last());
        let less_a = a.drop_last();
        let less_b = b.drop_last();
        assert forall|start: usize| #[trigger] starting_at(less_a, start) == starting_at(
            less_b,
            start,
        ) by {
            assert(starting_at(a, start) == starting_at(b, start));
            if start == last {
                assert(starting_at(a, start).drop_last() =~= starting_at(less_a, start));
                assert(starting_at(b, start).drop_last() =~= starting_at(less_b, start));
            }
        }
        law_order_is_unique(less_a, less_b);
        assert(a =~= less_a.push(a.last()));
        assert(b =~= less_b.push(b.last()));
    }
}

/// Two entries show the same exactly if they agree in where and how they are shown: range,
/// kind, language, picture, size and both wishes.
pub proof fn law_same_entry(a: MathPreviewEntry, b: MathPreviewEntry)
    ensures
        a.same(b) <==> {
            &&& a.range.start == b.range.start
            &&& a.range.end == b.range.end
            &&& a.kind == b.kind
            &&& a.backend == b.backend
            &&& a.svg_path@ == b.svg_path@
            &&& crate::svg::same_number(a.size.width, b.size.width)
            &&& crate::svg::same_number(a.size.height, b.size.height)
            &&& a.inline_enabled == b.inline_enabled
            &&& a.popover_enabled == b.popover_enabled
        },
{
}

/// Lists are the same only as a whole: one more entry on either side counts, and none on one
/// side alone.
pub proof fn law_all_same_one_by_one(
    a: Seq<MathPreviewEntry>,
    x: MathPreviewEntry,
    b: Seq<MathPreviewEntry>,
    y: MathPreviewEntry,
)
    ensures
        all_same(a.push(x), b.push(y)) <==> all_same(a, b) && x.same(y),
        all_same(a, b) ==> a.len() == b.len(),
        all_same(seq![], seq![]),
{
    let c = a.push(x);
    let d = b.push(y);
    if all_same(c, d) {
        assert(c[a.len() as int].same(d[a.len() as int]));
        assert forall|i: int| 0 <= i < a.len() implies (#[trigger] a[i]).same(b[i]) by {
            assert(c[i].same(d[i]));
        }
    }
    if all_same(a, b) && x.same(y) {
        assert forall|i: int| 0 <= i < c.len() implies (#[trigger] c[i]).same(d[i]) by {
            if i < a.len() {
                assert(a[i].same(b[i]));
            }
        }
    }
}

/// Putting an entry in its place adds it and nothing else.
proof fn lemma_placed_multiset(entries: Seq<MathPreviewEntry>, entry: MathPreviewEntry)
    ensures
        placed(entries, entry).to_multiset() == entries.to_multiset().insert(entry),
    decreases entries.len(),
{
    entries.to_multiset_ensures();
    if entries.len() > 0 && entry.range.start < entries.last().range.start {
        let less = entries.drop_last();
        lemma_placed_multiset(less, entry);
        placed(less, entry).to_multiset_ensures();
        less.to_multiset_ensures();
        assert(entries =~= less.push(entries.last()));
        assert(less.to_multiset().insert(entry).insert(entries.last())
            =~= less.to_multiset().insert(entries.last()).insert(entry));
    }
}

/// Putting entries in order loses none and adds none: the same entries come out, each as often
/// as it went in, and each starts no later than those behind it.
pub proof fn law_ordered_holds_the_same(entries: Seq<MathPreviewEntry>)
    ensures
        ordered(entries).to_multiset() == entries.to_multiset(),
        forall|i: int, j: int|
            0 <= i <= j < ordered(entries).len() ==> ordered(entries)[i].range.start <= ordered(
                entries,
            )[j].range.start,
    decreases entries.len(),
{
    law_ordered_is_in_order(entries);
    if entries.len() > 0 {
        let less = entries.drop_last();
        law_ordered_holds_the_same(less);
        lemma_placed_multiset(ordered(less), entries.last());
        less.to_multiset_ensures();
        assert(entries =~= less.push(entries.last()));
    }
}

/// Those that start at one offset are kept by what they are, in their order.
proof fn lemma_starting_at_is_filter(entries: Seq<MathPreviewEntry>, start: usize)
    ensures
        starting_at(entries, start) == entries.filter(
            |entry: MathPreviewEntry| entry.range.start == start,
        ),
    decreases entries.len(),
{
    reveal(Seq::filter);
    if entries.len() > 0 {
        lemma_starting_at_is_filter(entries.drop_last(), start);
    }
}

/// Entries that start at the same offset come out in the order in which they went in.
pub proof fn law_ordered_is_stable(entries: Seq<MathPreviewEntry>, start: usize)
    ensures
        ordered(entries).filter(|entry: MathPreviewEntry| entry.range.start == start)
            == entries.filter(|entry: MathPreviewEntry| entry.range.start == start),
{
    law_ordered_keeps_ties(entries, start);
    lemma_starting_at_is_filter(entries, start);
    lemma_starting_at_is_filter(ordered(entries), start);
}

} // verus!
