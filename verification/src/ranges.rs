//! Ranges of byte offsets in a text.

use crate::delimiters::find_delimiters;
use vstd::prelude::*;

verus! {

/// How far around a formula its delimiters are looked for, in bytes.
pub const MATH_RANGE_SCAN_BYTES: usize = 256;

/// The offsets from `start` up to, and without, `end`.
#[derive(Debug, Clone, Copy, Hash, PartialEq, Eq, Structural)]
pub struct OffsetRange {
    pub start: usize,
    pub end: usize,
}

impl OffsetRange {
    /// `offset` lies in the range.
    pub open spec fn holds(self, offset: int) -> bool {
        self.start <= offset < self.end
    }

    /// Whether `offset` lies in the range.
    pub fn contains(&self, offset: usize) -> (r: bool)
        ensures
            r == self.holds(offset as int),
    {
        self.start <= offset && offset < self.end
    }
}

/// The smaller of two offsets.
fn min_offset(a: usize, b: usize) -> (r: usize)
    ensures
        r == crate::delimiters::least(a as int, b as int),
{
    if a <= b {
        a
    } else {
        b
    }
}

/// The part of `range` that lies in a text of `len` bytes, if any does.
pub open spec fn clipped(range: OffsetRange, len: usize) -> Option<OffsetRange> {
    let end = crate::delimiters::least(range.end as int, len as int) as usize;
    if range.start < end {
        Some(OffsetRange { start: range.start, end })
    } else {
        None
    }
}

/// The part of `range` that lies in a text of `len` bytes, if any does.
pub fn clip_range_to_len(range: &OffsetRange, len: usize) -> (r: Option<OffsetRange>)
    ensures
        r == clipped(*range, len),
{
    if range.start >= len {
        return None;
    }
    let end = min_offset(range.end, len);
    if range.start < end {
        Some(OffsetRange { start: range.start, end })
    } else {
        None
    }
}

/// The parts of `ranges` that lie in a text of `len` bytes, in their order.
pub open spec fn all_clipped(ranges: Seq<OffsetRange>, len: usize) -> Seq<OffsetRange>
    decreases ranges.len(),
{
    if ranges.len() == 0 {
        seq![]
    } else {
        let before = all_clipped(ranges.drop_last(), len);
        match clipped(ranges.last(), len) {
            Some(range) => before.push(range),
            None => before,
        }
    }
}

/// The parts of `ranges` that lie in a text of `len` bytes, in their order.
pub fn clip_ranges_to_len(ranges: &Vec<OffsetRange>, len: usize) -> (r: Vec<OffsetRange>)
    ensures
        r@ == all_clipped(ranges@, len),
{
    let mut kept: Vec<OffsetRange> = Vec::new();
    for i in 0..ranges.len()
        invariant
            kept@ == all_clipped(ranges@.take(i as int), len),
    {
        assert(ranges@.take(i + 1).drop_last() =~= ranges@.take(i as int));
        if let Some(range) = clip_range_to_len(&ranges[i], len) {
            kept.push(range);
        }
    }
    assert(ranges@.take(ranges@.len() as int) =~= ranges@);
    kept
}

/// `selection` touches `range`: a caret lies in it, a longer selection shares an offset with it.
pub open spec fn overlapping(range: OffsetRange, selection: OffsetRange) -> bool {
    if selection.start == selection.end {
        range.holds(selection.start as int)
    } else {
        range.start < selection.end && selection.start < range.end
    }
}

/// Whether `selection` touches `range`.
pub fn ranges_overlap(range: &OffsetRange, selection: &OffsetRange) -> (r: bool)
    ensures
        r == overlapping(*range, *selection),
        selection.start == selection.end ==> r == (range.start <= selection.start < range.end),
        selection.start != selection.end ==> r == (range.start < selection.end && selection.start
            < range.end),
{
    if selection.start == selection.end {
        range.contains(selection.start)
    } else {
        range.start < selection.end && selection.start < range.end
    }
}

/// One of `selections` touches `range`.
pub open spec fn touched(range: OffsetRange, selections: Seq<OffsetRange>) -> bool {
    exists|i: int| 0 <= i < selections.len() && overlapping(range, #[trigger] selections[i])
}

/// Whether one of `selections` touches `range`.
pub fn any_overlap(range: &OffsetRange, selections: &Vec<OffsetRange>) -> (r: bool)
    ensures
        r == touched(*range, selections@),
{
    for i in 0..selections.len()
        invariant
            forall|j: int| 0 <= j < i ==> !overlapping(*range, #[trigger] selections@[j]),
    {
        if ranges_overlap(range, &selections[i]) {
            assert(overlapping(*range, selections@[i as int]));
            return true;
        }
    }
    false
}

/// `range` with both ends brought into a text of `len` bytes.
pub open spec fn bounded(range: OffsetRange, len: usize) -> OffsetRange {
    OffsetRange {
        start: crate::delimiters::least(range.start as int, len as int) as usize,
        end: crate::delimiters::least(range.end as int, len as int) as usize,
    }
}

/// The part of the text in which the delimiters of `range` are looked for, or `None`
/// where nothing of `range` lies in the text.
pub open spec fn window(range: OffsetRange, len: usize) -> Option<OffsetRange> {
    let inner = bounded(range, len);
    if inner.start >= inner.end {
        None
    } else {
        Some(
            OffsetRange {
                start: (if inner.start >= MATH_RANGE_SCAN_BYTES {
                    inner.start - MATH_RANGE_SCAN_BYTES
                } else {
                    0
                }) as usize,
                end: crate::delimiters::least(
                    inner.end + MATH_RANGE_SCAN_BYTES,
                    len as int,
                ) as usize,
            },
        )
    }
}

/// The part of the text in which the delimiters of `range` are looked for, or `None`
/// where nothing of `range` lies in the text.
pub fn scan_window(range: OffsetRange, len: usize) -> (r: Option<OffsetRange>)
    ensures
        r == window(range, len),
{
    let start = min_offset(range.start, len);
    let end = min_offset(range.end, len);
    if start >= end {
        None
    } else {
        Some(
            OffsetRange {
                start: start.saturating_sub(MATH_RANGE_SCAN_BYTES),
                end: min_offset(end.saturating_add(MATH_RANGE_SCAN_BYTES), len),
            },
        )
    }
}

/// `range` with the delimiters around it, or `range` within the text where one of the two
/// is missing. `context` holds the bytes of the window of `range`.
pub open spec fn expanded(range: OffsetRange, len: usize, context: Seq<u8>) -> OffsetRange {
    let inner = bounded(range, len);
    match window(range, len) {
        None => inner,
        Some(around) => {
            let opening = crate::delimiters::opening_before(context, inner.start - around.start);
            let closing = crate::delimiters::closing_after(context, inner.end - around.start);
            match (opening, closing) {
                (Some(opening), Some(closing)) => OffsetRange {
                    start: crate::delimiters::least(
                        around.start + opening.0,
                        usize::MAX as int,
                    ) as usize,
                    end: crate::delimiters::least(
                        around.start + closing.0 + closing.1,
                        len as int,
                    ) as usize,
                },
                _ => inner,
            }
        },
    }
}

/// `range` with the delimiters around it, or `range` within the text where one of the two
/// is missing. `len` is the length of the text, `context` the text of `scan_window(range, len)`.
pub fn expand_math_range(range: OffsetRange, len: usize, context: &str) -> (r: OffsetRange)
    ensures
        r == expanded(range, len, vstd::utf8::encode_utf8(context@)),
{
    let start = min_offset(range.start, len);
    let end = min_offset(range.end, len);
    match scan_window(range, len) {
        None => OffsetRange { start, end },
        Some(around) => {
            let rel_start: usize = start - around.start;
            let rel_end: usize = end - around.start;
            match find_delimiters(context, rel_start, rel_end) {
                (Some((opening, _)), Some((closing, closing_len))) => OffsetRange {
                    start: around.start.saturating_add(opening),
                    end: min_offset(
                        around.start.saturating_add(closing).saturating_add(closing_len),
                        len,
                    ),
                },
                _ => OffsetRange { start, end },
            }
        },
    }
}

/// Clipping keeps exactly the offsets of a range that lie in the text.
pub proof fn law_clipped_offsets(range: OffsetRange, len: usize, offset: int)
    ensures
        (clipped(range, len) matches Some(part) && part.holds(offset)) <==> (range.holds(offset)
            && offset < len),
{
}

/// Clipping what was clipped changes nothing.
pub proof fn law_clipped_twice(range: OffsetRange, len: usize)
    ensures
        clipped(range, len) matches Some(part) ==> clipped(part, len) == Some(part),
{
}

/// Clipping a list that was clipped changes nothing.
pub proof fn law_all_clipped_twice(ranges: Seq<OffsetRange>, len: usize)
    ensures
        all_clipped(all_clipped(ranges, len), len) == all_clipped(ranges, len),
    decreases ranges.len(),
{
    if ranges.len() > 0 {
        law_all_clipped_twice(ranges.drop_last(), len);
        let before = all_clipped(ranges.drop_last(), len);
        if let Some(range) = clipped(ranges.last(), len) {
            law_clipped_twice(ranges.last(), len);
            assert(before.push(range).drop_last() =~= before);
        }
    }
}

/// Two ranges that are not empty overlap exactly if they share an offset.
pub proof fn law_overlap_is_shared_offset(range: OffsetRange, selection: OffsetRange)
    requires
        range.start < range.end,
        selection.start < selection.end,
    ensures
        overlapping(range, selection) <==> exists|offset: int|
            range.holds(offset) && #[trigger] selection.holds(offset),
        overlapping(range, selection) == overlapping(selection, range),
{
    if overlapping(range, selection) {
        let offset = if range.start <= selection.start {
            selection.start as int
        } else {
            range.start as int
        };
        assert(range.holds(offset) && selection.holds(offset));
    }
}

/// A formula with its delimiters lies in its window and in the text, and holds the formula.
/// It is strictly longer at both ends where both delimiters were found.
pub proof fn law_expanded_covers(range: OffsetRange, len: usize, context: Seq<u8>)
    requires
        window(range, len) matches Some(around) && context.len() == around.end - around.start,
    ensures
        ({
            let inner = bounded(range, len);
            let around = window(range, len)->0;
            let whole = expanded(range, len, context);
            &&& around.start <= whole.start <= inner.start
            &&& inner.end <= whole.end <= around.end <= len
            &&& whole == inner || (whole.start < inner.start && inner.end < whole.end)
        }),
{
    let inner = bounded(range, len);
    let around = window(range, len)->0;
    crate::delimiters::law_opening_before(context, inner.start - around.start);
    crate::delimiters::law_closing_after(context, inner.end - around.start);
}

/// A range that lies in the text is left as it is exactly if a delimiter is missing.
pub proof fn law_expanded_unchanged(range: OffsetRange, len: usize, context: Seq<u8>)
    requires
        range.start < range.end <= len,
        window(range, len) matches Some(around) && context.len() == around.end - around.start,
    ensures
        ({
            let around = window(range, len)->0;
            expanded(range, len, context) == range <==> (crate::delimiters::opening_before(
                context,
                range.start - around.start,
            ) is None || crate::delimiters::closing_after(
                context,
                range.end - around.start,
            ) is None)
        }),
{
    let around = window(range, len)->0;
    crate::delimiters::law_opening_before(context, range.start - around.start);
    crate::delimiters::law_closing_after(context, range.end - around.start);
}

/// What is left of a range in a text: from its start to its end or that of the text, if
/// anything lies between.
pub proof fn law_clipped_ends(range: OffsetRange, len: usize)
    ensures
        clipped(range, len) is Some <==> range.start < range.end && range.start < len,
        clipped(range, len) matches Some(part) ==> part.start == range.start && (if range.end
            <= len {
            part.end == range.end
        } else {
            part.end == len
        }),
{
}

/// Ranges are clipped one by one, in their order.
pub proof fn law_all_clipped_one_by_one(
    a: Seq<OffsetRange>,
    b: Seq<OffsetRange>,
    range: OffsetRange,
    len: usize,
)
    ensures
        all_clipped(a + b, len) == all_clipped(a, len) + all_clipped(b, len),
        all_clipped(seq![], len) == Seq::<OffsetRange>::empty(),
        clipped(range, len) is None ==> all_clipped(seq![range], len) == Seq::<OffsetRange>::empty(),
        clipped(range, len) matches Some(part) ==> all_clipped(seq![range], len) == seq![part],
    decreases b.len(),
{
    reveal_with_fuel(all_clipped, 2);
    assert(seq![range].drop_last() =~= seq![]);
    if b.len() == 0 {
        assert(a + b =~= a);
        assert(all_clipped(a, len) + all_clipped(b, len) =~= all_clipped(a, len));
    } else {
        law_all_clipped_one_by_one(a, b.drop_last(), range, len);
        assert((a + b).drop_last() =~= a + b.drop_last());
        assert((a + b).last() == b.last());
        assert(all_clipped(a + b, len) =~= all_clipped(a, len) + all_clipped(b, len));
    }
}

/// A caret touches a range exactly if it lies in it; a longer selection touches one exactly if
/// each starts before the other ends.
pub proof fn law_overlapping(range: OffsetRange, selection: OffsetRange)
    ensures
        selection.start == selection.end ==> (overlapping(range, selection) <==> range.start
            <= selection.start < range.end),
        selection.start != selection.end ==> (overlapping(range, selection) <==> range.start
            < selection.end && selection.start < range.end),
{
}

/// A range is touched by selections exactly if one of them touches it, wherever it stands.
pub proof fn law_touched_by_one(
    range: OffsetRange,
    a: Seq<OffsetRange>,
    b: Seq<OffsetRange>,
    selection: OffsetRange,
)
    ensures
        touched(range, a + b) <==> touched(range, a) || touched(range, b),
        touched(range, seq![selection]) <==> overlapping(range, selection),
        !touched(range, seq![]),
{
    let all = a + b;
    if touched(range, a) {
        let i = choose|i: int| 0 <= i < a.len() && overlapping(range, #[trigger] a[i]);
        assert(all[i] == a[i]);
    }
    if touched(range, b) {
        let i = choose|i: int| 0 <= i < b.len() && overlapping(range, #[trigger] b[i]);
        assert(all[a.len() + i] == b[i]);
    }
    if touched(range, all) {
        let i = choose|i: int| 0 <= i < all.len() && overlapping(range, #[trigger] all[i]);
        if i < a.len() {
            assert(a[i] == all[i]);
        } else {
            assert(b[i - a.len()] == all[i]);
        }
    }
    assert(seq![selection][0] == selection);
}

/// The window of a formula reaches 256 bytes to either side of what lies in the text, as far
/// as there is text.
pub proof fn law_window(range: OffsetRange, len: usize)
    ensures
        window(range, len) is Some <==> range.start < range.end && range.start < len,
        window(range, len) matches Some(around) ==> {
            let end = if range.end <= len {
                range.end
            } else {
                len
            };
            &&& around.start == (if range.start >= 256 {
                range.start - 256
            } else {
                0
            })
            &&& around.end == (if end + 256 <= len {
                end + 256
            } else {
                len as int
            })
        },
{
}

/// A range of which nothing lies in the text is brought to it at both ends.
pub proof fn law_expanded_of_nothing(range: OffsetRange, len: usize, context: Seq<u8>)
    requires
        !(range.start < range.end && range.start < len),
    ensures
        expanded(range, len, context).start == (if range.start <= len {
            range.start
        } else {
            len
        }),
        expanded(range, len, context).end == (if range.end <= len {
            range.end
        } else {
            len
        }),
{
}

/// A formula with its delimiters: `before` is where the white space before the formula starts
/// in the window, `after` where that behind it ends. The two bytes or the one byte of the
/// delimiter before it are added, and of that after it. Where one of the two is missing, what
/// lies in the text is left as it is.
pub proof fn law_expanded_to_delimiters(
    range: OffsetRange,
    len: usize,
    context: Seq<u8>,
    before: int,
    after: int,
)
    requires
        window(range, len) matches Some(around) && context.len() == around.end - around.start && {
            let end = if range.end <= len {
                range.end
            } else {
                len
            };
            &&& 0 <= before <= range.start - around.start
            &&& end - around.start <= after <= context.len()
            &&& forall|i: int|
                before <= i < range.start - around.start || end - around.start <= i < after
                    ==> crate::delimiters::ascii_white_space(#[trigger] context[i])
            &&& before == 0 || !crate::delimiters::ascii_white_space(context[before - 1])
            &&& after == context.len() || !crate::delimiters::ascii_white_space(context[after])
        },
    ensures
        ({
            let around = window(range, len)->0;
            let whole = expanded(range, len, context);
            let opening: int = if before >= 2 && ((context[before - 2] == 0x24 && context[before
                - 1] == 0x24) || (context[before - 2] == 0x5c && (context[before - 1] == 0x5b
                || context[before - 1] == 0x28))) {
                2
            } else if before >= 1 && context[before - 1] == 0x24 {
                1
            } else {
                0
            };
            let closing: int = if after + 2 <= context.len() && ((context[after] == 0x24
                && context[after + 1] == 0x24) || (context[after] == 0x5c && (context[after + 1]
                == 0x5d || context[after + 1] == 0x29))) {
                2
            } else if after < context.len() && context[after] == 0x24 {
                1
            } else {
                0
            };
            if opening > 0 && closing > 0 {
                &&& whole.start == around.start + before - opening
                &&& whole.end == around.start + after + closing
            } else {
                &&& whole.start == range.start
                &&& whole.end == (if range.end <= len {
                    range.end
                } else {
                    len
                })
            }
        }),
{
    let around = window(range, len)->0;
    let end = if range.end <= len {
        range.end
    } else {
        len
    };
    crate::delimiters::law_opening_found(context, range.start - around.start, before);
    crate::delimiters::law_closing_found(context, end - around.start, after);
}

} // verus!
