//! The delimiters around a formula: `$$`, `\[`, `\(` or `$` before it, `$$`, `\]`, `\)` or
//! `$` after it.

use vstd::prelude::*;

verus! {

/// Where a delimiter starts, and how many bytes it has.
pub type Delimiter = (usize, usize);

pub const DOLLAR: u8 = 0x24;

pub const BACKSLASH: u8 = 0x5c;

pub const OPEN_BRACKET: u8 = 0x5b;

pub const CLOSE_BRACKET: u8 = 0x5d;

pub const OPEN_PAREN: u8 = 0x28;

pub const CLOSE_PAREN: u8 = 0x29;

/// Space, tab, line feed, form feed and carriage return.
pub open spec fn ascii_white_space(b: u8) -> bool {
    b == 0x20 || b == 0x09 || b == 0x0a || b == 0x0c || b == 0x0d
}

/// Whether `b` is white space of ASCII.
pub fn is_ascii_white_space(b: u8) -> (r: bool)
    ensures
        r == ascii_white_space(b),
{
    b == 0x20 || b == 0x09 || b == 0x0a || b == 0x0c || b == 0x0d
}

/// The position that is left of `at` by all the white space that stands directly before `at`.
pub open spec fn before_white_space(bytes: Seq<u8>, at: int) -> int
    decreases at,
{
    if 0 < at <= bytes.len() && ascii_white_space(bytes[at - 1]) {
        before_white_space(bytes, at - 1)
    } else {
        at
    }
}

/// The position that is right of `at` by all the white space that stands directly at `at`.
pub open spec fn after_white_space(bytes: Seq<u8>, at: int) -> int
    decreases bytes.len() - at,
{
    if 0 <= at < bytes.len() && ascii_white_space(bytes[at]) {
        after_white_space(bytes, at + 1)
    } else {
        at
    }
}

/// `mark` ends directly before `at`.
pub open spec fn ends_at(bytes: Seq<u8>, mark: Seq<u8>, at: int) -> bool {
    mark.len() <= at <= bytes.len() && bytes.subrange(at - mark.len(), at) == mark
}

/// `mark` starts at `at`.
pub open spec fn starts_at(bytes: Seq<u8>, mark: Seq<u8>, at: int) -> bool {
    0 <= at && at + mark.len() <= bytes.len() && bytes.subrange(at, at + mark.len()) == mark
}

/// The opening delimiter that ends directly before `at`: of two that fit, `$$` goes before `$`.
pub open spec fn opening_at(bytes: Seq<u8>, at: int) -> Option<Delimiter> {
    if ends_at(bytes, seq![DOLLAR, DOLLAR], at) || ends_at(bytes, seq![BACKSLASH, OPEN_BRACKET], at)
        || ends_at(bytes, seq![BACKSLASH, OPEN_PAREN], at) {
        Some(((at - 2) as usize, 2usize))
    } else if ends_at(bytes, seq![DOLLAR], at) {
        Some(((at - 1) as usize, 1usize))
    } else {
        None
    }
}

/// The closing delimiter that starts at `at`: of two that fit, `$$` goes before `$`.
pub open spec fn closing_at(bytes: Seq<u8>, at: int) -> Option<Delimiter> {
    if starts_at(bytes, seq![DOLLAR, DOLLAR], at) || starts_at(
        bytes,
        seq![BACKSLASH, CLOSE_BRACKET],
        at,
    ) || starts_at(bytes, seq![BACKSLASH, CLOSE_PAREN], at) {
        Some((at as usize, 2usize))
    } else if starts_at(bytes, seq![DOLLAR], at) {
        Some((at as usize, 1usize))
    } else {
        None
    }
}

/// The smaller of two positions.
pub open spec fn least(a: int, b: int) -> int {
    if a <= b {
        a
    } else {
        b
    }
}

/// The delimiter before `start`, with nothing but white space between.
pub open spec fn opening_before(bytes: Seq<u8>, start: int) -> Option<Delimiter> {
    opening_at(bytes, before_white_space(bytes, least(start, bytes.len() as int)))
}

/// The delimiter after `end`, with nothing but white space between.
pub open spec fn closing_after(bytes: Seq<u8>, end: int) -> Option<Delimiter> {
    closing_at(bytes, after_white_space(bytes, least(end, bytes.len() as int)))
}

/// `b"ab"` ends directly before `at`.
fn two_end_at(bytes: &[u8], a: u8, b: u8, at: usize) -> (r: bool)
    requires
        at <= bytes@.len(),
    ensures
        r == ends_at(bytes@, seq![a, b], at as int),
{
    let r = at >= 2 && bytes[at - 2] == a && bytes[at - 1] == b;
    proof {
        if at >= 2 {
            let found = bytes@.subrange(at - 2, at as int);
            assert(found[0] == bytes@[at - 2] && found[1] == bytes@[at - 1]);
            if r {
                assert(found =~= seq![a, b]);
            }
        }
    }
    r
}

/// `b"ab"` starts at `at`.
fn two_start_at(bytes: &[u8], a: u8, b: u8, at: usize) -> (r: bool)
    requires
        at <= bytes@.len(),
    ensures
        r == starts_at(bytes@, seq![a, b], at as int),
{
    let r = bytes.len() - at >= 2 && bytes[at] == a && bytes[at + 1] == b;
    proof {
        if bytes@.len() - at >= 2 {
            let found = bytes@.subrange(at as int, at + 2);
            assert(found[0] == bytes@[at as int] && found[1] == bytes@[at + 1]);
            if r {
                assert(found =~= seq![a, b]);
            }
        }
    }
    r
}

/// The opening delimiter before `start`.
fn find_opening(bytes: &[u8], start: usize) -> (r: Option<Delimiter>)
    ensures
        r == opening_before(bytes@, start as int),
{
    let mut at: usize = if start <= bytes.len() {
        start
    } else {
        bytes.len()
    };
    let ghost from = at as int;
    while at > 0 && is_ascii_white_space(bytes[at - 1])
        invariant
            at <= bytes@.len(),
            before_white_space(bytes@, from) == before_white_space(bytes@, at as int),
        decreases at,
    {
        at -= 1;
    }
    if two_end_at(bytes, DOLLAR, DOLLAR, at) || two_end_at(bytes, BACKSLASH, OPEN_BRACKET, at)
        || two_end_at(bytes, BACKSLASH, OPEN_PAREN, at) {
        return Some((at - 2, 2));
    }
    let one = at >= 1 && bytes[at - 1] == DOLLAR;
    proof {
        if at >= 1 {
            let found = bytes@.subrange(at - 1, at as int);
            assert(found[0] == bytes@[at - 1]);
            if one {
                assert(found =~= seq![DOLLAR]);
            }
        }
    }
    if one {
        Some((at - 1, 1))
    } else {
        None
    }
}

/// The closing delimiter after `end`.
fn find_closing(bytes: &[u8], end: usize) -> (r: Option<Delimiter>)
    ensures
        r == closing_after(bytes@, end as int),
{
    let mut at: usize = if end <= bytes.len() {
        end
    } else {
        bytes.len()
    };
    let ghost from = at as int;
    while at < bytes.len() && is_ascii_white_space(bytes[at])
        invariant
            at <= bytes@.len(),
            after_white_space(bytes@, from) == after_white_space(bytes@, at as int),
        decreases bytes@.len() - at,
    {
        at += 1;
    }
    if two_start_at(bytes, DOLLAR, DOLLAR, at) || two_start_at(bytes, BACKSLASH, CLOSE_BRACKET, at)
        || two_start_at(bytes, BACKSLASH, CLOSE_PAREN, at) {
        return Some((at, 2));
    }
    let one = at < bytes.len() && bytes[at] == DOLLAR;
    proof {
        if at < bytes@.len() {
            let found = bytes@.subrange(at as int, at + 1);
            assert(found[0] == bytes@[at as int]);
            if one {
                assert(found =~= seq![DOLLAR]);
            }
        }
    }
    if one {
        Some((at, 1))
    } else {
        None
    }
}

/// The delimiters around the bytes `rel_start..rel_end` of `context`. White space may
/// stand between a delimiter and the bytes that it delimits.
pub fn find_delimiters(context: &str, rel_start: usize, rel_end: usize) -> (r: (
    Option<Delimiter>,
    Option<Delimiter>,
))
    ensures
        r.0 == opening_before(vstd::utf8::encode_utf8(context@), rel_start as int),
        r.1 == closing_after(vstd::utf8::encode_utf8(context@), rel_end as int),
{
    let bytes = context.as_bytes();
    (find_opening(bytes, rel_start), find_closing(bytes, rel_end))
}

/// Skipping white space to the left stays within the text and passes over nothing else.
pub proof fn law_before_white_space(bytes: Seq<u8>, at: int)
    requires
        0 <= at <= bytes.len(),
    ensures
        0 <= before_white_space(bytes, at) <= at,
        forall|i: int|
            before_white_space(bytes, at) <= i < at ==> ascii_white_space(#[trigger] bytes[i]),
    decreases at,
{
    if 0 < at && ascii_white_space(bytes[at - 1]) {
        law_before_white_space(bytes, at - 1);
    }
}

/// Skipping white space to the right stays within the text and passes over nothing else.
pub proof fn law_after_white_space(bytes: Seq<u8>, at: int)
    requires
        0 <= at <= bytes.len(),
    ensures
        at <= after_white_space(bytes, at) <= bytes.len(),
        forall|i: int|
            at <= i < after_white_space(bytes, at) ==> ascii_white_space(#[trigger] bytes[i]),
    decreases bytes.len() - at,
{
    if at < bytes.len() && ascii_white_space(bytes[at]) {
        law_after_white_space(bytes, at + 1);
    }
}

/// An opening delimiter ends at or before `start`, and only white space stands between.
pub proof fn law_opening_before(bytes: Seq<u8>, start: int)
    requires
        0 <= start <= bytes.len(),
        bytes.len() <= usize::MAX,
    ensures
        opening_before(bytes, start) matches Some((from, len)) ==> {
            &&& 1 <= len <= 2
            &&& from + len <= start
            &&& forall|i: int| from + len <= i < start ==> ascii_white_space(#[trigger] bytes[i])
        },
{
    law_before_white_space(bytes, start);
}

/// A closing delimiter starts at or after `end`, and only white space stands between.
pub proof fn law_closing_after(bytes: Seq<u8>, end: int)
    requires
        0 <= end <= bytes.len(),
        bytes.len() <= usize::MAX,
    ensures
        closing_after(bytes, end) matches Some((from, len)) ==> {
            &&& 1 <= len <= 2
            &&& end <= from
            &&& from + len <= bytes.len()
            &&& forall|i: int| end <= i < from ==> ascii_white_space(#[trigger] bytes[i])
        },
{
    law_after_white_space(bytes, end);
}

/// White space is skipped to the left as far as there is any.
proof fn lemma_before_white_space(bytes: Seq<u8>, at: int, to: int)
    requires
        0 <= to <= at <= bytes.len(),
        forall|i: int| to <= i < at ==> ascii_white_space(#[trigger] bytes[i]),
        to == 0 || !ascii_white_space(bytes[to - 1]),
    ensures
        before_white_space(bytes, at) == to,
    decreases at,
{
    if to < at {
        assert(ascii_white_space(bytes[at - 1]));
        lemma_before_white_space(bytes, at - 1, to);
    }
}

/// White space is skipped to the right as far as there is any.
proof fn lemma_after_white_space(bytes: Seq<u8>, at: int, to: int)
    requires
        0 <= at <= to <= bytes.len(),
        forall|i: int| at <= i < to ==> ascii_white_space(#[trigger] bytes[i]),
        to == bytes.len() || !ascii_white_space(bytes[to]),
    ensures
        after_white_space(bytes, at) == to,
    decreases bytes.len() - at,
{
    if at < to {
        assert(ascii_white_space(bytes[at]));
        lemma_after_white_space(bytes, at + 1, to);
    }
}

/// The delimiter before a formula that starts at `start`, where all white space before the
/// formula starts at `edge`: the two bytes `$$`, `\[` or `\(` before `edge`, else the one byte
/// `$`, else none. A start behind the text counts as its end.
pub proof fn law_opening_found(bytes: Seq<u8>, start: int, edge: int)
    requires
        bytes.len() <= usize::MAX,
        0 <= edge <= start,
        edge <= bytes.len(),
        forall|i: int| edge <= i < start && i < bytes.len() ==> ascii_white_space(#[trigger] bytes[i]),
        edge == 0 || !ascii_white_space(bytes[edge - 1]),
    ensures
        opening_before(bytes, start) == (if edge >= 2 && ((bytes[edge - 2] == 0x24 && bytes[edge - 1]
            == 0x24) || (bytes[edge - 2] == 0x5c && (bytes[edge - 1] == 0x5b || bytes[edge - 1]
            == 0x28))) {
            Some(((edge - 2) as usize, 2usize))
        } else if edge >= 1 && bytes[edge - 1] == 0x24 {
            Some(((edge - 1) as usize, 1usize))
        } else {
            None
        }),
{
    let at = if start <= bytes.len() {
        start
    } else {
        bytes.len() as int
    };
    lemma_before_white_space(bytes, at, edge);
    if edge >= 2 {
        let two = bytes.subrange(edge - 2, edge);
        assert(two[0] == bytes[edge - 2] && two[1] == bytes[edge - 1]);
        assert(two =~= seq![bytes[edge - 2], bytes[edge - 1]]);
        assert(seq![DOLLAR, DOLLAR][0] == 0x24 && seq![DOLLAR, DOLLAR][1] == 0x24);
        assert(seq![BACKSLASH, OPEN_BRACKET][0] == 0x5c && seq![BACKSLASH, OPEN_BRACKET][1] == 0x5b);
        assert(seq![BACKSLASH, OPEN_PAREN][0] == 0x5c && seq![BACKSLASH, OPEN_PAREN][1] == 0x28);
    }
    if edge >= 1 {
        let one = bytes.subrange(edge - 1, edge);
        assert(one[0] == bytes[edge - 1]);
        assert(one =~= seq![bytes[edge - 1]]);
        assert(seq![DOLLAR][0] == 0x24);
    }
}

/// The delimiter after a formula that ends at `end`, where all white space after the formula
/// ends at `edge`: the two bytes `$$`, `\]` or `\)` at `edge`, else the one byte `$`, else
/// none. An end behind the text counts as its end.
pub proof fn law_closing_found(bytes: Seq<u8>, end: int, edge: int)
    requires
        bytes.len() <= usize::MAX,
        0 <= end,
        edge <= bytes.len(),
        end <= edge || (edge == bytes.len() && end > edge),
        forall|i: int| end <= i < edge ==> ascii_white_space(#[trigger] bytes[i]),
        edge == bytes.len() || !ascii_white_space(bytes[edge]),
    ensures
        closing_after(bytes, end) == (if edge + 2 <= bytes.len() && ((bytes[edge] == 0x24 && bytes[edge
            + 1] == 0x24) || (bytes[edge] == 0x5c && (bytes[edge + 1] == 0x5d || bytes[edge + 1]
            == 0x29))) {
            Some((edge as usize, 2usize))
        } else if edge < bytes.len() && bytes[edge] == 0x24 {
            Some((edge as usize, 1usize))
        } else {
            None
        }),
{
    let at = if end <= bytes.len() {
        end
    } else {
        bytes.len() as int
    };
    lemma_after_white_space(bytes, at, edge);
    if edge + 2 <= bytes.len() {
        let two = bytes.subrange(edge, edge + 2);
        assert(two[0] == bytes[edge] && two[1] == bytes[edge + 1]);
        assert(two =~= seq![bytes[edge], bytes[edge + 1]]);
        assert(seq![DOLLAR, DOLLAR][0] == 0x24 && seq![DOLLAR, DOLLAR][1] == 0x24);
        assert(seq![BACKSLASH, CLOSE_BRACKET][0] == 0x5c && seq![BACKSLASH, CLOSE_BRACKET][1]
            == 0x5d);
        assert(seq![BACKSLASH, CLOSE_PAREN][0] == 0x5c && seq![BACKSLASH, CLOSE_PAREN][1] == 0x29);
    }
    if edge < bytes.len() {
        let one = bytes.subrange(edge, edge + 1);
        assert(one[0] == bytes[edge]);
        assert(one =~= seq![bytes[edge]]);
        assert(seq![DOLLAR][0] == 0x24);
    }
}

/// The white space of ASCII: tab, line feed, form feed, carriage return and space.
pub proof fn law_ascii_white_space(b: u8)
    ensures
        ascii_white_space(b) <==> (9 <= b <= 13 && b != 11) || b == 32,
{
}

} // verus!
