//! Rows and lines of the display.

use vstd::prelude::*;

verus! {

/// How many rows above and below the visible ones are rendered too.
pub const MATH_VISIBLE_PADDING_LINES: u32 = 40;

/// The rows to render where the rows from `first` to `last` are visible: forty more at
/// either end, as far as rows are counted.
pub fn padded_rows(first: u32, last: u32) -> (r: (u32, u32))
    ensures
        r.0 == if first >= MATH_VISIBLE_PADDING_LINES {
            first - MATH_VISIBLE_PADDING_LINES
        } else {
            0
        },
        r.1 == if last + MATH_VISIBLE_PADDING_LINES <= u32::MAX {
            last + MATH_VISIBLE_PADDING_LINES
        } else {
            u32::MAX as int
        },
{
    (
        first.saturating_sub(MATH_VISIBLE_PADDING_LINES),
        last.saturating_add(MATH_VISIBLE_PADDING_LINES),
    )
}

/// How many lines the rows from `start_row` to `end_row` take.
pub open spec fn span(start_row: u32, end_row: u32) -> int {
    let rows = if end_row >= start_row {
        end_row - start_row + 1
    } else {
        1
    };
    if rows <= u32::MAX {
        rows
    } else {
        u32::MAX as int
    }
}

/// The height in lines of a block that needs `natural_lines` for its picture and stands in
/// place of the rows from `start_row` to `end_row`: no less than either, and at least one.
pub fn block_lines(natural_lines: u32, start_row: u32, end_row: u32) -> (r: u32)
    ensures
        r == if natural_lines >= span(start_row, end_row) {
            natural_lines as int
        } else {
            span(start_row, end_row)
        },
        r >= 1,
        r >= natural_lines,
        start_row <= end_row && end_row - start_row < u32::MAX ==> r >= end_row - start_row + 1,
        start_row <= end_row && end_row - start_row == u32::MAX ==> r == u32::MAX,
        r == natural_lines || r == end_row - start_row + 1 || (end_row < start_row && r == 1) || r
            == u32::MAX,
{
    let span_lines = end_row.saturating_sub(start_row).saturating_add(1);
    if natural_lines >= span_lines {
        natural_lines
    } else {
        span_lines
    }
}

/// The rows from one to another take as many lines as they are, both counted, and rows in the
/// wrong order one.
pub proof fn law_span(start_row: u32, end_row: u32)
    ensures
        start_row <= end_row && end_row - start_row < u32::MAX ==> span(start_row, end_row)
            == end_row - start_row + 1,
        start_row <= end_row && end_row - start_row == u32::MAX ==> span(start_row, end_row)
            == u32::MAX,
        end_row < start_row ==> span(start_row, end_row) == 1,
{
}

} // verus!
