use inline_preview::delimiters::{find_delimiters, is_ascii_white_space};
use inline_preview::layout::{block_lines, padded_rows};
use inline_preview::ranges::{
    any_overlap, clip_range_to_len, clip_ranges_to_len, expand_math_range, ranges_overlap,
    scan_window, OffsetRange,
};
use inline_preview::text::{is_white_space, str_chars, trim};

fn range(start: usize, end: usize) -> OffsetRange {
    OffsetRange { start, end }
}

#[test]
fn white_space_is_that_of_unicode() {
    for code in 0..=0x10ffffu32 {
        if let Some(c) = char::from_u32(code) {
            assert_eq!(is_white_space(c), c.is_whitespace(), "{:x}", code);
        }
    }
}

#[test]
fn ascii_white_space_is_that_of_std() {
    for b in 0..=255u8 {
        assert_eq!(is_ascii_white_space(b), b.is_ascii_whitespace(), "{}", b);
    }
}

#[test]
fn trimming_takes_white_space_off_both_ends() {
    for s in ["", " ", "a", "  a b\t\n", "\u{a0}x\u{3000}", "\u{200b}x", "xy  "] {
        assert_eq!(trim(s), s.trim());
        assert_eq!(str_chars(s), s.chars().collect::<Vec<_>>());
    }
}

#[test]
fn delimiters_of_each_kind_are_found() {
    assert_eq!(find_delimiters("$x$", 1, 2), (Some((0, 1)), Some((2, 1))));
    assert_eq!(find_delimiters("$$x$$", 2, 3), (Some((0, 2)), Some((3, 2))));
    assert_eq!(find_delimiters(r"\[x\]", 2, 3), (Some((0, 2)), Some((3, 2))));
    assert_eq!(find_delimiters(r"\(x\)", 2, 3), (Some((0, 2)), Some((3, 2))));
}

#[test]
fn two_dollars_go_before_one() {
    assert_eq!(find_delimiters("a$$x$$b", 3, 4), (Some((1, 2)), Some((4, 2))));
}

#[test]
fn white_space_may_stand_between() {
    assert_eq!(find_delimiters("$$\n  x \t\r\n$$", 5, 6), (Some((0, 2)), Some((10, 2))));
    // A vertical tab is no white space of ASCII.
    assert_eq!(find_delimiters("$\u{b}x$", 2, 3), (None, Some((3, 1))));
}

#[test]
fn delimiters_may_be_missing() {
    assert_eq!(find_delimiters("x", 0, 1), (None, None));
    assert_eq!(find_delimiters("", 0, 0), (None, None));
    assert_eq!(find_delimiters("$x", 1, 2), (Some((0, 1)), None));
    assert_eq!(find_delimiters("x$", 0, 1), (None, Some((1, 1))));
    assert_eq!(find_delimiters(r"\]x\[", 2, 3), (None, None));
}

#[test]
fn delimiters_are_looked_for_within_the_text() {
    assert_eq!(find_delimiters("a$", 9, 9), (Some((1, 1)), None));
}

#[test]
fn delimiters_are_counted_in_bytes() {
    assert_eq!(find_delimiters("é$ä$", 3, 5), (Some((2, 1)), Some((5, 1))));
}

#[test]
fn ranges_are_clipped_to_the_text() {
    assert_eq!(clip_range_to_len(&range(3, 10), 5), Some(range(3, 5)));
    assert_eq!(clip_range_to_len(&range(3, 5), 10), Some(range(3, 5)));
    assert_eq!(clip_range_to_len(&range(5, 9), 5), None);
    assert_eq!(clip_range_to_len(&range(4, 4), 5), None);
    assert_eq!(clip_range_to_len(&range(4, 2), 5), None);
    let clipped = clip_ranges_to_len(&vec![range(0, 2), range(7, 9), range(1, 9)], 6);
    assert_eq!(clipped, vec![range(0, 2), range(1, 6)]);
    assert_eq!(clip_ranges_to_len(&clipped, 6), clipped);
}

#[test]
fn a_caret_overlaps_what_it_lies_in() {
    assert!(ranges_overlap(&range(3, 5), &range(3, 3)));
    assert!(ranges_overlap(&range(3, 5), &range(4, 4)));
    assert!(!ranges_overlap(&range(3, 5), &range(5, 5)));
    assert!(!ranges_overlap(&range(3, 5), &range(2, 2)));
}

#[test]
fn a_selection_overlaps_what_it_shares_an_offset_with() {
    assert!(ranges_overlap(&range(3, 5), &range(0, 4)));
    assert!(ranges_overlap(&range(3, 5), &range(4, 9)));
    assert!(!ranges_overlap(&range(3, 5), &range(0, 3)));
    assert!(!ranges_overlap(&range(3, 5), &range(5, 9)));
    assert!(any_overlap(&range(3, 5), &vec![range(0, 1), range(4, 4)]));
    assert!(!any_overlap(&range(3, 5), &vec![range(0, 1), range(5, 5)]));
    assert!(!any_overlap(&range(3, 5), &vec![]));
}

#[test]
fn the_window_reaches_256_bytes_around() {
    assert_eq!(scan_window(range(300, 310), 1000), Some(range(44, 566)));
    assert_eq!(scan_window(range(10, 20), 100), Some(range(0, 100)));
    assert_eq!(scan_window(range(10, 20), 15), Some(range(0, 15)));
    assert_eq!(scan_window(range(10, 20), 10), None);
    assert_eq!(scan_window(range(7, 7), 10), None);
    assert_eq!(scan_window(range(0, usize::MAX), usize::MAX), Some(range(0, usize::MAX)));
}

#[test]
fn a_formula_is_expanded_to_its_delimiters() {
    let text = "see $x + y$ there";
    assert_eq!(expand_math_range(range(5, 10), text.len(), text), range(4, 11));
    let far = format!("{}$$ x $$", "-".repeat(1000));
    let inner = range(1003, 1004);
    let window = scan_window(inner, far.len()).unwrap();
    let context = &far[window.start..window.end];
    assert_eq!(expand_math_range(inner, far.len(), context), range(1000, 1007));
}

#[test]
fn a_formula_without_both_delimiters_is_left() {
    let text = "see $x + y there";
    assert_eq!(expand_math_range(range(5, 10), text.len(), text), range(5, 10));
    assert_eq!(expand_math_range(range(5, 99), text.len(), text), range(5, 16));
    assert_eq!(expand_math_range(range(30, 20), 16, text), range(16, 16));
    assert_eq!(expand_math_range(range(9, 3), 16, text), range(9, 3));
}

#[test]
fn forty_rows_more_at_either_end() {
    assert_eq!(padded_rows(100, 150), (60, 190));
    assert_eq!(padded_rows(10, u32::MAX - 3), (0, u32::MAX));
}

#[test]
fn a_block_is_as_high_as_its_picture_and_its_rows() {
    assert_eq!(block_lines(3, 10, 11), 3);
    assert_eq!(block_lines(1, 10, 14), 5);
    assert_eq!(block_lines(0, 10, 10), 1);
    assert_eq!(block_lines(0, 12, 10), 1);
    assert_eq!(block_lines(1, 0, u32::MAX), u32::MAX);
}
