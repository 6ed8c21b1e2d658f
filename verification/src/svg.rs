//! The size of a picture, as its SVG file gives it.

use crate::text::{str_chars, trim};
use vstd::prelude::*;

verus! {

/// The size of a picture in pixels. A number of pixels is held by its bits, as a binary
/// floating-point number of single precision.
#[derive(Debug, Clone, Copy, Hash, PartialEq, Eq, Structural)]
pub struct SvgSize {
    pub width: u32,
    pub height: u32,
}

/// The bits of the number 16.
pub const SIXTEEN: u32 = 0x4180_0000;

/// The bits without the sign.
pub open spec fn magnitude(bits: u32) -> u32 {
    bits % 0x8000_0000
}

/// The bits stand for no number.
pub open spec fn not_a_number(bits: u32) -> bool {
    magnitude(bits) > 0x7f80_0000
}

/// Both stand for the same number: the two zeros are equal, and what is no number is equal
/// to nothing.
pub open spec fn same_number(a: u32, b: u32) -> bool {
    &&& !not_a_number(a)
    &&& !not_a_number(b)
    &&& a == b || (magnitude(a) == 0 && magnitude(b) == 0)
}

/// Whether both stand for the same number.
pub fn is_same_number(a: u32, b: u32) -> (r: bool)
    ensures
        r == same_number(a, b),
{
    a % 0x8000_0000 <= 0x7f80_0000 && b % 0x8000_0000 <= 0x7f80_0000 && (a == b || (a % 0x8000_0000
        == 0 && b % 0x8000_0000 == 0))
}

impl SvgSize {
    /// Both have the same width and the same height.
    pub open spec fn same(self, other: SvgSize) -> bool {
        same_number(self.width, other.width) && same_number(self.height, other.height)
    }

    /// Whether both have the same width and the same height.
    pub fn is_same(&self, other: &SvgSize) -> (r: bool)
        ensures
            r == self.same(*other),
    {
        is_same_number(self.width, other.width) && is_same_number(self.height, other.height)
    }
}

/// The size of a picture that gives none: sixteen pixels each way.
pub fn default_svg_size() -> (r: SvgSize)
    ensures
        r == (SvgSize { width: SIXTEEN, height: SIXTEEN }),
{
    SvgSize { width: SIXTEEN, height: SIXTEEN }
}

/// The unit of a length.
#[derive(Debug, Clone, Copy, Hash, PartialEq, Eq, Structural)]
pub enum LengthUnit {
    Px,
    Pt,
    In,
    Cm,
    Mm,
}

/// How many pixels the unit has, as a numerator and a denominator.
pub open spec fn pixels_in(unit: LengthUnit) -> (u32, u32) {
    match unit {
        LengthUnit::Px => (1, 1),
        LengthUnit::Pt => (4, 3),
        LengthUnit::In => (96, 1),
        LengthUnit::Cm => (9600, 254),
        LengthUnit::Mm => (960, 254),
    }
}

impl LengthUnit {
    /// How many pixels the unit has, as a numerator and a denominator.
    pub fn pixels(&self) -> (r: (u32, u32))
        ensures
            r == pixels_in(*self),
            r.1 > 0,
    {
        match self {
            LengthUnit::Px => (1, 1),
            LengthUnit::Pt => (4, 3),
            LengthUnit::In => (96, 1),
            LengthUnit::Cm => (9600, 254),
            LengthUnit::Mm => (960, 254),
        }
    }
}

/// `count` of the unit `a` are as long as `other_count` of the unit `b`.
pub open spec fn as_long_as(
    count: int,
    a: LengthUnit,
    other_count: int,
    b: LengthUnit,
) -> bool {
    count * pixels_in(a).0 * pixels_in(b).1 == other_count * pixels_in(b).0 * pixels_in(a).1
}

/// A length: digits with at most one point among them, and a unit.
#[derive(Debug)]
pub struct SvgLength {
    pub number: String,
    pub unit: LengthUnit,
}

/// What an `SvgLength` holds.
pub struct SvgLengthView {
    pub number: Seq<char>,
    pub unit: LengthUnit,
}

impl DeepView for SvgLength {
    type V = SvgLengthView;

    open spec fn deep_view(&self) -> SvgLengthView {
        SvgLengthView { number: self.number@, unit: self.unit }
    }
}

/// A digit or a point.
pub open spec fn numeric(c: char) -> bool {
    '0' <= c <= '9' || c == '.'
}

/// How many characters of `s` are digits and points, before the first that is neither.
pub open spec fn numeric_len(s: Seq<char>) -> int
    decreases s.len(),
{
    if s.len() > 0 && numeric(s[0]) {
        1 + numeric_len(s.skip(1))
    } else {
        0
    }
}

/// How many points `s` holds.
pub open spec fn points(s: Seq<char>) -> int
    decreases s.len(),
{
    if s.len() == 0 {
        0
    } else {
        points(s.drop_last()) + if s.last() == '.' {
            1int
        } else {
            0int
        }
    }
}

/// Digits and points stand for a number where there is at least one digit and at most one
/// point.
pub open spec fn decimal(s: Seq<char>) -> bool {
    points(s) <= 1 && points(s) < s.len()
}

/// The unit that `s` names.
pub open spec fn unit_named(s: Seq<char>) -> Option<LengthUnit> {
    if s.len() == 0 || s == "px"@ {
        Some(LengthUnit::Px)
    } else if s == "pt"@ {
        Some(LengthUnit::Pt)
    } else if s == "in"@ {
        Some(LengthUnit::In)
    } else if s == "cm"@ {
        Some(LengthUnit::Cm)
    } else if s == "mm"@ {
        Some(LengthUnit::Mm)
    } else {
        None
    }
}

/// The length that `value` gives: a number, white space or none, and a unit or none.
pub open spec fn length_given(value: Seq<char>) -> Option<SvgLengthView> {
    let s = crate::text::trimmed(value);
    let number = s.take(numeric_len(s));
    match unit_named(crate::text::trimmed(s.skip(numeric_len(s)))) {
        Some(unit) if decimal(number) => Some(SvgLengthView { number, unit }),
        _ => None,
    }
}

/// Whether both hold the same characters.
fn same_str(a: &str, b: &str) -> (r: bool)
    ensures
        r == (a@ == b@),
{
    String::from_str(a) == String::from_str(b)
}

/// The unit that `s` names.
fn parse_unit(s: &str) -> (r: Option<LengthUnit>)
    ensures
        r == unit_named(s@),
{
    if s.is_empty() || same_str(s, "px") {
        Some(LengthUnit::Px)
    } else if same_str(s, "pt") {
        Some(LengthUnit::Pt)
    } else if same_str(s, "in") {
        Some(LengthUnit::In)
    } else if same_str(s, "cm") {
        Some(LengthUnit::Cm)
    } else if same_str(s, "mm") {
        Some(LengthUnit::Mm)
    } else {
        None
    }
}

/// The length that `value` gives: a number, white space or none, and a unit or none. A
/// number without a unit counts pixels.
pub fn parse_svg_length(value: &str) -> (r: Option<SvgLength>)
    ensures
        r.deep_view() == length_given(value@),
{
    let value = trim(value);
    let chars = str_chars(value);
    let mut end: usize = 0;
    let mut dots: usize = 0;
    assert(value@.skip(0) =~= value@);
    assert(value@.take(0) =~= seq![]);
    while end < chars.len() && (('0' <= chars[end] && chars[end] <= '9') || chars[end] == '.')
        invariant
            dots <= end <= chars@.len(),
            chars@ == value@,
            numeric_len(value@) == end + numeric_len(value@.skip(end as int)),
            points(value@.take(end as int)) == dots,
        decreases chars@.len() - end,
    {
        assert(value@.skip(end as int).skip(1) =~= value@.skip(end + 1));
        assert(value@.take(end + 1).drop_last() =~= value@.take(end as int));
        if chars[end] == '.' {
            dots += 1;
        }
        end += 1;
    }
    assert(value@.subrange(0, end as int) =~= value@.take(end as int));
    assert(value@.subrange(end as int, value@.len() as int) =~= value@.skip(end as int));
    let unit = parse_unit(trim(value.substring_char(end, chars.len())));
    match unit {
        Some(unit) => if dots <= 1 && dots < end {
            Some(SvgLength { number: String::from_str(value.substring_char(0, end)), unit })
        } else {
            None
        },
        None => None,
    }
}

/// The position of the first `>` of `s`, or the length of `s`.
pub open spec fn tag_len(s: Seq<char>) -> int
    decreases s.len(),
{
    if s.len() == 0 || s[0] == '>' {
        0
    } else {
        1 + tag_len(s.skip(1))
    }
}

/// The first tag of a file: all that stands before the first `>`.
pub open spec fn tag_of(contents: Seq<char>) -> Seq<char> {
    contents.take(tag_len(contents))
}

/// The first tag of a file: all that stands before the first `>`.
pub fn svg_tag(contents: &str) -> (r: &str)
    ensures
        r@ == tag_of(contents@),
{
    let chars = str_chars(contents);
    let mut end: usize = 0;
    assert(contents@.skip(0) =~= contents@);
    while end < chars.len() && chars[end] != '>'
        invariant
            end <= chars@.len(),
            chars@ == contents@,
            tag_len(contents@) == end + tag_len(contents@.skip(end as int)),
        decreases chars@.len() - end,
    {
        assert(contents@.skip(end as int).skip(1) =~= contents@.skip(end + 1));
        end += 1;
    }
    assert(contents@.subrange(0, end as int) =~= contents@.take(end as int));
    contents.substring_char(0, end)
}

/// A space or a comma.
pub open spec fn separator(c: char) -> bool {
    c == ' ' || c == ','
}

/// How many characters of `s` stand before the first separator.
pub open spec fn part_len(s: Seq<char>) -> int
    decreases s.len(),
{
    if s.len() == 0 || separator(s[0]) {
        0
    } else {
        1 + part_len(s.skip(1))
    }
}

/// `part_len` lies within the string.
pub proof fn lemma_part_len(s: Seq<char>)
    ensures
        0 <= part_len(s) <= s.len(),
        s.len() > 0 && !separator(s[0]) ==> part_len(s) > 0,
    decreases s.len(),
{
    if s.len() > 0 && !separator(s[0]) {
        lemma_part_len(s.skip(1));
    }
}

/// What stands between the separators of `s`, without what is empty.
pub open spec fn parts(s: Seq<char>) -> Seq<Seq<char>>
    decreases s.len(),
{
    if s.len() == 0 {
        seq![]
    } else if separator(s[0]) {
        parts(s.skip(1))
    } else {
        proof {
            lemma_part_len(s);
        }
        seq![s.take(part_len(s))] + parts(s.skip(part_len(s)))
    }
}

/// What stands between the separators of `s`, without what is empty.
pub fn split_parts(s: &str) -> (r: Vec<String>)
    ensures
        r.deep_view() == parts(s@),
{
    let chars = str_chars(s);
    let mut found: Vec<String> = Vec::new();
    let mut at: usize = 0;
    assert(found.deep_view() + parts(s@.skip(0)) =~= parts(s@)) by {
        assert(s@.skip(0) =~= s@);
    }
    while at < chars.len()
        invariant
            at <= chars@.len(),
            chars@ == s@,
            found.deep_view() + parts(s@.skip(at as int)) == parts(s@),
        decreases chars@.len() - at,
    {
        let ghost rest = s@.skip(at as int);
        if chars[at] == ' ' || chars[at] == ',' {
            assert(rest.skip(1) =~= s@.skip(at + 1));
            at += 1;
        } else {
            let mut end: usize = at + 1;
            assert(rest.skip(1) =~= s@.skip(at + 1));
            while end < chars.len() && chars[end] != ' ' && chars[end] != ','
                invariant
                    at < end <= chars@.len(),
                    chars@ == s@,
                    part_len(rest) == end - at + part_len(s@.skip(end as int)),
                decreases chars@.len() - end,
            {
                assert(s@.skip(end as int).skip(1) =~= s@.skip(end + 1));
                end += 1;
            }
            assert(part_len(rest) == end - at);
            let ghost before = found.deep_view();
            found.push(String::from_str(s.substring_char(at, end)));
            proof {
                assert(s@.subrange(at as int, end as int) =~= rest.take(end - at));
                assert(found.deep_view() =~= before.push(rest.take(end - at)));
                assert(rest.skip(end - at) =~= s@.skip(end as int));
                assert(found.deep_view() + parts(s@.skip(end as int)) =~= before + parts(rest));
            }
            at = end;
        }
    }
    assert(found.deep_view() + parts(s@.skip(at as int)) =~= found.deep_view());
    found
}

/// Where the size of a picture comes from: two lengths, or the four numbers of a view box
/// as they are written.
#[derive(Debug)]
pub enum SvgDimensions {
    Lengths { width: SvgLength, height: SvgLength },
    ViewBox { min_x: String, min_y: String, box_width: String, box_height: String },
}

/// What an `SvgDimensions` holds.
pub enum SvgDimensionsView {
    Lengths { width: SvgLengthView, height: SvgLengthView },
    ViewBox { min_x: Seq<char>, min_y: Seq<char>, box_width: Seq<char>, box_height: Seq<char> },
}

impl DeepView for SvgDimensions {
    type V = SvgDimensionsView;

    open spec fn deep_view(&self) -> SvgDimensionsView {
        match self {
            SvgDimensions::Lengths { width, height } => SvgDimensionsView::Lengths {
                width: width.deep_view(),
                height: height.deep_view(),
            },
            SvgDimensions::ViewBox { min_x, min_y, box_width, box_height } =>
                SvgDimensionsView::ViewBox {
                    min_x: min_x@,
                    min_y: min_y@,
                    box_width: box_width@,
                    box_height: box_height@,
                },
        }
    }
}

/// The length that an attribute gives, if there is the attribute and it gives one.
pub open spec fn attribute_length(value: Option<Seq<char>>) -> Option<SvgLengthView> {
    match value {
        Some(value) => length_given(value),
        None => None,
    }
}

/// The size from the attributes `width`, `height` and `viewBox`: from the first two where
/// both give a length, else from a view box of at least four parts.
pub open spec fn dimensions_given(
    width: Option<Seq<char>>,
    height: Option<Seq<char>>,
    view_box: Option<Seq<char>>,
) -> Option<SvgDimensionsView> {
    match (attribute_length(width), attribute_length(height)) {
        (Some(width), Some(height)) => Some(SvgDimensionsView::Lengths { width, height }),
        _ => match view_box {
            Some(view_box) if parts(view_box).len() >= 4 => Some(
                SvgDimensionsView::ViewBox {
                    min_x: parts(view_box)[0],
                    min_y: parts(view_box)[1],
                    box_width: parts(view_box)[2],
                    box_height: parts(view_box)[3],
                },
            ),
            _ => None,
        },
    }
}

/// The size from the attributes `width`, `height` and `viewBox`.
pub fn dimensions_from_attributes(
    width: Option<String>,
    height: Option<String>,
    view_box: Option<String>,
) -> (r: Option<SvgDimensions>)
    ensures
        r.deep_view() == dimensions_given(
            width.deep_view(),
            height.deep_view(),
            view_box.deep_view(),
        ),
        attribute_length(width.deep_view()) is Some && attribute_length(height.deep_view()) is Some
            ==> (r matches Some(SvgDimensions::Lengths { width: w, height: h })
            && w.number@ == attribute_length(width.deep_view())->0.number
            && w.unit == attribute_length(width.deep_view())->0.unit
            && h.number@ == attribute_length(height.deep_view())->0.number
            && h.unit == attribute_length(height.deep_view())->0.unit),
{
    let width = match width {
        Some(value) => parse_svg_length(value.as_str()),
        None => None,
    };
    let height = match height {
        Some(value) => parse_svg_length(value.as_str()),
        None => None,
    };
    match (width, height) {
        (Some(width), Some(height)) => Some(SvgDimensions::Lengths { width, height }),
        _ => match view_box {
            Some(view_box) => {
                let found = split_parts(view_box.as_str());
                assert(found.deep_view().len() == found@.len());
                if found.len() >= 4 {
                    assert(forall|i: int|
                        0 <= i < found@.len() ==> found.deep_view()[i] == (#[trigger] found@[i])@);
                    Some(
                        SvgDimensions::ViewBox {
                            min_x: found[0].clone(),
                            min_y: found[1].clone(),
                            box_width: found[2].clone(),
                            box_height: found[3].clone(),
                        },
                    )
                } else {
                    None
                }
            },
            None => None,
        },
    }
}

/// The pattern of the attribute `width`.
pub fn width_re() -> (r: &'static str)
    ensures
        r@ == r#"(?i)\bwidth\s*=\s*["']([^"']+)["']"#@,
{
    r#"(?i)\bwidth\s*=\s*["']([^"']+)["']"#
}

/// The pattern of the attribute `height`.
pub fn height_re() -> (r: &'static str)
    ensures
        r@ == r#"(?i)\bheight\s*=\s*["']([^"']+)["']"#@,
{
    r#"(?i)\bheight\s*=\s*["']([^"']+)["']"#
}

/// The pattern of the attribute `viewBox`.
pub fn view_box_re() -> (r: &'static str)
    ensures
        r@ == r#"(?i)\bviewBox\s*=\s*["']([^"']+)["']"#@,
{
    r#"(?i)\bviewBox\s*=\s*["']([^"']+)["']"#
}

/// One of the patterns of this module.
pub open spec fn size_pattern(pattern: Seq<char>) -> bool {
    ||| pattern == r#"(?i)\bwidth\s*=\s*["']([^"']+)["']"#@
    ||| pattern == r#"(?i)\bheight\s*=\s*["']([^"']+)["']"#@
    ||| pattern == r#"(?i)\bviewBox\s*=\s*["']([^"']+)["']"#@
}

/// What the first group of the regular expression `pattern` matches in the leftmost match of
/// the expression in `text`, by the rules of the crate `regex`.
pub uninterp spec fn first_group(pattern: Seq<char>, text: Seq<char>) -> Option<Seq<char>>;

/// Compiles `pattern` by `regex::Regex::new`, searches `text` by `Regex::captures`, and takes
/// the text of group 1 by `Captures::get`. Trusted: the patterns of this module compile, and
/// what the group matches depends on the pattern and the text alone.
#[verifier::external_body]
fn regex_first_group(pattern: &str, text: &str) -> (r: Option<String>)
    requires
        size_pattern(pattern@),
    ensures
        r.deep_view() == first_group(pattern@, text@),
{
    let regex = regex::Regex::new(pattern).unwrap();
    let captures = regex.captures(text)?;
    captures.get(1).map(|capture| capture.as_str().to_string())
}

/// The value that the pattern `re` finds in `tag`.
pub fn attribute_value(tag: &str, re: &str) -> (r: Option<String>)
    requires
        size_pattern(re@),
    ensures
        r.deep_view() == first_group(re@, tag@),
{
    regex_first_group(re, tag)
}

/// The size that the contents of an SVG file give, in the first tag.
pub open spec fn size_given(contents: Seq<char>) -> Option<SvgDimensionsView> {
    let tag = tag_of(contents);
    dimensions_given(
        first_group(r#"(?i)\bwidth\s*=\s*["']([^"']+)["']"#@, tag),
        first_group(r#"(?i)\bheight\s*=\s*["']([^"']+)["']"#@, tag),
        first_group(r#"(?i)\bviewBox\s*=\s*["']([^"']+)["']"#@, tag),
    )
}

/// The size that the contents of an SVG file give, in the first tag.
pub fn svg_dimensions(contents: &str) -> (r: Option<SvgDimensions>)
    ensures
        r.deep_view() == size_given(contents@),
{
    let tag = svg_tag(contents);
    dimensions_from_attributes(
        attribute_value(tag, width_re()),
        attribute_value(tag, height_re()),
        attribute_value(tag, view_box_re()),
    )
}

/// An inch is 96 pixels, 72 points, and 2.54 centimetres, and a centimetre ten millimetres.
pub proof fn law_units_agree(inches: int)
    ensures
        as_long_as(inches, LengthUnit::In, 96 * inches, LengthUnit::Px),
        as_long_as(inches, LengthUnit::In, 72 * inches, LengthUnit::Pt),
        as_long_as(100 * inches, LengthUnit::In, 254 * inches, LengthUnit::Cm),
        as_long_as(inches, LengthUnit::Cm, 10 * inches, LengthUnit::Mm),
{
}

/// What is the same number is so either way round, and each number is the same as itself.
pub proof fn law_same_number(a: u32, b: u32)
    ensures
        same_number(a, b) == same_number(b, a),
        same_number(a, a) <==> !not_a_number(a),
{
}

/// The tag that ends at the first `>`.
proof fn lemma_tag_len(head: Seq<char>, rest: Seq<char>)
    requires
        !head.contains('>'),
    ensures
        tag_len(head.push('>') + rest) == head.len(),
    decreases head.len(),
{
    let s = head.push('>') + rest;
    if head.len() > 0 {
        let less = head.skip(1);
        assert(head.contains(head[0]));
        if less.contains('>') {
            assert(head[less.index_of('>') + 1] == '>');
        }
        lemma_tag_len(less, rest);
        assert(s.skip(1) =~= less.push('>') + rest);
    }
}

/// What stands after the first `>` of a file has no part in the size.
pub proof fn law_size_comes_from_first_tag(head: Seq<char>, a: Seq<char>, b: Seq<char>)
    requires
        !head.contains('>'),
    ensures
        tag_of(head.push('>') + a) == head,
        size_given(head.push('>') + a) == size_given(head.push('>') + b),
{
    lemma_tag_len(head, a);
    lemma_tag_len(head, b);
    assert(tag_of(head.push('>') + a) =~= head);
    assert(tag_of(head.push('>') + b) =~= head);
}

/// Digits and points are not white space, and nothing of them is trimmed.
proof fn lemma_numeric_text(s: Seq<char>, rest: Seq<char>)
    requires
        forall|i: int| 0 <= i < s.len() ==> numeric(#[trigger] s[i]),
        rest.len() > 0 ==> !numeric(rest[0]),
    ensures
        numeric_len(s + rest) == s.len(),
    decreases s.len(),
{
    if s.len() > 0 {
        lemma_numeric_text(s.skip(1), rest);
        assert((s + rest).skip(1) =~= s.skip(1) + rest);
    } else {
        assert(s + rest =~= rest);
    }
}

/// A number without a unit is a length in pixels, the same as with the unit `px`.
pub proof fn law_bare_number_counts_pixels(number: Seq<char>)
    requires
        decimal(number),
        forall|i: int| 0 <= i < number.len() ==> numeric(#[trigger] number[i]),
    ensures
        length_given(number) == Some(SvgLengthView { number, unit: LengthUnit::Px }),
        length_given(number + "px"@) == length_given(number),
{
    reveal_strlit("px");
    let with_unit = number + "px"@;
    assert(numeric(number[0]) && numeric(number.last()));
    lemma_numeric_text(number, seq![]);
    lemma_numeric_text(number, "px"@);
    assert(number + seq![] =~= number);
    assert(number.take(number.len() as int) =~= number);
    assert(number.skip(number.len() as int) =~= seq![]);
    assert(with_unit[0] == number[0]);
    assert(with_unit.last() == 'x');
    assert(with_unit.take(number.len() as int) =~= number);
    assert(with_unit.skip(number.len() as int) =~= "px"@);
}

/// Two bit patterns stand for the same number exactly if they are the same and stand for one,
/// or are the two zeros.
pub proof fn law_same_number_bits(a: u32, b: u32)
    ensures
        same_number(a, b) && a != b ==> (a == 0 || a == 0x8000_0000) && (b == 0 || b
            == 0x8000_0000),
        same_number(0, 0x8000_0000),
        same_number(a, a) <==> a <= 0x7f80_0000 || 0x8000_0000 <= a <= 0xff80_0000,
{
}

/// Two sizes are the same exactly if their widths are and their heights are.
pub proof fn law_same_size(a: SvgSize, b: SvgSize)
    ensures
        a.same(b) <==> same_number(a.width, b.width) && same_number(a.height, b.height),
{
}

/// A text without `>` is as long as its tag.
proof fn lemma_tag_len_without_end(s: Seq<char>)
    requires
        !s.contains('>'),
    ensures
        tag_len(s) == s.len(),
    decreases s.len(),
{
    if s.len() > 0 {
        let rest = s.skip(1);
        assert(s.contains(s[0]));
        assert forall|c: char| rest.contains(c) implies s.contains(c) by {
            assert(s[rest.index_of(c) + 1] == c);
        }
        lemma_tag_len_without_end(rest);
    }
}

/// The tag ends at the first `>`: a text that has none is a tag as a whole.
pub proof fn law_tag_without_end(s: Seq<char>)
    requires
        !s.contains('>'),
    ensures
        tag_of(s) == s,
{
    lemma_tag_len_without_end(s);
    assert(s.take(s.len() as int) =~= s);
}

/// The points of a text: none where it holds none, at least two where it holds two.
proof fn lemma_points(s: Seq<char>)
    ensures
        0 <= points(s) <= s.len(),
        points(s) == 0 <==> !s.contains('.'),
        points(s) == s.len() <==> forall|i: int| 0 <= i < s.len() ==> s[i] == '.',
        points(s) <= 1 <==> forall|i: int, j: int|
            #![trigger s[i], s[j]]
            0 <= i < j < s.len() ==> !(s[i] == '.' && s[j] == '.'),
    decreases s.len(),
{
    if s.len() > 0 {
        let less = s.drop_last();
        let n = s.len() - 1;
        lemma_points(less);
        assert(s[n] == s.last());
        assert(forall|i: int| 0 <= i < n ==> #[trigger] less[i] == s[i]);
        if less.contains('.') {
            let i = less.index_of('.');
            assert(s[i] == '.');
        }
        if s.contains('.') && s.last() != '.' {
            let i = s.index_of('.');
            assert(less[i] == '.');
        }
        if points(less) == less.len() && s.last() == '.' {
            assert forall|i: int| 0 <= i < s.len() implies s[i] == '.' by {
                if i < n {
                    assert(less[i] == '.');
                }
            }
        }
        if forall|i: int| 0 <= i < s.len() ==> s[i] == '.' {
            assert forall|i: int| 0 <= i < less.len() implies less[i] == '.' by {
                assert(s[i] == '.');
            }
        }
        if points(s) <= 1 {
            assert forall|i: int, j: int|
                #![trigger s[i], s[j]]
                0 <= i < j < s.len() implies !(s[i] == '.' && s[j] == '.') by {
                assert(less[i] == s[i]);
                if j < n {
                    assert(less[j] == s[j]);
                } else if s[i] == '.' {
                    assert(less.contains('.'));
                }
            }
        }
        if forall|i: int, j: int|
            #![trigger s[i], s[j]]
            0 <= i < j < s.len() ==> !(s[i] == '.' && s[j] == '.') {
            assert forall|i: int, j: int|
                #![trigger less[i], less[j]]
                0 <= i < j < less.len() implies !(less[i] == '.' && less[j] == '.') by {
                assert(s[i] == less[i] && s[j] == less[j]);
            }
        }
    }
}

/// Digits and points stand for a number exactly if there is a digit among them and no two
/// points.
pub proof fn law_decimal(s: Seq<char>)
    ensures
        decimal(s) <==> (exists|i: int| 0 <= i < s.len() && #[trigger] s[i] != '.') && (forall|
            i: int,
            j: int,
        |
            #![trigger s[i], s[j]]
            0 <= i < j < s.len() ==> !(s[i] == '.' && s[j] == '.')),
{
    lemma_points(s);
}

/// White space that is put before a text is trimmed off.
proof fn lemma_trimmed_start_of_padded(pad: Seq<char>, s: Seq<char>)
    requires
        forall|i: int| 0 <= i < pad.len() ==> crate::text::white_space(#[trigger] pad[i]),
    ensures
        crate::text::trimmed_start(pad + s) == crate::text::trimmed_start(s),
    decreases pad.len(),
{
    if pad.len() == 0 {
        assert(pad + s =~= s);
    } else {
        assert((pad + s)[0] == pad[0]);
        assert((pad + s).skip(1) =~= pad.skip(1) + s);
        assert forall|i: int| 0 <= i < pad.skip(1).len() implies crate::text::white_space(
            #[trigger] pad.skip(1)[i],
        ) by {
            assert(pad.skip(1)[i] == pad[i + 1]);
        }
        lemma_trimmed_start_of_padded(pad.skip(1), s);
    }
}

/// White space that is put behind a text is trimmed off.
proof fn lemma_trimmed_end_of_padded(s: Seq<char>, pad: Seq<char>)
    requires
        forall|i: int| 0 <= i < pad.len() ==> crate::text::white_space(#[trigger] pad[i]),
    ensures
        crate::text::trimmed_end(s + pad) == crate::text::trimmed_end(s),
    decreases pad.len(),
{
    if pad.len() == 0 {
        assert(s + pad =~= s);
    } else {
        assert((s + pad).last() == pad[pad.len() - 1]);
        assert((s + pad).drop_last() =~= s + pad.drop_last());
        assert forall|i: int| 0 <= i < pad.drop_last().len() implies crate::text::white_space(
            #[trigger] pad.drop_last()[i],
        ) by {
            assert(pad.drop_last()[i] == pad[i]);
        }
        lemma_trimmed_end_of_padded(s, pad.drop_last());
    }
}

/// A text that starts and ends with something else than white space is what is left of it with
/// white space around.
proof fn lemma_trimmed_of_padded(before: Seq<char>, s: Seq<char>, after: Seq<char>)
    requires
        forall|i: int| 0 <= i < before.len() ==> crate::text::white_space(#[trigger] before[i]),
        forall|i: int| 0 <= i < after.len() ==> crate::text::white_space(#[trigger] after[i]),
        s.len() > 0 ==> !crate::text::white_space(s[0]) && !crate::text::white_space(s.last()),
    ensures
        crate::text::trimmed(before + s + after) == s,
{
    assert(before + s + after =~= before + (s + after));
    lemma_trimmed_start_of_padded(before, s + after);
    if s.len() == 0 {
        assert(s + after =~= after + s);
        lemma_trimmed_start_of_padded(after, s);
    } else {
        assert((s + after)[0] == s[0]);
        lemma_trimmed_end_of_padded(s, after);
    }
}

/// A length is read however it is written: a number of digits and at most one point, then a
/// unit or none, with white space around and between. A number without a unit counts pixels.
pub proof fn law_length_is_read(
    before: Seq<char>,
    number: Seq<char>,
    between: Seq<char>,
    name: Seq<char>,
    after: Seq<char>,
    unit: LengthUnit,
)
    requires
        forall|i: int| 0 <= i < before.len() ==> crate::text::white_space(#[trigger] before[i]),
        forall|i: int| 0 <= i < between.len() ==> crate::text::white_space(#[trigger] between[i]),
        forall|i: int| 0 <= i < after.len() ==> crate::text::white_space(#[trigger] after[i]),
        forall|i: int| 0 <= i < number.len() ==> '0' <= #[trigger] number[i] <= '9' || number[i]
            == '.',
        exists|i: int| 0 <= i < number.len() && #[trigger] number[i] != '.',
        forall|i: int, j: int|
            #![trigger number[i], number[j]]
            0 <= i < j < number.len() ==> !(number[i] == '.' && number[j] == '.'),
        match unit {
            LengthUnit::Px => name == Seq::<char>::empty() || name == seq!['p', 'x'],
            LengthUnit::Pt => name == seq!['p', 't'],
            LengthUnit::In => name == seq!['i', 'n'],
            LengthUnit::Cm => name == seq!['c', 'm'],
            LengthUnit::Mm => name == seq!['m', 'm'],
        },
    ensures
        length_given(before + number + between + name + after) == Some(
            SvgLengthView { number, unit },
        ),
{
    reveal_strlit("px");
    reveal_strlit("pt");
    reveal_strlit("in");
    reveal_strlit("cm");
    reveal_strlit("mm");
    assert("px"@ =~= seq!['p', 'x'] && "pt"@ =~= seq!['p', 't'] && "in"@ =~= seq!['i', 'n']
        && "cm"@ =~= seq!['c', 'm'] && "mm"@ =~= seq!['m', 'm']);
    assert("px"@[0] == 'p' && "px"@[1] == 'x' && "pt"@[0] == 'p' && "pt"@[1] == 't' && "in"@[0]
        == 'i' && "cm"@[0] == 'c' && "mm"@[0] == 'm');
    law_decimal(number);
    assert(numeric(number[0]) && numeric(number[number.len() - 1]));
    let value = before + number + between + name + after;
    let (core, pad) = if name.len() == 0 {
        (number, between + after)
    } else {
        (number + between + name, after)
    };
    assert(value =~= before + core + pad);
    assert forall|i: int| 0 <= i < pad.len() implies crate::text::white_space(#[trigger] pad[i]) by {
        if name.len() == 0 {
            if i < between.len() {
                assert(pad[i] == between[i]);
            } else {
                assert(pad[i] == after[i - between.len()]);
            }
        }
    }
    assert(core[0] == number[0]);
    if name.len() > 0 {
        assert(core.last() == name.last());
        assert(name.last() == name[1]);
    }
    lemma_trimmed_of_padded(before, core, pad);
    let rest = if name.len() == 0 {
        Seq::<char>::empty()
    } else {
        between + name
    };
    assert(core =~= number + rest);
    if rest.len() > 0 {
        if between.len() > 0 {
            assert(rest[0] == between[0]);
        } else {
            assert(rest[0] == name[0]);
        }
    }
    lemma_numeric_text(number, rest);
    assert(core.take(number.len() as int) =~= number);
    assert(core.skip(number.len() as int) =~= rest);
    if name.len() == 0 {
        assert(crate::text::trimmed(rest) =~= seq![]);
    } else {
        assert(rest =~= between + name + Seq::<char>::empty());
        lemma_trimmed_of_padded(between, name, seq![]);
    }
}

/// How many digits and points a text starts with.
proof fn lemma_numeric_len(s: Seq<char>)
    ensures
        0 <= numeric_len(s) <= s.len(),
        forall|i: int| 0 <= i < numeric_len(s) ==> numeric(#[trigger] s[i]),
        numeric_len(s) < s.len() ==> !numeric(s[numeric_len(s)]),
    decreases s.len(),
{
    if s.len() > 0 && numeric(s[0]) {
        let rest = s.skip(1);
        lemma_numeric_len(rest);
        assert forall|i: int| 0 <= i < numeric_len(s) implies numeric(#[trigger] s[i]) by {
            if i > 0 {
                assert(rest[i - 1] == s[i]);
            }
        }
        if numeric_len(rest) < rest.len() {
            assert(rest[numeric_len(rest)] == s[numeric_len(s)]);
        }
    }
}

/// Nothing else is read as a length: a value that gives one starts, but for white space, with
/// its number of digits and at most one point, and goes on with nothing but its unit.
pub proof fn law_length_is_written(value: Seq<char>)
    ensures
        length_given(value) matches Some(length) ==> {
            let s = crate::text::trimmed(value);
            let n = length.number.len() as int;
            let name = crate::text::trimmed(s.skip(n));
            &&& 0 < n <= s.len()
            &&& length.number == s.take(n)
            &&& n < s.len() ==> !('0' <= s[n] <= '9') && s[n] != '.'
            &&& forall|i: int|
                0 <= i < n ==> '0' <= #[trigger] length.number[i] <= '9' || length.number[i] == '.'
            &&& exists|i: int| 0 <= i < n && #[trigger] length.number[i] != '.'
            &&& forall|i: int, j: int|
                #![trigger length.number[i], length.number[j]]
                0 <= i < j < n ==> !(length.number[i] == '.' && length.number[j] == '.')
            &&& match length.unit {
                LengthUnit::Px => name == Seq::<char>::empty() || name == seq!['p', 'x'],
                LengthUnit::Pt => name == seq!['p', 't'],
                LengthUnit::In => name == seq!['i', 'n'],
                LengthUnit::Cm => name == seq!['c', 'm'],
                LengthUnit::Mm => name == seq!['m', 'm'],
            }
        },
{
    reveal_strlit("px");
    reveal_strlit("pt");
    reveal_strlit("in");
    reveal_strlit("cm");
    reveal_strlit("mm");
    assert("px"@ =~= seq!['p', 'x'] && "pt"@ =~= seq!['p', 't'] && "in"@ =~= seq!['i', 'n']
        && "cm"@ =~= seq!['c', 'm'] && "mm"@ =~= seq!['m', 'm']);
    if let Some(length) = length_given(value) {
        let s = crate::text::trimmed(value);
        lemma_numeric_len(s);
        assert(length.number.len() == numeric_len(s));
        law_decimal(length.number);
        let name = crate::text::trimmed(s.skip(numeric_len(s)));
        if name.len() == 0 {
            assert(name =~= Seq::<char>::empty());
        }
        assert forall|i: int| 0 <= i < numeric_len(s) implies '0' <= #[trigger] length.number[i]
            <= '9' || length.number[i] == '.' by {
            assert(length.number[i] == s[i]);
        }
    }
}

/// A separator parts what stands before it from what stands behind it.
proof fn lemma_part_len_before(a: Seq<char>, c: char, b: Seq<char>)
    requires
        c == ' ' || c == ',',
    ensures
        part_len(a.push(c) + b) == part_len(a),
    decreases a.len(),
{
    let s = a.push(c) + b;
    if a.len() == 0 {
        assert(s[0] == c);
    } else {
        assert(s[0] == a[0]);
        lemma_part_len_before(a.skip(1), c, b);
        assert(s.skip(1) =~= a.skip(1).push(c) + b);
    }
}

/// A space or a comma parts a text in two, of which each gives its own parts.
pub proof fn law_parts_split(a: Seq<char>, c: char, b: Seq<char>)
    requires
        c == ' ' || c == ',',
    ensures
        parts(a.push(c) + b) == parts(a) + parts(b),
    decreases a.len(),
{
    let s = a.push(c) + b;
    if a.len() == 0 {
        assert(s.skip(1) =~= b);
        assert(s[0] == c);
        assert(parts(a) + parts(b) =~= parts(b));
    } else if separator(a[0]) {
        assert(s[0] == a[0]);
        law_parts_split(a.skip(1), c, b);
        assert(s.skip(1) =~= a.skip(1).push(c) + b);
    } else {
        assert(s[0] == a[0]);
        lemma_part_len(a);
        lemma_part_len_before(a, c, b);
        let n = part_len(a);
        assert(s.take(n) =~= a.take(n));
        assert(s.skip(n) =~= a.skip(n).push(c) + b);
        law_parts_split(a.skip(n), c, b);
        assert(parts(s) =~= parts(a) + parts(b));
    }
}

/// A text without spaces and commas is one part, and an empty text none.
pub proof fn law_parts_of_one(s: Seq<char>)
    requires
        !s.contains(' '),
        !s.contains(','),
    ensures
        s.len() > 0 ==> parts(s) == seq![s],
        s.len() == 0 ==> parts(s) == Seq::<Seq<char>>::empty(),
{
    if s.len() > 0 {
        lemma_part_len_of_one(s);
        assert(s.contains(s[0]));
        assert(s.take(s.len() as int) =~= s);
        let rest = s.skip(s.len() as int);
        assert(rest =~= seq![]);
        assert(parts(rest) =~= seq![]);
        assert(seq![s] + parts(rest) =~= seq![s]);
    }
}

/// A text without separators is as long as its first part.
proof fn lemma_part_len_of_one(s: Seq<char>)
    requires
        !s.contains(' '),
        !s.contains(','),
    ensures
        part_len(s) == s.len(),
    decreases s.len(),
{
    if s.len() > 0 {
        assert(s.contains(s[0]));
        let rest = s.skip(1);
        assert forall|c: char| rest.contains(c) implies s.contains(c) by {
            assert(s[rest.index_of(c) + 1] == c);
        }
        lemma_part_len_of_one(rest);
    }
}

/// Where width and height both give a length, the size is those two, whatever their units are
/// and whatever the view box says.
pub proof fn law_lengths_go_before_view_box(
    width: Seq<char>,
    height: Seq<char>,
    view_box: Option<Seq<char>>,
)
    requires
        length_given(width) is Some,
        length_given(height) is Some,
    ensures
        dimensions_given(Some(width), Some(height), view_box) == Some(
            SvgDimensionsView::Lengths {
                width: length_given(width)->0,
                height: length_given(height)->0,
            },
        ),
{
}

/// Where width or height gives no length, the size is that of the view box: its third and
/// fourth parts, with the first two before them. A view box of fewer parts, or none, gives no
/// size.
pub proof fn law_view_box_stands_in(
    width: Option<Seq<char>>,
    height: Option<Seq<char>>,
    view_box: Option<Seq<char>>,
)
    requires
        width is None || length_given(width->0) is None || height is None || length_given(
            height->0,
        ) is None,
    ensures
        view_box is None || parts(view_box->0).len() < 4 ==> dimensions_given(
            width,
            height,
            view_box,
        ) is None,
        view_box is Some && parts(view_box->0).len() >= 4 ==> dimensions_given(
            width,
            height,
            view_box,
        ) == Some(
            SvgDimensionsView::ViewBox {
                min_x: parts(view_box->0)[0],
                min_y: parts(view_box->0)[1],
                box_width: parts(view_box->0)[2],
                box_height: parts(view_box->0)[3],
            },
        ),
{
}

/// The size of a file is that of the attributes which the three patterns find before its first
/// `>`.
pub proof fn law_file_size(head: Seq<char>, rest: Seq<char>)
    requires
        !head.contains('>'),
    ensures
        size_given(head.push('>') + rest) == dimensions_given(
            first_group(r#"(?i)\bwidth\s*=\s*["']([^"']+)["']"#@, head),
            first_group(r#"(?i)\bheight\s*=\s*["']([^"']+)["']"#@, head),
            first_group(r#"(?i)\bviewBox\s*=\s*["']([^"']+)["']"#@, head),
        ),
{
    law_size_comes_from_first_tag(head, rest, rest);
}

/// A length, and the size of a file, are what their fields hold.
pub proof fn law_svg_views(length: SvgLength, dimensions: SvgDimensions)
    ensures
        length.deep_view().number == length.number@,
        length.deep_view().unit == length.unit,
        dimensions matches SvgDimensions::Lengths { width, height } ==> dimensions.deep_view() == (
        SvgDimensionsView::Lengths { width: width.deep_view(), height: height.deep_view() }),
        dimensions matches SvgDimensions::ViewBox { min_x, min_y, box_width, box_height }
            ==> dimensions.deep_view() == (SvgDimensionsView::ViewBox {
            min_x: min_x@,
            min_y: min_y@,
            box_width: box_width@,
            box_height: box_height@,
        }),
{
}

} // verus!
