use inline_preview::svg::{
    attribute_value, default_svg_size, dimensions_from_attributes, height_re, is_same_number,
    parse_svg_length, split_parts, svg_dimensions, svg_tag, view_box_re, width_re, LengthUnit,
    SvgDimensions, SvgSize,
};
use regex::Regex;

fn length(value: &str) -> Option<(String, LengthUnit)> {
    parse_svg_length(value).map(|length| (length.number, length.unit))
}

fn pixels(value: &str) -> Option<f32> {
    let length = parse_svg_length(value)?;
    let (numerator, denominator) = length.unit.pixels();
    Some(length.number.parse::<f32>().unwrap() * (numerator as f32 / denominator as f32))
}

#[test]
fn lengths_have_a_number_and_a_unit() {
    assert_eq!(length("12"), Some(("12".to_string(), LengthUnit::Px)));
    assert_eq!(length(" 12.5 px "), Some(("12.5".to_string(), LengthUnit::Px)));
    assert_eq!(length("3pt"), Some(("3".to_string(), LengthUnit::Pt)));
    assert_eq!(length(".5in"), Some((".5".to_string(), LengthUnit::In)));
    assert_eq!(length("5.cm"), Some(("5.".to_string(), LengthUnit::Cm)));
    assert_eq!(length("7mm"), Some(("7".to_string(), LengthUnit::Mm)));
}

#[test]
fn what_is_no_length() {
    for value in ["", "px", ".", "1.2.3", "..", "-1", "+1", "1em", "1PX", "100%", "1e3", "1 2"] {
        assert_eq!(length(value), None, "{}", value);
    }
}

#[test]
fn numbers_are_those_that_std_reads() {
    for value in ["0", "00", "1.", ".1", "1.1", "", ".", "..", "1..", "1.1.1", "999999999999"] {
        let read = value.parse::<f32>().is_ok();
        assert_eq!(parse_svg_length(value).is_some(), read, "{}", value);
    }
}

#[test]
fn units_in_pixels() {
    assert_eq!(pixels("2"), Some(2.0));
    assert_eq!(pixels("3pt"), Some(3.0 * (4.0 / 3.0)));
    assert_eq!(pixels("2in"), Some(192.0));
    assert_eq!(pixels("1.7cm"), Some(1.7 * (96.0 / 2.54)));
    assert_eq!(pixels("1.7mm"), Some(1.7 * (96.0 / 25.4)));
    assert_eq!(pixels("10.125pt"), Some(10.125 * (4.0 / 3.0)));
}

#[test]
fn an_inch_in_all_units() {
    for inch in ["1in", "96px", "96", "72pt", "2.54cm", "25.4mm"] {
        assert!((pixels(inch).unwrap() - 96.0).abs() < 0.001, "{}", inch);
    }
}

#[test]
fn the_patterns_find_attributes() {
    let tag = "<svg version='1.1' WIDTH = \"12pt\" height='3' viewbox='0 0 1 2'";
    assert_eq!(attribute_value(tag, width_re()), Some("12pt".to_string()));
    assert_eq!(attribute_value(tag, height_re()), Some("3".to_string()));
    assert_eq!(attribute_value(tag, view_box_re()), Some("0 0 1 2".to_string()));
    assert_eq!(attribute_value("<svg", width_re()), None);
    assert_eq!(attribute_value("<svg width=''", width_re()), None);
    // An attribute whose name ends in the name that is looked for comes first here.
    let stroke = "<svg stroke-width='2' width='9'";
    assert_eq!(attribute_value(stroke, width_re()), Some("2".to_string()));
    assert_eq!(attribute_value("<svg linewidth='2' width='9'", width_re()), Some("9".to_string()));
}

#[test]
fn the_values_are_those_of_the_first_group() {
    let tags = ["<svg width=\"1\" height=\"2\"", "<svg\nwidth\t=\n'1pt'", "width=1", "öwidth='3'"];
    for tag in tags {
        for pattern in [width_re(), height_re(), view_box_re()] {
            let regex = Regex::new(pattern).unwrap();
            let expected = regex.captures(tag).map(|c| c.get(1).unwrap().as_str().to_string());
            assert_eq!(attribute_value(tag, pattern), expected);
        }
    }
}

#[test]
fn the_tag_ends_at_the_first_bracket() {
    assert_eq!(svg_tag("<svg a='1'><path/></svg>"), "<svg a='1'");
    assert_eq!(svg_tag("<svg"), "<svg");
    assert_eq!(svg_tag(""), "");
    assert_eq!(svg_tag("><"), "");
}

#[test]
fn parts_of_a_view_box() {
    assert_eq!(split_parts("0 0 10 20"), vec!["0", "0", "10", "20"]);
    assert_eq!(split_parts(" 0,0 ,, 10,20 "), vec!["0", "0", "10", "20"]);
    assert_eq!(split_parts("0\t0"), vec!["0\t0"]);
    assert!(split_parts(" , ").is_empty());
}

#[test]
fn two_lengths_go_before_the_view_box() {
    match svg_dimensions("<svg width='3pt' height='4' viewBox='0 0 9 9'><g/>") {
        Some(SvgDimensions::Lengths { width, height }) => {
            assert_eq!((width.number.as_str(), width.unit), ("3", LengthUnit::Pt));
            assert_eq!((height.number.as_str(), height.unit), ("4", LengthUnit::Px));
        }
        other => panic!("unexpected {:?}", other),
    }
}

#[test]
fn the_view_box_stands_in_for_missing_lengths() {
    let files = [
        "<svg viewBox='-1,2 30 40.5'>",
        "<svg width='3pt' viewBox='-1 2 30 40.5 7'>",
        "<svg width='100%' height='4' viewBox='-1 2, 30 40.5'>",
    ];
    for contents in files {
        match svg_dimensions(contents) {
            Some(SvgDimensions::ViewBox { min_x, min_y, box_width, box_height }) => {
                assert_eq!(min_x, "-1");
                assert_eq!(min_y, "2");
                assert_eq!(box_width, "30");
                assert_eq!(box_height, "40.5");
            }
            other => panic!("unexpected {:?}", other),
        }
    }
}

#[test]
fn files_without_a_size() {
    assert!(svg_dimensions("").is_none());
    assert!(svg_dimensions("<svg width='3'>").is_none());
    assert!(svg_dimensions("<svg viewBox='0 0 9'>").is_none());
    assert!(svg_dimensions("<?xml version='1.0'?><svg width='3' height='4'>").is_none());
    assert!(svg_dimensions("<svg><rect width='3' height='4'/>").is_none());
}

#[test]
fn sizes_from_attributes() {
    let some = |value: &str| Some(value.to_string());
    assert!(matches!(
        dimensions_from_attributes(some("1"), some("2"), None),
        Some(SvgDimensions::Lengths { .. })
    ));
    assert!(dimensions_from_attributes(some("1"), None, None).is_none());
    assert!(dimensions_from_attributes(some("1"), some("x"), some("1 2 3")).is_none());
    assert!(matches!(
        dimensions_from_attributes(None, None, some("1 2 3 4")),
        Some(SvgDimensions::ViewBox { .. })
    ));
}

#[test]
fn the_default_size_is_sixteen_pixels() {
    let size = default_svg_size();
    assert_eq!(f32::from_bits(size.width), 16.0);
    assert_eq!(f32::from_bits(size.height), 16.0);
}

#[test]
fn numbers_are_compared_as_numbers() {
    let numbers = [
        0.0,
        -0.0,
        1.0,
        -1.0,
        f32::MIN_POSITIVE,
        1e-45,
        f32::MAX,
        f32::INFINITY,
        f32::NEG_INFINITY,
        f32::NAN,
        -f32::NAN,
    ];
    for a in numbers {
        for b in numbers {
            assert_eq!(is_same_number(a.to_bits(), b.to_bits()), a == b, "{} {}", a, b);
        }
    }
    let size = SvgSize { width: 0, height: 0x8000_0000 };
    assert!(size.is_same(&SvgSize { width: 0x8000_0000, height: 0 }));
}
