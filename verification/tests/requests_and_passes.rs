use inline_preview::backend::{to_render_backend, Backend, MathPreviewBackend, MathPreviewKind};
use inline_preview::batch::{picture_made, PreviewPass, RenderCache, RenderedSvg};
use inline_preview::command::CommandOutput;
use inline_preview::entry::{order_by_start, MathPreviewEntry};
use inline_preview::ranges::OffsetRange;
use inline_preview::request::{
    collect_requests, render_key, wrap_math_fragment, MathFragment, RenderRequest,
};
use inline_preview::settings::{MathPreviewSettings, SettingsTable};
use inline_preview::svg::SvgSize;
use std::collections::hash_map::DefaultHasher;
use std::collections::HashMap;
use std::hash::{Hash, Hasher};

const BOTH: MathPreviewSettings =
    MathPreviewSettings { inline_enabled: true, popover_enabled: true };
const NONE: MathPreviewSettings =
    MathPreviewSettings { inline_enabled: false, popover_enabled: false };
const POPOVER: MathPreviewSettings =
    MathPreviewSettings { inline_enabled: false, popover_enabled: true };

fn range(start: usize, end: usize) -> OffsetRange {
    OffsetRange { start, end }
}

fn fragment(text: &str, start: usize, end: usize) -> MathFragment {
    MathFragment {
        range: range(start, end),
        kind: MathPreviewKind::Inline,
        backend: MathPreviewBackend::Latex,
        language: None,
        content: text[start..end].to_string(),
        context: text.to_string(),
    }
}

fn request(start: usize, backend: MathPreviewBackend, content: &str) -> RenderRequest {
    RenderRequest {
        range: range(start, start + 5),
        kind: MathPreviewKind::Inline,
        backend,
        content: content.to_string(),
        inline_enabled: true,
        popover_enabled: false,
    }
}

fn picture(path: &str) -> RenderedSvg {
    RenderedSvg { path: path.to_string(), size: SvgSize { width: 1, height: 2 } }
}

#[test]
fn formulas_are_wrapped_for_their_renderer() {
    let latex = MathPreviewBackend::Latex;
    let typst = MathPreviewBackend::Typst;
    let inline = MathPreviewKind::Inline;
    let block = MathPreviewKind::Block;
    assert_eq!(wrap_math_fragment(inline, latex, "x"), "$x$");
    assert_eq!(wrap_math_fragment(inline, typst, "x"), "$x$");
    assert_eq!(wrap_math_fragment(block, latex, "x"), "\\[\nx\n\\]");
    assert_eq!(wrap_math_fragment(block, typst, "x"), "$\nx\n$");
    assert_eq!(to_render_backend(latex), Backend::LaTeX);
    assert_eq!(to_render_backend(typst), Backend::Typst);
}

#[test]
fn the_key_is_the_std_hash_of_kind_language_and_source() {
    for (kind, kind_byte) in [(MathPreviewKind::Inline, 0u8), (MathPreviewKind::Block, 1u8)] {
        for (backend, backend_byte) in
            [(MathPreviewBackend::Latex, 0u8), (MathPreviewBackend::Typst, 1u8)]
        {
            let mut hasher = DefaultHasher::new();
            kind_byte.hash(&mut hasher);
            backend_byte.hash(&mut hasher);
            "$x$".hash(&mut hasher);
            let mut formula = request(3, backend, "$x$");
            formula.kind = kind;
            assert_eq!(render_key(&formula), hasher.finish());
        }
    }
    let a = request(3, MathPreviewBackend::Latex, "$x$");
    let mut b = request(99, MathPreviewBackend::Latex, "$x$");
    b.inline_enabled = false;
    assert_eq!(render_key(&a), render_key(&b));
}

#[test]
fn settings_go_by_language() {
    let latex = Some("LaTeX".to_string());
    let table = SettingsTable::new(
        NONE,
        vec![(latex.clone(), BOTH), (Some("C".to_string()), BOTH), (latex.clone(), POPOVER)],
    );
    assert_eq!(table.get(&latex), POPOVER);
    assert_eq!(table.get(&Some("C".to_string())), BOTH);
    assert_eq!(table.get(&Some("Rust".to_string())), NONE);
    assert_eq!(table.get(&None), NONE);
    assert!(table.any_enabled());
    assert!(!SettingsTable::new(NONE, vec![(latex.clone(), BOTH), (latex, NONE)]).any_enabled());
    assert!(SettingsTable::new(POPOVER, vec![]).any_enabled());
}

#[test]
fn settings_of_text_without_a_language() {
    let table = SettingsTable::new(BOTH, vec![(None, NONE)]);
    assert_eq!(table.get(&None), NONE);
    assert_eq!(table.get(&Some("Rust".to_string())), BOTH);
    assert!(!table.any_enabled());
}

#[test]
fn formulas_with_delimiters_are_requested() {
    let text = "a $x$ b $y$ c";
    let table = SettingsTable::new(POPOVER, vec![]);
    let fragments = vec![fragment(text, 3, 4), fragment(text, 9, 10)];
    let requests = collect_requests(&fragments, text.len(), &range(0, text.len()), &table);
    assert_eq!(requests.len(), 2);
    assert_eq!(requests[0].range, range(2, 5));
    assert_eq!(requests[0].content, "$x$");
    assert!(!requests[0].inline_enabled && requests[0].popover_enabled);
    assert_eq!(requests[1].range, range(8, 11));
}

#[test]
fn formulas_that_are_left_out() {
    let text = "a $x$ b y c $ $";
    let len = text.len();
    let all = range(0, len);
    let table = SettingsTable::new(BOTH, vec![(Some("C".to_string()), NONE)]);
    // Without delimiters.
    assert!(collect_requests(&vec![fragment(text, 8, 9)], len, &all, &table).is_empty());
    // Not visible.
    assert!(collect_requests(&vec![fragment(text, 3, 4)], len, &range(5, 9), &table).is_empty());
    // Blank.
    assert!(collect_requests(&vec![fragment(text, 13, 14)], len, &all, &table).is_empty());
    // Not wanted.
    let mut unwanted = fragment(text, 3, 4);
    unwanted.language = Some("C".to_string());
    assert!(collect_requests(&vec![unwanted], len, &all, &table).is_empty());
}

#[test]
fn a_picture_needs_success_and_a_file() {
    let ended = |code: Option<i32>| CommandOutput { code, stdout: vec![], stderr: vec![] };
    let size = SvgSize { width: 7, height: 8 };
    let made = |code: Option<i32>, is_file: bool, size: Option<SvgSize>| {
        picture_made("a.svg".to_string(), &ended(code), is_file, size)
    };
    let picture = made(Some(0), true, Some(size)).unwrap();
    assert_eq!((picture.path.as_str(), picture.size), ("a.svg", size));
    let sixteen = 16.0f32.to_bits();
    let picture = made(Some(0), true, None).unwrap();
    assert_eq!(picture.size, SvgSize { width: sixteen, height: sixteen });
    assert!(made(Some(0), false, Some(size)).is_none());
    assert!(made(Some(1), true, Some(size)).is_none());
    assert!(made(None, true, Some(size)).is_none());
}

#[test]
fn a_pass_renders_what_is_not_remembered() {
    let latex = MathPreviewBackend::Latex;
    let typst = MathPreviewBackend::Typst;
    let requests = vec![
        request(30, latex, "a"),
        request(20, typst, "b"),
        request(10, latex, "c"),
        request(0, latex, "d"),
    ];
    let mut cache: RenderCache = HashMap::new();
    cache.insert(render_key(&requests[2]), picture("c.svg"));
    let mut pass = PreviewPass::new(requests, cache);
    assert_eq!(pass.start_backend(Backend::LaTeX), vec!["a", "d"]);
    assert!(pass.record(Some(picture("a.svg"))));
    assert!(pass.record(None));
    assert!(!pass.record(Some(picture("late.svg"))));
    assert_eq!(pass.start_backend(Backend::Typst), vec!["b"]);
    assert!(pass.record(Some(picture("b.svg"))));
    let (entries, cache) = pass.finish();
    let shown: Vec<(usize, &str)> =
        entries.iter().map(|entry| (entry.range.start, entry.svg_path.as_str())).collect();
    assert_eq!(shown, vec![(10, "c.svg"), (20, "b.svg"), (30, "a.svg")]);
    assert_eq!(cache.len(), 3);

    let again = vec![request(0, latex, "a"), request(5, typst, "b"), request(9, latex, "c")];
    let mut pass = PreviewPass::new(again, cache);
    assert!(pass.start_backend(Backend::LaTeX).is_empty());
    assert!(pass.start_backend(Backend::Typst).is_empty());
    let (entries, _) = pass.finish();
    assert_eq!(entries.len(), 3);
    assert_eq!(entries[0].svg_path, "a.svg");
    assert_eq!(entries[0].size, SvgSize { width: 1, height: 2 });
    assert!(entries[0].inline_enabled && !entries[0].popover_enabled);
}

#[test]
fn a_pass_keeps_what_is_remembered() {
    let latex = MathPreviewBackend::Latex;
    let typst = MathPreviewBackend::Typst;
    let requests = vec![
        request(0, latex, "a"),
        request(5, latex, "b"),
        request(9, latex, "b"),
        request(15, typst, "a"),
    ];
    let keys: Vec<u64> = requests.iter().map(render_key).collect();
    let mut cache: RenderCache = HashMap::new();
    cache.insert(keys[0], picture("old.svg"));
    let mut pass = PreviewPass::new(requests, cache);
    pass.start_backend(Backend::LaTeX);
    assert!(pass.record(Some(picture("first.svg"))));
    assert!(pass.record(Some(picture("second.svg"))));
    pass.start_backend(Backend::Typst);
    assert!(pass.record(None));
    let (entries, cache) = pass.finish();
    let shown: Vec<&str> = entries.iter().map(|entry| entry.svg_path.as_str()).collect();
    assert_eq!(shown, vec!["old.svg", "first.svg", "second.svg"]);
    assert_eq!(cache[&keys[0]].path, "old.svg");
    assert_eq!(cache[&keys[1]].path, "second.svg");
    assert!(!cache.contains_key(&keys[3]));
}

#[test]
fn the_same_formula_is_rendered_twice_in_one_batch() {
    let latex = MathPreviewBackend::Latex;
    let requests = vec![request(0, latex, "a"), request(9, latex, "a")];
    let mut pass = PreviewPass::new(requests, HashMap::new());
    assert_eq!(pass.start_backend(Backend::LaTeX), vec!["a", "a"]);
}

fn entry(start: usize, path: &str) -> MathPreviewEntry {
    MathPreviewEntry {
        range: range(start, start + 5),
        kind: MathPreviewKind::Inline,
        backend: MathPreviewBackend::Latex,
        svg_path: path.to_string(),
        size: SvgSize { width: 1, height: 2 },
        inline_enabled: true,
        popover_enabled: true,
    }
}

#[test]
fn entries_are_ordered_and_ties_are_kept() {
    let entries = vec![entry(3, "a"), entry(1, "b"), entry(3, "c"), entry(2, "d"), entry(1, "e")];
    let ordered = order_by_start(entries);
    let paths: Vec<&str> = ordered.iter().map(|entry| entry.svg_path.as_str()).collect();
    assert_eq!(paths, vec!["b", "e", "d", "a", "c"]);
    assert!(order_by_start(vec![]).is_empty());
}
