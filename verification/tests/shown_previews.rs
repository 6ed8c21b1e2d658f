use inline_preview::backend::{MathPreviewBackend, MathPreviewKind};
use inline_preview::batch::RenderedSvg;
use inline_preview::entry::MathPreviewEntry;
use inline_preview::hash::ByteOrder;
use inline_preview::previews::{
    MathPreviews, Placement, Rebuild, RefreshPlan, RefreshStart,
};
use inline_preview::ranges::OffsetRange;
use inline_preview::settings::MathPreviewSettings;
use inline_preview::svg::SvgSize;
use std::collections::{HashMap, HashSet};

const BOTH: MathPreviewSettings =
    MathPreviewSettings { inline_enabled: true, popover_enabled: true };
const NONE: MathPreviewSettings =
    MathPreviewSettings { inline_enabled: false, popover_enabled: false };

fn range(start: usize, end: usize) -> OffsetRange {
    OffsetRange { start, end }
}

fn entry(start: usize, end: usize, kind: MathPreviewKind) -> MathPreviewEntry {
    MathPreviewEntry {
        range: range(start, end),
        kind,
        backend: MathPreviewBackend::Latex,
        svg_path: format!("{}.svg", start),
        size: SvgSize { width: 1, height: 2 },
        inline_enabled: true,
        popover_enabled: true,
    }
}

fn inline(start: usize, end: usize) -> MathPreviewEntry {
    entry(start, end, MathPreviewKind::Inline)
}

fn block(start: usize, end: usize) -> MathPreviewEntry {
    entry(start, end, MathPreviewKind::Block)
}

fn showing(entries: Vec<MathPreviewEntry>) -> MathPreviews {
    let mut previews = MathPreviews::new(ByteOrder::Little);
    assert!(previews.set_math_previews(entries).is_some());
    previews
}

const SIZE: SvgSize = SvgSize { width: 7, height: 8 };

fn removed(rebuild: Option<Rebuild>) -> Vec<OffsetRange> {
    let rebuild = rebuild.unwrap();
    assert!(rebuild.include_blocks);
    rebuild.ranges_to_remove
}

fn expect_start(plan: RefreshPlan) -> RefreshStart {
    match plan {
        RefreshPlan::Start(start) => start,
        other => panic!("unexpected {:?}", other),
    }
}

#[test]
fn a_refresh_starts_a_generation() {
    let mut previews = MathPreviews::new(ByteOrder::Little);
    let start = expect_start(previews.refresh_math_previews(true, true, true, BOTH, vec![], 9));
    assert_eq!(start.generation, 1);
    assert_eq!(start.debounce_ms, Some(150));
    assert_eq!(start.settings.get(&None), BOTH);
    let start = expect_start(previews.refresh_math_previews(true, true, false, BOTH, vec![], 9));
    assert_eq!(start.generation, 2);
    assert_eq!(start.debounce_ms, None);
}

#[test]
fn a_refresh_takes_the_pictures_along() {
    let mut previews = MathPreviews::new(ByteOrder::Little);
    let start = expect_start(previews.refresh_math_previews(true, true, true, BOTH, vec![], 9));
    let mut cache = start.cache;
    cache.insert(
        7,
        RenderedSvg { path: "7.svg".to_string(), size: SvgSize { width: 1, height: 2 } },
    );
    previews.cancel_refresh(cache);
    let start = expect_start(previews.refresh_math_previews(true, true, true, BOTH, vec![], 9));
    assert_eq!(start.cache[&7].path, "7.svg");
    let start = expect_start(previews.refresh_math_previews(true, true, true, BOTH, vec![], 9));
    assert!(start.cache.is_empty());
}

#[test]
fn an_editor_that_is_not_full_shows_nothing() {
    let mut previews = showing(vec![inline(2, 5), inline(8, 12)]);
    previews.finish_rebuild(true, vec![4, 5], 3, 10, 1, SIZE);
    assert!(previews.math_preview_popover().is_some());
    match previews.refresh_math_previews(false, true, true, BOTH, vec![], 10) {
        RefreshPlan::Clear(plan) => {
            assert_eq!(plan.blocks, HashSet::from([4, 5]));
            assert_eq!(plan.folds, vec![range(2, 5), range(8, 10)]);
        }
        other => panic!("unexpected {:?}", other),
    }
    assert!(previews.rendered().is_empty());
    assert!(previews.math_preview_popover().is_none());
}

#[test]
fn nothing_happens_until_the_lines_are_known() {
    let mut previews = showing(vec![inline(2, 5)]);
    let plan = previews.refresh_math_previews(true, false, true, NONE, vec![], 10);
    assert!(matches!(plan, RefreshPlan::Ignore));
    assert_eq!(previews.rendered().len(), 1);
}

#[test]
fn nothing_is_shown_where_nothing_is_wanted() {
    let mut previews = showing(vec![inline(2, 5)]);
    let plan = previews.refresh_math_previews(true, true, true, NONE, vec![], 10);
    assert!(matches!(plan, RefreshPlan::Clear(_)));
    assert!(previews.rendered().is_empty());
    let wanted = vec![(Some("LaTeX".to_string()), BOTH)];
    let start = expect_start(previews.refresh_math_previews(true, true, true, NONE, wanted, 10));
    assert_eq!(start.generation, 2);
}

#[test]
fn an_outdated_rendering_is_not_shown() {
    let mut previews = MathPreviews::new(ByteOrder::Little);
    let first = expect_start(previews.refresh_math_previews(true, true, true, BOTH, vec![], 9));
    let second = expect_start(previews.refresh_math_previews(true, true, true, BOTH, vec![], 9));
    let none = previews.finish_refresh(first.generation, vec![inline(2, 5)], HashMap::new());
    assert!(none.is_none());
    assert!(previews.rendered().is_empty());
    let some = previews.finish_refresh(second.generation, vec![inline(2, 5)], HashMap::new());
    assert!(removed(some).is_empty());
    assert_eq!(previews.rendered().len(), 1);
}

#[test]
fn the_same_previews_are_kept() {
    let mut previews = showing(vec![inline(8, 9), inline(2, 5)]);
    assert!(previews.set_math_previews(vec![inline(2, 5), inline(8, 9)]).is_none());
    let replaced = previews.set_math_previews(vec![inline(2, 6)]);
    assert_eq!(removed(replaced), vec![range(2, 5), range(8, 9)]);
    let mut other = inline(2, 6);
    other.svg_path = "other.svg".to_string();
    assert!(previews.set_math_previews(vec![other]).is_some());
}

#[test]
fn sizes_that_are_no_numbers_are_never_the_same() {
    let nan = SvgSize { width: f32::NAN.to_bits(), height: 0 };
    let strange = || MathPreviewEntry { size: nan, ..inline(2, 5) };
    let mut previews = showing(vec![strange()]);
    assert!(previews.set_math_previews(vec![strange()]).is_some());
}

#[test]
fn the_display_is_built_from_the_previews() {
    let mut hidden = inline(20, 22);
    hidden.inline_enabled = false;
    let previews =
        showing(vec![inline(2, 5), block(6, 9), inline(10, 12), hidden, block(28, 35), inline(40, 45)]);
    let plan = previews.rebuild_math_previews(
        &vec![range(1, 3), range(29, 99), range(50, 60)],
        &vec![range(11, 11), range(7, 8)],
        11,
        30,
        true,
    );
    assert_eq!(plan.popover, Some(2));
    assert_eq!(plan.creases, vec![Placement { entry: 0, range: range(2, 5) }]);
    assert_eq!(
        plan.blocks,
        vec![
            Placement { entry: 1, range: range(6, 9) },
            Placement { entry: 4, range: range(28, 30) },
        ]
    );
    assert_eq!(plan.folds, vec![range(1, 3), range(29, 30)]);

    let plan = previews.rebuild_math_previews(&vec![], &vec![], 42, 30, false);
    assert_eq!(plan.popover, None);
    assert_eq!(plan.creases.len(), 2);
    assert!(plan.blocks.is_empty());
}

#[test]
fn the_first_formula_under_the_cursor_has_the_popover() {
    let mut silent = inline(2, 9);
    silent.popover_enabled = false;
    let previews = showing(vec![silent, block(3, 9), inline(4, 9), inline(5, 9)]);
    assert_eq!(previews.popover_entry(5), Some(2));
    assert_eq!(previews.popover_entry(3), None);
    assert_eq!(previews.popover_entry(9), None);
}

#[test]
fn blocks_are_exchanged_on_a_rebuild() {
    let mut previews = MathPreviews::new(ByteOrder::Little);
    previews.finish_rebuild(true, vec![1, 2], 0, 9, 0, SIZE);
    assert!(previews.begin_rebuild(false).is_empty());
    previews.finish_rebuild(false, vec![9], 0, 9, 0, SIZE);
    assert_eq!(previews.begin_rebuild(true), HashSet::from([1, 2]));
    assert!(previews.begin_rebuild(true).is_empty());
    previews.finish_rebuild(true, vec![7, 7], 0, 9, 0, SIZE);
    assert_eq!(previews.begin_rebuild(true), HashSet::from([7]));
}

#[test]
fn a_rebuild_shows_the_formula_under_the_cursor() {
    let mut previews = showing(vec![inline(2, 5), inline(8, 12)]);
    previews.finish_rebuild(true, vec![], 9, 20, 3, SIZE);
    let popover = previews.math_preview_popover().unwrap();
    assert_eq!((popover.anchor, popover.svg_path.as_str(), popover.size), (3, "8.svg", SIZE));
    previews.finish_rebuild(true, vec![], 9, 9, 3, SIZE);
    assert!(previews.math_preview_popover().is_none());
    previews.finish_rebuild(true, vec![], 6, 20, 3, SIZE);
    assert!(previews.math_preview_popover().is_none());
}

#[test]
fn a_selection_shows_the_formula_under_the_cursor() {
    let mut previews = showing(vec![inline(2, 5), inline(8, 12)]);
    assert!(previews.update_math_preview_selection(4, 3, SIZE, &vec![], 20).notify);
    let popover = previews.math_preview_popover().unwrap();
    assert_eq!((popover.anchor, popover.svg_path.as_str(), popover.size), (3, "2.svg", SIZE));
    assert!(!previews.update_math_preview_selection(4, 3, SIZE, &vec![], 20).notify);
    // Another formula, another place, another size, and no formula.
    assert!(previews.update_math_preview_selection(8, 3, SIZE, &vec![], 20).notify);
    assert!(previews.update_math_preview_selection(8, 4, SIZE, &vec![], 20).notify);
    let larger = SvgSize { width: 9, height: 9 };
    assert!(previews.update_math_preview_selection(8, 4, larger, &vec![], 20).notify);
    assert!(previews.update_math_preview_selection(7, 4, larger, &vec![], 20).notify);
    assert!(previews.math_preview_popover().is_none());
}

#[test]
fn a_selection_opens_what_it_touches() {
    let mut previews = showing(vec![inline(2, 5), inline(8, 12), block(20, 30)]);
    previews.finish_rebuild(true, vec![1, 2], 0, 40, 0, SIZE);
    let update = previews.update_math_preview_selection(0, 0, SIZE, &vec![range(3, 9)], 10);
    assert!(!update.notify);
    assert_eq!(update.folds, vec![range(2, 5), range(8, 10)]);
    assert!(update.blocks.is_empty());
    let update = previews.update_math_preview_selection(0, 0, SIZE, &vec![range(25, 25)], 40);
    assert_eq!(update.folds, vec![range(20, 30)]);
    assert_eq!(update.blocks, HashSet::from([1, 2]));
    assert!(previews.begin_rebuild(true).is_empty());
}

#[test]
fn a_selection_is_acted_on_once() {
    let mut previews = showing(vec![inline(2, 5)]);
    let selections = vec![range(3, 3)];
    let update = previews.update_math_preview_selection(3, 1, SIZE, &selections, 10);
    assert!(update.notify);
    assert_eq!(update.folds, vec![range(2, 5)]);
    let update = previews.update_math_preview_selection(3, 1, SIZE, &selections, 10);
    assert!(!update.notify);
    assert!(update.folds.is_empty());
    let update = previews.update_math_preview_selection(3, 2, SIZE, &selections, 10);
    assert!(update.notify);
    assert!(update.folds.is_empty());
    // What is shown anew is looked at anew.
    assert_eq!(removed(previews.set_math_previews(vec![inline(2, 6)])), vec![range(2, 5)]);
    let update = previews.update_math_preview_selection(3, 2, SIZE, &selections, 10);
    assert_eq!(update.folds, vec![range(2, 6)]);
}

#[test]
fn without_previews_there_is_no_popover() {
    let mut previews = MathPreviews::new(ByteOrder::Big);
    let update = previews.update_math_preview_selection(1, 1, SIZE, &vec![range(1, 2)], 10);
    assert!(!update.notify && update.folds.is_empty() && update.blocks.is_empty());
    assert!(previews.math_preview_popover().is_none());
}
