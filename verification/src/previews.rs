//! What an editor shows of the formulas of its text, and how that changes.

use crate::backend::MathPreviewKind;
use crate::batch::RenderCache;
use crate::entry::{is_all_same, order_by_start, MathPreviewEntry};
use crate::hash::{feed_offset, ByteOrder};
use crate::ranges::{any_overlap, clip_range_to_len, clip_ranges_to_len, OffsetRange};
use crate::settings::{MathPreviewSettings, SettingsTable};
use crate::svg::SvgSize;
use std::collections::hash_map::DefaultHasher;
use std::collections::{HashMap, HashSet};
use std::hash::Hasher;
use vstd::prelude::*;

verus! {

/// How long changes are waited for before formulas are rendered again, in milliseconds.
pub const MATH_PREVIEW_DEBOUNCE_MS: u64 = 150;

/// A picture in a popover: the place it hangs on, its file, and the size in which it is
/// shown. Places are numbered so that the same place has the same number.
#[derive(Debug)]
pub struct MathPreviewPopover {
    pub anchor: u64,
    pub svg_path: String,
    pub size: SvgSize,
}

impl Clone for MathPreviewPopover {
    fn clone(&self) -> (r: Self)
        ensures
            r == *self,
    {
        MathPreviewPopover {
            anchor: self.anchor,
            svg_path: self.svg_path.clone(),
            size: self.size,
        }
    }
}

/// Both are shown alike.
pub open spec fn same_popover(
    a: Option<MathPreviewPopover>,
    b: Option<MathPreviewPopover>,
) -> bool {
    match (a, b) {
        (Some(a), Some(b)) => a.anchor == b.anchor && a.svg_path@ == b.svg_path@ && a.size.same(
            b.size,
        ),
        (None, None) => true,
        _ => false,
    }
}

/// Whether both are shown alike.
fn is_same_popover(a: &Option<MathPreviewPopover>, b: &Option<MathPreviewPopover>) -> (r: bool)
    ensures
        r == same_popover(*a, *b),
{
    match (a, b) {
        (Some(a), Some(b)) => a.anchor == b.anchor && a.svg_path == b.svg_path && a.size.is_same(
            &b.size,
        ),
        (None, None) => true,
        _ => false,
    }
}

/// What the selections feed to a hasher: the start and the end of each.
pub open spec fn selections_feed(selections: Seq<OffsetRange>, order: ByteOrder) -> Seq<Seq<u8>>
    decreases selections.len(),
{
    if selections.len() == 0 {
        seq![]
    } else {
        selections_feed(selections.drop_last(), order).push(
            crate::hash::offset_bytes(selections.last().start, order),
        ).push(crate::hash::offset_bytes(selections.last().end, order))
    }
}

/// A number by which selections are told apart.
pub open spec fn fingerprint(selections: Seq<OffsetRange>, order: ByteOrder) -> u64 {
    crate::hash::digest(selections_feed(selections, order))
}

/// A number by which selections are told apart, on a machine with the byte order `order`.
pub fn selection_fingerprint(selections: &Vec<OffsetRange>, order: ByteOrder) -> (r: u64)
    ensures
        r == fingerprint(selections@, order),
{
    let mut hasher = DefaultHasher::new();
    assert(hasher@ =~= selections_feed(selections@.take(0), order));
    for i in 0..selections.len()
        invariant
            hasher@ == selections_feed(selections@.take(i as int), order),
    {
        feed_offset(selections[i].start, order, &mut hasher);
        feed_offset(selections[i].end, order, &mut hasher);
        assert(selections@.take(i + 1).drop_last() =~= selections@.take(i as int));
    }
    assert(selections@.take(selections@.len() as int) =~= selections@);
    hasher.finish()
}

/// What is shown of the formulas of a text.
#[derive(Debug)]
pub struct MathPreviews {
    generation: usize,
    rendered: Vec<MathPreviewEntry>,
    block_ids: HashSet<u64>,
    popover: Option<MathPreviewPopover>,
    render_cache: RenderCache,
    last_selection_fingerprint: u64,
    byte_order: ByteOrder,
}

/// What a `MathPreviews` holds.
pub struct MathPreviewsView {
    /// How often rendering was started, up to where counting begins anew.
    pub generation: usize,
    /// The formulas with their pictures.
    pub rendered: Seq<MathPreviewEntry>,
    /// The numbers of the blocks in the display.
    pub block_ids: Set<u64>,
    /// The popover.
    pub popover: Option<MathPreviewPopover>,
    /// The pictures that are remembered.
    pub render_cache: Map<u64, crate::batch::RenderedSvg>,
    /// The fingerprint of the selections that were last acted on.
    pub last_selection_fingerprint: u64,
    /// The byte order of the machine.
    pub byte_order: ByteOrder,
}

impl View for MathPreviews {
    type V = MathPreviewsView;

    closed spec fn view(&self) -> MathPreviewsView {
        MathPreviewsView {
            generation: self.generation,
            rendered: self.rendered@,
            block_ids: self.block_ids@,
            popover: self.popover,
            render_cache: self.render_cache@,
            last_selection_fingerprint: self.last_selection_fingerprint,
            byte_order: self.byte_order,
        }
    }
}

/// What to take out of the display: blocks by their numbers, folds by their ranges.
#[derive(Debug)]
pub struct ClearPlan {
    pub blocks: HashSet<u64>,
    pub folds: Vec<OffsetRange>,
}

/// A rendering to start: its generation, how long to wait first, the settings, and the
/// pictures that are remembered.
#[derive(Debug)]
pub struct RefreshStart {
    pub generation: usize,
    pub debounce_ms: Option<u64>,
    pub settings: SettingsTable,
    pub cache: RenderCache,
}

/// What to do when the text may have changed.
#[derive(Debug)]
pub enum RefreshPlan {
    /// Show nothing any more.
    Clear(ClearPlan),
    /// Do nothing.
    Ignore,
    /// Render the formulas.
    Start(RefreshStart),
}

/// The display is to be built anew: the ranges whose folds go first, and whether blocks are
/// exchanged too.
#[derive(Debug)]
pub struct Rebuild {
    pub ranges_to_remove: Vec<OffsetRange>,
    pub include_blocks: bool,
}

/// What to do when the selections changed.
#[derive(Debug)]
pub struct SelectionUpdate {
    /// The popover is another one.
    pub notify: bool,
    /// The folds to open.
    pub folds: Vec<OffsetRange>,
    /// The blocks to take out.
    pub blocks: HashSet<u64>,
}

/// A place for a picture: the position of its entry, and the range that it stands for.
#[derive(Debug, Clone, Copy, PartialEq, Eq, Structural)]
pub struct Placement {
    pub entry: usize,
    pub range: OffsetRange,
}

/// What to put into the display.
#[derive(Debug)]
pub struct RebuildPlan {
    /// The entry whose picture is in the popover.
    pub popover: Option<usize>,
    /// The pictures within a line.
    pub creases: Vec<Placement>,
    /// The pictures on lines of their own.
    pub blocks: Vec<Placement>,
    /// The folds to open first.
    pub folds: Vec<OffsetRange>,
}

/// The generation after `generation`.
pub open spec fn next_generation(generation: usize) -> usize {
    if generation == usize::MAX {
        0
    } else {
        (generation + 1) as usize
    }
}

/// The ranges of `entries`.
pub open spec fn ranges_of(entries: Seq<MathPreviewEntry>) -> Seq<OffsetRange> {
    entries.map_values(|entry: MathPreviewEntry| entry.range)
}

/// The ranges of the entries that one of `selections` touches.
pub open spec fn touched_ranges(
    entries: Seq<MathPreviewEntry>,
    selections: Seq<OffsetRange>,
) -> Seq<OffsetRange>
    decreases entries.len(),
{
    if entries.len() == 0 {
        seq![]
    } else {
        let before = touched_ranges(entries.drop_last(), selections);
        if crate::ranges::touched(entries.last().range, selections) {
            before.push(entries.last().range)
        } else {
            before
        }
    }
}

/// One of `selections` touches a formula on lines of its own.
pub open spec fn block_touched(
    entries: Seq<MathPreviewEntry>,
    selections: Seq<OffsetRange>,
) -> bool {
    exists|i: int|
        0 <= i < entries.len() && (#[trigger] entries[i]).kind == MathPreviewKind::Block
            && crate::ranges::touched(entries[i].range, selections)
}

/// The cursor at `head` brings up a popover for `entry`.
pub open spec fn hovered(entry: MathPreviewEntry, head: usize) -> bool {
    entry.popover_enabled && entry.kind == MathPreviewKind::Inline && entry.range.holds(head as int)
}

/// The position of the first entry for which the cursor at `head` brings up a popover.
pub open spec fn first_hovered(entries: Seq<MathPreviewEntry>, head: usize) -> Option<usize>
    decreases entries.len(),
{
    if entries.len() == 0 {
        None
    } else {
        match first_hovered(entries.drop_last(), head) {
            Some(at) => Some(at),
            None => if hovered(entries.last(), head) {
                Some((entries.len() - 1) as usize)
            } else {
                None
            },
        }
    }
}

/// The same in a text of `len` bytes: a cursor behind its end brings up none.
pub open spec fn first_hovered_within(
    entries: Seq<MathPreviewEntry>,
    head: usize,
    len: usize,
) -> Option<usize> {
    if head < len {
        first_hovered(entries, head)
    } else {
        None
    }
}

/// The popover for the entry at `at`, which hangs on `anchor` and is shown in the size `size`.
pub open spec fn popover_for(
    entries: Seq<MathPreviewEntry>,
    at: Option<usize>,
    anchor: u64,
    size: SvgSize,
) -> Option<MathPreviewPopover> {
    match at {
        Some(at) => Some(
            MathPreviewPopover { anchor, svg_path: entries[at as int].svg_path, size },
        ),
        None => None,
    }
}

/// The place of a picture within a line, for the entry at `at`: wanted there, and no
/// selection touches the formula.
pub open spec fn crease_for(
    entry: MathPreviewEntry,
    at: int,
    selections: Seq<OffsetRange>,
    len: usize,
) -> Option<Placement> {
    match crate::ranges::clipped(entry.range, len) {
        Some(range) if entry.kind == MathPreviewKind::Inline && entry.inline_enabled
            && !crate::ranges::touched(range, selections) => Some(
            Placement { entry: at as usize, range },
        ),
        _ => None,
    }
}

/// The place of a picture on lines of its own, for the entry at `at`. Selections do not
/// matter to it.
pub open spec fn block_for(
    entry: MathPreviewEntry,
    at: int,
    include_blocks: bool,
    len: usize,
) -> Option<Placement> {
    match crate::ranges::clipped(entry.range, len) {
        Some(range) if entry.kind == MathPreviewKind::Block && entry.inline_enabled
            && include_blocks => Some(Placement { entry: at as usize, range }),
        _ => None,
    }
}

/// The places of the pictures within a line, in the order of the entries.
pub open spec fn creases_for(
    entries: Seq<MathPreviewEntry>,
    selections: Seq<OffsetRange>,
    len: usize,
) -> Seq<Placement>
    decreases entries.len(),
{
    if entries.len() == 0 {
        seq![]
    } else {
        let before = creases_for(entries.drop_last(), selections, len);
        match crease_for(entries.last(), entries.len() - 1, selections, len) {
            Some(place) => before.push(place),
            None => before,
        }
    }
}

/// The places of the pictures on lines of their own, in the order of the entries.
pub open spec fn blocks_for(
    entries: Seq<MathPreviewEntry>,
    include_blocks: bool,
    len: usize,
) -> Seq<Placement>
    decreases entries.len(),
{
    if entries.len() == 0 {
        seq![]
    } else {
        let before = blocks_for(entries.drop_last(), include_blocks, len);
        match block_for(entries.last(), entries.len() - 1, include_blocks, len) {
            Some(place) => before.push(place),
            None => before,
        }
    }
}

impl MathPreviewsView {
    /// The formulas stand in the order of the text.
    pub open spec fn wf(self) -> bool {
        crate::entry::in_order(self.rendered)
    }

    /// Nothing is shown any more.
    pub open spec fn cleared(self) -> MathPreviewsView {
        MathPreviewsView { rendered: seq![], block_ids: Set::empty(), popover: None, ..self }
    }

    /// The selections are to be acted on: something is shown, and they are not those that
    /// were last acted on.
    pub open spec fn acts_on(self, selections: Seq<OffsetRange>) -> bool {
        self.rendered.len() > 0 && fingerprint(selections, self.byte_order)
            != self.last_selection_fingerprint
    }

    /// The popover that belongs to the cursor at `head`.
    pub open spec fn hover_popover(self, head: usize, anchor: u64, size: SvgSize) -> Option<
        MathPreviewPopover,
    > {
        popover_for(self.rendered, first_hovered(self.rendered, head), anchor, size)
    }

    /// What is shown once the selections changed and the cursor is at `head`.
    pub open spec fn with_selections(
        self,
        head: usize,
        anchor: u64,
        size: SvgSize,
        selections: Seq<OffsetRange>,
    ) -> MathPreviewsView {
        let popover = self.hover_popover(head, anchor, size);
        MathPreviewsView {
            popover: if same_popover(popover, self.popover) {
                self.popover
            } else {
                popover
            },
            last_selection_fingerprint: if self.acts_on(selections) {
                fingerprint(selections, self.byte_order)
            } else {
                self.last_selection_fingerprint
            },
            block_ids: if self.acts_on(selections) && block_touched(self.rendered, selections) {
                Set::empty()
            } else {
                self.block_ids
            },
            ..self
        }
    }

    /// The folds to open once the selections changed.
    pub open spec fn folds_opened(self, selections: Seq<OffsetRange>, len: usize) -> Seq<
        OffsetRange,
    > {
        if self.acts_on(selections) {
            crate::ranges::all_clipped(touched_ranges(self.rendered, selections), len)
        } else {
            seq![]
        }
    }

    /// The blocks to take out once the selections changed.
    pub open spec fn blocks_removed(self, selections: Seq<OffsetRange>) -> Set<u64> {
        if self.acts_on(selections) && block_touched(self.rendered, selections) {
            self.block_ids
        } else {
            Set::empty()
        }
    }
}

impl MathPreviews {
    /// Nothing is shown, and nothing was rendered. `byte_order` is that of the machine.
    pub fn new(byte_order: ByteOrder) -> (r: Self)
        ensures
            r@ == (MathPreviewsView {
                generation: 0,
                rendered: seq![],
                block_ids: Set::empty(),
                popover: None,
                render_cache: Map::empty(),
                last_selection_fingerprint: 0,
                byte_order,
            }),
            r@.wf(),
    {
        MathPreviews {
            generation: 0,
            rendered: Vec::new(),
            block_ids: HashSet::new(),
            popover: None,
            render_cache: HashMap::new(),
            last_selection_fingerprint: 0,
            byte_order,
        }
    }

    /// The formulas with their pictures.
    pub fn rendered(&self) -> (r: &Vec<MathPreviewEntry>)
        ensures
            r@ == self@.rendered,
    {
        &self.rendered
    }

    /// The popover.
    pub fn math_preview_popover(&self) -> (r: Option<MathPreviewPopover>)
        ensures
            r == self@.popover,
    {
        match &self.popover {
            Some(popover) => Some(popover.clone()),
            None => None,
        }
    }

    /// The ranges of the formulas.
    fn rendered_ranges(&self) -> (r: Vec<OffsetRange>)
        ensures
            r@ == ranges_of(self@.rendered),
    {
        let mut ranges: Vec<OffsetRange> = Vec::new();
        for i in 0..self.rendered.len()
            invariant
                ranges@ == ranges_of(self.rendered@).take(i as int),
        {
            ranges.push(self.rendered[i].range);
            assert(ranges_of(self.rendered@).take(i + 1) =~= ranges_of(self.rendered@).take(
                i as int,
            ).push(self.rendered@[i as int].range));
        }
        assert(ranges_of(self.rendered@).take(self.rendered@.len() as int) =~= ranges_of(
            self.rendered@,
        ));
        ranges
    }

    /// Hands out the numbers of the blocks, and holds none of them any more.
    fn take_block_ids(&mut self) -> (r: HashSet<u64>)
        ensures
            r@ == old(self)@.block_ids,
            final(self)@ == (MathPreviewsView { block_ids: Set::empty(), ..old(self)@ }),
    {
        let mut block_ids: HashSet<u64> = HashSet::new();
        std::mem::swap(&mut block_ids, &mut self.block_ids);
        block_ids
    }

    /// Shows nothing any more, in a text of `len` bytes.
    pub fn clear_math_previews(&mut self, len: usize) -> (r: ClearPlan)
        ensures
            final(self)@ == old(self)@.cleared(),
            r.blocks@ == old(self)@.block_ids,
            r.folds@ == crate::ranges::all_clipped(ranges_of(old(self)@.rendered), len),
    {
        let folds = clip_ranges_to_len(&self.rendered_ranges(), len);
        let blocks = self.take_block_ids();
        self.rendered = Vec::new();
        self.popover = None;
        ClearPlan { blocks, folds }
    }

    /// Decides what to do when the text may have changed. An editor that is not `full` shows
    /// nothing, and one that does not know how many lines are visible waits until it does. A
    /// rendering takes the pictures that are remembered along. `len` is the length of the text.
    pub fn refresh_math_previews(
        &mut self,
        full: bool,
        knows_visible_lines: bool,
        debounce: bool,
        default: MathPreviewSettings,
        languages: Vec<(Option<String>, MathPreviewSettings)>,
        len: usize,
    ) -> (r: RefreshPlan)
        ensures
            ({
                let settings = crate::settings::SettingsTableView {
                    default,
                    by_language: crate::settings::language_settings(
                        default,
                        languages.deep_view(),
                    ),
                };
                let before = old(self)@;
                let counted = MathPreviewsView {
                    generation: next_generation(before.generation),
                    ..before
                };
                if full && !knows_visible_lines {
                    r is Ignore && final(self)@ == before
                } else if full && settings.wanted() {
                    &&& final(self)@ == (MathPreviewsView {
                        render_cache: Map::empty(),
                        ..counted
                    })
                    &&& r matches RefreshPlan::Start(start)
                    &&& start.generation == counted.generation
                    &&& start.debounce_ms == (if debounce {
                        Some(MATH_PREVIEW_DEBOUNCE_MS)
                    } else {
                        None
                    })
                    &&& start.settings.wf()
                    &&& start.settings.deep_view() == settings
                    &&& start.cache@ == before.render_cache
                } else {
                    &&& final(self)@ == (if full {
                        counted.cleared()
                    } else {
                        before.cleared()
                    })
                    &&& r matches RefreshPlan::Clear(plan)
                    &&& plan.blocks@ == before.block_ids
                    &&& plan.folds@ == crate::ranges::all_clipped(ranges_of(before.rendered), len)
                }
            }),
    {
        if !full {
            return RefreshPlan::Clear(self.clear_math_previews(len));
        }
        if !knows_visible_lines {
            return RefreshPlan::Ignore;
        }
        self.generation = self.generation.wrapping_add(1);
        let settings = SettingsTable::new(default, languages);
        if !settings.any_enabled() {
            return RefreshPlan::Clear(self.clear_math_previews(len));
        }
        let mut cache: RenderCache = HashMap::new();
        std::mem::swap(&mut cache, &mut self.render_cache);
        RefreshPlan::Start(
            RefreshStart {
                generation: self.generation,
                debounce_ms: if debounce {
                    Some(MATH_PREVIEW_DEBOUNCE_MS)
                } else {
                    None
                },
                settings,
                cache,
            },
        )
    }

    /// Takes back the pictures that a rendering took along and that came to nothing.
    pub fn cancel_refresh(&mut self, cache: RenderCache)
        ensures
            final(self)@ == (MathPreviewsView { render_cache: cache@, ..old(self)@ }),
    {
        self.render_cache = cache;
    }

    /// Ends a rendering. Its result is shown only if no other rendering was started since;
    /// the pictures are remembered in any case. The result is how the display is to be built
    /// anew, or `None` where it stays.
    pub fn finish_refresh(
        &mut self,
        generation: usize,
        rendered: Vec<MathPreviewEntry>,
        cache: RenderCache,
    ) -> (r: Option<Rebuild>)
        requires
            old(self)@.wf(),
        ensures
            final(self)@.wf(),
            ({
                let before = old(self)@;
                let new = crate::entry::ordered(rendered@);
                if generation != before.generation || crate::entry::all_same(
                    before.rendered,
                    new,
                ) {
                    r is None && final(self)@ == (MathPreviewsView {
                        render_cache: cache@,
                        ..before
                    })
                } else {
                    &&& final(self)@ == (MathPreviewsView {
                        rendered: new,
                        last_selection_fingerprint: 0,
                        render_cache: cache@,
                        ..before
                    })
                    &&& r matches Some(rebuild)
                    &&& rebuild.ranges_to_remove@ == ranges_of(before.rendered)
                    &&& rebuild.include_blocks
                }
            }),
    {
        if self.generation != generation {
            self.render_cache = cache;
            return None;
        }
        let rebuild = self.set_math_previews(rendered);
        self.render_cache = cache;
        rebuild
    }

    /// Puts `rendered` in the order of the text and in place of what is shown. The display is
    /// then built anew, with its blocks and without the folds of what was shown. The result is
    /// `None` where the same was shown, and nothing changes.
    pub fn set_math_previews(&mut self, rendered: Vec<MathPreviewEntry>) -> (r: Option<Rebuild>)
        requires
            old(self)@.wf(),
        ensures
            final(self)@.wf(),
            ({
                let before = old(self)@;
                let new = crate::entry::ordered(rendered@);
                if crate::entry::all_same(before.rendered, new) {
                    r is None && final(self)@ == before
                } else {
                    &&& final(self)@ == (MathPreviewsView {
                        rendered: new,
                        last_selection_fingerprint: 0,
                        ..before
                    })
                    &&& r matches Some(rebuild)
                    &&& rebuild.ranges_to_remove@ == ranges_of(before.rendered)
                    &&& rebuild.include_blocks
                }
            }),
    {
        proof {
            crate::entry::law_ordered_is_in_order(rendered@);
        }
        let rendered = order_by_start(rendered);
        if is_all_same(&self.rendered, &rendered) {
            return None;
        }
        let ranges_to_remove = self.rendered_ranges();
        self.rendered = rendered;
        self.last_selection_fingerprint = 0;
        Some(Rebuild { ranges_to_remove, include_blocks: true })
    }

    /// Starts to put what is shown into the display: hands out the numbers of the blocks that
    /// go first.
    pub fn begin_rebuild(&mut self, include_blocks: bool) -> (r: HashSet<u64>)
        ensures
            r@ == (if include_blocks {
                old(self)@.block_ids
            } else {
                Set::empty()
            }),
            final(self)@ == (MathPreviewsView {
                block_ids: if include_blocks {
                    Set::empty()
                } else {
                    old(self)@.block_ids
                },
                ..old(self)@
            }),
    {
        if include_blocks {
            self.take_block_ids()
        } else {
            HashSet::new()
        }
    }

    /// Decides what to put into the display of a text of `len` bytes, with the cursor at
    /// `head`. Formulas that no longer lie in the text are left out, and pictures within a
    /// line while a selection touches the formula.
    pub fn rebuild_math_previews(
        &self,
        ranges_to_remove: &Vec<OffsetRange>,
        selections: &Vec<OffsetRange>,
        head: usize,
        len: usize,
        include_blocks: bool,
    ) -> (r: RebuildPlan)
        ensures
            r.popover == first_hovered_within(self@.rendered, head, len),
            r.creases@ == creases_for(self@.rendered, selections@, len),
            r.blocks@ == blocks_for(self@.rendered, include_blocks, len),
            r.folds@ == crate::ranges::all_clipped(ranges_to_remove@, len),
    {
        let mut popover: Option<usize> = None;
        let mut creases: Vec<Placement> = Vec::new();
        let mut blocks: Vec<Placement> = Vec::new();
        let ghost all = self.rendered@;
        assert(all.take(0) =~= seq![]);
        for i in 0..self.rendered.len()
            invariant
                all == self.rendered@,
                popover == first_hovered_within(all.take(i as int), head, len),
                creases@ == creases_for(all.take(i as int), selections@, len),
                blocks@ == blocks_for(all.take(i as int), include_blocks, len),
        {
            let ghost so_far = all.take(i as int);
            assert(all.take(i + 1).drop_last() =~= so_far);
            assert(all.take(i + 1).last() == all[i as int]);
            let entry = &self.rendered[i];
            if let Some(range) = clip_range_to_len(&entry.range, len) {
                if popover.is_none() && entry.popover_enabled && entry.kind
                    == MathPreviewKind::Inline && range.contains(head) {
                    popover = Some(i);
                }
                match entry.kind {
                    MathPreviewKind::Inline => {
                        if entry.inline_enabled && !any_overlap(&range, selections) {
                            creases.push(Placement { entry: i, range });
                        }
                    },
                    MathPreviewKind::Block => {
                        if entry.inline_enabled && include_blocks {
                            blocks.push(Placement { entry: i, range });
                        }
                    },
                }
            }
        }
        assert(all.take(all.len() as int) =~= all);
        RebuildPlan {
            popover,
            creases,
            blocks,
            folds: clip_ranges_to_len(ranges_to_remove, len),
        }
    }

    /// The popover for the entry at `at`.
    fn popover_at(&self, at: Option<usize>, anchor: u64, size: SvgSize) -> (r: Option<
        MathPreviewPopover,
    >)
        requires
            at matches Some(at) ==> at < self@.rendered.len(),
        ensures
            r == popover_for(self@.rendered, at, anchor, size),
    {
        match at {
            Some(at) => Some(
                MathPreviewPopover { anchor, svg_path: self.rendered[at].svg_path.clone(), size },
            ),
            None => None,
        }
    }

    /// Ends to put what is shown into the display of a text of `len` bytes: holds the numbers
    /// of the blocks that were put there, each once, and the popover of the formula under the
    /// cursor at `head`. The popover hangs on `anchor`, and its picture is shown in the size
    /// `size`; neither matters where there is none.
    pub fn finish_rebuild(
        &mut self,
        include_blocks: bool,
        block_ids: Vec<u64>,
        head: usize,
        len: usize,
        anchor: u64,
        size: SvgSize,
    )
        ensures
            final(self)@ == (MathPreviewsView {
                block_ids: if include_blocks {
                    block_ids@.to_set()
                } else {
                    old(self)@.block_ids
                },
                popover: popover_for(
                    old(self)@.rendered,
                    first_hovered_within(old(self)@.rendered, head, len),
                    anchor,
                    size,
                ),
                ..old(self)@
            }),
    {
        let at = if head < len {
            self.popover_entry(head)
        } else {
            None
        };
        let popover = self.popover_at(at, anchor, size);
        if include_blocks {
            let mut held: HashSet<u64> = HashSet::new();
            assert(held@ =~= block_ids@.take(0).to_set());
            for i in 0..block_ids.len()
                invariant
                    held@ == block_ids@.take(i as int).to_set(),
            {
                held.insert(block_ids[i]);
                proof {
                    let before = block_ids@.take(i as int);
                    before.lemma_push_to_set_commute(block_ids@[i as int]);
                    assert(block_ids@.take(i + 1) =~= before.push(block_ids@[i as int]));
                }
            }
            assert(block_ids@.take(block_ids@.len() as int) =~= block_ids@);
            self.block_ids = held;
        }
        self.popover = popover;
    }

    /// The position of the first entry for which the cursor at `head` brings up a popover.
    pub fn popover_entry(&self, head: usize) -> (r: Option<usize>)
        ensures
            r == first_hovered(self@.rendered, head),
            r matches Some(at) ==> at < self@.rendered.len(),
    {
        let mut found: Option<usize> = None;
        let ghost all = self.rendered@;
        assert(all.take(0) =~= seq![]);
        for i in 0..self.rendered.len()
            invariant
                all == self.rendered@,
                found == first_hovered(all.take(i as int), head),
                found matches Some(at) ==> at < i,
        {
            assert(all.take(i + 1).drop_last() =~= all.take(i as int));
            let entry = &self.rendered[i];
            if found.is_none() && entry.popover_enabled && entry.kind == MathPreviewKind::Inline
                && entry.range.contains(head) {
                found = Some(i);
            }
        }
        assert(all.take(all.len() as int) =~= all);
        found
    }

    /// Takes note of `selections` and of the cursor at `head`, in a text of `len` bytes. The
    /// popover is that of the formula under the cursor; it hangs on `anchor`, and its picture
    /// is shown in the size `size`, which do not matter where there is none. The folds of the
    /// formulas that the selections touch are opened, and all blocks go once they touch one.
    /// Selections that were acted on already are passed over.
    pub fn update_math_preview_selection(
        &mut self,
        head: usize,
        anchor: u64,
        size: SvgSize,
        selections: &Vec<OffsetRange>,
        len: usize,
    ) -> (r: SelectionUpdate)
        ensures
            final(self)@ == old(self)@.with_selections(head, anchor, size, selections@),
            r.notify == !same_popover(
                old(self)@.hover_popover(head, anchor, size),
                old(self)@.popover,
            ),
            r.folds@ == old(self)@.folds_opened(selections@, len),
            r.blocks@ == old(self)@.blocks_removed(selections@),
    {
        let at = self.popover_entry(head);
        let popover = self.popover_at(at, anchor, size);
        let notify = !is_same_popover(&popover, &self.popover);
        if notify {
            self.popover = popover;
        }
        let current = selection_fingerprint(selections, self.byte_order);
        if self.rendered.is_empty() || current == self.last_selection_fingerprint {
            return SelectionUpdate { notify, folds: Vec::new(), blocks: HashSet::new() };
        }
        self.last_selection_fingerprint = current;
        let mut ranges: Vec<OffsetRange> = Vec::new();
        let mut block = false;
        let ghost all = self.rendered@;
        assert(all.take(0) =~= seq![]);
        for i in 0..self.rendered.len()
            invariant
                all == self.rendered@,
                ranges@ == touched_ranges(all.take(i as int), selections@),
                block == block_touched(all.take(i as int), selections@),
        {
            let ghost so_far = all.take(i as int);
            let ghost next = all.take(i + 1);
            assert(next.drop_last() =~= so_far);
            assert(next.last() == all[i as int]);
            let ghost was = block;
            if any_overlap(&self.rendered[i].range, selections) {
                ranges.push(self.rendered[i].range);
                if self.rendered[i].kind == MathPreviewKind::Block {
                    block = true;
                }
            }
            proof {
                assert(next[i as int] == all[i as int]);
                if was {
                    let j = choose|j: int|
                        0 <= j < so_far.len() && (#[trigger] so_far[j]).kind
                            == MathPreviewKind::Block && crate::ranges::touched(
                            so_far[j].range,
                            selections@,
                        );
                    assert(next[j] == so_far[j]);
                }
                if block_touched(next, selections@) {
                    let j = choose|j: int|
                        0 <= j < next.len() && (#[trigger] next[j]).kind == MathPreviewKind::Block
                            && crate::ranges::touched(next[j].range, selections@);
                    if j < i {
                        assert(so_far[j] == next[j]);
                    }
                }
            }
        }
        assert(all.take(all.len() as int) =~= all);
        let folds = clip_ranges_to_len(&ranges, len);
        let blocks = if block {
            self.take_block_ids()
        } else {
            HashSet::new()
        };
        SelectionUpdate { notify, folds, blocks }
    }
}

/// A rendering that is started outdates the one before it.
pub proof fn law_new_generation_outdates(generation: usize)
    ensures
        next_generation(generation) != generation,
{
}

/// Whatever happens to the selections, and once nothing is shown, the formulas stand in the
/// order of the text.
pub proof fn law_order_is_kept(
    state: MathPreviewsView,
    head: usize,
    anchor: u64,
    size: SvgSize,
    selections: Seq<OffsetRange>,
)
    requires
        state.wf(),
    ensures
        state.cleared().wf(),
        state.with_selections(head, anchor, size, selections).wf(),
{
}

/// The sizes of the pictures are numbers.
pub open spec fn sizes_are_numbers(entries: Seq<MathPreviewEntry>) -> bool {
    forall|i: int|
        0 <= i < entries.len() ==> !crate::svg::not_a_number((#[trigger] entries[i]).size.width)
            && !crate::svg::not_a_number(entries[i].size.height)
}

/// Rendering what is shown already changes nothing, as long as the sizes are numbers.
pub proof fn law_same_previews_are_kept(entries: Seq<MathPreviewEntry>)
    requires
        crate::entry::in_order(entries),
        sizes_are_numbers(entries),
    ensures
        crate::entry::all_same(entries, crate::entry::ordered(entries)),
{
    crate::entry::law_ordered_of_in_order(entries);
}

/// Selections that were acted on are not acted on again: the same selections with the same
/// cursor change nothing and ask for nothing, as long as the size of the popover is a number.
pub proof fn law_selections_are_acted_on_once(
    state: MathPreviewsView,
    head: usize,
    anchor: u64,
    size: SvgSize,
    selections: Seq<OffsetRange>,
    len: usize,
)
    requires
        first_hovered(state.rendered, head) is Some ==> !crate::svg::not_a_number(size.width)
            && !crate::svg::not_a_number(size.height),
    ensures
        ({
            let after = state.with_selections(head, anchor, size, selections);
            &&& same_popover(after.hover_popover(head, anchor, size), after.popover)
            &&& after.with_selections(head, anchor, size, selections) == after
            &&& after.folds_opened(selections, len) == Seq::<OffsetRange>::empty()
            &&& after.blocks_removed(selections) == Set::<u64>::empty()
        }),
{
}

/// The entry that has the popover is one for which the cursor brings it up, and none before it
/// is; where no entry has it, there is none for which the cursor brings it up.
pub proof fn law_first_hovered(entries: Seq<MathPreviewEntry>, head: usize)
    requires
        entries.len() <= usize::MAX,
    ensures
        match first_hovered(entries, head) {
            Some(at) => at < entries.len() && hovered(entries[at as int], head) && forall|i: int|
                0 <= i < at ==> !hovered(#[trigger] entries[i], head),
            None => forall|i: int| 0 <= i < entries.len() ==> !hovered(#[trigger] entries[i], head),
        },
    decreases entries.len(),
{
    if entries.len() > 0 {
        let less = entries.drop_last();
        law_first_hovered(less, head);
        assert(forall|i: int| 0 <= i < less.len() ==> #[trigger] entries[i] == less[i]);
    }
}

/// `popover` shows the picture of the first formula under the cursor at `head`, and hangs on
/// `anchor`; there is none where the cursor is in no such formula.
pub open spec fn shows_hovered(
    popover: Option<MathPreviewPopover>,
    entries: Seq<MathPreviewEntry>,
    head: usize,
    anchor: u64,
) -> bool {
    match popover {
        Some(shown) => shown.anchor == anchor && exists|at: int|
            0 <= at < entries.len() && hovered(#[trigger] entries[at], head)
                && entries[at].svg_path@ == shown.svg_path@ && forall|i: int|
                0 <= i < at ==> !hovered(#[trigger] entries[i], head),
        None => forall|i: int| 0 <= i < entries.len() ==> !hovered(#[trigger] entries[i], head),
    }
}

/// The popover shows the formula under the cursor, once the selections changed and once the
/// display was built anew with the cursor in the text; so there is none where nothing is
/// shown. With the cursor behind the text, a display that is built anew has none.
pub proof fn law_popover_shows_hovered_formula(
    state: MathPreviewsView,
    head: usize,
    len: usize,
    anchor: u64,
    size: SvgSize,
    selections: Seq<OffsetRange>,
)
    requires
        state.rendered.len() <= usize::MAX,
    ensures
        shows_hovered(
            state.with_selections(head, anchor, size, selections).popover,
            state.rendered,
            head,
            anchor,
        ),
        ({
            let built = popover_for(
                state.rendered,
                first_hovered_within(state.rendered, head, len),
                anchor,
                size,
            );
            &&& head < len ==> shows_hovered(built, state.rendered, head, anchor)
            &&& head >= len ==> built is None
        }),
        state.rendered.len() == 0 ==> state.with_selections(
            head,
            anchor,
            size,
            selections,
        ).popover is None,
{
    law_first_hovered(state.rendered, head);
    if let Some(at) = first_hovered(state.rendered, head) {
        assert(hovered(state.rendered[at as int], head));
    }
}

/// The feed of the selections determines the selections.
pub proof fn law_selections_feed_injective(
    a: Seq<OffsetRange>,
    b: Seq<OffsetRange>,
    order: ByteOrder,
)
    requires
        selections_feed(a, order) == selections_feed(b, order),
    ensures
        a == b,
    decreases a.len(),
{
    lemma_selections_feed_len(a, order);
    lemma_selections_feed_len(b, order);
    if a.len() > 0 {
        let x = selections_feed(a, order);
        let y = selections_feed(b, order);
        let n = x.len() as int;
        assert(x[n - 1] == crate::hash::offset_bytes(a.last().end, order));
        assert(y[n - 1] == crate::hash::offset_bytes(b.last().end, order));
        assert(x[n - 2] == crate::hash::offset_bytes(a.last().start, order));
        assert(y[n - 2] == crate::hash::offset_bytes(b.last().start, order));
        crate::hash::law_offset_bytes_injective(a.last().end, b.last().end, order);
        crate::hash::law_offset_bytes_injective(a.last().start, b.last().start, order);
        assert(x.take(n - 2) =~= selections_feed(a.drop_last(), order));
        assert(y.take(n - 2) =~= selections_feed(b.drop_last(), order));
        law_selections_feed_injective(a.drop_last(), b.drop_last(), order);
        assert(a =~= a.drop_last().push(a.last()));
        assert(b =~= b.drop_last().push(b.last()));
    } else {
        assert(a =~= b);
    }
}

/// Each selection feeds its two ends.
proof fn lemma_selections_feed_len(selections: Seq<OffsetRange>, order: ByteOrder)
    ensures
        selections_feed(selections, order).len() == 2 * selections.len(),
    decreases selections.len(),
{
    if selections.len() > 0 {
        lemma_selections_feed_len(selections.drop_last(), order);
    }
}

/// A picture within a line stands for the part of its formula that lies in the text, is
/// wanted there, and is touched by no selection.
pub proof fn law_creases_avoid_selections(
    entries: Seq<MathPreviewEntry>,
    selections: Seq<OffsetRange>,
    len: usize,
    k: int,
)
    requires
        entries.len() <= usize::MAX,
        0 <= k < creases_for(entries, selections, len).len(),
    ensures
        ({
            let place = creases_for(entries, selections, len)[k];
            &&& place.entry < entries.len()
            &&& crease_for(
                entries[place.entry as int],
                place.entry as int,
                selections,
                len,
            ) == Some(place)
            &&& place.range.start < place.range.end <= len
            &&& !crate::ranges::touched(place.range, selections)
        }),
    decreases entries.len(),
{
    let less = entries.drop_last();
    let before = creases_for(less, selections, len);
    if k < before.len() {
        law_creases_avoid_selections(less, selections, len, k);
    }
}

/// Each formula that is wanted within a line, lies in the text and is touched by no selection
/// has its picture there.
pub proof fn law_creases_are_complete(
    entries: Seq<MathPreviewEntry>,
    selections: Seq<OffsetRange>,
    len: usize,
    at: int,
)
    requires
        0 <= at < entries.len(),
        crease_for(entries[at], at, selections, len) is Some,
    ensures
        creases_for(entries, selections, len).contains(
            crease_for(entries[at], at, selections, len)->0,
        ),
    decreases entries.len(),
{
    let less = entries.drop_last();
    let before = creases_for(less, selections, len);
    let all = creases_for(entries, selections, len);
    let place = crease_for(entries[at], at, selections, len)->0;
    if at < less.len() {
        law_creases_are_complete(less, selections, len, at);
        assert(all[before.index_of(place)] == place);
    } else {
        assert(all[all.len() - 1] == place);
    }
}

/// The pictures within a line come in the order of the text.
pub proof fn law_creases_are_in_order(
    entries: Seq<MathPreviewEntry>,
    selections: Seq<OffsetRange>,
    len: usize,
    i: int,
    j: int,
)
    requires
        entries.len() <= usize::MAX,
        crate::entry::in_order(entries),
        0 <= i < j < creases_for(entries, selections, len).len(),
    ensures
        ({
            let places = creases_for(entries, selections, len);
            &&& places[i].entry < places[j].entry
            &&& places[i].range.start <= places[j].range.start
        }),
    decreases entries.len(),
{
    let less = entries.drop_last();
    let before = creases_for(less, selections, len);
    if j < before.len() {
        law_creases_are_in_order(less, selections, len, i, j);
    } else {
        law_creases_avoid_selections(less, selections, len, i);
        let place = before[i];
        assert(less[place.entry as int] == entries[place.entry as int]);
        assert(entries[place.entry as int].range.start <= entries[entries.len() - 1].range.start);
    }
}

/// A caret in a formula within a line keeps its picture out of the line.
pub proof fn law_caret_opens_formula(
    entries: Seq<MathPreviewEntry>,
    selections: Seq<OffsetRange>,
    len: usize,
    at: int,
    caret: int,
    k: int,
)
    requires
        entries.len() <= usize::MAX,
        0 <= at < entries.len(),
        0 <= caret < selections.len(),
        selections[caret].start == selections[caret].end,
        entries[at].range.holds(selections[caret].start as int),
        selections[caret].start < len,
        0 <= k < creases_for(entries, selections, len).len(),
    ensures
        creases_for(entries, selections, len)[k].entry != at,
{
    law_creases_avoid_selections(entries, selections, len, k);
    let place = creases_for(entries, selections, len)[k];
    if place.entry == at {
        crate::ranges::law_clipped_offsets(
            entries[at].range,
            len,
            selections[caret].start as int,
        );
        assert(crate::ranges::overlapping(place.range, selections[caret]));
    }
}

/// Each block stands for the part of its formula that lies in the text, and there are none
/// where blocks are not asked for.
pub proof fn law_blocks_are_wanted(
    entries: Seq<MathPreviewEntry>,
    include_blocks: bool,
    len: usize,
    k: int,
)
    requires
        entries.len() <= usize::MAX,
        0 <= k < blocks_for(entries, include_blocks, len).len(),
    ensures
        ({
            let place = blocks_for(entries, include_blocks, len)[k];
            &&& include_blocks
            &&& place.entry < entries.len()
            &&& block_for(
                entries[place.entry as int],
                place.entry as int,
                include_blocks,
                len,
            ) == Some(place)
            &&& place.range.start < place.range.end <= len
        }),
    decreases entries.len(),
{
    let less = entries.drop_last();
    let before = blocks_for(less, include_blocks, len);
    if k < before.len() {
        law_blocks_are_wanted(less, include_blocks, len, k);
    }
}

/// Each formula that is wanted on lines of its own and lies in the text has its block there
/// where blocks are asked for, whatever is selected.
pub proof fn law_blocks_are_complete(entries: Seq<MathPreviewEntry>, len: usize, at: int)
    requires
        0 <= at < entries.len(),
        entries[at].kind == MathPreviewKind::Block,
        entries[at].inline_enabled,
        crate::ranges::clipped(entries[at].range, len) is Some,
    ensures
        blocks_for(entries, true, len).contains(
            Placement {
                entry: at as usize,
                range: crate::ranges::clipped(entries[at].range, len)->0,
            },
        ),
    decreases entries.len(),
{
    let less = entries.drop_last();
    let before = blocks_for(less, true, len);
    let all = blocks_for(entries, true, len);
    let place = Placement {
        entry: at as usize,
        range: crate::ranges::clipped(entries[at].range, len)->0,
    };
    if at < less.len() {
        law_blocks_are_complete(less, len, at);
        assert(all[before.index_of(place)] == place);
    } else {
        assert(all[all.len() - 1] == place);
    }
}

/// The cursor brings up a popover for an entry exactly if popovers are wanted for it, it is
/// within a line, and its range holds the cursor. Whether its picture is wanted in the line
/// does not matter.
pub proof fn law_hovered(entry: MathPreviewEntry, head: usize)
    ensures
        hovered(entry, head) <==> entry.popover_enabled && entry.kind == MathPreviewKind::Inline
            && entry.range.start <= head < entry.range.end,
{
}

/// The cursor in a formula brings up the popover with the picture of that formula, where it is
/// the first such formula: after the selections changed, and after the display was built anew
/// with the cursor in the text.
pub proof fn law_cursor_brings_up_popover(
    state: MathPreviewsView,
    head: usize,
    len: usize,
    anchor: u64,
    size: SvgSize,
    selections: Seq<OffsetRange>,
    at: int,
)
    requires
        state.rendered.len() <= usize::MAX,
        0 <= at < state.rendered.len(),
        state.rendered[at].popover_enabled,
        state.rendered[at].kind == MathPreviewKind::Inline,
        state.rendered[at].range.start <= head < state.rendered[at].range.end,
        forall|i: int|
            0 <= i < at ==> !((#[trigger] state.rendered[i]).popover_enabled
                && state.rendered[i].kind == MathPreviewKind::Inline && state.rendered[i].range.start
                <= head < state.rendered[i].range.end),
    ensures
        state.hover_popover(head, anchor, size) == Some(
            MathPreviewPopover { anchor, svg_path: state.rendered[at].svg_path, size },
        ),
        state.with_selections(head, anchor, size, selections).popover matches Some(shown)
            && shown.anchor == anchor && shown.svg_path@ == state.rendered[at].svg_path@ && (
        shown.size == size || (crate::svg::same_number(shown.size.width, size.width)
            && crate::svg::same_number(shown.size.height, size.height))),
        head < len ==> popover_for(
            state.rendered,
            first_hovered_within(state.rendered, head, len),
            anchor,
            size,
        ) == Some(MathPreviewPopover { anchor, svg_path: state.rendered[at].svg_path, size }),
{
    law_first_hovered(state.rendered, head);
    assert(hovered(state.rendered[at], head));
    match first_hovered(state.rendered, head) {
        Some(found) => {
            assert(hovered(state.rendered[found as int], head));
            if found < at {
                assert(!hovered(state.rendered[found as int], head));
            }
            assert(found == at);
        },
        None => {},
    }
}

/// A cursor in no formula for which a popover is wanted brings up none, and what was up goes.
pub proof fn law_cursor_elsewhere_brings_up_none(
    state: MathPreviewsView,
    head: usize,
    len: usize,
    anchor: u64,
    size: SvgSize,
    selections: Seq<OffsetRange>,
)
    requires
        state.rendered.len() <= usize::MAX,
        forall|i: int|
            0 <= i < state.rendered.len() ==> !((#[trigger] state.rendered[i]).popover_enabled
                && state.rendered[i].kind == MathPreviewKind::Inline && state.rendered[i].range.start
                <= head < state.rendered[i].range.end),
    ensures
        state.hover_popover(head, anchor, size) is None,
        state.with_selections(head, anchor, size, selections).popover is None,
        popover_for(
            state.rendered,
            first_hovered_within(state.rendered, head, len),
            anchor,
            size,
        ) is None,
{
    law_first_hovered(state.rendered, head);
    if let Some(found) = first_hovered(state.rendered, head) {
        assert(hovered(state.rendered[found as int], head));
    }
}

/// Two popovers are the same exactly if there is none on either side, or they hang on the same
/// place and show the same picture in the same size.
pub proof fn law_same_popover(a: Option<MathPreviewPopover>, b: Option<MathPreviewPopover>)
    ensures
        a is None || b is None ==> (same_popover(a, b) <==> a is None && b is None),
        a is Some && b is Some ==> (same_popover(a, b) <==> {
            &&& a->0.anchor == b->0.anchor
            &&& a->0.svg_path@ == b->0.svg_path@
            &&& crate::svg::same_number(a->0.size.width, b->0.size.width)
            &&& crate::svg::same_number(a->0.size.height, b->0.size.height)
        }),
{
}

/// A formula within a line has its picture in the line exactly if that is wanted, something of
/// it lies in the text, and no selection touches that part. The picture stands for that part.
pub proof fn law_crease_exactly_where_wanted(
    entries: Seq<MathPreviewEntry>,
    selections: Seq<OffsetRange>,
    len: usize,
    at: int,
    k: int,
)
    requires
        entries.len() <= usize::MAX,
        0 <= at < entries.len(),
    ensures
        ({
            let entry = entries[at];
            let end = if entry.range.end <= len {
                entry.range.end
            } else {
                len
            };
            let part = OffsetRange { start: entry.range.start, end };
            let places = creases_for(entries, selections, len);
            let wanted = {
                &&& entry.kind == MathPreviewKind::Inline
                &&& entry.inline_enabled
                &&& part.start < part.end
                &&& forall|j: int|
                    0 <= j < selections.len() ==> {
                        let selection = #[trigger] selections[j];
                        if selection.start == selection.end {
                            !(part.start <= selection.start < part.end)
                        } else {
                            !(part.start < selection.end && selection.start < part.end)
                        }
                    }
            };
            &&& wanted ==> places.contains(Placement { entry: at as usize, range: part })
            &&& 0 <= k < places.len() && places[k].entry == at ==> wanted && places[k].range == part
        }),
{
    let entry = entries[at];
    let places = creases_for(entries, selections, len);
    if let Some(range) = crate::ranges::clipped(entry.range, len) {
        if crate::ranges::touched(range, selections) {
            let j = choose|j: int|
                0 <= j < selections.len() && crate::ranges::overlapping(
                    range,
                    #[trigger] selections[j],
                );
            assert(crate::ranges::overlapping(range, selections[j]));
        } else {
            assert forall|j: int| 0 <= j < selections.len() implies !crate::ranges::overlapping(
                range,
                #[trigger] selections[j],
            ) by {}
        }
    }
    if crease_for(entry, at, selections, len) is Some {
        law_creases_are_complete(entries, selections, len, at);
    }
    if 0 <= k < places.len() && places[k].entry == at {
        law_creases_avoid_selections(entries, selections, len, k);
    }
}

/// A formula on lines of its own has its block exactly if blocks are asked for, its picture is
/// wanted, and something of it lies in the text. The block stands for that part.
pub proof fn law_block_exactly_where_wanted(
    entries: Seq<MathPreviewEntry>,
    include_blocks: bool,
    len: usize,
    at: int,
    k: int,
)
    requires
        entries.len() <= usize::MAX,
        0 <= at < entries.len(),
    ensures
        ({
            let entry = entries[at];
            let end = if entry.range.end <= len {
                entry.range.end
            } else {
                len
            };
            let part = OffsetRange { start: entry.range.start, end };
            let places = blocks_for(entries, include_blocks, len);
            let wanted = include_blocks && entry.kind == MathPreviewKind::Block
                && entry.inline_enabled && part.start < part.end;
            &&& wanted ==> places.contains(Placement { entry: at as usize, range: part })
            &&& 0 <= k < places.len() && places[k].entry == at ==> wanted && places[k].range == part
        }),
{
    let entry = entries[at];
    let places = blocks_for(entries, include_blocks, len);
    if block_for(entry, at, include_blocks, len) is Some {
        law_blocks_are_complete(entries, len, at);
    }
    if 0 <= k < places.len() && places[k].entry == at {
        law_blocks_are_wanted(entries, include_blocks, len, k);
    }
}

/// Pictures are put into the display in the order of the entries, one for each at most.
pub proof fn law_places_one_by_one(
    entries: Seq<MathPreviewEntry>,
    entry: MathPreviewEntry,
    selections: Seq<OffsetRange>,
    include_blocks: bool,
    len: usize,
)
    requires
        entries.len() < usize::MAX,
    ensures
        creases_for(seq![], selections, len).len() == 0,
        blocks_for(seq![], include_blocks, len).len() == 0,
        ({
            let before = creases_for(entries, selections, len);
            let after = creases_for(entries.push(entry), selections, len);
            after == before || (after.len() == before.len() + 1 && after.drop_last() == before
                && after.last().entry == entries.len())
        }),
        ({
            let before = blocks_for(entries, include_blocks, len);
            let after = blocks_for(entries.push(entry), include_blocks, len);
            after == before || (after.len() == before.len() + 1 && after.drop_last() == before
                && after.last().entry == entries.len())
        }),
{
    assert(entries.push(entry).drop_last() =~= entries);
    let creases = creases_for(entries, selections, len);
    let blocks = blocks_for(entries, include_blocks, len);
    if let Some(place) = crease_for(entry, entries.len() as int, selections, len) {
        assert(creases.push(place).drop_last() =~= creases);
    }
    if let Some(place) = block_for(entry, entries.len() as int, include_blocks, len) {
        assert(blocks.push(place).drop_last() =~= blocks);
    }
}

/// Once nothing is shown any more, there are no formulas, no blocks and no popover. The
/// pictures that are remembered stay, and so does the count of renderings.
pub proof fn law_cleared(state: MathPreviewsView)
    ensures
        state.cleared().rendered.len() == 0,
        state.cleared().block_ids =~= Set::empty(),
        state.cleared().popover is None,
        state.cleared().render_cache == state.render_cache,
        state.cleared().generation == state.generation,
        state.cleared().last_selection_fingerprint == state.last_selection_fingerprint,
        state.cleared().byte_order == state.byte_order,
{
}

/// Selections are acted on exactly if something is shown and their fingerprint is another than
/// that of those that were last acted on. Whatever is selected, the formulas, the pictures
/// that are remembered and the count of renderings stay.
pub proof fn law_selections_change_nothing_else(
    state: MathPreviewsView,
    head: usize,
    anchor: u64,
    size: SvgSize,
    selections: Seq<OffsetRange>,
)
    ensures
        state.acts_on(selections) <==> state.rendered.len() > 0 && fingerprint(
            selections,
            state.byte_order,
        ) != state.last_selection_fingerprint,
        ({
            let after = state.with_selections(head, anchor, size, selections);
            &&& after.rendered == state.rendered
            &&& after.render_cache == state.render_cache
            &&& after.generation == state.generation
            &&& after.byte_order == state.byte_order
            &&& state.rendered.len() > 0 ==> after.last_selection_fingerprint == fingerprint(
                selections,
                state.byte_order,
            )
            &&& state.rendered.len() == 0 ==> after.last_selection_fingerprint
                == state.last_selection_fingerprint
        }),
{
}

/// The fingerprint of selections is the digest of their starts and ends, in turn.
pub proof fn law_fingerprint(
    selections: Seq<OffsetRange>,
    selection: OffsetRange,
    order: ByteOrder,
)
    ensures
        fingerprint(selections, order) == crate::hash::digest(selections_feed(selections, order)),
        selections_feed(seq![], order).len() == 0,
        selections_feed(selections.push(selection), order) == selections_feed(selections, order)
            + seq![
            crate::hash::offset_bytes(selection.start, order),
            crate::hash::offset_bytes(selection.end, order),
        ],
{
    assert(selections.push(selection).drop_last() =~= selections);
    assert(selections_feed(selections.push(selection), order) =~= selections_feed(
        selections,
        order,
    ) + seq![
        crate::hash::offset_bytes(selection.start, order),
        crate::hash::offset_bytes(selection.end, order),
    ]);
}

/// The ranges of the formulas that selections touch, one by one.
pub proof fn law_touched_ranges_one_by_one(
    entries: Seq<MathPreviewEntry>,
    entry: MathPreviewEntry,
    selections: Seq<OffsetRange>,
)
    ensures
        touched_ranges(seq![], selections).len() == 0,
        crate::ranges::touched(entry.range, selections) ==> touched_ranges(
            entries.push(entry),
            selections,
        ) == touched_ranges(entries, selections).push(entry.range),
        !crate::ranges::touched(entry.range, selections) ==> touched_ranges(
            entries.push(entry),
            selections,
        ) == touched_ranges(entries, selections),
{
    assert(entries.push(entry).drop_last() =~= entries);
}

/// The range of a formula that is touched is among those.
proof fn lemma_touched_ranges_contains(
    entries: Seq<MathPreviewEntry>,
    selections: Seq<OffsetRange>,
    i: int,
)
    requires
        0 <= i < entries.len(),
        crate::ranges::touched(entries[i].range, selections),
    ensures
        touched_ranges(entries, selections).contains(entries[i].range),
    decreases entries.len(),
{
    let less = entries.drop_last();
    let before = touched_ranges(less, selections);
    let all = touched_ranges(entries, selections);
    if i < less.len() {
        lemma_touched_ranges_contains(less, selections, i);
        assert(all[before.index_of(entries[i].range)] == entries[i].range);
    } else {
        assert(all[all.len() - 1] == entries[i].range);
    }
}

/// Each of those is the range of a formula that is touched.
proof fn lemma_touched_ranges_come_from(
    entries: Seq<MathPreviewEntry>,
    selections: Seq<OffsetRange>,
    k: int,
) -> (i: int)
    requires
        0 <= k < touched_ranges(entries, selections).len(),
    ensures
        0 <= i < entries.len(),
        crate::ranges::touched(entries[i].range, selections),
        touched_ranges(entries, selections)[k] == entries[i].range,
    decreases entries.len(),
{
    let less = entries.drop_last();
    if k < touched_ranges(less, selections).len() {
        let i = lemma_touched_ranges_come_from(less, selections, k);
        assert(less[i] == entries[i]);
        i
    } else {
        entries.len() - 1
    }
}

/// What lies in the text of a range is among what does of all.
proof fn lemma_all_clipped_contains(ranges: Seq<OffsetRange>, len: usize, i: int)
    requires
        0 <= i < ranges.len(),
        crate::ranges::clipped(ranges[i], len) is Some,
    ensures
        crate::ranges::all_clipped(ranges, len).contains(
            crate::ranges::clipped(ranges[i], len)->0,
        ),
    decreases ranges.len(),
{
    let less = ranges.drop_last();
    let before = crate::ranges::all_clipped(less, len);
    let all = crate::ranges::all_clipped(ranges, len);
    let part = crate::ranges::clipped(ranges[i], len)->0;
    if i < less.len() {
        lemma_all_clipped_contains(less, len, i);
        assert(all[before.index_of(part)] == part);
    } else {
        assert(all[all.len() - 1] == part);
    }
}

/// Each of those is what lies in the text of one range.
proof fn lemma_all_clipped_come_from(ranges: Seq<OffsetRange>, len: usize, k: int) -> (i: int)
    requires
        0 <= k < crate::ranges::all_clipped(ranges, len).len(),
    ensures
        0 <= i < ranges.len(),
        crate::ranges::clipped(ranges[i], len) == Some(crate::ranges::all_clipped(ranges, len)[k]),
    decreases ranges.len(),
{
    let less = ranges.drop_last();
    if k < crate::ranges::all_clipped(less, len).len() {
        let i = lemma_all_clipped_come_from(less, len, k);
        assert(less[i] == ranges[i]);
        i
    } else {
        ranges.len() - 1
    }
}

/// New selections open the fold of every formula that one of them touches, as far as it lies
/// in the text, and take out all blocks once one of them touches a formula on lines of its
/// own.
pub proof fn law_touched_formula_is_opened(
    state: MathPreviewsView,
    head: usize,
    anchor: u64,
    size: SvgSize,
    selections: Seq<OffsetRange>,
    len: usize,
    i: int,
    j: int,
)
    requires
        fingerprint(selections, state.byte_order) != state.last_selection_fingerprint,
        0 <= i < state.rendered.len(),
        0 <= j < selections.len(),
        if selections[j].start == selections[j].end {
            state.rendered[i].range.start <= selections[j].start < state.rendered[i].range.end
        } else {
            state.rendered[i].range.start < selections[j].end && selections[j].start
                < state.rendered[i].range.end
        },
    ensures
        ({
            let range = state.rendered[i].range;
            let end = if range.end <= len {
                range.end
            } else {
                len
            };
            range.start < end ==> state.folds_opened(selections, len).contains(
                OffsetRange { start: range.start, end },
            )
        }),
        state.rendered[i].kind == MathPreviewKind::Block ==> state.blocks_removed(selections)
            == state.block_ids && state.with_selections(
            head,
            anchor,
            size,
            selections,
        ).block_ids =~= Set::empty(),
{
    let range = state.rendered[i].range;
    assert(crate::ranges::overlapping(range, selections[j]));
    assert(crate::ranges::touched(range, selections));
    lemma_touched_ranges_contains(state.rendered, selections, i);
    let ranges = touched_ranges(state.rendered, selections);
    let at = ranges.index_of(range);
    if crate::ranges::clipped(range, len) is Some {
        lemma_all_clipped_contains(ranges, len, at);
    }
}

/// Nothing else is opened: each fold that opens is that of a formula which a new selection
/// touches, and blocks stay where no formula on lines of its own is touched. Selections that
/// are not new open nothing.
pub proof fn law_only_touched_formulas_are_opened(
    state: MathPreviewsView,
    head: usize,
    anchor: u64,
    size: SvgSize,
    selections: Seq<OffsetRange>,
    len: usize,
    k: int,
)
    ensures
        0 <= k < state.folds_opened(selections, len).len() ==> {
            &&& fingerprint(selections, state.byte_order) != state.last_selection_fingerprint
            &&& exists|i: int, j: int|
                #![trigger state.rendered[i], selections[j]]
                0 <= i < state.rendered.len() && 0 <= j < selections.len()
                    && crate::ranges::overlapping(state.rendered[i].range, selections[j])
                    && crate::ranges::clipped(state.rendered[i].range, len) == Some(
                    state.folds_opened(selections, len)[k],
                )
        },
        (forall|i: int, j: int|
            #![trigger state.rendered[i], selections[j]]
            0 <= i < state.rendered.len() && 0 <= j < selections.len() && state.rendered[i].kind
                == MathPreviewKind::Block ==> !crate::ranges::overlapping(
                state.rendered[i].range,
                selections[j],
            )) || fingerprint(selections, state.byte_order) == state.last_selection_fingerprint ==> {
            &&& state.blocks_removed(selections) =~= Set::empty()
            &&& state.with_selections(head, anchor, size, selections).block_ids == state.block_ids
        },
{
    if 0 <= k < state.folds_opened(selections, len).len() {
        let ranges = touched_ranges(state.rendered, selections);
        let at = lemma_all_clipped_come_from(ranges, len, k);
        let i = lemma_touched_ranges_come_from(state.rendered, selections, at);
        let j = choose|j: int|
            0 <= j < selections.len() && crate::ranges::overlapping(
                state.rendered[i].range,
                #[trigger] selections[j],
            );
        assert(crate::ranges::overlapping(state.rendered[i].range, selections[j]));
    }
    if block_touched(state.rendered, selections) {
        let i = choose|i: int|
            0 <= i < state.rendered.len() && (#[trigger] state.rendered[i]).kind
                == MathPreviewKind::Block && crate::ranges::touched(
                state.rendered[i].range,
                selections,
            );
        let j = choose|j: int|
            0 <= j < selections.len() && crate::ranges::overlapping(
                state.rendered[i].range,
                #[trigger] selections[j],
            );
        assert(crate::ranges::overlapping(state.rendered[i].range, selections[j]));
    }
}

/// The ranges of entries are theirs, in their order.
pub proof fn law_ranges_of(entries: Seq<MathPreviewEntry>, i: int)
    ensures
        ranges_of(entries).len() == entries.len(),
        0 <= i < entries.len() ==> ranges_of(entries)[i] == entries[i].range,
{
}

/// Renderings are counted one by one, and from the start again after the largest number.
pub proof fn law_next_generation(generation: usize)
    ensures
        generation < usize::MAX ==> next_generation(generation) == generation + 1,
        generation == usize::MAX ==> next_generation(generation) == 0,
{
}

} // verus!
