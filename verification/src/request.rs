//! Formulas of a text, and which of them are to be rendered.

use crate::backend::{MathPreviewBackend, MathPreviewKind};
use crate::hash::{feed_byte, feed_str};
use crate::ranges::{expand_math_range, ranges_overlap, OffsetRange};
use crate::settings::SettingsTable;
use crate::text::trim;
use std::collections::hash_map::DefaultHasher;
use std::hash::Hasher;
use vstd::prelude::*;

verus! {

/// A formula as it stands in a text: where it is, without its delimiters, its language and
/// the language of the text, what it says, and the text of the window around it.
#[derive(Debug)]
pub struct MathFragment {
    pub range: OffsetRange,
    pub kind: MathPreviewKind,
    pub backend: MathPreviewBackend,
    pub language: Option<String>,
    pub content: String,
    pub context: String,
}

/// What a `MathFragment` holds.
pub struct MathFragmentView {
    pub range: OffsetRange,
    pub kind: MathPreviewKind,
    pub backend: MathPreviewBackend,
    pub language: Option<Seq<char>>,
    pub content: Seq<char>,
    pub context: Seq<char>,
}

impl DeepView for MathFragment {
    type V = MathFragmentView;

    open spec fn deep_view(&self) -> MathFragmentView {
        MathFragmentView {
            range: self.range,
            kind: self.kind,
            backend: self.backend,
            language: self.language.deep_view(),
            content: self.content@,
            context: self.context@,
        }
    }
}

/// A formula to render: where it stands with its delimiters, the source that renders it, and
/// where its picture is wanted.
#[derive(Debug)]
pub struct RenderRequest {
    pub range: OffsetRange,
    pub kind: MathPreviewKind,
    pub backend: MathPreviewBackend,
    pub content: String,
    pub inline_enabled: bool,
    pub popover_enabled: bool,
}

/// What a `RenderRequest` holds.
pub struct RenderRequestView {
    pub range: OffsetRange,
    pub kind: MathPreviewKind,
    pub backend: MathPreviewBackend,
    pub content: Seq<char>,
    pub inline_enabled: bool,
    pub popover_enabled: bool,
}

impl DeepView for RenderRequest {
    type V = RenderRequestView;

    open spec fn deep_view(&self) -> RenderRequestView {
        RenderRequestView {
            range: self.range,
            kind: self.kind,
            backend: self.backend,
            content: self.content@,
            inline_enabled: self.inline_enabled,
            popover_enabled: self.popover_enabled,
        }
    }
}

/// What stands before a formula in the source that renders it.
pub open spec fn opening(kind: MathPreviewKind, backend: MathPreviewBackend) -> Seq<char> {
    match (kind, backend) {
        (MathPreviewKind::Inline, _) => "$"@,
        (MathPreviewKind::Block, MathPreviewBackend::Latex) => "\\[\n"@,
        (MathPreviewKind::Block, MathPreviewBackend::Typst) => "$\n"@,
    }
}

/// What stands after a formula in the source that renders it.
pub open spec fn closing(kind: MathPreviewKind, backend: MathPreviewBackend) -> Seq<char> {
    match (kind, backend) {
        (MathPreviewKind::Inline, _) => "$"@,
        (MathPreviewKind::Block, MathPreviewBackend::Latex) => "\n\\]"@,
        (MathPreviewKind::Block, MathPreviewBackend::Typst) => "\n$"@,
    }
}

/// The source that renders a formula.
pub open spec fn wrapped(
    kind: MathPreviewKind,
    backend: MathPreviewBackend,
    content: Seq<char>,
) -> Seq<char> {
    opening(kind, backend) + content + closing(kind, backend)
}

/// The source that renders a formula.
pub fn wrap_math_fragment(
    kind: MathPreviewKind,
    backend: MathPreviewBackend,
    content: &str,
) -> (r: String)
    ensures
        r@ == wrapped(kind, backend, content@),
{
    let (before, after) = match backend {
        MathPreviewBackend::Latex => match kind {
            MathPreviewKind::Inline => ("$", "$"),
            MathPreviewKind::Block => ("\\[\n", "\n\\]"),
        },
        MathPreviewBackend::Typst => match kind {
            MathPreviewKind::Inline => ("$", "$"),
            MathPreviewKind::Block => ("$\n", "\n$"),
        },
    };
    let mut source = String::from_str(before);
    source.append(content);
    source.append(after);
    source
}

/// The byte that a kind feeds to a hasher.
pub open spec fn kind_byte(kind: MathPreviewKind) -> u8 {
    match kind {
        MathPreviewKind::Inline => 0,
        MathPreviewKind::Block => 1,
    }
}

/// The byte that a language feeds to a hasher.
pub open spec fn backend_byte(backend: MathPreviewBackend) -> u8 {
    match backend {
        MathPreviewBackend::Latex => 0,
        MathPreviewBackend::Typst => 1,
    }
}

/// Feeds `kind` to `hasher`.
pub fn hash_kind(kind: MathPreviewKind, hasher: &mut DefaultHasher)
    ensures
        final(hasher)@ == old(hasher)@.push(seq![kind_byte(kind)]),
{
    let byte: u8 = match kind {
        MathPreviewKind::Inline => 0,
        MathPreviewKind::Block => 1,
    };
    feed_byte(byte, hasher);
}

/// Feeds `backend` to `hasher`.
pub fn hash_backend(backend: MathPreviewBackend, hasher: &mut DefaultHasher)
    ensures
        final(hasher)@ == old(hasher)@.push(seq![backend_byte(backend)]),
{
    let byte: u8 = match backend {
        MathPreviewBackend::Latex => 0,
        MathPreviewBackend::Typst => 1,
    };
    feed_byte(byte, hasher);
}

/// The number that the picture of a formula is remembered under.
pub open spec fn formula_key(
    kind: MathPreviewKind,
    backend: MathPreviewBackend,
    content: Seq<char>,
) -> u64 {
    crate::hash::digest(
        seq![seq![kind_byte(kind)], seq![backend_byte(backend)]] + crate::hash::str_feed(content),
    )
}

impl RenderRequestView {
    /// The number that the picture is remembered under.
    pub open spec fn key(self) -> u64 {
        formula_key(self.kind, self.backend, self.content)
    }
}

/// The number that the picture for `request` is remembered under.
pub fn render_key(request: &RenderRequest) -> (r: u64)
    ensures
        r == request.deep_view().key(),
{
    let mut hasher = DefaultHasher::new();
    hash_kind(request.kind, &mut hasher);
    hash_backend(request.backend, &mut hasher);
    feed_str(request.content.as_str(), &mut hasher);
    assert(hasher@ =~= seq![seq![kind_byte(request.kind)], seq![backend_byte(request.backend)]]
        + crate::hash::str_feed(request.content@));
    hasher.finish()
}

/// What to render for a formula of a text of `len` bytes, if anything: it has its delimiters,
/// touches what is visible, some preview of it is wanted, and it is not blank.
pub open spec fn request_for(
    fragment: MathFragmentView,
    len: usize,
    visible: OffsetRange,
    settings: crate::settings::SettingsTableView,
) -> Option<RenderRequestView> {
    let whole = crate::ranges::expanded(
        fragment.range,
        len,
        vstd::utf8::encode_utf8(fragment.context),
    );
    let wanted = settings.settings_for(fragment.language);
    if whole != fragment.range && crate::ranges::overlapping(whole, visible) && wanted.wanted()
        && crate::text::trimmed(fragment.content).len() > 0 {
        Some(
            RenderRequestView {
                range: whole,
                kind: fragment.kind,
                backend: fragment.backend,
                content: wrapped(fragment.kind, fragment.backend, fragment.content),
                inline_enabled: wanted.inline_enabled,
                popover_enabled: wanted.popover_enabled,
            },
        )
    } else {
        None
    }
}

/// What to render for a formula of a text of `len` bytes, if anything.
pub fn fragment_request(
    fragment: &MathFragment,
    len: usize,
    visible: &OffsetRange,
    settings: &SettingsTable,
) -> (r: Option<RenderRequest>)
    requires
        settings.wf(),
    ensures
        r.deep_view() == request_for(fragment.deep_view(), len, *visible, settings.deep_view()),
        r matches Some(request) ==> {
            &&& request.kind == fragment.kind
            &&& request.backend == fragment.backend
            &&& request.content@ == wrapped(fragment.kind, fragment.backend, fragment.content@)
            &&& request.range == crate::ranges::expanded(
                fragment.range,
                len,
                vstd::utf8::encode_utf8(fragment.context@),
            )
            &&& request.inline_enabled == settings.deep_view().settings_for(
                fragment.language.deep_view(),
            ).inline_enabled
            &&& request.popover_enabled == settings.deep_view().settings_for(
                fragment.language.deep_view(),
            ).popover_enabled
        },
{
    let range = expand_math_range(fragment.range, len, fragment.context.as_str());
    if range == fragment.range {
        return None;
    }
    if !ranges_overlap(&range, visible) {
        return None;
    }
    let wanted = settings.get(&fragment.language);
    if !wanted.inline_enabled && !wanted.popover_enabled {
        return None;
    }
    if trim(fragment.content.as_str()).is_empty() {
        return None;
    }
    Some(
        RenderRequest {
            range,
            kind: fragment.kind,
            backend: fragment.backend,
            content: wrap_math_fragment(
                fragment.kind,
                fragment.backend,
                fragment.content.as_str(),
            ),
            inline_enabled: wanted.inline_enabled,
            popover_enabled: wanted.popover_enabled,
        },
    )
}

/// What to render for the formulas of a text, in their order.
pub open spec fn requests_for(
    fragments: Seq<MathFragmentView>,
    len: usize,
    visible: OffsetRange,
    settings: crate::settings::SettingsTableView,
) -> Seq<RenderRequestView>
    decreases fragments.len(),
{
    if fragments.len() == 0 {
        seq![]
    } else {
        let before = requests_for(fragments.drop_last(), len, visible, settings);
        match request_for(fragments.last(), len, visible, settings) {
            Some(request) => before.push(request),
            None => before,
        }
    }
}

/// What to render for the formulas of a text of `len` bytes of which `visible` is visible, in
/// their order.
pub fn collect_requests(
    fragments: &Vec<MathFragment>,
    len: usize,
    visible: &OffsetRange,
    settings: &SettingsTable,
) -> (r: Vec<RenderRequest>)
    requires
        settings.wf(),
    ensures
        r.deep_view() == requests_for(
            fragments.deep_view(),
            len,
            *visible,
            settings.deep_view(),
        ),
{
    let mut requests: Vec<RenderRequest> = Vec::new();
    let ghost all = fragments.deep_view();
    assert(all.take(0) =~= seq![]);
    assert(requests.deep_view() =~= seq![]);
    for i in 0..fragments.len()
        invariant
            settings.wf(),
            all == fragments.deep_view(),
            requests.deep_view() == requests_for(
                all.take(i as int),
                len,
                *visible,
                settings.deep_view(),
            ),
    {
        assert(all.take(i + 1).drop_last() =~= all.take(i as int));
        assert(all[i as int] == fragments@[i as int].deep_view());
        let ghost before = requests.deep_view();
        if let Some(request) = fragment_request(&fragments[i], len, visible, settings) {
            let ghost added = request.deep_view();
            requests.push(request);
            assert(requests.deep_view() =~= before.push(added));
        }
    }
    assert(all.take(all.len() as int) =~= all);
    requests
}

/// The source that renders a formula determines the formula.
pub proof fn law_wrapped_injective(
    kind: MathPreviewKind,
    backend: MathPreviewBackend,
    a: Seq<char>,
    b: Seq<char>,
)
    requires
        wrapped(kind, backend, a) == wrapped(kind, backend, b),
    ensures
        a == b,
{
    let lead = opening(kind, backend).len() as int;
    let x = wrapped(kind, backend, a);
    let y = wrapped(kind, backend, b);
    assert(a =~= x.subrange(lead, x.len() - closing(kind, backend).len()));
    assert(b =~= y.subrange(lead, y.len() - closing(kind, backend).len()));
}

/// Formulas of one kind and language with the same source share a picture, wherever they
/// stand and whatever is wanted of them.
pub proof fn law_same_source_same_key(a: RenderRequestView, b: RenderRequestView)
    requires
        a.kind == b.kind,
        a.backend == b.backend,
        a.content == b.content,
    ensures
        a.key() == b.key(),
{
}

/// Whatever is rendered touches what is visible, and some preview of it is wanted.
pub proof fn law_requests_are_visible_and_wanted(
    fragments: Seq<MathFragmentView>,
    len: usize,
    visible: OffsetRange,
    settings: crate::settings::SettingsTableView,
    i: int,
)
    requires
        0 <= i < requests_for(fragments, len, visible, settings).len(),
    ensures
        ({
            let request = requests_for(fragments, len, visible, settings)[i];
            &&& crate::ranges::overlapping(request.range, visible)
            &&& request.inline_enabled || request.popover_enabled
            &&& exists|k: int|
                0 <= k < fragments.len() && request_for(
                    #[trigger] fragments[k],
                    len,
                    visible,
                    settings,
                ) == Some(request)
        }),
    decreases fragments.len(),
{
    let before = requests_for(fragments.drop_last(), len, visible, settings);
    if i < before.len() {
        law_requests_are_visible_and_wanted(fragments.drop_last(), len, visible, settings, i);
        let k = choose|k: int|
            0 <= k < fragments.drop_last().len() && request_for(
                #[trigger] fragments.drop_last()[k],
                len,
                visible,
                settings,
            ) == Some(before[i]);
        assert(fragments[k] == fragments.drop_last()[k]);
    } else {
        assert(fragments[fragments.len() - 1] == fragments.last());
    }
}

/// A formula that lies in its text is rendered only with both delimiters.
pub proof fn law_requests_have_delimiters(
    fragment: MathFragmentView,
    len: usize,
    visible: OffsetRange,
    settings: crate::settings::SettingsTableView,
)
    requires
        fragment.range.start < fragment.range.end <= len,
        crate::ranges::window(fragment.range, len) matches Some(around)
            && vstd::utf8::encode_utf8(fragment.context).len() == around.end - around.start,
    ensures
        request_for(fragment, len, visible, settings) matches Some(request) ==> {
            let around = crate::ranges::window(fragment.range, len)->0;
            let context = vstd::utf8::encode_utf8(fragment.context);
            &&& crate::delimiters::opening_before(context, fragment.range.start - around.start)
                is Some
            &&& crate::delimiters::closing_after(context, fragment.range.end - around.start)
                is Some
            &&& request.range.start < fragment.range.start
            &&& fragment.range.end < request.range.end <= len
        },
{
    let context = vstd::utf8::encode_utf8(fragment.context);
    crate::ranges::law_expanded_unchanged(fragment.range, len, context);
    crate::ranges::law_expanded_covers(fragment.range, len, context);
}

/// The delimiters of each kind and language in the source that renders a formula.
pub proof fn law_wrapped_delimiters(content: Seq<char>)
    ensures
        wrapped(MathPreviewKind::Inline, MathPreviewBackend::Latex, content) == seq!['$'] + content
            + seq!['$'],
        wrapped(MathPreviewKind::Inline, MathPreviewBackend::Typst, content) == seq!['$'] + content
            + seq!['$'],
        wrapped(MathPreviewKind::Block, MathPreviewBackend::Latex, content) == seq![
            '\\',
            '[',
            '\n',
        ] + content + seq!['\n', '\\', ']'],
        wrapped(MathPreviewKind::Block, MathPreviewBackend::Typst, content) == seq!['$', '\n']
            + content + seq!['\n', '$'],
{
    reveal_strlit("$");
    reveal_strlit("\\[\n");
    reveal_strlit("$\n");
    reveal_strlit("\n\\]");
    reveal_strlit("\n$");
    assert("$"@ =~= seq!['$']);
    assert("\\[\n"@ =~= seq!['\\', '[', '\n']);
    assert("\n\\]"@ =~= seq!['\n', '\\', ']']);
    assert("$\n"@ =~= seq!['$', '\n']);
    assert("\n$"@ =~= seq!['\n', '$']);
}

/// The key of a formula is the digest of its kind, its language and its source, all of it.
pub proof fn law_formula_key(kind: MathPreviewKind, backend: MathPreviewBackend, content: Seq<char>)
    ensures
        formula_key(kind, backend, content) == crate::hash::digest(
            seq![
                seq![
                    if kind == MathPreviewKind::Inline {
                        0u8
                    } else {
                        1u8
                    },
                ],
                seq![
                    if backend == MathPreviewBackend::Latex {
                        0u8
                    } else {
                        1u8
                    },
                ],
                vstd::utf8::encode_utf8(content),
                seq![0xffu8],
            ],
        ),
{
    assert(seq![seq![kind_byte(kind)], seq![backend_byte(backend)]] + crate::hash::str_feed(content)
        =~= seq![
        seq![kind_byte(kind)],
        seq![backend_byte(backend)],
        vstd::utf8::encode_utf8(content),
        seq![0xffu8],
    ]);
}

/// The key of a request is that of its kind, language and source.
pub proof fn law_request_key(request: RenderRequestView)
    ensures
        request.key() == formula_key(request.kind, request.backend, request.content),
{
}

/// What is made of a formula keeps its kind and its language, holds what it says between the
/// delimiters of that kind and language, reaches over its delimiters in the text, and is
/// wanted as the settings of its language say.
pub proof fn law_request_is_of_its_formula(
    fragment: MathFragmentView,
    len: usize,
    visible: OffsetRange,
    settings: crate::settings::SettingsTableView,
)
    ensures
        request_for(fragment, len, visible, settings) matches Some(request) ==> {
            let (before, after) = match (fragment.kind, fragment.backend) {
                (MathPreviewKind::Inline, _) => (seq!['$'], seq!['$']),
                (MathPreviewKind::Block, MathPreviewBackend::Latex) => (
                    seq!['\\', '[', '\n'],
                    seq!['\n', '\\', ']'],
                ),
                (MathPreviewKind::Block, MathPreviewBackend::Typst) => (
                    seq!['$', '\n'],
                    seq!['\n', '$'],
                ),
            };
            &&& request.kind == fragment.kind
            &&& request.backend == fragment.backend
            &&& request.content == before + fragment.content + after
            &&& request.range == crate::ranges::expanded(
                fragment.range,
                len,
                vstd::utf8::encode_utf8(fragment.context),
            )
            &&& request.inline_enabled == settings.settings_for(fragment.language).inline_enabled
            &&& request.popover_enabled == settings.settings_for(fragment.language).popover_enabled
        },
{
    law_wrapped_delimiters(fragment.content);
}

/// A formula is rendered exactly if it has delimiters, touches what is visible, one of its
/// previews is wanted, and it is not blank.
pub proof fn law_formula_is_rendered(
    fragment: MathFragmentView,
    len: usize,
    visible: OffsetRange,
    settings: crate::settings::SettingsTableView,
)
    ensures
        ({
            let whole = crate::ranges::expanded(
                fragment.range,
                len,
                vstd::utf8::encode_utf8(fragment.context),
            );
            let wanted = settings.settings_for(fragment.language);
            request_for(fragment, len, visible, settings) is Some <==> {
                &&& whole.start != fragment.range.start || whole.end != fragment.range.end
                &&& crate::ranges::overlapping(whole, visible)
                &&& wanted.inline_enabled || wanted.popover_enabled
                &&& exists|i: int|
                    0 <= i < fragment.content.len() && !crate::text::white_space(
                        #[trigger] fragment.content[i],
                    )
            }
        }),
{
    let content = fragment.content;
    crate::text::law_trimmed(content);
    let (start, end) = choose|start: int, end: int|
        0 <= start <= end <= content.len() && crate::text::trimmed(content)
            == #[trigger] content.subrange(start, end) && (forall|k: int|
            0 <= k < start || end <= k < content.len() ==> crate::text::white_space(
                #[trigger] content[k],
            ));
    if crate::text::trimmed(content).len() > 0 {
        assert(!crate::text::white_space(content[start]));
    } else if exists|i: int|
        0 <= i < content.len() && !crate::text::white_space(#[trigger] content[i]) {
        let i = choose|i: int|
            0 <= i < content.len() && !crate::text::white_space(#[trigger] content[i]);
        assert(start == end);
        assert(crate::text::white_space(content[i]));
    }
}

/// The formulas of a text are taken one by one, in their order.
pub proof fn law_requests_one_by_one(
    a: Seq<MathFragmentView>,
    b: Seq<MathFragmentView>,
    fragment: MathFragmentView,
    len: usize,
    visible: OffsetRange,
    settings: crate::settings::SettingsTableView,
)
    ensures
        requests_for(a + b, len, visible, settings) == requests_for(a, len, visible, settings)
            + requests_for(b, len, visible, settings),
        requests_for(seq![], len, visible, settings) == Seq::<RenderRequestView>::empty(),
        request_for(fragment, len, visible, settings) is None ==> requests_for(
            seq![fragment],
            len,
            visible,
            settings,
        ) == Seq::<RenderRequestView>::empty(),
        request_for(fragment, len, visible, settings) matches Some(request) ==> requests_for(
            seq![fragment],
            len,
            visible,
            settings,
        ) == seq![request],
    decreases b.len(),
{
    reveal_with_fuel(requests_for, 2);
    assert(seq![fragment].drop_last() =~= seq![]);
    let x = requests_for(a, len, visible, settings);
    let y = requests_for(b, len, visible, settings);
    if b.len() == 0 {
        assert(a + b =~= a);
        assert(x + y =~= x);
    } else {
        law_requests_one_by_one(a, b.drop_last(), fragment, len, visible, settings);
        assert((a + b).drop_last() =~= a + b.drop_last());
        assert((a + b).last() == b.last());
        assert(requests_for(a + b, len, visible, settings) =~= x + y);
    }
}

/// A formula, and what is made of it, are what their fields hold.
pub proof fn law_request_views(fragment: MathFragment, request: RenderRequest)
    ensures
        fragment.deep_view().range == fragment.range,
        fragment.deep_view().kind == fragment.kind,
        fragment.deep_view().backend == fragment.backend,
        fragment.deep_view().language == fragment.language.deep_view(),
        fragment.deep_view().content == fragment.content@,
        fragment.deep_view().context == fragment.context@,
        request.deep_view().range == request.range,
        request.deep_view().kind == request.kind,
        request.deep_view().backend == request.backend,
        request.deep_view().content == request.content@,
        request.deep_view().inline_enabled == request.inline_enabled,
        request.deep_view().popover_enabled == request.popover_enabled,
{
}

} // verus!
