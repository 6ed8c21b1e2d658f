//! Rendering the formulas of a text in one pass: which pictures are remembered, which are to
//! be made, and what is shown in the end.

use crate::backend::{to_render_backend, Backend};
use crate::command::CommandOutput;
use crate::entry::{order_by_start, MathPreviewEntry};
use crate::request::{render_key, RenderRequest};
use crate::svg::{default_svg_size, SvgSize};
use std::collections::HashMap;
use vstd::prelude::*;

verus! {

/// A picture: its file and its size.
#[derive(Debug)]
pub struct RenderedSvg {
    pub path: String,
    pub size: SvgSize,
}

impl Clone for RenderedSvg {
    fn clone(&self) -> (r: Self)
        ensures
            r == *self,
    {
        RenderedSvg { path: self.path.clone(), size: self.size }
    }
}

/// Pictures, under the keys of their formulas.
pub type RenderCache = HashMap<u64, RenderedSvg>;

/// The picture that a rendering came to: `path` is where it is to be, `output` what the last
/// program that ran left, `is_file` whether there is a file at `path`, and `size` the size
/// that the file gives. There is a picture if the program succeeded and left the file; one
/// that gives no size is sixteen pixels wide and high.
pub fn picture_made(path: String, output: &CommandOutput, is_file: bool, size: Option<SvgSize>)
    -> (r: Option<RenderedSvg>)
    ensures
        r is Some <==> output.deep_view().succeeded() && is_file,
        r matches Some(picture) ==> picture.path@ == path@ && picture.size == match size {
            Some(size) => size,
            None => SvgSize { width: crate::svg::SIXTEEN, height: crate::svg::SIXTEEN },
        },
{
    if !output.success() || !is_file {
        return None;
    }
    let size = match size {
        Some(size) => size,
        None => default_svg_size(),
    };
    Some(RenderedSvg { path, size })
}

/// A pass over the formulas of a text.
#[derive(Debug)]
pub struct PreviewPass {
    requests: Vec<RenderRequest>,
    rendered: Vec<Option<RenderedSvg>>,
    cache: RenderCache,
    pending: Vec<usize>,
    next: usize,
}

/// What a `PreviewPass` holds.
pub struct PreviewPassView {
    /// The formulas.
    pub requests: Seq<crate::request::RenderRequestView>,
    /// The picture of each formula, as far as there is one.
    pub rendered: Seq<Option<RenderedSvg>>,
    /// The pictures that are remembered.
    pub cache: Map<u64, RenderedSvg>,
    /// The formulas whose pictures are being made, in their order.
    pub pending: Seq<usize>,
}

impl View for PreviewPass {
    type V = PreviewPassView;

    closed spec fn view(&self) -> PreviewPassView {
        PreviewPassView {
            requests: self.requests.deep_view(),
            rendered: self.rendered@,
            cache: self.cache@,
            pending: self.pending@.skip(self.next as int),
        }
    }
}

/// The formula `request` goes to `backend`.
pub open spec fn goes_to(request: crate::request::RenderRequestView, backend: Backend) -> bool {
    crate::backend::renderer(request.backend) == backend
}

/// The positions of the formulas that go to `backend` and whose picture is not remembered.
pub open spec fn missing(
    requests: Seq<crate::request::RenderRequestView>,
    cache: Map<u64, RenderedSvg>,
    backend: Backend,
) -> Seq<usize>
    decreases requests.len(),
{
    if requests.len() == 0 {
        seq![]
    } else {
        let before = missing(requests.drop_last(), cache, backend);
        if goes_to(requests.last(), backend) && !cache.contains_key(requests.last().key()) {
            before.push((requests.len() - 1) as usize)
        } else {
            before
        }
    }
}

/// The entry for a formula with its picture.
pub open spec fn entry_for(
    request: crate::request::RenderRequestView,
    picture: RenderedSvg,
) -> MathPreviewEntry {
    MathPreviewEntry {
        range: request.range,
        kind: request.kind,
        backend: request.backend,
        svg_path: picture.path,
        size: picture.size,
        inline_enabled: request.inline_enabled,
        popover_enabled: request.popover_enabled,
    }
}

/// The entries for all formulas that have a picture, in the order of the formulas.
pub open spec fn entries_for(
    requests: Seq<crate::request::RenderRequestView>,
    rendered: Seq<Option<RenderedSvg>>,
) -> Seq<MathPreviewEntry>
    decreases requests.len(),
{
    if requests.len() == 0 {
        seq![]
    } else {
        let before = entries_for(requests.drop_last(), rendered);
        match rendered[requests.len() - 1] {
            Some(picture) => before.push(entry_for(requests.last(), picture)),
            None => before,
        }
    }
}

impl PreviewPassView {
    /// The pass once the formulas for `backend` are looked up: those that are remembered have
    /// their picture, the others are being made.
    pub open spec fn looked_up(self, backend: Backend) -> PreviewPassView {
        PreviewPassView {
            rendered: Seq::new(
                self.rendered.len(),
                |i: int|
                    {
                        if goes_to(self.requests[i], backend) && self.cache.contains_key(
                            self.requests[i].key(),
                        ) {
                            Some(self.cache[self.requests[i].key()])
                        } else {
                            self.rendered[i]
                        }
                    },
            ),
            pending: missing(self.requests, self.cache, backend),
            ..self
        }
    }

    /// The pass once the next picture came out, or did not.
    pub open spec fn answered(self, reply: Option<RenderedSvg>) -> PreviewPassView {
        if self.pending.len() == 0 {
            self
        } else {
            let at = self.pending[0] as int;
            match reply {
                Some(picture) => PreviewPassView {
                    rendered: self.rendered.update(at, Some(picture)),
                    cache: self.cache.insert(self.requests[at].key(), picture),
                    pending: self.pending.skip(1),
                    ..self
                },
                None => PreviewPassView { pending: self.pending.skip(1), ..self },
            }
        }
    }

    /// The pass once all of `replies` came, in turn.
    pub open spec fn answered_all(self, replies: Seq<Option<RenderedSvg>>) -> PreviewPassView
        decreases replies.len(),
    {
        if replies.len() == 0 {
            self
        } else {
            self.answered_all(replies.drop_last()).answered(replies.last())
        }
    }

    /// The pass once the formulas for `backend` were looked up and `replies` came for those
    /// that were not remembered.
    pub open spec fn rendered_by(
        self,
        backend: Backend,
        replies: Seq<Option<RenderedSvg>>,
    ) -> PreviewPassView {
        self.looked_up(backend).answered_all(replies)
    }

    /// There is a place for the picture of each formula.
    pub open spec fn wf(self) -> bool {
        self.requests.len() == self.rendered.len() <= usize::MAX
    }

    /// What is shown in the end.
    pub open spec fn entries(self) -> Seq<MathPreviewEntry> {
        crate::entry::ordered(entries_for(self.requests, self.rendered))
    }
}

impl PreviewPass {
    /// There is a place for the picture of each formula, and the pictures that are being
    /// made have theirs.
    pub closed spec fn wf(&self) -> bool {
        &&& self.requests@.len() == self.rendered@.len()
        &&& self.next <= self.pending@.len()
        &&& forall|i: int|
            0 <= i < self.pending@.len() ==> (#[trigger] self.pending@[i]) < self.requests@.len()
    }

    /// A pass over `requests`, with the pictures that `cache` remembers.
    pub fn new(requests: Vec<RenderRequest>, cache: RenderCache) -> (r: Self)
        ensures
            r.wf(),
            r@.requests == requests.deep_view(),
            r@.rendered.len() == requests@.len(),
            forall|i: int| 0 <= i < r@.rendered.len() ==> r@.rendered[i] is None,
            r@.cache == cache@,
            r@.pending == Seq::<usize>::empty(),
    {
        let mut rendered: Vec<Option<RenderedSvg>> = Vec::new();
        for i in 0..requests.len()
            invariant
                rendered@.len() == i,
                forall|j: int| 0 <= j < i ==> rendered@[j] is None,
        {
            rendered.push(None);
        }
        let r = PreviewPass { requests, rendered, cache, pending: Vec::new(), next: 0 };
        assert(r@.pending =~= Seq::empty());
        r
    }

    /// Looks up the formulas for `backend`. The result is the sources of those whose pictures
    /// are to be made.
    pub fn start_backend(&mut self, backend: Backend) -> (r: Vec<String>)
        requires
            old(self).wf(),
        ensures
            final(self).wf(),
            final(self)@ == old(self)@.looked_up(backend),
            r.deep_view() == final(self)@.pending.map_values(
                |i: usize| final(self)@.requests[i as int].content,
            ),
    {
        let mut sources: Vec<String> = Vec::new();
        let mut pending: Vec<usize> = Vec::new();
        let ghost before = self@;
        let ghost all = self.requests.deep_view();
        let count = self.requests.len();
        assert(all.take(0) =~= seq![]);
        for i in 0..count
            invariant
                count == all.len(),
                self.requests == old(self).requests,
                self.cache == old(self).cache,
                all == self.requests.deep_view(),
                before == old(self)@,
                before.requests == all,
                before.cache == self.cache@,
                before.rendered == old(self).rendered@,
                before.rendered.len() == all.len(),
                self.rendered@.len() == all.len(),
                pending@ == missing(all.take(i as int), self.cache@, backend),
                sources@.len() == pending@.len(),
                forall|j: int|
                    0 <= j < pending@.len() ==> (#[trigger] pending@[j]) < i && sources@[j]@
                        == all[pending@[j] as int].content,
                forall|j: int|
                    0 <= j < i ==> #[trigger] self.rendered@[j] == before.looked_up(
                        backend,
                    ).rendered[j],
                forall|j: int|
                    i <= j < all.len() ==> #[trigger] self.rendered@[j] == before.rendered[j],
        {
            assert(all.take(i + 1).drop_last() =~= all.take(i as int));
            assert(all[i as int] == self.requests@[i as int].deep_view());
            if to_render_backend(self.requests[i].backend) == backend {
                let key = render_key(&self.requests[i]);
                match self.cache.get(&key) {
                    Some(picture) => {
                        let picture = picture.clone();
                        self.rendered.set(i, Some(picture));
                    },
                    None => {
                        pending.push(i);
                        sources.push(self.requests[i].content.clone());
                    },
                }
            }
        }
        self.pending = pending;
        self.next = 0;
        proof {
            assert(all.take(all.len() as int) =~= all);
            assert(self.pending@.skip(0) =~= self.pending@);
            assert(self@.rendered =~= before.looked_up(backend).rendered);
            assert(sources.deep_view() =~= self@.pending.map_values(
                |i: usize| self@.requests[i as int].content,
            ));
        }
        sources
    }

    /// Takes the reply for the next source, in the order in which they were handed out: the
    /// picture, or `None` where none was made. The result is whether one was awaited.
    pub fn record(&mut self, reply: Option<RenderedSvg>) -> (r: bool)
        requires
            old(self).wf(),
        ensures
            final(self).wf(),
            final(self)@ == old(self)@.answered(reply),
            r == (old(self)@.pending.len() > 0),
    {
        if self.next >= self.pending.len() {
            return false;
        }
        let at: usize = self.pending[self.next];
        assert(at == self@.pending[0]);
        assert(self.pending@.skip(self.next as int).skip(1) =~= self.pending@.skip(self.next + 1));
        assert(self.requests.deep_view()[at as int] == self.requests@[at as int].deep_view());
        self.next = self.next + 1;
        if let Some(picture) = reply {
            let key = render_key(&self.requests[at]);
            self.cache.insert(key, picture.clone());
            self.rendered.set(at, Some(picture));
        }
        true
    }

    /// Ends the pass: what is shown, in the order in which it starts, and all pictures that
    /// are remembered.
    pub fn finish(self) -> (r: (Vec<MathPreviewEntry>, RenderCache))
        requires
            self.wf(),
        ensures
            r.0@ == self@.entries(),
            r.1@ == self@.cache,
            forall|i: int|
                0 <= i < self@.requests.len() && (#[trigger] self@.rendered[i]) is Some ==> exists|
                    k: int,
                |
                    0 <= k < r.0@.len() && {
                        let entry = #[trigger] r.0@[k];
                        let request = self@.requests[i];
                        let picture = self@.rendered[i]->0;
                        &&& entry.range == request.range
                        &&& entry.kind == request.kind
                        &&& entry.backend == request.backend
                        &&& entry.inline_enabled == request.inline_enabled
                        &&& entry.popover_enabled == request.popover_enabled
                        &&& entry.svg_path@ == picture.path@
                        &&& entry.size == picture.size
                    },
    {
        let mut entries: Vec<MathPreviewEntry> = Vec::new();
        let ghost all = self.requests.deep_view();
        assert(all.take(0) =~= seq![]);
        for i in 0..self.requests.len()
            invariant
                all == self.requests.deep_view(),
                self.rendered@.len() == all.len(),
                entries@ == entries_for(all.take(i as int), self.rendered@),
        {
            assert(all.take(i + 1).drop_last() =~= all.take(i as int));
            assert(all[i as int] == self.requests@[i as int].deep_view());
            if let Some(picture) = &self.rendered[i] {
                let picture = picture.clone();
                let request = &self.requests[i];
                entries.push(
                    MathPreviewEntry {
                        range: request.range,
                        kind: request.kind,
                        backend: request.backend,
                        svg_path: picture.path,
                        size: picture.size,
                        inline_enabled: request.inline_enabled,
                        popover_enabled: request.popover_enabled,
                    },
                );
            }
        }
        assert(all.take(all.len() as int) =~= all);
        proof {
            assert forall|i: int|
                0 <= i < self@.requests.len() && (
                #[trigger] self@.rendered[i]) is Some implies exists|k: int|
                0 <= k < self@.entries().len() && {
                    let entry = #[trigger] self@.entries()[k];
                    let request = self@.requests[i];
                    let picture = self@.rendered[i]->0;
                    &&& entry.range == request.range
                    &&& entry.kind == request.kind
                    &&& entry.backend == request.backend
                    &&& entry.inline_enabled == request.inline_enabled
                    &&& entry.popover_enabled == request.popover_enabled
                    &&& entry.svg_path@ == picture.path@
                    &&& entry.size == picture.size
                } by {
                law_each_picture_is_shown(self@, i);
            }
        }
        (order_by_start(entries), self.cache)
    }
}

/// A picture that was made for a formula is remembered, and found by the next look-up for the
/// same formula.
pub proof fn law_picture_is_remembered(
    pass: PreviewPassView,
    picture: RenderedSvg,
    later: PreviewPassView,
    i: int,
)
    requires
        pass.pending.len() > 0,
        later.cache == pass.answered(Some(picture)).cache,
        later.rendered.len() == later.requests.len(),
        0 <= i < later.requests.len(),
        later.requests[i].key() == pass.requests[pass.pending[0] as int].key(),
    ensures
        later.looked_up(
            crate::backend::renderer(later.requests[i].backend),
        ).rendered[i] == Some(picture),
{
}

/// Only formulas for the backend whose picture is not remembered are made.
pub proof fn law_missing(
    requests: Seq<crate::request::RenderRequestView>,
    cache: Map<u64, RenderedSvg>,
    backend: Backend,
    at: usize,
)
    requires
        requests.len() <= usize::MAX,
    ensures
        missing(requests, cache, backend).contains(at) <==> (at < requests.len() && goes_to(
            requests[at as int],
            backend,
        ) && !cache.contains_key(requests[at as int].key())),
    decreases requests.len(),
{
    let found = missing(requests, cache, backend);
    if requests.len() > 0 {
        let less = requests.drop_last();
        let before = missing(less, cache, backend);
        law_missing(less, cache, backend, at);
        if found.contains(at) && at < less.len() {
            let k = found.index_of(at);
            assert(k < before.len());
            assert(before[k] == at);
        }
        if before.contains(at) {
            assert(found[before.index_of(at)] == at);
        }
        if found.contains(at) && !before.contains(at) {
            let k = found.index_of(at);
            if k < before.len() {
                assert(before[k] == at);
            }
        }
        if at == requests.len() - 1 && found.len() > before.len() {
            assert(found[found.len() - 1] == at);
        }
    }
}

/// The positions of the formulas whose pictures are made come in order, so none comes twice.
proof fn lemma_missing_in_order(
    requests: Seq<crate::request::RenderRequestView>,
    cache: Map<u64, RenderedSvg>,
    backend: Backend,
)
    requires
        requests.len() <= usize::MAX,
    ensures
        forall|i: int, j: int|
            #![trigger missing(requests, cache, backend)[i], missing(requests, cache, backend)[j]]
            0 <= i < j < missing(requests, cache, backend).len() ==> missing(
                requests,
                cache,
                backend,
            )[i] < missing(requests, cache, backend)[j],
        forall|i: int|
            0 <= i < missing(requests, cache, backend).len() ==> (#[trigger] missing(
                requests,
                cache,
                backend,
            )[i]) < requests.len(),
    decreases requests.len(),
{
    if requests.len() > 0 {
        lemma_missing_in_order(requests.drop_last(), cache, backend);
        let before = missing(requests.drop_last(), cache, backend);
        let found = missing(requests, cache, backend);
        assert forall|i: int| 0 <= i < found.len() implies (#[trigger] found[i])
            < requests.len() by {
            if i < before.len() {
                assert(found[i] == before[i]);
            }
        }
        assert forall|i: int, j: int|
            #![trigger found[i], found[j]]
            0 <= i < j < found.len() implies found[i] < found[j] by {
            assert(found[i] == before[i]);
            if j < before.len() {
                assert(found[j] == before[j]);
            }
        }
    }
}

/// What the first replies for `backend` come to.
proof fn lemma_answered_all(
    pass: PreviewPassView,
    backend: Backend,
    replies: Seq<Option<RenderedSvg>>,
)
    requires
        pass.wf(),
        replies.len() <= missing(pass.requests, pass.cache, backend).len(),
    ensures
        ({
            let asked = missing(pass.requests, pass.cache, backend);
            let start = pass.looked_up(backend);
            let after = pass.rendered_by(backend, replies);
            &&& after.requests == pass.requests
            &&& after.rendered.len() == pass.rendered.len()
            &&& after.pending == asked.skip(replies.len() as int)
            &&& forall|k: int|
                0 <= k < replies.len() ==> after.rendered[#[trigger] asked[k] as int] == (
                if replies[k] is Some {
                    replies[k]
                } else {
                    pass.rendered[asked[k] as int]
                })
            &&& forall|i: int|
                0 <= i < pass.rendered.len() && !asked.take(replies.len() as int).contains(
                    i as usize,
                ) ==> #[trigger] after.rendered[i] == start.rendered[i]
            &&& forall|key: u64| #[trigger]
                pass.cache.contains_key(key) ==> after.cache.contains_key(key) && after.cache[key]
                    == pass.cache[key]
            &&& forall|key: u64| #[trigger]
                after.cache.contains_key(key) && !pass.cache.contains_key(key) ==> exists|k: int|
                    0 <= k < replies.len() && pass.requests[#[trigger] asked[k] as int].key()
                        == key && replies[k] == Some(after.cache[key])
            &&& forall|k: int|
                0 <= k < replies.len() && replies[k] is Some ==> after.cache.contains_key(
                    pass.requests[#[trigger] asked[k] as int].key(),
                )
        }),
    decreases replies.len(),
{
    let asked = missing(pass.requests, pass.cache, backend);
    let start = pass.looked_up(backend);
    let after = pass.rendered_by(backend, replies);
    lemma_missing_in_order(pass.requests, pass.cache, backend);
    if replies.len() == 0 {
        assert(asked.skip(0) =~= asked);
    } else {
        let less = replies.drop_last();
        let n = less.len() as int;
        lemma_answered_all(pass, backend, less);
        let before = pass.rendered_by(backend, less);
        assert(before.pending[0] == asked[n]);
        assert(before.pending.skip(1) =~= asked.skip(n + 1));
        let at = asked[n] as int;
        law_missing(pass.requests, pass.cache, backend, asked[n]);
        assert(asked.contains(asked[n]));
        assert(!asked.take(n).contains(asked[n])) by {
            if asked.take(n).contains(asked[n]) {
                let k = asked.take(n).index_of(asked[n]);
                assert(asked[k] == asked[n]);
            }
        }
        assert(before.rendered[at] == start.rendered[at]);
        assert(start.rendered[at] == pass.rendered[at]);
        assert forall|k: int| 0 <= k < replies.len() implies after.rendered[#[trigger] asked[k] as int]
            == (if replies[k] is Some {
            replies[k]
        } else {
            pass.rendered[asked[k] as int]
        }) by {
            if k < n {
                assert(less[k] == replies[k]);
                assert(asked[k] < asked[n]);
                assert(before.rendered[asked[k] as int] == if less[k] is Some {
                    less[k]
                } else {
                    pass.rendered[asked[k] as int]
                });
            }
        }
        assert forall|i: int|
            0 <= i < pass.rendered.len() && !asked.take(n + 1).contains(
                i as usize,
            ) implies #[trigger] after.rendered[i] == start.rendered[i] by {
            assert(asked.take(n + 1)[n] == asked[n]);
            if asked.take(n).contains(i as usize) {
                let k = asked.take(n).index_of(i as usize);
                assert(asked.take(n + 1)[k] == i as usize);
            }
            assert(before.rendered[i] == start.rendered[i]);
        }
        assert forall|key: u64| #[trigger]
            after.cache.contains_key(key) && !pass.cache.contains_key(key) implies exists|k: int|
            0 <= k < replies.len() && pass.requests[#[trigger] asked[k] as int].key() == key
                && replies[k] == Some(after.cache[key]) by {
            if replies[n] is Some && key == pass.requests[at].key() {
                assert(pass.requests[asked[n] as int].key() == key);
            } else {
                assert(before.cache.contains_key(key));
                let k = choose|k: int|
                    0 <= k < less.len() && pass.requests[#[trigger] asked[k] as int].key() == key
                        && less[k] == Some(before.cache[key]);
                assert(replies[k] == less[k]);
            }
        }
        assert forall|k: int| 0 <= k < replies.len() && replies[k] is Some implies after.cache.contains_key(
            pass.requests[#[trigger] asked[k] as int].key(),
        ) by {
            if k < n {
                assert(less[k] == replies[k]);
            }
        }
    }
}

/// Once all replies for `backend` came, each of its formulas has the picture that was
/// remembered for it, or the reply to its own source. The other formulas are as before.
pub proof fn law_each_formula_has_its_own_picture(
    pass: PreviewPassView,
    backend: Backend,
    replies: Seq<Option<RenderedSvg>>,
    i: int,
)
    requires
        pass.wf(),
        replies.len() == missing(pass.requests, pass.cache, backend).len(),
        0 <= i < pass.requests.len(),
        pass.rendered[i] is None || !goes_to(pass.requests[i], backend),
    ensures
        ({
            let asked = missing(pass.requests, pass.cache, backend);
            let key = pass.requests[i].key();
            pass.rendered_by(backend, replies).rendered[i] == if !goes_to(
                pass.requests[i],
                backend,
            ) {
                pass.rendered[i]
            } else if pass.cache.contains_key(key) {
                Some(pass.cache[key])
            } else {
                replies[asked.index_of(i as usize)]
            }
        }),
        !pass.cache.contains_key(pass.requests[i].key()) && goes_to(pass.requests[i], backend)
            ==> missing(pass.requests, pass.cache, backend).contains(i as usize),
{
    let asked = missing(pass.requests, pass.cache, backend);
    lemma_answered_all(pass, backend, replies);
    law_missing(pass.requests, pass.cache, backend, i as usize);
    assert(asked.take(replies.len() as int) =~= asked);
    if asked.contains(i as usize) {
        let k = asked.index_of(i as usize);
        assert(asked[k] == i as usize);
    }
}

/// No picture that is remembered is lost or changed, however many of the replies for
/// `backend` came. What is remembered besides is a reply to a formula with that key, and
/// each picture that was made is remembered under the key of its formula.
pub proof fn law_remembered_pictures_are_kept(
    pass: PreviewPassView,
    backend: Backend,
    replies: Seq<Option<RenderedSvg>>,
    key: u64,
)
    requires
        pass.wf(),
        replies.len() <= missing(pass.requests, pass.cache, backend).len(),
    ensures
        ({
            let asked = missing(pass.requests, pass.cache, backend);
            let cache = pass.rendered_by(backend, replies).cache;
            &&& pass.cache.contains_key(key) ==> cache.contains_key(key) && cache[key]
                == pass.cache[key]
            &&& cache.contains_key(key) && !pass.cache.contains_key(key) ==> exists|k: int|
                0 <= k < replies.len() && pass.requests[#[trigger] asked[k] as int].key() == key
                    && replies[k] == Some(cache[key])
            &&& forall|k: int|
                0 <= k < replies.len() && replies[k] is Some ==> cache.contains_key(
                    pass.requests[#[trigger] asked[k] as int].key(),
                )
        }),
{
    lemma_answered_all(pass, backend, replies);
}

/// A whole pass, with the replies for both backends. Each formula ends with the picture that
/// was remembered for it when its backend was looked up, or with the reply to its own source,
/// and no picture that was remembered at the start is lost or changed.
pub proof fn law_whole_pass(
    pass: PreviewPassView,
    latex: Seq<Option<RenderedSvg>>,
    typst: Seq<Option<RenderedSvg>>,
    i: int,
    key: u64,
)
    requires
        pass.wf(),
        forall|j: int| 0 <= j < pass.rendered.len() ==> (#[trigger] pass.rendered[j]) is None,
        latex.len() == missing(pass.requests, pass.cache, Backend::LaTeX).len(),
        typst.len() == missing(
            pass.requests,
            pass.rendered_by(Backend::LaTeX, latex).cache,
            Backend::Typst,
        ).len(),
        0 <= i < pass.requests.len(),
    ensures
        ({
            let half = pass.rendered_by(Backend::LaTeX, latex);
            let end = half.rendered_by(Backend::Typst, typst);
            let own = pass.requests[i].key();
            &&& goes_to(pass.requests[i], Backend::LaTeX) ==> end.rendered[i] == if pass.cache.contains_key(
                own,
            ) {
                Some(pass.cache[own])
            } else {
                latex[missing(pass.requests, pass.cache, Backend::LaTeX).index_of(i as usize)]
            }
            &&& goes_to(pass.requests[i], Backend::Typst) ==> end.rendered[i] == if half.cache.contains_key(
                own,
            ) {
                Some(half.cache[own])
            } else {
                typst[missing(pass.requests, half.cache, Backend::Typst).index_of(i as usize)]
            }
            &&& end.requests == pass.requests
            &&& pass.cache.contains_key(key) ==> end.cache.contains_key(key) && end.cache[key]
                == pass.cache[key]
        }),
{
    let half = pass.rendered_by(Backend::LaTeX, latex);
    lemma_answered_all(pass, Backend::LaTeX, latex);
    law_each_formula_has_its_own_picture(pass, Backend::LaTeX, latex, i);
    law_each_formula_has_its_own_picture(half, Backend::Typst, typst, i);
    lemma_answered_all(half, Backend::Typst, typst);
}

/// A reply is put with the formula that it answers, and changes the picture of no other.
pub proof fn law_reply_goes_to_its_formula(
    pass: PreviewPassView,
    reply: Option<RenderedSvg>,
    i: int,
)
    requires
        pass.pending.len() > 0,
        0 <= i < pass.rendered.len(),
        0 <= pass.pending[0] < pass.rendered.len(),
    ensures
        i != pass.pending[0] ==> pass.answered(reply).rendered[i] == pass.rendered[i],
        i == pass.pending[0] && reply is Some ==> pass.answered(reply).rendered[i] == reply,
        reply is None ==> pass.answered(reply).rendered == pass.rendered
            && pass.answered(reply).cache == pass.cache,
{
}

/// Where all pictures are remembered, none is made, and every formula is shown.
pub proof fn law_all_remembered(
    requests: Seq<crate::request::RenderRequestView>,
    cache: Map<u64, RenderedSvg>,
    backend: Backend,
)
    requires
        forall|i: int|
            0 <= i < requests.len() ==> cache.contains_key((#[trigger] requests[i]).key()),
    ensures
        missing(requests, cache, backend) == Seq::<usize>::empty(),
        ({
            let pass = PreviewPassView {
                requests,
                rendered: Seq::new(requests.len(), |i: int| None),
                cache,
                pending: seq![],
            };
            pass.looked_up(Backend::LaTeX).looked_up(Backend::Typst).entries().len()
                == requests.len()
        }),
{
    lemma_nothing_missing(requests, cache, backend);
    let pass = PreviewPassView {
        requests,
        rendered: Seq::new(requests.len(), |i: int| None),
        cache,
        pending: seq![],
    };
    let looked_up = pass.looked_up(Backend::LaTeX).looked_up(Backend::Typst);
    assert forall|i: int| 0 <= i < requests.len() implies (#[trigger] looked_up.rendered[i])
        is Some by {
        assert(cache.contains_key(requests[i].key()));
    }
    lemma_entry_for_each(requests, looked_up.rendered);
    crate::entry::law_ordered_is_in_order(entries_for(requests, looked_up.rendered));
}

/// Where all pictures are remembered, none is missing.
proof fn lemma_nothing_missing(
    requests: Seq<crate::request::RenderRequestView>,
    cache: Map<u64, RenderedSvg>,
    backend: Backend,
)
    requires
        forall|i: int|
            0 <= i < requests.len() ==> cache.contains_key((#[trigger] requests[i]).key()),
    ensures
        missing(requests, cache, backend) == Seq::<usize>::empty(),
    decreases requests.len(),
{
    if requests.len() > 0 {
        assert(requests.last() == requests[requests.len() - 1]);
        lemma_nothing_missing(requests.drop_last(), cache, backend);
    }
}

/// Where all formulas have a picture, there is an entry for each.
proof fn lemma_entry_for_each(
    requests: Seq<crate::request::RenderRequestView>,
    rendered: Seq<Option<RenderedSvg>>,
)
    requires
        requests.len() <= rendered.len(),
        forall|i: int| 0 <= i < requests.len() ==> (#[trigger] rendered[i]) is Some,
    ensures
        entries_for(requests, rendered).len() == requests.len(),
    decreases requests.len(),
{
    if requests.len() > 0 {
        lemma_entry_for_each(requests.drop_last(), rendered);
    }
}

/// A formula goes to LaTeX exactly if it is written for LaTeX, and to Typst otherwise.
pub proof fn law_goes_to(request: crate::request::RenderRequestView)
    ensures
        goes_to(request, Backend::LaTeX) <==> request.backend
            == crate::backend::MathPreviewBackend::Latex,
        goes_to(request, Backend::Typst) <==> request.backend
            == crate::backend::MathPreviewBackend::Typst,
{
}

/// The pictures that are made are asked for in the order of the formulas, none twice.
pub proof fn law_missing_is_in_order(
    requests: Seq<crate::request::RenderRequestView>,
    cache: Map<u64, RenderedSvg>,
    backend: Backend,
    i: int,
    j: int,
)
    requires
        requests.len() <= usize::MAX,
        0 <= i < j < missing(requests, cache, backend).len(),
    ensures
        missing(requests, cache, backend)[i] < missing(requests, cache, backend)[j],
{
    lemma_missing_in_order(requests, cache, backend);
}

/// Looking up the formulas for a backend changes nothing but pictures: each formula for it
/// whose picture is remembered has that one, and the others are as before.
pub proof fn law_looked_up(pass: PreviewPassView, backend: Backend, i: int)
    ensures
        pass.looked_up(backend).requests == pass.requests,
        pass.looked_up(backend).cache == pass.cache,
        pass.looked_up(backend).rendered.len() == pass.rendered.len(),
        0 <= i < pass.rendered.len() ==> {
            let key = pass.requests[i].key();
            pass.looked_up(backend).rendered[i] == if goes_to(pass.requests[i], backend)
                && pass.cache.contains_key(key) {
                Some(pass.cache[key])
            } else {
                pass.rendered[i]
            }
        },
{
}

/// A reply is taken for the first formula that awaits one: the next awaits the next reply, and
/// a picture is remembered under the key of its own formula, with all others as before.
pub proof fn law_answered(pass: PreviewPassView, reply: Option<RenderedSvg>, key: u64)
    requires
        pass.pending.len() > 0,
        0 <= pass.pending[0] < pass.rendered.len(),
    ensures
        pass.answered(reply).requests == pass.requests,
        pass.answered(reply).rendered.len() == pass.rendered.len(),
        pass.answered(reply).pending == pass.pending.skip(1),
        reply is None ==> pass.answered(reply).cache == pass.cache,
        reply matches Some(picture) ==> {
            let own = pass.requests[pass.pending[0] as int].key();
            let cache = pass.answered(reply).cache;
            &&& cache.contains_key(own) && cache[own] == picture
            &&& key != own ==> (cache.contains_key(key) <==> pass.cache.contains_key(key))
            &&& key != own && pass.cache.contains_key(key) ==> cache[key] == pass.cache[key]
        },
{
}

/// Each formula with a picture has its entry.
proof fn lemma_entries_for_contains(
    requests: Seq<crate::request::RenderRequestView>,
    rendered: Seq<Option<RenderedSvg>>,
    i: int,
)
    requires
        0 <= i < requests.len() <= rendered.len(),
        rendered[i] is Some,
    ensures
        entries_for(requests, rendered).contains(entry_for(requests[i], rendered[i]->0)),
    decreases requests.len(),
{
    let less = requests.drop_last();
    let before = entries_for(less, rendered);
    let all = entries_for(requests, rendered);
    let entry = entry_for(requests[i], rendered[i]->0);
    if i < less.len() {
        lemma_entries_for_contains(less, rendered, i);
        assert(all[before.index_of(entry)] == entry);
    } else {
        assert(all[all.len() - 1] == entry);
    }
}

/// Each entry is that of a formula with a picture.
proof fn lemma_entries_for_come_from(
    requests: Seq<crate::request::RenderRequestView>,
    rendered: Seq<Option<RenderedSvg>>,
    k: int,
) -> (i: int)
    requires
        requests.len() <= rendered.len(),
        0 <= k < entries_for(requests, rendered).len(),
    ensures
        0 <= i < requests.len(),
        rendered[i] is Some,
        entries_for(requests, rendered)[k] == entry_for(requests[i], rendered[i]->0),
    decreases requests.len(),
{
    let less = requests.drop_last();
    let before = entries_for(less, rendered);
    if k < before.len() {
        let i = lemma_entries_for_come_from(less, rendered, k);
        assert(less[i] == requests[i]);
        i
    } else {
        requests.len() - 1
    }
}

/// Each formula whose picture is there is shown: there is an entry with exactly its range,
/// kind, language and wishes, and with the file and the size of that picture.
pub proof fn law_each_picture_is_shown(pass: PreviewPassView, i: int)
    requires
        pass.requests.len() == pass.rendered.len(),
        0 <= i < pass.requests.len(),
        pass.rendered[i] is Some,
    ensures
        exists|k: int|
            0 <= k < pass.entries().len() && {
                let entry = #[trigger] pass.entries()[k];
                let request = pass.requests[i];
                let picture = pass.rendered[i]->0;
                &&& entry.range == request.range
                &&& entry.kind == request.kind
                &&& entry.backend == request.backend
                &&& entry.inline_enabled == request.inline_enabled
                &&& entry.popover_enabled == request.popover_enabled
                &&& entry.svg_path@ == picture.path@
                &&& entry.size == picture.size
            },
{
    let unordered = entries_for(pass.requests, pass.rendered);
    let entry = entry_for(pass.requests[i], pass.rendered[i]->0);
    lemma_entries_for_contains(pass.requests, pass.rendered, i);
    crate::entry::law_ordered_holds_the_same(unordered);
    unordered.to_multiset_ensures();
    pass.entries().to_multiset_ensures();
    assert(unordered.to_multiset().count(entry) > 0);
    assert(pass.entries().contains(entry));
    let k = pass.entries().index_of(entry);
    assert(pass.entries()[k] == entry);
}

/// Nothing else is shown: each entry has the range, kind, language and wishes of one formula,
/// and the file and the size of the picture of that formula.
pub proof fn law_each_entry_shows_a_formula(pass: PreviewPassView, k: int)
    requires
        pass.requests.len() == pass.rendered.len(),
        0 <= k < pass.entries().len(),
    ensures
        exists|i: int|
            0 <= i < pass.requests.len() && (#[trigger] pass.rendered[i]) is Some && {
                let entry = pass.entries()[k];
                let request = pass.requests[i];
                let picture = pass.rendered[i]->0;
                &&& entry.range == request.range
                &&& entry.kind == request.kind
                &&& entry.backend == request.backend
                &&& entry.inline_enabled == request.inline_enabled
                &&& entry.popover_enabled == request.popover_enabled
                &&& entry.svg_path@ == picture.path@
                &&& entry.size == picture.size
            },
{
    let unordered = entries_for(pass.requests, pass.rendered);
    let entry = pass.entries()[k];
    crate::entry::law_ordered_holds_the_same(unordered);
    unordered.to_multiset_ensures();
    pass.entries().to_multiset_ensures();
    assert(pass.entries().contains(entry));
    assert(pass.entries().to_multiset().count(entry) > 0);
    assert(unordered.contains(entry));
    let at = unordered.index_of(entry);
    let i = lemma_entries_for_come_from(pass.requests, pass.rendered, at);
    assert(pass.rendered[i] is Some);
}

/// As many entries as formulas with a picture.
proof fn lemma_entries_for_len(
    requests: Seq<crate::request::RenderRequestView>,
    rendered: Seq<Option<RenderedSvg>>,
)
    requires
        requests.len() <= rendered.len(),
    ensures
        entries_for(requests, rendered).len() == rendered.take(requests.len() as int).filter(
            |picture: Option<RenderedSvg>| picture is Some,
        ).len(),
    decreases requests.len(),
{
    reveal(Seq::filter);
    if requests.len() > 0 {
        let n = requests.len() as int;
        lemma_entries_for_len(requests.drop_last(), rendered);
        assert(rendered.take(n).drop_last() =~= rendered.take(n - 1));
        assert(rendered.take(n).last() == rendered[n - 1]);
    }
}

/// As many entries are shown as formulas have a picture, in the order in which they start.
pub proof fn law_entries_are_counted(pass: PreviewPassView, i: int, j: int)
    requires
        pass.requests.len() == pass.rendered.len(),
    ensures
        pass.entries().len() == pass.rendered.filter(
            |picture: Option<RenderedSvg>| picture is Some,
        ).len(),
        0 <= i <= j < pass.entries().len() ==> pass.entries()[i].range.start
            <= pass.entries()[j].range.start,
{
    let unordered = entries_for(pass.requests, pass.rendered);
    lemma_entries_for_len(pass.requests, pass.rendered);
    assert(pass.rendered.take(pass.requests.len() as int) =~= pass.rendered);
    crate::entry::law_ordered_is_in_order(unordered);
    crate::entry::law_ordered_holds_the_same(unordered);
}

} // verus!
