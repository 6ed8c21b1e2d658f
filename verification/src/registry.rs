//! Which renderer serves which buffer.

use std::collections::HashSet;
use vstd::prelude::*;

verus! {

/// Where the renderer for a buffer comes from.
#[derive(Debug, Clone, Copy, PartialEq, Eq, Structural)]
pub enum ContextChoice {
    /// The one renderer for text without a buffer.
    Shared,
    /// The renderer that serves the buffer already.
    Existing,
    /// A new renderer, which serves the buffer from now on.
    Created,
}

/// The buffers for which a renderer was made. Which renderer that is, is told by a number that
/// no other renderer has; it is not there when the program runs.
pub struct ContextRegistry {
    buffers: HashSet<u64>,
    renderers: Ghost<Map<u64, nat>>,
    made: Ghost<nat>,
}

/// What a `ContextRegistry` holds.
pub struct ContextRegistryView {
    /// The last renderer that was made for each buffer. Renderers are numbered in the order in
    /// which they are made.
    pub renderers: Map<u64, nat>,
    /// How many renderers were made.
    pub made: nat,
}

impl View for ContextRegistry {
    type V = ContextRegistryView;

    closed spec fn view(&self) -> ContextRegistryView {
        ContextRegistryView { renderers: self.renderers@, made: self.made@ }
    }
}

impl ContextRegistryView {
    /// Each renderer that is held was made, and no two buffers hold the same one.
    pub open spec fn wf(self) -> bool {
        &&& forall|buffer: u64| #[trigger]
            self.renderers.contains_key(buffer) ==> self.renderers[buffer] < self.made
        &&& forall|a: u64, b: u64|
            #![trigger self.renderers[a], self.renderers[b]]
            self.renderers.contains_key(a) && self.renderers.contains_key(b) && a != b
                ==> self.renderers[a] != self.renderers[b]
    }

    /// Where the renderer for `buffer_id` comes from, where `live` tells whether the one that
    /// the buffer holds is still in use.
    pub open spec fn choice(self, buffer_id: Option<u64>, live: bool) -> ContextChoice {
        match buffer_id {
            None => ContextChoice::Shared,
            Some(buffer) => if live && self.renderers.contains_key(buffer) {
                ContextChoice::Existing
            } else {
                ContextChoice::Created
            },
        }
    }

    /// The renderer that `buffer_id` is given: `None` stands for the shared one.
    pub open spec fn given(self, buffer_id: Option<u64>, live: bool) -> Option<nat> {
        match (buffer_id, self.choice(buffer_id, live)) {
            (Some(buffer), ContextChoice::Existing) => Some(self.renderers[buffer]),
            (Some(_), _) => Some(self.made),
            (None, _) => None,
        }
    }

    /// What is held once `buffer_id` was given its renderer.
    pub open spec fn served(self, buffer_id: Option<u64>, live: bool) -> ContextRegistryView {
        match (buffer_id, self.choice(buffer_id, live)) {
            (Some(buffer), ContextChoice::Created) => ContextRegistryView {
                renderers: self.renderers.insert(buffer, self.made),
                made: self.made + 1,
            },
            _ => self,
        }
    }

    /// What is held once all of `calls` were given their renderers, in turn.
    pub open spec fn served_all(self, calls: Seq<(Option<u64>, bool)>) -> ContextRegistryView
        decreases calls.len(),
    {
        if calls.len() == 0 {
            self
        } else {
            self.served_all(calls.drop_last()).served(calls.last().0, calls.last().1)
        }
    }
}

impl ContextRegistry {
    /// The buffers are those that hold a renderer, and no two hold the same one.
    pub closed spec fn wf(&self) -> bool {
        self.buffers@ == self.renderers@.dom() && self@.wf()
    }

    /// No renderer was made.
    pub fn new() -> (r: Self)
        ensures
            r.wf(),
            r@ == (ContextRegistryView { renderers: Map::empty(), made: 0 }),
    {
        let r = ContextRegistry {
            buffers: HashSet::new(),
            renderers: Ghost(Map::empty()),
            made: Ghost(0),
        };
        assert(r.buffers@ =~= r.renderers@.dom());
        r
    }

    /// Where the renderer for a buffer comes from: it is the one that the buffer holds as long
    /// as that is in use, which `live` tells, else a new one. Text without a buffer has the
    /// shared renderer.
    pub fn render_context_for_buffer(&mut self, buffer_id: Option<u64>, live: bool) -> (r:
        ContextChoice)
        requires
            old(self).wf(),
        ensures
            final(self).wf(),
            final(self)@.wf(),
            r == old(self)@.choice(buffer_id, live),
            final(self)@ == old(self)@.served(buffer_id, live),
    {
        proof {
            lemma_served(self@, buffer_id, live);
        }
        match buffer_id {
            None => ContextChoice::Shared,
            Some(buffer) => {
                if live && self.buffers.contains(&buffer) {
                    return ContextChoice::Existing;
                }
                self.buffers.insert(buffer);
                self.renderers = Ghost(self.renderers@.insert(buffer, self.made@));
                self.made = Ghost(self.made@ + 1);
                assert(self.buffers@ =~= self.renderers@.dom());
                ContextChoice::Created
            },
        }
    }
}

/// Renderers that are held stay apart once another call came.
proof fn lemma_served(state: ContextRegistryView, buffer_id: Option<u64>, live: bool)
    requires
        state.wf(),
    ensures
        state.served(buffer_id, live).wf(),
{
}

/// Renderers that are held stay apart, whatever calls come, and numbers are counted on.
proof fn lemma_served_all(state: ContextRegistryView, calls: Seq<(Option<u64>, bool)>)
    requires
        state.wf(),
    ensures
        state.served_all(calls).wf(),
        state.made <= state.served_all(calls).made,
    decreases calls.len(),
{
    if calls.len() > 0 {
        lemma_served_all(state, calls.drop_last());
    }
}

/// A buffer keeps its renderer as long as that is in use, whatever calls for it and for other
/// buffers come in between.
pub proof fn law_buffer_keeps_its_renderer(
    state: ContextRegistryView,
    buffer: u64,
    live: bool,
    calls: Seq<(Option<u64>, bool)>,
)
    requires
        forall|i: int|
            0 <= i < calls.len() && (#[trigger] calls[i]).0 == Some(buffer) ==> calls[i].1,
    ensures
        ({
            let later = state.served(Some(buffer), live).served_all(calls);
            &&& later.choice(Some(buffer), true) is Existing
            &&& later.given(Some(buffer), true) == state.given(Some(buffer), live)
        }),
    decreases calls.len(),
{
    if calls.len() > 0 {
        let less = calls.drop_last();
        assert forall|i: int| 0 <= i < less.len() && (#[trigger] less[i]).0 == Some(
            buffer,
        ) implies less[i].1 by {
            assert(calls[i] == less[i]);
        }
        law_buffer_keeps_its_renderer(state, buffer, live, less);
        assert(calls.last() == calls[calls.len() - 1]);
    }
}

/// The renderer `number` was made, and no buffer but `buffer` holds it.
spec fn only_for(state: ContextRegistryView, number: nat, buffer: u64) -> bool {
    &&& number < state.made
    &&& forall|other: u64| #[trigger]
        state.renderers.contains_key(other) && other != buffer ==> state.renderers[other] != number
}

/// No buffer comes to hold the renderer of another, whatever calls come.
proof fn lemma_only_for(
    state: ContextRegistryView,
    number: nat,
    buffer: u64,
    calls: Seq<(Option<u64>, bool)>,
)
    requires
        state.wf(),
        only_for(state, number, buffer),
    ensures
        only_for(state.served_all(calls), number, buffer),
    decreases calls.len(),
{
    if calls.len() > 0 {
        lemma_only_for(state, number, buffer, calls.drop_last());
    }
}

/// Two buffers never have the same renderer, whatever is in use and whatever calls come in
/// between.
pub proof fn law_buffers_never_share(
    state: ContextRegistryView,
    a: u64,
    a_live: bool,
    calls: Seq<(Option<u64>, bool)>,
    b: u64,
    b_live: bool,
)
    requires
        state.wf(),
        a != b,
    ensures
        state.given(Some(a), a_live) != state.served(Some(a), a_live).served_all(calls).given(
            Some(b),
            b_live,
        ),
{
    let number = state.given(Some(a), a_live)->0;
    let after = state.served(Some(a), a_live);
    assert(only_for(after, number, a));
    lemma_only_for(after, number, a, calls);
}

/// Once the renderer of a buffer is no longer in use, the buffer is given a new one: one that
/// no call was given before, whatever calls come in between.
pub proof fn law_unused_renderer_is_replaced(
    state: ContextRegistryView,
    earlier: Option<u64>,
    earlier_live: bool,
    calls: Seq<(Option<u64>, bool)>,
    buffer: u64,
)
    requires
        state.wf(),
    ensures
        ({
            let later = state.served(earlier, earlier_live).served_all(calls);
            &&& later.choice(Some(buffer), false) is Created
            &&& later.given(Some(buffer), false) != state.given(earlier, earlier_live)
        }),
{
    lemma_served_all(state.served(earlier, earlier_live), calls);
}

/// Text without a buffer has the shared renderer, whatever calls came before, and no buffer
/// is ever given that one. Giving it out changes nothing.
pub proof fn law_shared_renderer_is_for_no_buffer(
    state: ContextRegistryView,
    calls: Seq<(Option<u64>, bool)>,
    buffer_id: Option<u64>,
    live: bool,
)
    ensures
        state.served_all(calls).choice(buffer_id, live) is Shared <==> buffer_id is None,
        state.served_all(calls).given(buffer_id, live) is None <==> buffer_id is None,
        state.served_all(calls).served(None, live) == state.served_all(calls),
{
}

} // verus!
