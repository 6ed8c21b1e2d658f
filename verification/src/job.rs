//! Rendering one formula, step by step: what to do next, and what was found.

use crate::backend::Backend;
use crate::cache::{cache_key, CacheKey, CachedPaths};
use crate::command::{CommandOutput, RenderCommand};
use crate::context::RenderContext;
use vstd::prelude::*;

verus! {

/// What to do next.
#[derive(Debug)]
pub enum RenderAction {
    /// Look whether there is a file at this path.
    CheckFile { path: String },
    /// Write the source file.
    WriteInput { path: String, contents: String },
    /// Run a program.
    Run { command: RenderCommand },
    /// Done: where the picture is, and the output of the last program that ran.
    Finish { path: String, output: CommandOutput },
    /// Done: writing the source file or running a program was not possible.
    Fail,
}

/// What a `RenderAction` holds.
pub enum RenderActionView {
    CheckFile { path: Seq<char> },
    WriteInput { path: Seq<char>, contents: Seq<char> },
    Run { command: crate::command::RenderCommandView },
    Finish { path: Seq<char>, output: crate::command::CommandOutputView },
    Fail,
}

impl DeepView for RenderAction {
    type V = RenderActionView;

    open spec fn deep_view(&self) -> RenderActionView {
        match self {
            RenderAction::CheckFile { path } => RenderActionView::CheckFile { path: path@ },
            RenderAction::WriteInput { path, contents } => RenderActionView::WriteInput {
                path: path@,
                contents: contents@,
            },
            RenderAction::Run { command } => RenderActionView::Run { command: command.deep_view() },
            RenderAction::Finish { path, output } => RenderActionView::Finish {
                path: path@,
                output: output.deep_view(),
            },
            RenderAction::Fail => RenderActionView::Fail,
        }
    }
}

/// What came of an action.
#[derive(Debug)]
pub enum RenderEvent {
    /// Whether there is a file.
    FileFound(bool),
    /// The source file is written.
    Written,
    /// A program ran to its end.
    Ran(CommandOutput),
    /// The source file could not be written, or a program not be run.
    IoFailed,
}

/// What a `RenderEvent` holds.
pub enum RenderEventView {
    FileFound(bool),
    Written,
    Ran(crate::command::CommandOutputView),
    IoFailed,
}

impl DeepView for RenderEvent {
    type V = RenderEventView;

    open spec fn deep_view(&self) -> RenderEventView {
        match self {
            RenderEvent::FileFound(found) => RenderEventView::FileFound(*found),
            RenderEvent::Written => RenderEventView::Written,
            RenderEvent::Ran(output) => RenderEventView::Ran(output.deep_view()),
            RenderEvent::IoFailed => RenderEventView::IoFailed,
        }
    }
}

/// How far a job has come.
#[derive(Debug)]
enum RenderPhase {
    Lookup { output: CommandOutput },
    Write,
    Run { commands: Vec<RenderCommand>, next: usize },
    Verify { output: CommandOutput },
    Done,
}

/// How far a job has come.
pub enum RenderPhaseView {
    /// The formula is remembered with this output; its picture is looked for.
    Lookup { output: crate::command::CommandOutputView },
    /// The source file is written.
    Write,
    /// The command at `next` runs.
    Run { commands: Seq<crate::command::RenderCommandView>, next: int },
    /// All commands ran, the last with this output; the picture is looked for.
    Verify { output: crate::command::CommandOutputView },
    /// Nothing is left to do.
    Done,
}

/// The rendering of one formula.
#[derive(Debug)]
pub struct RenderJob {
    fragment: String,
    key: CacheKey,
    paths: CachedPaths,
    phase: RenderPhase,
}

/// What a `RenderJob` holds.
pub struct RenderJobView {
    /// The source of the formula.
    pub fragment: Seq<char>,
    /// What it is remembered under.
    pub key: crate::cache::CacheKeyView,
    /// Its files.
    pub paths: crate::cache::CachedPathsView,
    /// How far the job has come.
    pub phase: RenderPhaseView,
}

impl DeepView for RenderJob {
    type V = RenderJobView;

    closed spec fn deep_view(&self) -> RenderJobView {
        RenderJobView {
            fragment: self.fragment@,
            key: self.key.deep_view(),
            paths: self.paths.deep_view(),
            phase: match self.phase {
                RenderPhase::Lookup { output } => RenderPhaseView::Lookup {
                    output: output.deep_view(),
                },
                RenderPhase::Write => RenderPhaseView::Write,
                RenderPhase::Run { commands, next } => RenderPhaseView::Run {
                    commands: commands.deep_view(),
                    next: next as int,
                },
                RenderPhase::Verify { output } => RenderPhaseView::Verify {
                    output: output.deep_view(),
                },
                RenderPhase::Done => RenderPhaseView::Done,
            },
        }
    }
}

impl RenderJobView {
    /// The output that the job carries is that of a program that succeeded.
    pub open spec fn carries_success(self) -> bool {
        match self.phase {
            RenderPhaseView::Lookup { output } => output.succeeded(),
            RenderPhaseView::Verify { output } => output.succeeded(),
            _ => true,
        }
    }

    /// A command that runs is one of the commands, and only a success is carried along.
    pub open spec fn wf(self) -> bool {
        &&& self.phase matches RenderPhaseView::Run { commands, next } ==> 0 <= next
            < commands.len()
        &&& self.carries_success()
    }

    /// `event` can come of what the job asked for last.
    pub open spec fn awaits(self, event: RenderEventView) -> bool {
        match self.phase {
            RenderPhaseView::Lookup { .. } => event is FileFound,
            RenderPhaseView::Write => event is Written || event is IoFailed,
            RenderPhaseView::Run { .. } => event is Ran || event is IoFailed,
            RenderPhaseView::Verify { .. } => event is FileFound,
            RenderPhaseView::Done => false,
        }
    }

    /// The same job in another phase.
    pub open spec fn at(self, phase: RenderPhaseView) -> RenderJobView {
        RenderJobView { phase, ..self }
    }
}

/// The job that renders `fragment`, and what to do first: to look for the picture of a
/// formula that is remembered, to write the source file of any other.
pub open spec fn first_step(
    context: crate::context::RenderContextView,
    backend: Backend,
    fragment: Seq<char>,
) -> (RenderJobView, RenderActionView) {
    let key = crate::cache::key_of(backend, fragment);
    let paths = crate::cache::key_paths(context.cache_dir, key);
    if context.cache.contains_key(key) {
        (
            RenderJobView {
                fragment,
                key,
                paths,
                phase: RenderPhaseView::Lookup { output: context.cache[key] },
            },
            RenderActionView::CheckFile { path: paths.output_path },
        )
    } else {
        (
            RenderJobView { fragment, key, paths, phase: RenderPhaseView::Write },
            RenderActionView::WriteInput {
                path: paths.input_path,
                contents: crate::config::render_file(context.config, backend, fragment),
            },
        )
    }
}

/// What is remembered once `event` has come to `job`.
pub open spec fn cache_after(
    cache: Map<crate::cache::CacheKeyView, crate::command::CommandOutputView>,
    job: RenderJobView,
    event: RenderEventView,
) -> Map<crate::cache::CacheKeyView, crate::command::CommandOutputView> {
    match (job.phase, event) {
        // The picture is gone.
        (RenderPhaseView::Lookup { .. }, RenderEventView::FileFound(false)) => cache.remove(
            job.key,
        ),
        // There is a picture.
        (RenderPhaseView::Verify { output }, RenderEventView::FileFound(true)) => cache.insert(
            job.key,
            output,
        ),
        _ => cache,
    }
}

/// The job once `event` has come to it, and what to do then.
pub open spec fn next_step(
    config: crate::config::RenderConfigView,
    job: RenderJobView,
    event: RenderEventView,
) -> (RenderJobView, RenderActionView) {
    let done = job.at(RenderPhaseView::Done);
    let path = job.paths.output_path;
    match (job.phase, event) {
        (RenderPhaseView::Lookup { output }, RenderEventView::FileFound(true)) => (
            done,
            RenderActionView::Finish { path, output },
        ),
        (RenderPhaseView::Lookup { .. }, RenderEventView::FileFound(false)) => (
            job.at(RenderPhaseView::Write),
            RenderActionView::WriteInput {
                path: job.paths.input_path,
                contents: crate::config::render_file(config, job.key.backend, job.fragment),
            },
        ),
        (RenderPhaseView::Write, RenderEventView::Written) => {
            let commands = crate::context::commands_for(
                config,
                job.key.backend,
                job.paths.input_path,
                job.paths.output_path,
            );
            (
                job.at(RenderPhaseView::Run { commands, next: 0 }),
                RenderActionView::Run { command: commands[0] },
            )
        },
        (RenderPhaseView::Run { commands, next }, RenderEventView::Ran(output)) => {
            if !output.succeeded() {
                (done, RenderActionView::Finish { path, output })
            } else if next + 1 < commands.len() {
                (
                    job.at(RenderPhaseView::Run { commands, next: next + 1 }),
                    RenderActionView::Run { command: commands[next + 1] },
                )
            } else {
                (
                    job.at(RenderPhaseView::Verify { output }),
                    RenderActionView::CheckFile { path },
                )
            }
        },
        (RenderPhaseView::Verify { output }, _) => (
            done,
            RenderActionView::Finish { path, output },
        ),
        _ => (done, RenderActionView::Fail),
    }
}

impl RenderContext {
    /// Starts to render `fragment`. The result is the job, and what to do first.
    pub fn begin_render(&self, backend: Backend, fragment: String) -> (r: (RenderJob, RenderAction))
        requires
            self.wf(),
        ensures
            (r.0.deep_view(), r.1.deep_view()) == first_step(self.deep_view(), backend, fragment@),
            r.0.deep_view().wf(),
    {
        let key = cache_key(backend, fragment.as_str());
        let paths = self.cached_paths(backend, key.hash.as_str());
        match self.remembered(&key) {
            Some(output) => {
                let action = RenderAction::CheckFile { path: paths.output_path.clone() };
                (
                    RenderJob {
                        fragment,
                        key,
                        paths,
                        phase: RenderPhase::Lookup { output: output.clone() },
                    },
                    action,
                )
            },
            None => {
                let action = RenderAction::WriteInput {
                    path: paths.input_path.clone(),
                    contents: self.config().render_file_contents(backend, fragment.as_str()),
                };
                (RenderJob { fragment, key, paths, phase: RenderPhase::Write }, action)
            },
        }
    }

    /// Takes `job` one step on, now that `event` has come of the action before. A formula is
    /// remembered once its last program has succeeded and its picture is there, and forgotten
    /// once its picture is gone.
    pub fn advance(&mut self, job: RenderJob, event: RenderEvent) -> (r: (RenderJob, RenderAction))
        requires
            old(self).wf(),
            job.deep_view().wf(),
            job.deep_view().awaits(event.deep_view()),
        ensures
            final(self).wf(),
            crate::context::same_but_cache(final(self).deep_view(), old(self).deep_view()),
            final(self).deep_view().cache == cache_after(
                old(self).deep_view().cache,
                job.deep_view(),
                event.deep_view(),
            ),
            (r.0.deep_view(), r.1.deep_view()) == next_step(
                old(self).deep_view().config,
                job.deep_view(),
                event.deep_view(),
            ),
            r.0.deep_view().wf(),
    {
        let RenderJob { fragment, key, paths, phase } = job;
        let path = paths.output_path.clone();
        let (phase, action) = match (phase, event) {
            (RenderPhase::Lookup { output }, RenderEvent::FileFound(true)) => (
                RenderPhase::Done,
                RenderAction::Finish { path, output },
            ),
            (RenderPhase::Lookup { .. }, RenderEvent::FileFound(false)) => {
                self.forget(&key);
                (
                    RenderPhase::Write,
                    RenderAction::WriteInput {
                        path: paths.input_path.clone(),
                        contents: self.config().render_file_contents(
                            key.backend,
                            fragment.as_str(),
                        ),
                    },
                )
            },
            (RenderPhase::Write, RenderEvent::Written) => {
                let commands = self.render_cmds(
                    key.backend,
                    paths.input_path.as_str(),
                    paths.output_path.as_str(),
                );
                assert(commands.deep_view().len() == commands@.len());
                assert(commands.deep_view()[0] == commands@[0].deep_view());
                let command = commands[0].clone();
                (RenderPhase::Run { commands, next: 0 }, RenderAction::Run { command })
            },
            (RenderPhase::Run { commands, next }, RenderEvent::Ran(output)) => {
                assert(commands.deep_view().len() == commands@.len());
                if !output.success() {
                    (RenderPhase::Done, RenderAction::Finish { path, output })
                } else if commands.len() - next > 1 {
                    assert(commands.deep_view()[next + 1] == commands@[next + 1].deep_view());
                    let command = commands[next + 1].clone();
                    (RenderPhase::Run { commands, next: next + 1 }, RenderAction::Run { command })
                } else {
                    (RenderPhase::Verify { output }, RenderAction::CheckFile { path })
                }
            },
            (RenderPhase::Verify { output }, RenderEvent::FileFound(found)) => {
                if found {
                    self.remember(key.clone(), output.clone());
                }
                (RenderPhase::Done, RenderAction::Finish { path, output })
            },
            _ => (RenderPhase::Done, RenderAction::Fail),
        };
        (RenderJob { fragment, key, paths, phase }, action)
    }
}

/// What is remembered, the job, and the last action, once `events` have come to `job` in turn.
pub open spec fn outcome(
    config: crate::config::RenderConfigView,
    cache: Map<crate::cache::CacheKeyView, crate::command::CommandOutputView>,
    job: RenderJobView,
    action: RenderActionView,
    events: Seq<RenderEventView>,
) -> (
    Map<crate::cache::CacheKeyView, crate::command::CommandOutputView>,
    RenderJobView,
    RenderActionView,
)
    decreases events.len(),
{
    if events.len() == 0 {
        (cache, job, action)
    } else {
        let (next_job, next_action) = next_step(config, job, events[0]);
        outcome(
            config,
            cache_after(cache, job, events[0]),
            next_job,
            next_action,
            events.skip(1),
        )
    }
}

/// The events of programs that end with `outputs`.
pub open spec fn runs(
    outputs: Seq<crate::command::CommandOutputView>,
) -> Seq<RenderEventView> {
    outputs.map_values(|output| RenderEventView::Ran(output))
}

/// How many steps are left to a job at most.
pub open spec fn steps_left(config: crate::config::RenderConfigView, job: RenderJobView) -> int {
    let programs = config.programs(job.key.backend).len() as int;
    match job.phase {
        RenderPhaseView::Lookup { .. } => programs + 3,
        RenderPhaseView::Write => programs + 2,
        RenderPhaseView::Run { commands, next } => commands.len() - next + 1,
        RenderPhaseView::Verify { .. } => 1,
        RenderPhaseView::Done => 0,
    }
}

/// A job ends: each step leaves fewer steps, and none is left exactly when it finishes or
/// fails.
pub proof fn law_render_ends(
    config: crate::config::RenderConfigView,
    job: RenderJobView,
    event: RenderEventView,
)
    requires
        job.wf(),
        job.awaits(event),
    ensures
        ({
            let (after, action) = next_step(config, job, event);
            &&& after.wf()
            &&& 0 <= steps_left(config, after) < steps_left(config, job)
            &&& (action is Finish || action is Fail) <==> after.phase is Done
        }),
{
    crate::context::law_commands_run_the_programs(
        config,
        job.key.backend,
        job.paths.input_path,
        job.paths.output_path,
    );
}

/// A step changes what is remembered of its own formula alone.
pub proof fn law_render_leaves_others(
    cache: Map<crate::cache::CacheKeyView, crate::command::CommandOutputView>,
    job: RenderJobView,
    event: RenderEventView,
    other: crate::cache::CacheKeyView,
)
    requires
        other != job.key,
    ensures
        cache_after(cache, job, event).contains_key(other) == cache.contains_key(other),
        cache.contains_key(other) ==> cache_after(cache, job, event)[other] == cache[other],
{
}

/// Only successes are remembered: what a job starts with, and what each of its steps leaves.
pub proof fn law_only_successes_are_remembered(
    context: crate::context::RenderContextView,
    backend: Backend,
    fragment: Seq<char>,
    job: RenderJobView,
    event: RenderEventView,
)
    requires
        crate::context::only_successes(context.cache),
        job.carries_success(),
    ensures
        first_step(context, backend, fragment).0.carries_success(),
        crate::context::only_successes(cache_after(context.cache, job, event)),
        next_step(context.config, job, event).0.carries_success(),
{
    let after = cache_after(context.cache, job, event);
    assert forall|key: crate::cache::CacheKeyView| after.contains_key(key) implies (
    #[trigger] after[key]).succeeded() by {
        if key != job.key || after == context.cache {
            assert(context.cache[key].succeeded());
        }
    }
}

/// What a formula was rendered to is handed out again, with no program run, as long as it is
/// remembered and its picture is there.
pub proof fn law_remembered_is_found(
    context: crate::context::RenderContextView,
    backend: Backend,
    fragment: Seq<char>,
)
    requires
        context.cache.contains_key(crate::cache::key_of(backend, fragment)),
    ensures
        ({
            let key = crate::cache::key_of(backend, fragment);
            let path = crate::cache::key_paths(context.cache_dir, key).output_path;
            let (job, action) = first_step(context, backend, fragment);
            let found = RenderEventView::FileFound(true);
            &&& action == RenderActionView::CheckFile { path }
            &&& next_step(context.config, job, found).1 == RenderActionView::Finish {
                path,
                output: context.cache[key],
            }
            &&& cache_after(context.cache, job, found) == context.cache
        }),
{
}

/// A formula that is remembered but whose picture is gone is forgotten, and rendered as if
/// it had never been remembered.
pub proof fn law_lost_picture_is_rendered_again(
    context: crate::context::RenderContextView,
    backend: Backend,
    fragment: Seq<char>,
)
    requires
        context.cache.contains_key(crate::cache::key_of(backend, fragment)),
    ensures
        ({
            let key = crate::cache::key_of(backend, fragment);
            let (job, _) = first_step(context, backend, fragment);
            let gone = RenderEventView::FileFound(false);
            let forgotten = crate::context::RenderContextView {
                cache: context.cache.remove(key),
                ..context
            };
            &&& cache_after(context.cache, job, gone) == forgotten.cache
            &&& next_step(context.config, job, gone) == first_step(forgotten, backend, fragment)
        }),
{
}

/// What the programs of a job come to, from the program at `next` on.
proof fn lemma_runs(
    config: crate::config::RenderConfigView,
    cache: Map<crate::cache::CacheKeyView, crate::command::CommandOutputView>,
    job: RenderJobView,
    action: RenderActionView,
    outputs: Seq<crate::command::CommandOutputView>,
    rest: Seq<RenderEventView>,
)
    requires
        job.wf(),
        job.phase matches RenderPhaseView::Run { commands, next } && outputs.len()
            <= commands.len() - next,
        outputs.len() > 0,
        forall|i: int| 0 <= i < outputs.len() - 1 ==> (#[trigger] outputs[i]).succeeded(),
        outputs.last().succeeded() ==> outputs.len() == job.phase->commands.len()
            - job.phase->next,
    ensures
        ({
            let path = job.paths.output_path;
            let (after, last) = if outputs.last().succeeded() {
                (
                    job.at(RenderPhaseView::Verify { output: outputs.last() }),
                    RenderActionView::CheckFile { path },
                )
            } else {
                (
                    job.at(RenderPhaseView::Done),
                    RenderActionView::Finish { path, output: outputs.last() },
                )
            };
            outcome(config, cache, job, action, runs(outputs) + rest) == outcome(
                config,
                cache,
                after,
                last,
                rest,
            )
        }),
    decreases outputs.len(),
{
    let events = runs(outputs) + rest;
    let (next_job, next_action) = next_step(config, job, events[0]);
    assert(events[0] == RenderEventView::Ran(outputs[0]));
    assert(events.skip(1) =~= runs(outputs.skip(1)) + rest);
    if outputs.len() > 1 {
        assert forall|i: int| 0 <= i < outputs.skip(1).len() - 1 implies (#[trigger] outputs.skip(
            1,
        )[i]).succeeded() by {
            assert(outputs.skip(1)[i] == outputs[i + 1]);
        }
        assert(outputs[0].succeeded());
        lemma_runs(config, cache, next_job, next_action, outputs.skip(1), rest);
    } else {
        assert(runs(outputs.skip(1)) + rest =~= rest);
    }
}

/// A formula that is not remembered is rendered by running all programs of its backend in
/// their order. If all succeed, the result is the output of the last, and it is remembered
/// exactly if the picture is there.
pub proof fn law_render_succeeds(
    context: crate::context::RenderContextView,
    backend: Backend,
    fragment: Seq<char>,
    outputs: Seq<crate::command::CommandOutputView>,
    found: bool,
)
    requires
        !context.cache.contains_key(crate::cache::key_of(backend, fragment)),
        outputs.len() == context.config.programs(backend).len(),
        forall|i: int| 0 <= i < outputs.len() ==> (#[trigger] outputs[i]).succeeded(),
    ensures
        ({
            let key = crate::cache::key_of(backend, fragment);
            let (job, action) = first_step(context, backend, fragment);
            let events = seq![RenderEventView::Written] + runs(outputs)
                + seq![RenderEventView::FileFound(found)];
            outcome(context.config, context.cache, job, action, events) == (
                if found {
                    context.cache.insert(key, outputs.last())
                } else {
                    context.cache
                },
                job.at(RenderPhaseView::Done),
                RenderActionView::Finish { path: job.paths.output_path, output: outputs.last() },
            )
        }),
{
    let (job, action) = first_step(context, backend, fragment);
    let check = seq![RenderEventView::FileFound(found)];
    let events = seq![RenderEventView::Written] + runs(outputs) + check;
    crate::context::law_commands_run_the_programs(
        context.config,
        backend,
        job.paths.input_path,
        job.paths.output_path,
    );
    let (running, run) = next_step(context.config, job, RenderEventView::Written);
    assert(events.skip(1) =~= runs(outputs) + check);
    lemma_runs(context.config, context.cache, running, run, outputs, check);
    assert(check.skip(1) =~= seq![]);
    reveal_with_fuel(outcome, 3);
}

/// The first program that fails ends the rendering of a formula. The result is its output,
/// and nothing is remembered.
pub proof fn law_render_stops_at_failure(
    context: crate::context::RenderContextView,
    backend: Backend,
    fragment: Seq<char>,
    outputs: Seq<crate::command::CommandOutputView>,
)
    requires
        !context.cache.contains_key(crate::cache::key_of(backend, fragment)),
        0 < outputs.len() <= context.config.programs(backend).len(),
        forall|i: int| 0 <= i < outputs.len() - 1 ==> (#[trigger] outputs[i]).succeeded(),
        !outputs.last().succeeded(),
    ensures
        ({
            let (job, action) = first_step(context, backend, fragment);
            let events = seq![RenderEventView::Written] + runs(outputs);
            outcome(context.config, context.cache, job, action, events) == (
                context.cache,
                job.at(RenderPhaseView::Done),
                RenderActionView::Finish { path: job.paths.output_path, output: outputs.last() },
            )
        }),
{
    let (job, action) = first_step(context, backend, fragment);
    let events = seq![RenderEventView::Written] + runs(outputs);
    crate::context::law_commands_run_the_programs(
        context.config,
        backend,
        job.paths.input_path,
        job.paths.output_path,
    );
    let (running, run) = next_step(context.config, job, RenderEventView::Written);
    assert(events.skip(1) =~= runs(outputs) + seq![]);
    lemma_runs(context.config, context.cache, running, run, outputs, seq![]);
}

/// A formula whose picture was made is found by the next job for the same formula.
pub proof fn law_render_then_found(
    context: crate::context::RenderContextView,
    backend: Backend,
    fragment: Seq<char>,
    outputs: Seq<crate::command::CommandOutputView>,
)
    requires
        !context.cache.contains_key(crate::cache::key_of(backend, fragment)),
        outputs.len() == context.config.programs(backend).len(),
        forall|i: int| 0 <= i < outputs.len() ==> (#[trigger] outputs[i]).succeeded(),
    ensures
        ({
            let (job, action) = first_step(context, backend, fragment);
            let events = seq![RenderEventView::Written] + runs(outputs) + seq![
                RenderEventView::FileFound(true),
            ];
            let (cache, _, last) = outcome(context.config, context.cache, job, action, events);
            let later = crate::context::RenderContextView { cache, ..context };
            let (again, _) = first_step(later, backend, fragment);
            next_step(later.config, again, RenderEventView::FileFound(true)).1 == last
        }),
{
    law_render_succeeds(context, backend, fragment, outputs, true);
}

/// `events` come to `job` in turn, each of the action before it, and bring it to its end.
pub open spec fn runs_to_end(
    config: crate::config::RenderConfigView,
    job: RenderJobView,
    events: Seq<RenderEventView>,
) -> bool
    decreases events.len(),
{
    if job.phase is Done {
        events.len() == 0
    } else {
        events.len() > 0 && job.awaits(events[0]) && runs_to_end(
            config,
            next_step(config, job, events[0]).0,
            events.skip(1),
        )
    }
}

/// `last` hands out a success, and the picture was there when it was looked for at the end of
/// `events`.
pub open spec fn made_picture(last: RenderActionView, events: Seq<RenderEventView>) -> bool {
    last matches RenderActionView::Finish { output, .. } && output.succeeded() && events.last()
        == RenderEventView::FileFound(true)
}

/// What is remembered of the formula of `job` goes with how far the job has come.
spec fn goes_with(
    cache: Map<crate::cache::CacheKeyView, crate::command::CommandOutputView>,
    job: RenderJobView,
) -> bool {
    match job.phase {
        RenderPhaseView::Lookup { output } => cache.contains_key(job.key) && cache[job.key]
            == output,
        _ => !cache.contains_key(job.key),
    }
}

/// What a job comes to that has not ended yet.
proof fn lemma_run_to_end(
    config: crate::config::RenderConfigView,
    cache: Map<crate::cache::CacheKeyView, crate::command::CommandOutputView>,
    job: RenderJobView,
    action: RenderActionView,
    events: Seq<RenderEventView>,
)
    requires
        job.wf(),
        !(job.phase is Done),
        goes_with(cache, job),
        runs_to_end(config, job, events),
    ensures
        ({
            let (after, end, last) = outcome(config, cache, job, action, events);
            &&& end == job.at(RenderPhaseView::Done)
            &&& last is Fail || (last matches RenderActionView::Finish { path, .. } && path
                == job.paths.output_path)
            &&& after.contains_key(job.key) <==> made_picture(last, events)
            &&& made_picture(last, events) ==> after[job.key] == last->output
        }),
    decreases events.len(),
{
    let (next_job, next_action) = next_step(config, job, events[0]);
    let next_cache = cache_after(cache, job, events[0]);
    let rest = events.skip(1);
    law_render_ends(config, job, events[0]);
    assert(runs_to_end(config, next_job, rest));
    if next_job.phase is Done {
        assert(events.last() == events[0]);
        assert(outcome(config, next_cache, next_job, next_action, rest) == (
            next_cache,
            next_job,
            next_action,
        ));
    } else {
        lemma_run_to_end(config, next_cache, next_job, next_action, rest);
        assert(rest.last() == events.last());
        assert(next_job.at(RenderPhaseView::Done) == job.at(RenderPhaseView::Done));
    }
}

/// Rendering a formula twice, whatever came of the first time and whatever comes of the
/// second. Where the first handed out a success and its picture was there, the second looks
/// for the picture, and if it is still there hands out the same with no program run and
/// nothing changed. In every other case nothing is remembered of the formula, and the second
/// writes the source file and then runs the first of the programs. Both name the same file
/// for the picture wherever they do not fail.
pub proof fn law_render_twice(
    context: crate::context::RenderContextView,
    backend: Backend,
    fragment: Seq<char>,
    events: Seq<RenderEventView>,
    later_events: Seq<RenderEventView>,
)
    requires
        crate::context::only_successes(context.cache),
        runs_to_end(context.config, first_step(context, backend, fragment).0, events),
        ({
            let (job, action) = first_step(context, backend, fragment);
            let cache = outcome(context.config, context.cache, job, action, events).0;
            let later = crate::context::RenderContextView { cache, ..context };
            runs_to_end(context.config, first_step(later, backend, fragment).0, later_events)
        }),
    ensures
        ({
            let key = crate::cache::key_of(backend, fragment);
            let paths = crate::cache::key_paths(context.cache_dir, key);
            let (job, action) = first_step(context, backend, fragment);
            let (cache, _, last) = outcome(context.config, context.cache, job, action, events);
            let later = crate::context::RenderContextView { cache, ..context };
            let (again, first) = first_step(later, backend, fragment);
            let (_, _, later_last) = outcome(later.config, cache, again, first, later_events);
            let found = RenderEventView::FileFound(true);
            &&& crate::context::only_successes(cache)
            &&& made_picture(last, events) ==> {
                &&& first == RenderActionView::CheckFile { path: paths.output_path }
                &&& next_step(later.config, again, found) == (
                    again.at(RenderPhaseView::Done),
                    last,
                )
                &&& cache_after(cache, again, found) == cache
            }
            &&& !made_picture(last, events) ==> {
                &&& !cache.contains_key(key)
                &&& first == RenderActionView::WriteInput {
                    path: paths.input_path,
                    contents: crate::config::render_file(context.config, backend, fragment),
                }
                &&& next_step(later.config, again, RenderEventView::Written).1
                    == RenderActionView::Run {
                    command: crate::context::commands_for(
                        context.config,
                        backend,
                        paths.input_path,
                        paths.output_path,
                    )[0],
                }
            }
            &&& last is Fail || (last matches RenderActionView::Finish { path, .. } && path
                == paths.output_path)
            &&& later_last is Fail || (later_last matches RenderActionView::Finish { path, .. }
                && path == paths.output_path)
        }),
{
    let (job, action) = first_step(context, backend, fragment);
    lemma_run_to_end(context.config, context.cache, job, action, events);
    lemma_outcome_keeps_successes(context.config, context.cache, job, action, events);
    let cache = outcome(context.config, context.cache, job, action, events).0;
    let later = crate::context::RenderContextView { cache, ..context };
    let (again, first) = first_step(later, backend, fragment);
    lemma_run_to_end(context.config, cache, again, first, later_events);
}

/// Only successes are remembered, once all of `events` have come to a job.
proof fn lemma_outcome_keeps_successes(
    config: crate::config::RenderConfigView,
    cache: Map<crate::cache::CacheKeyView, crate::command::CommandOutputView>,
    job: RenderJobView,
    action: RenderActionView,
    events: Seq<RenderEventView>,
)
    requires
        crate::context::only_successes(cache),
        job.carries_success(),
    ensures
        crate::context::only_successes(outcome(config, cache, job, action, events).0),
    decreases events.len(),
{
    if events.len() > 0 {
        let (next_job, next_action) = next_step(config, job, events[0]);
        let context = crate::context::RenderContextView {
            config,
            cache,
            availability: Map::empty(),
            cache_dir: seq![],
        };
        law_only_successes_are_remembered(
            context,
            job.key.backend,
            job.fragment,
            job,
            events[0],
        );
        lemma_outcome_keeps_successes(
            config,
            cache_after(cache, job, events[0]),
            next_job,
            next_action,
            events.skip(1),
        );
    }
}

/// How a job starts: with its own formula, and with a look at the picture exactly if the
/// formula is remembered, else with the source file that the configuration gives.
pub proof fn law_first_step(
    context: crate::context::RenderContextView,
    backend: Backend,
    fragment: Seq<char>,
)
    ensures
        ({
            let (job, action) = first_step(context, backend, fragment);
            let key = crate::cache::key_of(backend, fragment);
            let paths = crate::cache::key_paths(context.cache_dir, key);
            &&& job.fragment == fragment
            &&& job.key == key
            &&& job.paths == paths
            &&& context.cache.contains_key(key) ==> action == RenderActionView::CheckFile {
                path: paths.output_path,
            }
            &&& !context.cache.contains_key(key) ==> action == RenderActionView::WriteInput {
                path: paths.input_path,
                contents: crate::config::render_file(context.config, backend, fragment),
            }
        }),
{
}

/// A job is about one formula from its start to its end.
pub proof fn law_job_keeps_its_formula(
    config: crate::config::RenderConfigView,
    job: RenderJobView,
    event: RenderEventView,
)
    ensures
        ({
            let (after, _) = next_step(config, job, event);
            after.fragment == job.fragment && after.key == job.key && after.paths == job.paths
        }),
{
}

/// What came of an action is awaited: whether there is a file, that the source is written or
/// could not be, how a program ended or that it could not be run.
pub proof fn law_events_are_awaited(
    context: crate::context::RenderContextView,
    backend: Backend,
    fragment: Seq<char>,
    job: RenderJobView,
    event: RenderEventView,
    found: bool,
    output: crate::command::CommandOutputView,
)
    ensures
        ({
            let (first, action) = first_step(context, backend, fragment);
            &&& action is CheckFile ==> first.awaits(RenderEventView::FileFound(found))
            &&& action is WriteInput ==> first.awaits(RenderEventView::Written) && first.awaits(
                RenderEventView::IoFailed,
            )
        }),
        ({
            let (after, action) = next_step(context.config, job, event);
            &&& action is CheckFile ==> after.awaits(RenderEventView::FileFound(found))
            &&& action is WriteInput ==> after.awaits(RenderEventView::Written) && after.awaits(
                RenderEventView::IoFailed,
            )
            &&& action is Run ==> after.awaits(RenderEventView::Ran(output)) && after.awaits(
                RenderEventView::IoFailed,
            )
        }),
{
}

/// Where the source could not be written or a program not be run, the rendering fails, and
/// what is remembered stays.
pub proof fn law_io_failure_fails(
    config: crate::config::RenderConfigView,
    cache: Map<crate::cache::CacheKeyView, crate::command::CommandOutputView>,
    job: RenderJobView,
)
    requires
        job.awaits(RenderEventView::IoFailed),
    ensures
        next_step(config, job, RenderEventView::IoFailed).1 is Fail,
        cache_after(cache, job, RenderEventView::IoFailed) == cache,
{
}

/// The programs that ran so far, from the program at `next` on, all with success.
proof fn lemma_next_program(
    config: crate::config::RenderConfigView,
    cache: Map<crate::cache::CacheKeyView, crate::command::CommandOutputView>,
    job: RenderJobView,
    action: RenderActionView,
    outputs: Seq<crate::command::CommandOutputView>,
)
    requires
        job.phase matches RenderPhaseView::Run { commands, next } && 0 <= next && next
            + outputs.len() < commands.len() && action == (RenderActionView::Run {
            command: commands[next],
        }),
        forall|i: int| 0 <= i < outputs.len() ==> (#[trigger] outputs[i]).succeeded(),
    ensures
        outcome(config, cache, job, action, runs(outputs)).0 == cache,
        outcome(config, cache, job, action, runs(outputs)).2 == (RenderActionView::Run {
            command: job.phase->commands[job.phase->next + outputs.len()],
        }),
    decreases outputs.len(),
{
    if outputs.len() > 0 {
        let events = runs(outputs);
        let (next_job, next_action) = next_step(config, job, events[0]);
        assert(outputs[0].succeeded());
        assert(events[0] == RenderEventView::Ran(outputs[0]));
        assert(events.skip(1) =~= runs(outputs.skip(1)));
        assert forall|i: int| 0 <= i < outputs.skip(1).len() implies (#[trigger] outputs.skip(
            1,
        )[i]).succeeded() by {
            assert(outputs.skip(1)[i] == outputs[i + 1]);
        }
        lemma_next_program(config, cache, next_job, next_action, outputs.skip(1));
    }
}

/// The commands run in their order, each once: after `outputs` of programs that succeeded, the
/// next one runs, and nothing is remembered before the last has run.
pub proof fn law_programs_run_in_order(
    context: crate::context::RenderContextView,
    backend: Backend,
    fragment: Seq<char>,
    outputs: Seq<crate::command::CommandOutputView>,
)
    requires
        !context.cache.contains_key(crate::cache::key_of(backend, fragment)),
        outputs.len() < context.config.programs(backend).len(),
        forall|i: int| 0 <= i < outputs.len() ==> (#[trigger] outputs[i]).succeeded(),
    ensures
        ({
            let (job, action) = first_step(context, backend, fragment);
            let paths = crate::cache::key_paths(
                context.cache_dir,
                crate::cache::key_of(backend, fragment),
            );
            let events = seq![RenderEventView::Written] + runs(outputs);
            let (cache, _, last) = outcome(context.config, context.cache, job, action, events);
            &&& cache == context.cache
            &&& last == RenderActionView::Run {
                command: crate::context::commands_for(
                    context.config,
                    backend,
                    paths.input_path,
                    paths.output_path,
                )[outputs.len() as int],
            }
        }),
{
    let (job, action) = first_step(context, backend, fragment);
    let events = seq![RenderEventView::Written] + runs(outputs);
    crate::context::law_commands_run_the_programs(
        context.config,
        backend,
        job.paths.input_path,
        job.paths.output_path,
    );
    let (running, run) = next_step(context.config, job, RenderEventView::Written);
    assert(events.skip(1) =~= runs(outputs));
    lemma_next_program(context.config, context.cache, running, run, outputs);
}

/// What is remembered changes in two cases only: the formula of a job is forgotten where its
/// picture is gone, and remembered with the output of the last program where its picture is
/// there.
pub proof fn law_cache_after(
    cache: Map<crate::cache::CacheKeyView, crate::command::CommandOutputView>,
    job: RenderJobView,
    event: RenderEventView,
)
    ensures
        job.phase is Lookup && event == RenderEventView::FileFound(false) ==> cache_after(
            cache,
            job,
            event,
        ) == cache.remove(job.key),
        job.phase matches RenderPhaseView::Verify { output } ==> cache_after(
            cache,
            job,
            RenderEventView::FileFound(true),
        ) == cache.insert(job.key, output),
        event is Written || event is Ran || event is IoFailed ==> cache_after(cache, job, event)
            == cache,
        job.phase is Lookup && event == RenderEventView::FileFound(true) ==> cache_after(
            cache,
            job,
            event,
        ) == cache,
        job.phase is Verify && event == RenderEventView::FileFound(false) ==> cache_after(
            cache,
            job,
            event,
        ) == cache,
{
}

/// An action, and what came of it, are what their fields hold.
pub proof fn law_job_views(action: RenderAction, event: RenderEvent)
    ensures
        match action {
            RenderAction::CheckFile { path } => action.deep_view()
                == RenderActionView::CheckFile { path: path@ },
            RenderAction::WriteInput { path, contents } => action.deep_view()
                == RenderActionView::WriteInput { path: path@, contents: contents@ },
            RenderAction::Run { command } => action.deep_view() == RenderActionView::Run {
                command: command.deep_view(),
            },
            RenderAction::Finish { path, output } => action.deep_view()
                == RenderActionView::Finish { path: path@, output: output.deep_view() },
            RenderAction::Fail => action.deep_view() == RenderActionView::Fail,
        },
        match event {
            RenderEvent::FileFound(found) => event.deep_view() == RenderEventView::FileFound(
                found,
            ),
            RenderEvent::Written => event.deep_view() == RenderEventView::Written,
            RenderEvent::Ran(output) => event.deep_view() == RenderEventView::Ran(
                output.deep_view(),
            ),
            RenderEvent::IoFailed => event.deep_view() == RenderEventView::IoFailed,
        },
{
}

} // verus!
