//! The memory of a renderer: its configuration, what it has rendered, and which programs
//! it has found.

use crate::backend::Backend;
use crate::cache::{paths_in, CacheKey, CachedPaths};
use crate::command::{CommandOutput, RenderCommand};
use crate::config::RenderConfig;
use crate::keyed::KeyedList;
use crate::paths::{parent_of, with_extension};
use vstd::prelude::*;

verus! {

/// The memory of a renderer.
#[derive(Debug)]
pub struct RenderContext {
    config: RenderConfig,
    cache: KeyedList<CacheKey, CommandOutput>,
    availability: KeyedList<String, bool>,
    cache_dir: String,
}

/// What a `RenderContext` holds.
pub struct RenderContextView {
    /// The configuration.
    pub config: crate::config::RenderConfigView,
    /// The output of the last program that ran, for each formula that is remembered.
    pub cache: Map<crate::cache::CacheKeyView, crate::command::CommandOutputView>,
    /// For each program that was looked for, whether it was there.
    pub availability: Map<Seq<char>, bool>,
    /// The directory of the files.
    pub cache_dir: Seq<char>,
}

impl DeepView for RenderContext {
    type V = RenderContextView;

    closed spec fn deep_view(&self) -> RenderContextView {
        RenderContextView {
            config: self.config.deep_view(),
            cache: self.cache.deep_view(),
            availability: self.availability.deep_view(),
            cache_dir: self.cache_dir@,
        }
    }
}

impl RenderContextView {
    /// `path` is a file of a formula that is remembered.
    pub open spec fn owns(self, path: Seq<char>) -> bool {
        exists|key: crate::cache::CacheKeyView|
            self.cache.contains_key(key) && #[trigger] crate::cache::key_paths(
                self.cache_dir,
                key,
            ).all().contains(path)
    }
}

/// The directory to which LaTeX writes for the file `input`: that of the file, or the one it
/// runs in where the path of the file has none.
pub open spec fn output_directory(input: Seq<char>) -> Seq<char> {
    match crate::paths::parent(input) {
        Some(dir) => dir,
        None => "."@,
    }
}

/// The commands that render the file `input` to the file `output`.
pub open spec fn commands_for(
    config: crate::config::RenderConfigView,
    backend: Backend,
    input: Seq<char>,
    output: Seq<char>,
) -> Seq<crate::command::RenderCommandView> {
    match backend {
        Backend::LaTeX => seq![
            crate::command::RenderCommandView {
                program: config.latex_cmd,
                args: seq![
                    "-interaction=nonstopmode"@,
                    "-halt-on-error"@,
                    "-output-directory"@,
                    output_directory(input),
                    input,
                ],
            },
            crate::command::RenderCommandView {
                program: config.latex_svg_cmd,
                args: seq![
                    "--bbox=min"@,
                    "--exact-bbox"@,
                    "--no-fonts"@,
                    "-o"@,
                    output,
                    crate::paths::extended(input, "dvi"@),
                ],
            },
        ],
        Backend::Typst => seq![
            crate::command::RenderCommandView {
                program: config.typst_cmd,
                args: seq!["compile"@, input, output],
            },
        ],
    }
}

/// Whether the programs of a backend are there, or the program to look for first.
#[derive(Debug)]
pub enum Availability {
    Known(bool),
    Probe(String),
}

/// What an `Availability` holds.
pub enum AvailabilityView {
    Known(bool),
    Probe(Seq<char>),
}

impl DeepView for Availability {
    type V = AvailabilityView;

    open spec fn deep_view(&self) -> AvailabilityView {
        match self {
            Availability::Known(there) => AvailabilityView::Known(*there),
            Availability::Probe(program) => AvailabilityView::Probe(program@),
        }
    }
}

/// Whether all of `programs` are there, from what is known: the first that is not there
/// decides, and the first that was never looked for is looked for next.
pub open spec fn availability_of(
    programs: Seq<Seq<char>>,
    known: Map<Seq<char>, bool>,
) -> AvailabilityView
    decreases programs.len(),
{
    if programs.len() == 0 {
        AvailabilityView::Known(true)
    } else if !known.contains_key(programs[0]) {
        AvailabilityView::Probe(programs[0])
    } else if !known[programs[0]] {
        AvailabilityView::Known(false)
    } else {
        availability_of(programs.skip(1), known)
    }
}

/// Every output that is remembered is that of a program that succeeded.
pub open spec fn only_successes(
    cache: Map<crate::cache::CacheKeyView, crate::command::CommandOutputView>,
) -> bool {
    forall|key: crate::cache::CacheKeyView|
        cache.contains_key(key) ==> (#[trigger] cache[key]).succeeded()
}

/// Two contexts agree in all but what they have rendered.
pub open spec fn same_but_cache(a: RenderContextView, b: RenderContextView) -> bool {
    a.config == b.config && a.availability == b.availability && a.cache_dir == b.cache_dir
}

impl RenderContext {
    /// No formula is remembered twice, and no program, and only successes are remembered.
    pub closed spec fn wf(&self) -> bool {
        self.cache.wf() && self.availability.wf() && only_successes(self.cache.deep_view())
    }

    /// A renderer that keeps its files in `cache_dir`, with the configuration to start with.
    pub fn new(cache_dir: String, parallelism: Option<usize>) -> (r: Self)
        ensures
            r.wf(),
            r.deep_view().config == crate::config::initial_config(parallelism),
            r.deep_view().cache == Map::<
                crate::cache::CacheKeyView,
                crate::command::CommandOutputView,
            >::empty(),
            r.deep_view().availability == Map::<Seq<char>, bool>::empty(),
            r.deep_view().cache_dir == cache_dir@,
    {
        Self::with_config(RenderConfig::new(parallelism), cache_dir)
    }

    /// A renderer that keeps its files in `cache_dir`. It remembers nothing.
    pub fn with_config(config: RenderConfig, cache_dir: String) -> (r: Self)
        ensures
            r.wf(),
            r.deep_view().config == config.deep_view(),
            r.deep_view().cache == Map::<
                crate::cache::CacheKeyView,
                crate::command::CommandOutputView,
            >::empty(),
            r.deep_view().availability == Map::<Seq<char>, bool>::empty(),
            r.deep_view().cache_dir == cache_dir@,
    {
        RenderContext { config, cache: KeyedList::new(), availability: KeyedList::new(), cache_dir }
    }

    /// The configuration.
    pub fn config(&self) -> (r: &RenderConfig)
        ensures
            r.deep_view() == self.deep_view().config,
    {
        &self.config
    }

    /// Takes another configuration. What was rendered is forgotten if the text around a
    /// formula or a program changes; the result lists the files that then go. Which programs
    /// are there is forgotten if a program changes.
    pub fn set_config(&mut self, config: RenderConfig) -> (r: Vec<String>)
        requires
            old(self).wf(),
        ensures
            final(self).wf(),
            final(self).deep_view().config == config.deep_view(),
            final(self).deep_view().cache_dir == old(self).deep_view().cache_dir,
            ({
                let before = old(self).deep_view();
                let same_text = before.config.same_text(config.deep_view());
                let same_programs = before.config.same_programs(config.deep_view());
                &&& final(self).deep_view().cache == if same_text && same_programs {
                    before.cache
                } else {
                    Map::empty()
                }
                &&& final(self).deep_view().availability == if same_programs {
                    before.availability
                } else {
                    Map::empty()
                }
                &&& forall|path: Seq<char>| #[trigger]
                    r.deep_view().contains(path) <==> (!(same_text && same_programs)
                        && before.owns(path))
            }),
            r.deep_view().no_duplicates(),
            forall|backend: Backend, fragment: Seq<char>| #[trigger]
                crate::config::render_file(old(self).deep_view().config, backend, fragment)
                    != crate::config::render_file(config.deep_view(), backend, fragment)
                    ==> final(self).deep_view().cache.dom() =~= Set::empty(),
            forall|backend: Backend| #[trigger]
                old(self).deep_view().config.programs(backend) != config.deep_view().programs(backend)
                    ==> final(self).deep_view().cache.dom() =~= Set::empty()
                    && final(self).deep_view().availability.dom() =~= Set::empty(),
    {
        let same_text = self.config.has_same_text(&config);
        let same_programs = self.config.has_same_programs(&config);
        let mut files: Vec<String> = Vec::new();
        assert(files.deep_view() =~= Seq::empty());
        if !same_text || !same_programs {
            files = self.invalidate_cache();
        }
        if !same_programs {
            self.availability = KeyedList::new();
        }
        self.config = config;
        files
    }

    /// Whether the programs of `backend` are there, or the program to look for first. Once
    /// that is answered by `record_availability`, this is asked again.
    pub fn backend_available(&self, backend: Backend) -> (r: Availability)
        requires
            self.wf(),
        ensures
            r.deep_view() == availability_of(
                self.deep_view().config.programs(backend),
                self.deep_view().availability,
            ),
    {
        reveal_with_fuel(availability_of, 3);
        match backend {
            Backend::LaTeX => {
                match self.command_available(&self.config.latex_cmd) {
                    None => Availability::Probe(self.config.latex_cmd.clone()),
                    Some(false) => Availability::Known(false),
                    Some(true) => match self.command_available(&self.config.latex_svg_cmd) {
                        None => Availability::Probe(self.config.latex_svg_cmd.clone()),
                        Some(there) => Availability::Known(there),
                    },
                }
            },
            Backend::Typst => match self.command_available(&self.config.typst_cmd) {
                None => Availability::Probe(self.config.typst_cmd.clone()),
                Some(there) => Availability::Known(there),
            },
        }
    }

    /// Whether the program `command` was there when it was looked for.
    pub fn command_available(&self, command: &String) -> (r: Option<bool>)
        requires
            self.wf(),
        ensures
            r == if self.deep_view().availability.contains_key(command@) {
                Some(self.deep_view().availability[command@])
            } else {
                None
            },
    {
        match self.availability.get(command) {
            Some(there) => Some(*there),
            None => None,
        }
    }

    /// Remembers whether the program `command` is there.
    pub fn record_availability(&mut self, command: String, available: bool)
        requires
            old(self).wf(),
        ensures
            final(self).wf(),
            final(self).deep_view() == (RenderContextView {
                availability: old(self).deep_view().availability.insert(command@, available),
                ..old(self).deep_view()
            }),
    {
        self.availability.insert(command, available);
    }

    /// The commands that render the file `input_path` to the file `output_path`.
    pub fn render_cmds(&self, backend: Backend, input_path: &str, output_path: &str) -> (r: Vec<
        RenderCommand,
    >)
        ensures
            r.deep_view() == commands_for(
                self.deep_view().config,
                backend,
                input_path@,
                output_path@,
            ),
    {
        let mut commands: Vec<RenderCommand> = Vec::new();
        match backend {
            Backend::LaTeX => {
                let mut latex_args: Vec<String> = Vec::new();
                latex_args.push(String::from_str("-interaction=nonstopmode"));
                latex_args.push(String::from_str("-halt-on-error"));
                latex_args.push(String::from_str("-output-directory"));
                latex_args.push(
                    match parent_of(input_path) {
                        Some(dir) => dir,
                        None => String::from_str("."),
                    },
                );
                latex_args.push(String::from_str(input_path));
                let mut svg_args: Vec<String> = Vec::new();
                svg_args.push(String::from_str("--bbox=min"));
                svg_args.push(String::from_str("--exact-bbox"));
                svg_args.push(String::from_str("--no-fonts"));
                svg_args.push(String::from_str("-o"));
                svg_args.push(String::from_str(output_path));
                proof {
                    reveal_strlit("dvi");
                }
                svg_args.push(with_extension(input_path, "dvi"));
                let ghost expected = commands_for(
                    self.deep_view().config,
                    backend,
                    input_path@,
                    output_path@,
                );
                assert(latex_args.deep_view() =~= expected[0].args);
                assert(svg_args.deep_view() =~= expected[1].args);
                commands.push(
                    RenderCommand { program: self.config.latex_cmd.clone(), args: latex_args },
                );
                commands.push(
                    RenderCommand { program: self.config.latex_svg_cmd.clone(), args: svg_args },
                );
                assert(commands.deep_view() =~= expected);
            },
            Backend::Typst => {
                let mut args: Vec<String> = Vec::new();
                args.push(String::from_str("compile"));
                args.push(String::from_str(input_path));
                args.push(String::from_str(output_path));
                let ghost expected = commands_for(
                    self.deep_view().config,
                    backend,
                    input_path@,
                    output_path@,
                );
                assert(args.deep_view() =~= expected[0].args);
                commands.push(RenderCommand { program: self.config.typst_cmd.clone(), args });
                assert(commands.deep_view() =~= expected);
            },
        }
        commands
    }

    /// The files for a formula.
    pub fn cached_paths(&self, backend: Backend, hash: &str) -> (r: CachedPaths)
        ensures
            r.deep_view() == crate::cache::key_paths(
                self.deep_view().cache_dir,
                crate::cache::CacheKeyView { backend, hash: hash@ },
            ),
    {
        paths_in(self.cache_dir.as_str(), backend, hash)
    }

    /// The output that is remembered for a formula.
    pub fn remembered(&self, key: &CacheKey) -> (r: Option<&CommandOutput>)
        requires
            self.wf(),
        ensures
            r is Some <==> self.deep_view().cache.contains_key(key.deep_view()),
            r matches Some(output) ==> output.deep_view()
                == self.deep_view().cache[key.deep_view()] && output.deep_view().succeeded(),
    {
        self.cache.get(key)
    }

    /// Remembers the output for a formula, that of a program that succeeded.
    pub(crate) fn remember(&mut self, key: CacheKey, output: CommandOutput)
        requires
            old(self).wf(),
            output.deep_view().succeeded(),
        ensures
            final(self).wf(),
            same_but_cache(final(self).deep_view(), old(self).deep_view()),
            final(self).deep_view().cache == old(self).deep_view().cache.insert(
                key.deep_view(),
                output.deep_view(),
            ),
    {
        self.cache.insert(key, output);
    }

    /// Forgets a formula.
    pub(crate) fn forget(&mut self, key: &CacheKey)
        requires
            old(self).wf(),
        ensures
            final(self).wf(),
            same_but_cache(final(self).deep_view(), old(self).deep_view()),
            final(self).deep_view().cache == old(self).deep_view().cache.remove(key.deep_view()),
    {
        self.cache.remove(key);
    }

    /// Forgets all that was rendered, and lists the files that go with it, each once.
    pub fn invalidate_cache(&mut self) -> (r: Vec<String>)
        requires
            old(self).wf(),
        ensures
            final(self).wf(),
            same_but_cache(final(self).deep_view(), old(self).deep_view()),
            final(self).deep_view().cache == Map::<
                crate::cache::CacheKeyView,
                crate::command::CommandOutputView,
            >::empty(),
            forall|path: Seq<char>| #[trigger]
                r.deep_view().contains(path) <==> old(self).deep_view().owns(path),
            r.deep_view().no_duplicates(),
    {
        let keys = self.cache.take_keys();
        let mut files: Vec<String> = Vec::new();
        for i in 0..keys.len()
            invariant
                self.cache_dir@ == old(self).deep_view().cache_dir,
                keys.deep_view().no_duplicates(),
                files.deep_view().no_duplicates(),
                forall|path: Seq<char>| #[trigger]
                    files.deep_view().contains(path) <==> belongs_to_one_of(
                        self.cache_dir@,
                        keys.deep_view().take(i as int),
                        path,
                    ),
        {
            let paths = self.cached_paths(keys[i].backend, keys[i].hash.as_str());
            let all = paths.all_paths();
            let ghost before = files.deep_view();
            for j in 0..all.len()
                invariant
                    files.deep_view() == before + all.deep_view().take(j as int),
            {
                let ghost so_far = files.deep_view();
                files.push(all[j].clone());
                assert(files.deep_view() =~= so_far.push(all.deep_view()[j as int]));
                assert(all.deep_view().take(j + 1) =~= all.deep_view().take(j as int).push(
                    all.deep_view()[j as int],
                ));
            }
            proof {
                assert(all.deep_view().take(all@.len() as int) =~= all.deep_view());
                assert(keys.deep_view()[i as int] == keys@[i as int].deep_view());
                lemma_files_added(self.cache_dir@, keys.deep_view(), i as int, before);
            }
        }
        proof {
            assert(keys.deep_view().take(keys@.len() as int) =~= keys.deep_view());
            assert forall|path: Seq<char>| #[trigger]
                files.deep_view().contains(path) <==> old(self).deep_view().owns(path) by {
                if files.deep_view().contains(path) {
                    let i = choose|i: int|
                        0 <= i < keys.deep_view().len() && #[trigger] crate::cache::key_paths(
                            self.cache_dir@,
                            keys.deep_view()[i],
                        ).all().contains(path);
                    assert(keys.deep_view().contains(keys.deep_view()[i]));
                }
                if old(self).deep_view().owns(path) {
                    let key = choose|key: crate::cache::CacheKeyView|
                        old(self).deep_view().cache.contains_key(key)
                            && #[trigger] crate::cache::key_paths(
                            self.cache_dir@,
                            key,
                        ).all().contains(path);
                    assert(keys.deep_view().contains(key));
                    let i = keys.deep_view().index_of(key);
                    assert(crate::cache::key_paths(
                        self.cache_dir@,
                        keys.deep_view()[i],
                    ).all().contains(path));
                }
            }
        }
        files
    }
}

/// `path` is a file of one of `keys`.
spec fn belongs_to_one_of(
    dir: Seq<char>,
    keys: Seq<crate::cache::CacheKeyView>,
    path: Seq<char>,
) -> bool {
    exists|i: int|
        0 <= i < keys.len() && #[trigger] crate::cache::key_paths(dir, keys[i]).all().contains(path)
}

/// The files of the first `at` keys and those of the next.
proof fn lemma_files_added(
    dir: Seq<char>,
    keys: Seq<crate::cache::CacheKeyView>,
    at: int,
    before: Seq<Seq<char>>,
)
    requires
        0 <= at < keys.len(),
        keys.no_duplicates(),
        before.no_duplicates(),
        forall|path: Seq<char>| #[trigger]
            before.contains(path) <==> belongs_to_one_of(dir, keys.take(at), path),
    ensures
        ({
            let after = before + crate::cache::key_paths(dir, keys[at]).all();
            &&& after.no_duplicates()
            &&& forall|path: Seq<char>| #[trigger]
                after.contains(path) <==> belongs_to_one_of(dir, keys.take(at + 1), path)
        }),
{
    let new = crate::cache::key_paths(dir, keys[at]).all();
    let after = before + new;
    crate::cache::law_paths_differ(dir, keys[at]);
    assert forall|path: Seq<char>| before.contains(path) implies !#[trigger] new.contains(path) by {
        if new.contains(path) {
            let i = choose|i: int|
                0 <= i < at && #[trigger] crate::cache::key_paths(
                    dir,
                    keys.take(at)[i],
                ).all().contains(path);
            crate::cache::law_paths_belong_to_one_key(dir, keys[i], keys[at], path);
        }
    }
    assert forall|i: int, j: int| 0 <= i < after.len() && 0 <= j < after.len() && i != j implies after[i]
        != after[j] by {
        if i < before.len() && j >= before.len() {
            assert(before.contains(before[i]));
            assert(new.contains(new[j - before.len()]));
        } else if i >= before.len() && j < before.len() {
            assert(before.contains(before[j]));
            assert(new.contains(new[i - before.len()]));
        }
    }
    assert forall|path: Seq<char>| #[trigger]
        after.contains(path) <==> belongs_to_one_of(dir, keys.take(at + 1), path) by {
        if after.contains(path) {
            let k = after.index_of(path);
            if k < before.len() {
                assert(before.contains(path));
                let i = choose|i: int|
                    0 <= i < at && #[trigger] crate::cache::key_paths(
                        dir,
                        keys.take(at)[i],
                    ).all().contains(path);
                assert(crate::cache::key_paths(dir, keys.take(at + 1)[i]).all().contains(path));
            } else {
                assert(new[k - before.len()] == path);
                assert(crate::cache::key_paths(dir, keys.take(at + 1)[at]).all().contains(path));
            }
        }
        if belongs_to_one_of(dir, keys.take(at + 1), path) {
            let i = choose|i: int|
                0 <= i < at + 1 && #[trigger] crate::cache::key_paths(
                    dir,
                    keys.take(at + 1)[i],
                ).all().contains(path);
            if i < at {
                assert(crate::cache::key_paths(dir, keys.take(at)[i]).all().contains(path));
                assert(before.contains(path));
                assert(after[before.index_of(path)] == path);
            } else {
                let k = new.index_of(path);
                assert(after[before.len() + k] == path);
            }
        }
    }
}

/// A backend is known to be there exactly if each of its programs is, and known not to be
/// there only if one of them is not.
pub proof fn law_available_means_all_programs(programs: Seq<Seq<char>>, known: Map<Seq<char>, bool>)
    ensures
        availability_of(programs, known) == AvailabilityView::Known(true) <==> (forall|i: int|
            0 <= i < programs.len() ==> known.contains_key(#[trigger] programs[i])
                && known[programs[i]]),
        availability_of(programs, known) == AvailabilityView::Known(false) ==> (exists|i: int|
            0 <= i < programs.len() && known.contains_key(#[trigger] programs[i])
                && !known[programs[i]] && (forall|j: int|
                0 <= j < i ==> known.contains_key(#[trigger] programs[j]) && known[programs[j]])),
    decreases programs.len(),
{
    if programs.len() > 0 {
        let rest = programs.skip(1);
        law_available_means_all_programs(rest, known);
        if availability_of(programs, known) == AvailabilityView::Known(true) {
            assert forall|i: int| 0 <= i < programs.len() implies known.contains_key(
                #[trigger] programs[i],
            ) && known[programs[i]] by {
                if i > 0 {
                    assert(rest[i - 1] == programs[i]);
                }
            }
        }
        if forall|i: int|
            0 <= i < programs.len() ==> known.contains_key(#[trigger] programs[i])
                && known[programs[i]] {
            assert(known.contains_key(programs[0]));
            assert forall|i: int| 0 <= i < rest.len() implies known.contains_key(#[trigger] rest[i])
                && known[rest[i]] by {
                assert(rest[i] == programs[i + 1]);
            }
        }
        if availability_of(programs, known) == AvailabilityView::Known(false) {
            if known[programs[0]] {
                let i = choose|i: int|
                    0 <= i < rest.len() && known.contains_key(#[trigger] rest[i])
                        && !known[rest[i]] && (forall|j: int|
                        0 <= j < i ==> known.contains_key(#[trigger] rest[j]) && known[rest[j]]);
                assert(programs[i + 1] == rest[i]);
                assert forall|j: int| 0 <= j < i + 1 implies known.contains_key(
                    #[trigger] programs[j],
                ) && known[programs[j]] by {
                    if j > 0 {
                        assert(rest[j - 1] == programs[j]);
                    }
                }
            }
        }
    }
}

/// A program is looked for only if it is one of the backend's, was never looked for, and
/// all before it are there. Once it was looked for, it is not asked for again.
pub proof fn law_probe_is_asked_once(
    programs: Seq<Seq<char>>,
    known: Map<Seq<char>, bool>,
    program: Seq<char>,
    there: bool,
)
    requires
        availability_of(programs, known) == AvailabilityView::Probe(program),
    ensures
        exists|i: int|
            0 <= i < programs.len() && #[trigger] programs[i] == program && !known.contains_key(
                program,
            ) && (forall|j: int|
                0 <= j < i ==> known.contains_key(#[trigger] programs[j]) && known[programs[j]]),
        availability_of(programs, known.insert(program, there)) != AvailabilityView::Probe(program),
        !there ==> availability_of(programs, known.insert(program, there))
            == AvailabilityView::Known(false),
    decreases programs.len(),
{
    let more = known.insert(program, there);
    if known.contains_key(programs[0]) {
        let rest = programs.skip(1);
        law_probe_is_asked_once(rest, known, program, there);
        let i = choose|i: int|
            0 <= i < rest.len() && #[trigger] rest[i] == program && !known.contains_key(program)
                && (forall|j: int|
                0 <= j < i ==> known.contains_key(#[trigger] rest[j]) && known[rest[j]]);
        assert(programs[i + 1] == program);
        assert forall|j: int| 0 <= j < i + 1 implies known.contains_key(#[trigger] programs[j])
            && known[programs[j]] by {
            if j > 0 {
                assert(rest[j - 1] == programs[j]);
            }
        }
        assert(more.contains_key(programs[0]) && more[programs[0]]);
    } else {
        assert(programs[0] == program);
        lemma_no_probe_of_known(programs, more, program);
    }
}

/// A program that was looked for is not asked for.
proof fn lemma_no_probe_of_known(
    programs: Seq<Seq<char>>,
    known: Map<Seq<char>, bool>,
    program: Seq<char>,
)
    requires
        known.contains_key(program),
    ensures
        availability_of(programs, known) != AvailabilityView::Probe(program),
    decreases programs.len(),
{
    if programs.len() > 0 {
        lemma_no_probe_of_known(programs.skip(1), known, program);
    }
}

/// Only successes are remembered, in every renderer.
pub proof fn law_remembered_are_successes(context: RenderContext)
    requires
        context.wf(),
    ensures
        only_successes(context.deep_view().cache),
{
}

/// LaTeX writes to the directory of the renderer, and the DVI file from which the picture is
/// made is one of the files of the formula, as the picture is. This holds of every directory;
/// what ends a directory and stands for nothing, such as a slash, is left off.
pub proof fn law_latex_files_are_owned(
    config: crate::config::RenderConfigView,
    dir: Seq<char>,
    fragment: Seq<char>,
)
    ensures
        ({
            let paths = crate::cache::key_paths(
                dir,
                crate::cache::key_of(Backend::LaTeX, fragment),
            );
            let commands = commands_for(
                config,
                Backend::LaTeX,
                paths.input_path,
                paths.output_path,
            );
            &&& commands[0].args[3] == crate::paths::without_trailing(dir)
            &&& commands[0].args[4] == paths.input_path
            &&& commands[1].args[4] == paths.output_path
            &&& commands[1].args[5] == paths.extra_paths[0]
        }),
{
    let digest = crate::hash::fragment_digest(fragment) as int;
    let hash = crate::hash::hex_digits(digest, 16);
    crate::hash::law_hex_digits_len(digest, 16);
    if hash.contains('/') {
        crate::hash::law_hex_digits_are_digits(digest, 16, hash.index_of('/'));
    }
    lemma_latex_files(dir, hash);
}

/// The files of LaTeX for a hash without a slash.
proof fn lemma_latex_files(dir: Seq<char>, hash: Seq<char>)
    requires
        !hash.contains('/'),
    ensures
        ({
            let key = crate::cache::CacheKeyView { backend: Backend::LaTeX, hash };
            let input = crate::cache::key_file(dir, key, ".tex"@);
            &&& crate::paths::parent(input) == Some(crate::paths::without_trailing(dir))
            &&& crate::paths::extended(input, "dvi"@) == crate::cache::key_file(dir, key, ".dvi"@)
        }),
{
    reveal_strlit("latex");
    reveal_strlit("_");
    reveal_strlit(".tex");
    reveal_strlit(".dvi");
    reveal_strlit("tex");
    reveal_strlit("dvi");
    let base = "latex"@ + "_"@ + hash;
    let name = base + ".tex"@;
    assert(!name.contains('/')) by {
        if name.contains('/') {
            let i = name.index_of('/');
            if 6 <= i < 6 + hash.len() {
                assert(hash[i - 6] == '/');
            }
        }
    }
    assert(!base.contains('/')) by {
        if base.contains('/') {
            assert(name[base.index_of('/')] == '/');
        }
    }
    assert(name =~= base.push('.') + "tex"@);
    assert(base + ".dvi"@ =~= base.push('.') + "dvi"@);
    crate::paths::law_joined(dir, name);
    crate::paths::law_joined_extended(dir, base, "tex"@, "dvi"@);
}

/// Each backend runs at least one program, and runs the programs that it needs in their order.
pub proof fn law_commands_run_the_programs(
    config: crate::config::RenderConfigView,
    backend: Backend,
    input: Seq<char>,
    output: Seq<char>,
)
    ensures
        commands_for(config, backend, input, output).len() == config.programs(backend).len() >= 1,
        forall|i: int|
            0 <= i < config.programs(backend).len() ==> (#[trigger] commands_for(
                config,
                backend,
                input,
                output,
            )[i]).program == config.programs(backend)[i],
{
}

/// Two contexts that agree in all but what they have rendered, and in that too, are the same.
pub proof fn law_same_but_cache(a: RenderContextView, b: RenderContextView)
    ensures
        same_but_cache(a, b) && a.cache == b.cache <==> a == b,
        same_but_cache(a, b) <==> a.config == b.config && a.availability == b.availability
            && a.cache_dir == b.cache_dir,
{
}

/// The files of a renderer are the source, the picture and the rest of each formula that is
/// remembered, all of them and no others.
pub proof fn law_owned_files(
    context: RenderContextView,
    key: crate::cache::CacheKeyView,
    i: int,
    path: Seq<char>,
)
    ensures
        context.cache.contains_key(key) ==> {
            let paths = crate::cache::key_paths(context.cache_dir, key);
            &&& context.owns(paths.input_path)
            &&& context.owns(paths.output_path)
            &&& 0 <= i < paths.extra_paths.len() ==> context.owns(paths.extra_paths[i])
        },
        context.owns(path) ==> exists|other: crate::cache::CacheKeyView|
            context.cache.contains_key(other) && {
                let paths = #[trigger] crate::cache::key_paths(context.cache_dir, other);
                path == paths.input_path || path == paths.output_path
                    || paths.extra_paths.contains(path)
            },
{
    if context.cache.contains_key(key) {
        let paths = crate::cache::key_paths(context.cache_dir, key);
        let all = paths.all();
        assert(all[0] == paths.input_path);
        assert(all[1] == paths.output_path);
        assert(all.contains(paths.input_path));
        assert(all.contains(paths.output_path));
        if 0 <= i < paths.extra_paths.len() {
            assert(all[i + 2] == paths.extra_paths[i]);
            assert(all.contains(paths.extra_paths[i]));
        }
    }
    if context.owns(path) {
        let other = choose|other: crate::cache::CacheKeyView|
            context.cache.contains_key(other) && #[trigger] crate::cache::key_paths(
                context.cache_dir,
                other,
            ).all().contains(path);
        let paths = crate::cache::key_paths(context.cache_dir, other);
        let k = paths.all().index_of(path);
        if k >= 2 {
            assert(paths.extra_paths[k - 2] == path);
        }
    }
}

/// The command lines, word by word. LaTeX writes next to its source, or where it runs if the
/// source has no directory, and the picture is made from the source with the extension `dvi`.
pub proof fn law_command_lines(
    config: crate::config::RenderConfigView,
    input: Seq<char>,
    output: Seq<char>,
)
    ensures
        ({
            let latex = commands_for(config, Backend::LaTeX, input, output);
            &&& latex.len() == 2
            &&& latex[0].program == config.latex_cmd
            &&& latex[0].args.len() == 5
            &&& latex[0].args[0] == "-interaction=nonstopmode"@
            &&& latex[0].args[1] == "-halt-on-error"@
            &&& latex[0].args[2] == "-output-directory"@
            &&& crate::paths::parent(input) matches Some(dir) ==> latex[0].args[3] == dir
            &&& crate::paths::parent(input) is None ==> latex[0].args[3] == "."@
            &&& latex[0].args[4] == input
            &&& latex[1].program == config.latex_svg_cmd
            &&& latex[1].args.len() == 6
            &&& latex[1].args[0] == "--bbox=min"@
            &&& latex[1].args[1] == "--exact-bbox"@
            &&& latex[1].args[2] == "--no-fonts"@
            &&& latex[1].args[3] == "-o"@
            &&& latex[1].args[4] == output
            &&& latex[1].args[5] == crate::paths::extended(input, "dvi"@)
        }),
        ({
            let typst = commands_for(config, Backend::Typst, input, output);
            &&& typst.len() == 1
            &&& typst[0].program == config.typst_cmd
            &&& typst[0].args.len() == 3
            &&& typst[0].args[0] == "compile"@
            &&& typst[0].args[1] == input
            &&& typst[0].args[2] == output
        }),
{
}

/// What is known of a backend is what its fields hold.
pub proof fn law_availability_view(availability: Availability)
    ensures
        match availability {
            Availability::Known(there) => availability.deep_view() == AvailabilityView::Known(
                there,
            ),
            Availability::Probe(program) => availability.deep_view() == AvailabilityView::Probe(
                program@,
            ),
        },
{
}

} // verus!
