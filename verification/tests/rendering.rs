use inline_preview::backend::Backend;
use inline_preview::cache::{cache_key, CacheKey};
use inline_preview::command::{CommandOutput, RenderCommand};
use inline_preview::config::RenderConfig;
use inline_preview::context::{Availability, RenderContext};
use inline_preview::hash::fragment_hash;
use inline_preview::job::{RenderAction, RenderEvent, RenderJob};

const DIR: &str = "/tmp/cache";

fn context() -> RenderContext {
    RenderContext::with_config(RenderConfig::new(Some(4)), DIR.to_string())
}

fn output(code: i32, text: &str) -> CommandOutput {
    CommandOutput { code: Some(code), stdout: text.as_bytes().to_vec(), stderr: vec![] }
}

fn expect_write(action: RenderAction) -> (String, String) {
    match action {
        RenderAction::WriteInput { path, contents } => (path, contents),
        other => panic!("unexpected {:?}", other),
    }
}

fn expect_run(action: RenderAction) -> RenderCommand {
    match action {
        RenderAction::Run { command } => command,
        other => panic!("unexpected {:?}", other),
    }
}

fn expect_check(action: RenderAction) -> String {
    match action {
        RenderAction::CheckFile { path } => path,
        other => panic!("unexpected {:?}", other),
    }
}

fn expect_finish(action: RenderAction) -> (String, CommandOutput) {
    match action {
        RenderAction::Finish { path, output } => (path, output),
        other => panic!("unexpected {:?}", other),
    }
}

/// Renders with Typst, up to where the picture is looked for.
fn render_typst(context: &mut RenderContext, fragment: &str) -> (RenderJob, RenderAction) {
    let (job, action) = context.begin_render(Backend::Typst, fragment.to_string());
    expect_write(action);
    let (job, action) = context.advance(job, RenderEvent::Written);
    expect_run(action);
    context.advance(job, RenderEvent::Ran(output(0, "done")))
}

#[test]
fn the_initial_configuration() {
    let config = RenderConfig::new(None);
    assert_eq!(
        config.preamble_latex,
        "\\documentclass[preview,border=0pt,12pt]{standalone}\n\\usepackage[T1]{fontenc}\n\\usepackage[utf8]{inputenc}\n\\usepackage{lmodern}\n\\usepackage{amsmath,amssymb}\n\\usepackage{mathtools}\n\\begin{document}"
    );
    assert_eq!(
        config.preamble_typst,
        "#set page(width: auto, height: auto, margin: 0pt)\n"
    );
    assert_eq!(config.postamble_latex, "\\end{document}");
    assert_eq!(config.postamble_typst, "");
    assert_eq!(config.latex_cmd, "latex");
    assert_eq!(config.latex_svg_cmd, "dvisvgm");
    assert_eq!(config.typst_cmd, "typst");
    assert_eq!(config.max_parallel, 1);
    assert_eq!(RenderConfig::new(Some(8)).max_parallel, 8);
    assert_eq!(config.clone(), config);
    assert_eq!(RenderContext::new(DIR.to_string(), None).config(), &config);
}

#[test]
fn the_source_file() {
    let mut config = RenderConfig::new(None);
    assert_eq!(
        config.render_file_contents(Backend::Typst, "$x$"),
        "#set page(width: auto, height: auto, margin: 0pt)\n\n\n\n$x$\n"
    );
    config.preamble_latex = "PRE".to_string();
    config.postamble_latex = "POST".to_string();
    assert_eq!(
        config.render_file_contents(Backend::LaTeX, "$x$"),
        "PRE\n\n\n$x$\n\nPOST\n"
    );
    config.preamble_typst = String::new();
    assert_eq!(config.render_file_contents(Backend::Typst, "$x$"), "\n\n$x$\n");
}

#[test]
fn the_files_of_a_formula() {
    let context = context();
    let latex = context.cached_paths(Backend::LaTeX, "00ff");
    let all: Vec<String> = latex.all_paths().into_iter().cloned().collect();
    assert_eq!(
        all,
        vec![
            "/tmp/cache/latex_00ff.tex",
            "/tmp/cache/latex_00ff.svg",
            "/tmp/cache/latex_00ff.dvi",
            "/tmp/cache/latex_00ff.aux",
            "/tmp/cache/latex_00ff.log",
        ]
    );
    let typst = context.cached_paths(Backend::Typst, "00ff").clone();
    assert_eq!(typst.input_path, "/tmp/cache/typst_00ff.typ");
    assert_eq!(typst.output_path, "/tmp/cache/typst_00ff.svg");
    assert!(typst.extra_paths.is_empty());
    assert_eq!(typst.all_paths().len(), 2);
}

#[test]
fn the_commands() {
    let context = context();
    let latex = context.render_cmds(Backend::LaTeX, "/tmp/cache/a.tex", "/tmp/cache/a.svg");
    assert_eq!(latex.len(), 2);
    assert_eq!(latex[0].program, "latex");
    assert_eq!(
        latex[0].args,
        vec![
            "-interaction=nonstopmode",
            "-halt-on-error",
            "-output-directory",
            "/tmp/cache",
            "/tmp/cache/a.tex",
        ]
    );
    assert_eq!(latex[1].program, "dvisvgm");
    assert_eq!(
        latex[1].args,
        vec![
            "--bbox=min",
            "--exact-bbox",
            "--no-fonts",
            "-o",
            "/tmp/cache/a.svg",
            "/tmp/cache/a.dvi",
        ]
    );
    let typst = context.render_cmds(Backend::Typst, "/tmp/cache/a.typ", "/tmp/cache/a.svg");
    assert_eq!(typst.len(), 1);
    assert_eq!(typst[0].program, "typst");
    assert_eq!(typst[0].args, vec!["compile", "/tmp/cache/a.typ", "/tmp/cache/a.svg"]);
}

#[test]
fn latex_leaves_its_files_where_they_belong() {
    let context = context();
    let paths = context.cached_paths(Backend::LaTeX, &fragment_hash("$x$"));
    let commands =
        context.render_cmds(Backend::LaTeX, &paths.input_path, &paths.output_path);
    assert_eq!(commands[0].args[3], DIR);
    assert_eq!(commands[1].args[4], paths.output_path);
    assert_eq!(commands[1].args[5], paths.extra_paths[0]);
}

#[test]
fn latex_leaves_its_files_in_any_directory() {
    for (dir, expected) in
        [("", ""), ("/", "/"), (".", "."), ("/tmp/x/", "/tmp/x"), ("/tmp/x/.", "/tmp/x"), ("./", ".")]
    {
        let context = RenderContext::new(dir.to_string(), None);
        let paths = context.cached_paths(Backend::LaTeX, &fragment_hash("$x$"));
        let commands =
            context.render_cmds(Backend::LaTeX, &paths.input_path, &paths.output_path);
        assert_eq!(commands[0].args[3], expected);
        assert_eq!(commands[1].args[4], paths.output_path);
        assert_eq!(commands[1].args[5], paths.extra_paths[0]);
    }
}

#[test]
fn commands_for_unusual_paths() {
    let context = context();
    for (input, dir, dvi) in
        [("", ".", ""), ("/", ".", "/"), ("a/b/", "a", "a/b.dvi"), ("a/./x.tex", "a", "a/./x.dvi")]
    {
        let commands = context.render_cmds(Backend::LaTeX, input, "out.svg");
        assert_eq!(commands[0].args[3], dir);
        assert_eq!(commands[0].args[4], input);
        assert_eq!(commands[1].args[5], dvi);
    }
}

#[test]
fn no_file_belongs_to_two_formulas() {
    let context = context();
    let mut files = vec![];
    for backend in [Backend::LaTeX, Backend::Typst] {
        for fragment in ["$x$", "$y$"] {
            let paths = context.cached_paths(backend, &fragment_hash(fragment));
            files.extend(paths.all_paths().into_iter().cloned());
        }
    }
    assert_eq!(files.len(), 14);
    files.sort();
    files.dedup();
    assert_eq!(files.len(), 14);
}

#[test]
fn other_fragments_make_other_files() {
    let config = RenderConfig::new(None);
    for backend in [Backend::LaTeX, Backend::Typst] {
        assert_ne!(
            config.render_file_contents(backend, "x\n"),
            config.render_file_contents(backend, "x")
        );
    }
}

#[test]
fn latex_runs_both_programs_and_is_remembered() {
    let mut context = context();
    let fragment = "$E=mc^2$";
    let hash = fragment_hash(fragment);
    let (job, action) = context.begin_render(Backend::LaTeX, fragment.to_string());
    let (path, contents) = expect_write(action);
    assert_eq!(path, format!("/tmp/cache/latex_{}.tex", hash));
    assert_eq!(contents, context.config().render_file_contents(Backend::LaTeX, fragment));
    let (job, action) = context.advance(job, RenderEvent::Written);
    assert_eq!(expect_run(action).program, "latex");
    let (job, action) = context.advance(job, RenderEvent::Ran(output(0, "first")));
    let command = expect_run(action);
    assert_eq!(command.program, "dvisvgm");
    assert_eq!(command.args[5], format!("/tmp/cache/latex_{}.dvi", hash));
    let (job, action) = context.advance(job, RenderEvent::Ran(output(0, "second")));
    let svg = format!("/tmp/cache/latex_{}.svg", hash);
    assert_eq!(expect_check(action), svg);
    let (_, action) = context.advance(job, RenderEvent::FileFound(true));
    let (path, result) = expect_finish(action);
    assert_eq!(path, svg);
    assert_eq!(result.stdout, b"second");

    let (job, action) = context.begin_render(Backend::LaTeX, fragment.to_string());
    assert_eq!(expect_check(action), svg);
    let (_, action) = context.advance(job, RenderEvent::FileFound(true));
    let (path, again) = expect_finish(action);
    assert_eq!(path, svg);
    assert_eq!(again.stdout, b"second");
    assert!(again.success());
}

#[test]
fn a_backend_does_not_find_what_the_other_rendered() {
    let mut context = context();
    let (job, _) = render_typst(&mut context, "$x$");
    context.advance(job, RenderEvent::FileFound(true));
    let (_, action) = context.begin_render(Backend::LaTeX, "$x$".to_string());
    expect_write(action);
}

#[test]
fn a_program_that_fails_ends_the_rendering() {
    let mut context = context();
    let (job, _) = context.begin_render(Backend::LaTeX, "$x".to_string());
    let (job, _) = context.advance(job, RenderEvent::Written);
    let (_, action) = context.advance(job, RenderEvent::Ran(output(1, "no")));
    let (_, result) = expect_finish(action);
    assert_eq!(result.code, Some(1));
    assert!(!result.success());
    assert!(context.remembered(&cache_key(Backend::LaTeX, "$x")).is_none());
}

#[test]
fn a_program_that_was_stopped_has_not_succeeded() {
    let stopped = CommandOutput { code: None, stdout: vec![], stderr: vec![1] };
    assert!(!stopped.success());
    assert_eq!(stopped.clone().stderr, vec![1]);
}

#[test]
fn what_cannot_be_written_or_run_fails() {
    let mut context = context();
    let (job, _) = context.begin_render(Backend::Typst, "x".to_string());
    let (_, action) = context.advance(job, RenderEvent::IoFailed);
    assert!(matches!(action, RenderAction::Fail));
    let (job, _) = context.begin_render(Backend::Typst, "x".to_string());
    let (job, _) = context.advance(job, RenderEvent::Written);
    let (_, action) = context.advance(job, RenderEvent::IoFailed);
    assert!(matches!(action, RenderAction::Fail));
    assert!(context.remembered(&cache_key(Backend::Typst, "x")).is_none());
}

#[test]
fn without_a_picture_nothing_is_remembered() {
    let mut context = context();
    let (job, action) = render_typst(&mut context, "x");
    expect_check(action);
    let (_, action) = context.advance(job, RenderEvent::FileFound(false));
    assert_eq!(expect_finish(action).1.stdout, b"done");
    assert!(context.remembered(&cache_key(Backend::Typst, "x")).is_none());
}

#[test]
fn a_lost_picture_is_rendered_again() {
    let mut context = context();
    let (job, _) = render_typst(&mut context, "x");
    context.advance(job, RenderEvent::FileFound(true));
    assert!(context.remembered(&cache_key(Backend::Typst, "x")).is_some());
    let (job, action) = context.begin_render(Backend::Typst, "x".to_string());
    expect_check(action);
    let (_, action) = context.advance(job, RenderEvent::FileFound(false));
    expect_write(action);
    assert!(context.remembered(&cache_key(Backend::Typst, "x")).is_none());
}

#[test]
fn a_formula_that_failed_is_rendered_anew() {
    let mut context = context();
    let (job, _) = context.begin_render(Backend::Typst, "x".to_string());
    let (job, _) = context.advance(job, RenderEvent::Written);
    let (_, action) = context.advance(job, RenderEvent::Ran(output(2, "no")));
    let (first_path, _) = expect_finish(action);
    let (job, action) = context.begin_render(Backend::Typst, "x".to_string());
    expect_write(action);
    let (job, action) = context.advance(job, RenderEvent::Written);
    expect_run(action);
    let (job, _) = context.advance(job, RenderEvent::Ran(output(0, "yes")));
    let (_, action) = context.advance(job, RenderEvent::FileFound(true));
    let (second_path, result) = expect_finish(action);
    assert_eq!(first_path, second_path);
    assert_eq!(result.stdout, b"yes");
    let (job, action) = context.begin_render(Backend::Typst, "x".to_string());
    assert_eq!(expect_check(action), second_path);
    let (_, action) = context.advance(job, RenderEvent::FileFound(true));
    assert_eq!(expect_finish(action).1.stdout, b"yes");
}

fn remembering(fragments: &[&str]) -> RenderContext {
    let mut context = context();
    for fragment in fragments {
        let (job, _) = render_typst(&mut context, fragment);
        context.advance(job, RenderEvent::FileFound(true));
    }
    context
}

#[test]
fn other_text_around_formulas_forgets_them() {
    let mut context = remembering(&["x", "y"]);
    let mut config = RenderConfig::new(Some(4));
    config.postamble_typst = "end".to_string();
    let mut files = context.set_config(config.clone());
    files.sort();
    let mut expected = vec![];
    for fragment in ["x", "y"] {
        let paths = context.cached_paths(Backend::Typst, &fragment_hash(fragment));
        expected.push(paths.input_path.clone());
        expected.push(paths.output_path.clone());
    }
    expected.sort();
    assert_eq!(files, expected);
    assert_eq!(context.config(), &config);
    assert!(context.remembered(&cache_key(Backend::Typst, "x")).is_none());
}

#[test]
fn another_program_forgets_formulas_and_programs() {
    let mut context = remembering(&["x"]);
    context.record_availability("typst".to_string(), true);
    let mut config = RenderConfig::new(Some(4));
    config.latex_cmd = "pdflatex".to_string();
    assert_eq!(context.set_config(config).len(), 2);
    assert_eq!(context.command_available(&"typst".to_string()), None);
}

#[test]
fn another_parallelism_forgets_nothing() {
    let mut context = remembering(&["x"]);
    context.record_availability("typst".to_string(), true);
    assert!(context.set_config(RenderConfig::new(Some(9))).is_empty());
    assert_eq!(context.config().max_parallel, 9);
    assert!(context.remembered(&cache_key(Backend::Typst, "x")).is_some());
    assert_eq!(context.command_available(&"typst".to_string()), Some(true));
}

#[test]
fn other_text_keeps_the_programs() {
    let mut context = context();
    context.record_availability("typst".to_string(), false);
    let mut config = RenderConfig::new(Some(4));
    config.preamble_latex = String::new();
    context.set_config(config);
    assert_eq!(context.command_available(&"typst".to_string()), Some(false));
}

#[test]
fn forgetting_lists_each_file_once() {
    let mut context = remembering(&["y"]);
    // Two renderings of one formula at the same time.
    let (first, _) = render_typst(&mut context, "x");
    let (second, _) = render_typst(&mut context, "x");
    context.advance(first, RenderEvent::FileFound(true));
    context.advance(second, RenderEvent::FileFound(true));
    let files = context.invalidate_cache();
    assert_eq!(files.len(), 4);
    assert!(context.invalidate_cache().is_empty());
}

fn probe(context: &RenderContext, backend: Backend) -> Result<bool, String> {
    match context.backend_available(backend) {
        Availability::Known(there) => Ok(there),
        Availability::Probe(program) => Err(program),
    }
}

#[test]
fn programs_are_looked_for_once_and_in_order() {
    let mut context = context();
    assert_eq!(probe(&context, Backend::LaTeX), Err("latex".to_string()));
    context.record_availability("latex".to_string(), true);
    assert_eq!(probe(&context, Backend::LaTeX), Err("dvisvgm".to_string()));
    context.record_availability("dvisvgm".to_string(), true);
    assert_eq!(probe(&context, Backend::LaTeX), Ok(true));
    assert_eq!(probe(&context, Backend::Typst), Err("typst".to_string()));
    context.record_availability("typst".to_string(), false);
    assert_eq!(probe(&context, Backend::Typst), Ok(false));
}

#[test]
fn the_second_program_is_not_looked_for_without_the_first() {
    let mut context = context();
    context.record_availability("latex".to_string(), false);
    assert_eq!(probe(&context, Backend::LaTeX), Ok(false));
    assert_eq!(context.command_available(&"dvisvgm".to_string()), None);
}

#[test]
fn keys_hold_the_backend_and_the_hash() {
    let key = cache_key(Backend::LaTeX, "x");
    assert_eq!(key, CacheKey { backend: Backend::LaTeX, hash: fragment_hash("x") });
    assert_ne!(key, cache_key(Backend::Typst, "x"));
    assert_eq!(key.clone(), key);
}
