//! How formulas are rendered: the text around them and the programs that render them.

use crate::backend::Backend;
use vstd::prelude::*;

verus! {

/// The text around a formula, the programs to run, and how many to run at once.
#[derive(Debug, PartialEq, Eq)]
pub struct RenderConfig {
    pub preamble_latex: String,
    pub preamble_typst: String,
    pub postamble_latex: String,
    pub postamble_typst: String,
    pub latex_cmd: String,
    pub latex_svg_cmd: String,
    pub typst_cmd: String,
    pub max_parallel: usize,
}

/// What a `RenderConfig` holds.
pub struct RenderConfigView {
    pub preamble_latex: Seq<char>,
    pub preamble_typst: Seq<char>,
    pub postamble_latex: Seq<char>,
    pub postamble_typst: Seq<char>,
    pub latex_cmd: Seq<char>,
    pub latex_svg_cmd: Seq<char>,
    pub typst_cmd: Seq<char>,
    pub max_parallel: usize,
}

impl DeepView for RenderConfig {
    type V = RenderConfigView;

    open spec fn deep_view(&self) -> RenderConfigView {
        RenderConfigView {
            preamble_latex: self.preamble_latex@,
            preamble_typst: self.preamble_typst@,
            postamble_latex: self.postamble_latex@,
            postamble_typst: self.postamble_typst@,
            latex_cmd: self.latex_cmd@,
            latex_svg_cmd: self.latex_svg_cmd@,
            typst_cmd: self.typst_cmd@,
            max_parallel: self.max_parallel,
        }
    }
}

impl Clone for RenderConfig {
    fn clone(&self) -> (r: Self)
        ensures
            r.deep_view() == self.deep_view(),
    {
        RenderConfig {
            preamble_latex: self.preamble_latex.clone(),
            preamble_typst: self.preamble_typst.clone(),
            postamble_latex: self.postamble_latex.clone(),
            postamble_typst: self.postamble_typst.clone(),
            latex_cmd: self.latex_cmd.clone(),
            latex_svg_cmd: self.latex_svg_cmd.clone(),
            typst_cmd: self.typst_cmd.clone(),
            max_parallel: self.max_parallel,
        }
    }
}

impl RenderConfigView {
    /// What stands before a formula.
    pub open spec fn preamble(self, backend: Backend) -> Seq<char> {
        match backend {
            Backend::LaTeX => self.preamble_latex,
            Backend::Typst => self.preamble_typst,
        }
    }

    /// What stands after a formula.
    pub open spec fn postamble(self, backend: Backend) -> Seq<char> {
        match backend {
            Backend::LaTeX => self.postamble_latex,
            Backend::Typst => self.postamble_typst,
        }
    }

    /// The programs that must be there for `backend`, in the order in which they run.
    pub open spec fn programs(self, backend: Backend) -> Seq<Seq<char>> {
        match backend {
            Backend::LaTeX => seq![self.latex_cmd, self.latex_svg_cmd],
            Backend::Typst => seq![self.typst_cmd],
        }
    }

    /// Both name the same programs.
    pub open spec fn same_programs(self, other: RenderConfigView) -> bool {
        &&& self.latex_cmd == other.latex_cmd
        &&& self.latex_svg_cmd == other.latex_svg_cmd
        &&& self.typst_cmd == other.typst_cmd
    }

    /// Both put the same text around a formula.
    pub open spec fn same_text(self, other: RenderConfigView) -> bool {
        &&& self.preamble_latex == other.preamble_latex
        &&& self.preamble_typst == other.preamble_typst
        &&& self.postamble_latex == other.postamble_latex
        &&& self.postamble_typst == other.postamble_typst
    }
}

/// The configuration to start with.
pub open spec fn initial_config(parallelism: Option<usize>) -> RenderConfigView {
    RenderConfigView {
        preamble_latex:
            "\\documentclass[preview,border=0pt,12pt]{standalone}\n\\usepackage[T1]{fontenc}\n\\usepackage[utf8]{inputenc}\n\\usepackage{lmodern}\n\\usepackage{amsmath,amssymb}\n\\usepackage{mathtools}\n\\begin{document}"@,
        preamble_typst: "#set page(width: auto, height: auto, margin: 0pt)\n"@,
        postamble_latex: "\\end{document}"@,
        postamble_typst: seq![],
        latex_cmd: "latex"@,
        latex_svg_cmd: "dvisvgm"@,
        typst_cmd: "typst"@,
        max_parallel: match parallelism {
            Some(n) => n,
            None => 1,
        },
    }
}

impl RenderConfig {
    /// The configuration to start with. `parallelism` is how many threads the machine is
    /// known to run at once.
    pub fn new(parallelism: Option<usize>) -> (r: Self)
        ensures
            r.deep_view() == initial_config(parallelism),
    {
        RenderConfig {
            // A standalone page with no border leaves no padding around the formula.
            preamble_latex: String::from_str(
                "\\documentclass[preview,border=0pt,12pt]{standalone}\n\\usepackage[T1]{fontenc}\n\\usepackage[utf8]{inputenc}\n\\usepackage{lmodern}\n\\usepackage{amsmath,amssymb}\n\\usepackage{mathtools}\n\\begin{document}",
            ),
            preamble_typst: String::from_str(
                "#set page(width: auto, height: auto, margin: 0pt)\n",
            ),
            postamble_latex: String::from_str("\\end{document}"),
            postamble_typst: String::new(),
            latex_cmd: String::from_str("latex"),
            latex_svg_cmd: String::from_str("dvisvgm"),
            typst_cmd: String::from_str("typst"),
            max_parallel: parallelism.unwrap_or(1),
        }
    }

    /// Whether both name the same programs.
    pub fn has_same_programs(&self, other: &RenderConfig) -> (r: bool)
        ensures
            r == self.deep_view().same_programs(other.deep_view()),
    {
        self.latex_cmd == other.latex_cmd && self.latex_svg_cmd == other.latex_svg_cmd
            && self.typst_cmd == other.typst_cmd
    }

    /// Whether both put the same text around a formula.
    pub fn has_same_text(&self, other: &RenderConfig) -> (r: bool)
        ensures
            r == self.deep_view().same_text(other.deep_view()),
    {
        self.preamble_latex == other.preamble_latex && self.preamble_typst == other.preamble_typst
            && self.postamble_latex == other.postamble_latex && self.postamble_typst
            == other.postamble_typst
    }

    /// The source file that renders `fragment`.
    pub fn render_file_contents(&self, backend: Backend, fragment: &str) -> (r: String)
        ensures
            r@ == render_file(self.deep_view(), backend, fragment@),
    {
        let preamble: &str = match backend {
            Backend::LaTeX => self.preamble_latex.as_str(),
            Backend::Typst => self.preamble_typst.as_str(),
        };
        let postamble: &str = match backend {
            Backend::LaTeX => self.postamble_latex.as_str(),
            Backend::Typst => self.postamble_typst.as_str(),
        };
        let mut contents = String::new();
        if !preamble.is_empty() {
            contents.append(preamble);
            contents.append("\n");
        }
        contents.append("\n\n");
        contents.append(fragment);
        contents.append("\n");
        if !postamble.is_empty() {
            contents.append("\n");
            contents.append(postamble);
            contents.append("\n");
        }
        assert(contents@ =~= render_file(self.deep_view(), backend, fragment@));
        contents
    }
}

/// The source file that renders `fragment`: the preamble on lines of its own, the fragment
/// after two empty lines, the postamble after another, and nothing for an empty preamble or
/// postamble.
pub open spec fn render_file(
    config: RenderConfigView,
    backend: Backend,
    fragment: Seq<char>,
) -> Seq<char> {
    let before = if config.preamble(backend).len() == 0 {
        seq![]
    } else {
        config.preamble(backend) + "\n"@
    };
    let after = if config.postamble(backend).len() == 0 {
        seq![]
    } else {
        "\n"@ + config.postamble(backend) + "\n"@
    };
    before + "\n\n"@ + fragment + "\n"@ + after
}

/// Two fragments that one configuration puts in the same file are the same.
pub proof fn law_render_file_injective(
    config: RenderConfigView,
    backend: Backend,
    a: Seq<char>,
    b: Seq<char>,
)
    requires
        render_file(config, backend, a) == render_file(config, backend, b),
    ensures
        a == b,
{
    let lead = if config.preamble(backend).len() == 0 {
        seq![]
    } else {
        config.preamble(backend) + "\n"@
    } + "\n\n"@;
    let x = render_file(config, backend, a);
    let y = render_file(config, backend, b);
    let tail = x.len() - lead.len() - a.len();
    assert(x =~= lead + a + x.skip(x.len() - tail));
    assert(y =~= lead + b + y.skip(y.len() - tail));
    assert(a =~= x.subrange(lead.len() as int, lead.len() as int + a.len()));
    assert(b =~= y.subrange(lead.len() as int, lead.len() as int + b.len()));
}

/// The source file for LaTeX or Typst, line by line: the preamble, two empty lines, the
/// fragment, an empty line and the postamble; an empty preamble leaves out its line, an empty
/// postamble its lines.
pub proof fn law_render_file_text(config: RenderConfigView, backend: Backend, fragment: Seq<char>)
    ensures
        ({
            let preamble = match backend {
                Backend::LaTeX => config.preamble_latex,
                Backend::Typst => config.preamble_typst,
            };
            let postamble = match backend {
                Backend::LaTeX => config.postamble_latex,
                Backend::Typst => config.postamble_typst,
            };
            let head = if preamble.len() == 0 {
                seq!['\n', '\n']
            } else {
                preamble + seq!['\n', '\n', '\n']
            };
            let tail = if postamble.len() == 0 {
                seq!['\n']
            } else {
                seq!['\n', '\n'] + postamble + seq!['\n']
            };
            render_file(config, backend, fragment) == head + fragment + tail
        }),
{
    reveal_strlit("\n");
    reveal_strlit("\n\n");
    let preamble = match backend {
        Backend::LaTeX => config.preamble_latex,
        Backend::Typst => config.preamble_typst,
    };
    let postamble = match backend {
        Backend::LaTeX => config.postamble_latex,
        Backend::Typst => config.postamble_typst,
    };
    let head = if preamble.len() == 0 {
        seq!['\n', '\n']
    } else {
        preamble + seq!['\n', '\n', '\n']
    };
    let tail = if postamble.len() == 0 {
        seq!['\n']
    } else {
        seq!['\n', '\n'] + postamble + seq!['\n']
    };
    assert(render_file(config, backend, fragment) =~= head + fragment + tail);
}

/// Configurations that put the same text around a formula write the same source file for
/// every fragment; so where one source file differs, the text is not the same.
pub proof fn law_same_text_same_files(
    a: RenderConfigView,
    b: RenderConfigView,
    backend: Backend,
    fragment: Seq<char>,
)
    ensures
        a.same_text(b) ==> render_file(a, backend, fragment) == render_file(b, backend, fragment),
{
}

/// Configurations that name the same programs run the same programs for every backend; so
/// where one program differs, the programs are not the same.
pub proof fn law_same_programs_are_run(a: RenderConfigView, b: RenderConfigView, backend: Backend)
    ensures
        a.same_programs(b) ==> a.programs(backend) == b.programs(backend),
{
}

/// Only the preambles and postambles count for the text around a formula, and only the
/// commands for the programs.
pub proof fn law_same_where_fields_are(a: RenderConfigView, b: RenderConfigView)
    ensures
        a.preamble_latex == b.preamble_latex && a.preamble_typst == b.preamble_typst
            && a.postamble_latex == b.postamble_latex && a.postamble_typst == b.postamble_typst
            <==> a.same_text(b),
        a.latex_cmd == b.latex_cmd && a.latex_svg_cmd == b.latex_svg_cmd && a.typst_cmd
            == b.typst_cmd <==> a.same_programs(b),
{
}

/// LaTeX needs two programs, the second for the picture; Typst needs one.
pub proof fn law_programs(config: RenderConfigView)
    ensures
        config.programs(Backend::LaTeX).len() == 2,
        config.programs(Backend::LaTeX)[0] == config.latex_cmd,
        config.programs(Backend::LaTeX)[1] == config.latex_svg_cmd,
        config.programs(Backend::Typst).len() == 1,
        config.programs(Backend::Typst)[0] == config.typst_cmd,
{
}

/// A configuration is what its fields hold.
pub proof fn law_config_view(config: RenderConfig)
    ensures
        config.deep_view().preamble_latex == config.preamble_latex@,
        config.deep_view().preamble_typst == config.preamble_typst@,
        config.deep_view().postamble_latex == config.postamble_latex@,
        config.deep_view().postamble_typst == config.postamble_typst@,
        config.deep_view().latex_cmd == config.latex_cmd@,
        config.deep_view().latex_svg_cmd == config.latex_svg_cmd@,
        config.deep_view().typst_cmd == config.typst_cmd@,
        config.deep_view().max_parallel == config.max_parallel,
{
}

} // verus!
