//! Programs to run, and what became of them.

use vstd::prelude::*;

verus! {

/// A program and its arguments.
#[derive(Debug)]
pub struct RenderCommand {
    pub program: String,
    pub args: Vec<String>,
}

/// What a `RenderCommand` holds.
pub struct RenderCommandView {
    pub program: Seq<char>,
    pub args: Seq<Seq<char>>,
}

impl DeepView for RenderCommand {
    type V = RenderCommandView;

    open spec fn deep_view(&self) -> RenderCommandView {
        RenderCommandView { program: self.program@, args: self.args.deep_view() }
    }
}

/// Another list of the same strings.
pub(crate) fn copy_strings(strings: &Vec<String>) -> (r: Vec<String>)
    ensures
        r.deep_view() == strings.deep_view(),
{
    let mut copy: Vec<String> = Vec::new();
    for i in 0..strings.len()
        invariant
            copy@.len() == i,
            forall|j: int| 0 <= j < i ==> #[trigger] copy@[j] == strings@[j],
    {
        copy.push(strings[i].clone());
    }
    assert(copy.deep_view() =~= strings.deep_view());
    copy
}

impl Clone for RenderCommand {
    fn clone(&self) -> (r: Self)
        ensures
            r.deep_view() == self.deep_view(),
    {
        RenderCommand { program: self.program.clone(), args: copy_strings(&self.args) }
    }
}

/// How a program ended and what it wrote. There is no exit code where it was stopped by a
/// signal.
#[derive(Debug)]
pub struct CommandOutput {
    pub code: Option<i32>,
    pub stdout: Vec<u8>,
    pub stderr: Vec<u8>,
}

/// What a `CommandOutput` holds.
pub struct CommandOutputView {
    pub code: Option<i32>,
    pub stdout: Seq<u8>,
    pub stderr: Seq<u8>,
}

impl CommandOutputView {
    /// The program ended with exit code 0.
    pub open spec fn succeeded(self) -> bool {
        self.code == Some(0i32)
    }
}

impl DeepView for CommandOutput {
    type V = CommandOutputView;

    open spec fn deep_view(&self) -> CommandOutputView {
        CommandOutputView { code: self.code, stdout: self.stdout@, stderr: self.stderr@ }
    }
}

/// Another list of the same bytes.
fn copy_bytes(bytes: &Vec<u8>) -> (r: Vec<u8>)
    ensures
        r@ == bytes@,
{
    let mut copy: Vec<u8> = Vec::new();
    copy.extend_from_slice(bytes.as_slice());
    assert(copy@ =~= bytes@);
    copy
}

impl CommandOutput {
    /// Whether the program ended with exit code 0.
    pub fn success(&self) -> (r: bool)
        ensures
            r == self.deep_view().succeeded(),
            r <==> self.code == Some(0i32),
    {
        match self.code {
            Some(code) => code == 0,
            None => false,
        }
    }
}

impl Clone for CommandOutput {
    fn clone(&self) -> (r: Self)
        ensures
            r.deep_view() == self.deep_view(),
    {
        CommandOutput {
            code: self.code,
            stdout: copy_bytes(&self.stdout),
            stderr: copy_bytes(&self.stderr),
        }
    }
}

/// Whether a program succeeded is told by its exit code alone, whatever it wrote.
pub proof fn law_success_is_exit_code(output: CommandOutput)
    ensures
        output.deep_view().succeeded() <==> output.code == Some(0i32),
        output.deep_view().code == output.code,
        output.deep_view().stdout == output.stdout@,
        output.deep_view().stderr == output.stderr@,
{
}

/// A command is its program and its arguments.
pub proof fn law_command_view(command: RenderCommand, i: int)
    requires
        0 <= i < command.args@.len(),
    ensures
        command.deep_view().program == command.program@,
        command.deep_view().args.len() == command.args@.len(),
        command.deep_view().args[i] == command.args@[i]@,
{
}

} // verus!
