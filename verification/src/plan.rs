//! Where each stage of a pipeline reads from and writes to, in each of the
//! two execution modes. The caller opens the files and pipes that the
//! plan names and starts the processes.

use vstd::prelude::*;
use crate::builtins::ExecMode;
use crate::parser::{commands_view, SimpleCommand, SimpleCommandView};

verus! {

/// Where a stage reads its standard input from.
#[derive(Debug)]
pub enum InputSource {
    /// The shell's own standard input.
    Inherit,
    /// This file.
    File(String),
    /// The output of the stage before it.
    PreviousStage,
}

/// Where a stage writes its standard output to.
#[derive(Debug)]
pub enum OutputTarget {
    /// The shell's own standard output.
    Inherit,
    /// Nowhere (a background pipeline does not write to the terminal).
    Null,
    /// This file, created or truncated.
    Truncate(String),
    /// This file, created if need be, appended to.
    Append(String),
    /// The input of the stage after it.
    NextStage,
}

pub enum InputSourceView {
    Inherit,
    File(Seq<char>),
    PreviousStage,
}

pub enum OutputTargetView {
    Inherit,
    Null,
    Truncate(Seq<char>),
    Append(Seq<char>),
    NextStage,
}

impl View for InputSource {
    type V = InputSourceView;

    open spec fn view(&self) -> InputSourceView {
        match self {
            InputSource::Inherit => InputSourceView::Inherit,
            InputSource::File(f) => InputSourceView::File(f@),
            InputSource::PreviousStage => InputSourceView::PreviousStage,
        }
    }
}

impl View for OutputTarget {
    type V = OutputTargetView;

    open spec fn view(&self) -> OutputTargetView {
        match self {
            OutputTarget::Inherit => OutputTargetView::Inherit,
            OutputTarget::Null => OutputTargetView::Null,
            OutputTarget::Truncate(f) => OutputTargetView::Truncate(f@),
            OutputTarget::Append(f) => OutputTargetView::Append(f@),
            OutputTarget::NextStage => OutputTargetView::NextStage,
        }
    }
}

/// A pipeline runs in the background when its last command ends in `&`.
pub open spec fn background_spec(cmds: Seq<SimpleCommandView>) -> bool {
    cmds.len() > 0 && cmds.last().background
}

/// The input of stage `i`. In process mode only the first stage may read
/// a file (`<`); in thread mode any stage may, in place of the stage before.
pub open spec fn stage_input_spec(cmds: Seq<SimpleCommandView>, i: int, mode: ExecMode) -> InputSourceView {
    match mode {
        ExecMode::Process => if i == 0 {
            match cmds[i].redirect_in {
                Some(f) => InputSourceView::File(f),
                None => InputSourceView::Inherit,
            }
        } else {
            InputSourceView::PreviousStage
        },
        ExecMode::Thread => match cmds[i].redirect_in {
            Some(f) => InputSourceView::File(f),
            None => if i > 0 {
                InputSourceView::PreviousStage
            } else {
                InputSourceView::Inherit
            },
        },
    }
}

/// The output of stage `i`: the next stage, except for the last, which
/// writes to its `>` file, else its `>>` file, else nowhere when the
/// pipeline runs in the background, else the terminal.
pub open spec fn stage_output_spec(cmds: Seq<SimpleCommandView>, i: int) -> OutputTargetView {
    if i == cmds.len() - 1 {
        match cmds[i].redirect_out {
            Some(f) => OutputTargetView::Truncate(f),
            None => match cmds[i].append_out {
                Some(f) => OutputTargetView::Append(f),
                None => if background_spec(cmds) {
                    OutputTargetView::Null
                } else {
                    OutputTargetView::Inherit
                },
            },
        }
    } else {
        OutputTargetView::NextStage
    }
}

/// In process mode the stages are joined in a chain: every stage but the
/// last writes to the next one, which reads from it, and only the last
/// stage writes anywhere else.
pub proof fn lemma_process_pipes_connect(cmds: Seq<SimpleCommandView>)
    ensures
        forall|i: int| 0 <= i < cmds.len() - 1 ==> #[trigger] stage_output_spec(cmds, i) == OutputTargetView::NextStage
            && stage_input_spec(cmds, i + 1, ExecMode::Process) == InputSourceView::PreviousStage,
        cmds.len() > 0 ==> stage_output_spec(cmds, cmds.len() - 1) != OutputTargetView::NextStage,
{
}

/// The input of a command run on its own: its `<` file, else the terminal.
pub open spec fn simple_input_spec(c: SimpleCommandView) -> InputSourceView {
    match c.redirect_in {
        Some(f) => InputSourceView::File(f),
        None => InputSourceView::Inherit,
    }
}

/// The files a command run on its own opens for its output, in order: its
/// `>` file, then its `>>` file. The last one opened becomes its standard
/// output (so `>>` wins when both are given, and the `>` file is still
/// created); with neither it writes to the terminal.
pub open spec fn simple_outputs_spec(c: SimpleCommandView) -> Seq<OutputTargetView> {
    (match c.redirect_out {
        Some(f) => seq![OutputTargetView::Truncate(f)],
        None => Seq::empty(),
    }) + (match c.append_out {
        Some(f) => seq![OutputTargetView::Append(f)],
        None => Seq::empty(),
    })
}

pub open spec fn targets_view(v: Seq<OutputTarget>) -> Seq<OutputTargetView> {
    v.map_values(|t: OutputTarget| t@)
}

/// The input of `cmd` run on its own.
pub fn simple_input(cmd: &SimpleCommand) -> (src: InputSource)
    ensures
        src@ == simple_input_spec(cmd@),
{
    match copy_name(&cmd.redirect_in) {
        Some(f) => InputSource::File(f),
        None => InputSource::Inherit,
    }
}

/// The output files of `cmd` run on its own, in the order they are opened.
pub fn simple_outputs(cmd: &SimpleCommand) -> (v: Vec<OutputTarget>)
    ensures
        targets_view(v@) == simple_outputs_spec(cmd@),
{
    let mut v: Vec<OutputTarget> = Vec::new();
    match copy_name(&cmd.redirect_out) {
        Some(f) => v.push(OutputTarget::Truncate(f)),
        None => {},
    }
    match copy_name(&cmd.append_out) {
        Some(f) => v.push(OutputTarget::Append(f)),
        None => {},
    }
    assert(targets_view(v@) =~= simple_outputs_spec(cmd@));
    v
}

/// Where each stage reads from, over all pipelines. In thread mode a stage
/// with a `<` file reads it, any other stage but the first reads from the
/// stage before it, and the first reads the terminal. In process mode only
/// the first stage reads its `<` file (or the terminal); every later stage
/// reads from the stage before it.
pub proof fn lemma_stage_inputs(cmds: Seq<SimpleCommandView>)
    ensures
        forall|i: int| #![trigger cmds[i]]
            0 <= i < cmds.len() ==> {
                &&& cmds[i].redirect_in matches Some(f) ==> stage_input_spec(cmds, i, ExecMode::Thread)
                    == InputSourceView::File(f)
                &&& (cmds[i].redirect_in is None && i > 0) ==> stage_input_spec(cmds, i, ExecMode::Thread)
                    == InputSourceView::PreviousStage
                &&& (cmds[i].redirect_in is None && i == 0) ==> stage_input_spec(cmds, i, ExecMode::Thread)
                    == InputSourceView::Inherit
                &&& i > 0 ==> stage_input_spec(cmds, i, ExecMode::Process) == InputSourceView::PreviousStage
                &&& i == 0 ==> (cmds[i].redirect_in matches Some(f) ==> stage_input_spec(cmds, i, ExecMode::Process)
                    == InputSourceView::File(f))
                &&& (i == 0 && cmds[i].redirect_in is None) ==> stage_input_spec(cmds, i, ExecMode::Process)
                    == InputSourceView::Inherit
            },
{
}

/// Where the last stage of a pipeline writes, over all pipelines: its `>`
/// file, else its `>>` file, whether or not the pipeline runs in the
/// background; nowhere only when it has neither and ends in `&`; else the
/// terminal. Every other stage writes to the next one.
pub proof fn lemma_last_output(cmds: Seq<SimpleCommandView>)
    requires
        cmds.len() > 0,
    ensures
        ({
            let last = cmds[cmds.len() - 1];
            let o = stage_output_spec(cmds, cmds.len() - 1);
            &&& last.redirect_out matches Some(f) ==> o == OutputTargetView::Truncate(f)
            &&& last.redirect_out is None ==> (last.append_out matches Some(f) ==> o == OutputTargetView::Append(f))
            &&& (o == OutputTargetView::Null) <==> (last.redirect_out is None && last.append_out is None
                && last.background)
            &&& (o == OutputTargetView::Inherit) <==> (last.redirect_out is None && last.append_out is None
                && !last.background)
        }),
        forall|i: int| 0 <= i < cmds.len() - 1 ==> #[trigger] stage_output_spec(cmds, i) == OutputTargetView::NextStage,
{
}

/// The files a command run on its own uses, over all commands: it reads its
/// `<` file, else the terminal; it opens its `>` file (truncated) first and
/// its `>>` file (appended to) last, and nothing else, so a `>>` file is
/// always appended to and is its output when given.
pub proof fn lemma_simple_files(c: SimpleCommandView)
    ensures
        c.redirect_in matches Some(f) ==> simple_input_spec(c) == InputSourceView::File(f),
        c.redirect_in is None ==> simple_input_spec(c) == InputSourceView::Inherit,
        c.append_out matches Some(f) ==> simple_outputs_spec(c).len() > 0 && simple_outputs_spec(c).last()
            == OutputTargetView::Append(f),
        c.redirect_out matches Some(g) ==> simple_outputs_spec(c).len() > 0 && simple_outputs_spec(c)[0]
            == OutputTargetView::Truncate(g),
        (c.redirect_out is None && c.append_out is None) ==> simple_outputs_spec(c).len() == 0,
        simple_outputs_spec(c).len() <= 2,
        forall|k: int| #![trigger simple_outputs_spec(c)[k]]
            0 <= k < simple_outputs_spec(c).len() ==> match simple_outputs_spec(c)[k] {
                OutputTargetView::Truncate(x) => c.redirect_out == Some(x),
                OutputTargetView::Append(x) => c.append_out == Some(x),
                _ => false,
            },
{
}

/// Whether the pipeline runs in the background.
pub fn pipeline_background(commands: &Vec<SimpleCommand>) -> (b: bool)
    ensures
        b == background_spec(commands_view(commands@)),
{
    if commands.len() == 0 {
        false
    } else {
        commands[commands.len() - 1].background
    }
}

fn copy_name(f: &Option<String>) -> (r: Option<String>)
    ensures
        match f {
            Some(s) => r matches Some(t) && t@ == s@,
            None => r is None,
        },
{
    match f {
        Some(s) => Some(s.clone()),
        None => None,
    }
}

/// The input of stage `i` of `commands` in the given mode.
pub fn stage_input(commands: &Vec<SimpleCommand>, i: usize, mode: ExecMode) -> (src: InputSource)
    requires
        i < commands.len(),
    ensures
        src@ == stage_input_spec(commands_view(commands@), i as int, mode),
{
    let ghost cmds = commands_view(commands@);
    assert(cmds[i as int] == commands@[i as int]@);
    let file = copy_name(&commands[i].redirect_in);
    match mode {
        ExecMode::Process => if i == 0 {
            match file {
                Some(f) => InputSource::File(f),
                None => InputSource::Inherit,
            }
        } else {
            InputSource::PreviousStage
        },
        ExecMode::Thread => match file {
            Some(f) => InputSource::File(f),
            None => if i > 0 {
                InputSource::PreviousStage
            } else {
                InputSource::Inherit
            },
        },
    }
}

/// The output of stage `i` of `commands`.
pub fn stage_output(commands: &Vec<SimpleCommand>, i: usize) -> (dst: OutputTarget)
    requires
        i < commands.len(),
    ensures
        dst@ == stage_output_spec(commands_view(commands@), i as int),
{
    let ghost cmds = commands_view(commands@);
    assert(cmds[i as int] == commands@[i as int]@);
    if i + 1 == commands.len() {
        let background = pipeline_background(commands);
        match copy_name(&commands[i].redirect_out) {
            Some(f) => OutputTarget::Truncate(f),
            None => match copy_name(&commands[i].append_out) {
                Some(f) => OutputTarget::Append(f),
                None => if background {
                    OutputTarget::Null
                } else {
                    OutputTarget::Inherit
                },
            },
        }
    } else {
        OutputTarget::NextStage
    }
}

} // verus!
