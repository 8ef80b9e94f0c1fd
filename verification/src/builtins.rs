//! The builtin commands: `exit`, `help`, `cd`, `jobs`, `kill %id` and
//! `mode [process|thread]`. Recognising them, and switching the
//! execution mode, happens here; the caller carries out the action.

use vstd::prelude::*;
use crate::text::{decimal, lemma_parse_decimal, parse_usize, parse_usize_spec, to_chars, word_spans, words, spans_of};

verus! {

/// How external commands are run: as OS processes joined by OS pipes, or
/// with their pipes pumped by threads.
#[derive(Clone, Copy, Debug, PartialEq, Eq, Structural)]
pub enum ExecMode {
    Process,
    Thread,
}

/// What a line asks of the shell, when it names a builtin.
#[derive(Debug)]
pub enum BuiltinAction {
    /// The line is not a builtin; it is to be parsed and run.
    NotBuiltin,
    /// `exit`: leave the shell.
    Exit,
    /// `help`: list the builtins.
    Help,
    /// `cd [dir]`: change directory; with no argument, to `$HOME`, else `/`.
    ChangeDir(Option<String>),
    /// `jobs`: list the background jobs.
    ListJobs,
    /// `kill %id`: kill the job with this id.
    Kill(usize),
    /// `kill` with a missing or malformed `%id`.
    KillUsage,
    /// `mode process` or `mode thread`: the mode is now this one.
    ModeSwitched(ExecMode),
    /// `mode` with another or no argument: the mode stays this one.
    ModeUsage(ExecMode),
}

/// A `BuiltinAction` with its directory name as a sequence of characters.
pub enum BuiltinActionView {
    NotBuiltin,
    Exit,
    Help,
    ChangeDir(Option<Seq<char>>),
    ListJobs,
    Kill(usize),
    KillUsage,
    ModeSwitched(ExecMode),
    ModeUsage(ExecMode),
}

impl View for BuiltinAction {
    type V = BuiltinActionView;

    open spec fn view(&self) -> BuiltinActionView {
        match self {
            BuiltinAction::NotBuiltin => BuiltinActionView::NotBuiltin,
            BuiltinAction::Exit => BuiltinActionView::Exit,
            BuiltinAction::Help => BuiltinActionView::Help,
            BuiltinAction::ChangeDir(d) => BuiltinActionView::ChangeDir(
                match d {
                    Some(s) => Some(s@),
                    None => None,
                },
            ),
            BuiltinAction::ListJobs => BuiltinActionView::ListJobs,
            BuiltinAction::Kill(id) => BuiltinActionView::Kill(*id),
            BuiltinAction::KillUsage => BuiltinActionView::KillUsage,
            BuiltinAction::ModeSwitched(m) => BuiltinActionView::ModeSwitched(*m),
            BuiltinAction::ModeUsage(m) => BuiltinActionView::ModeUsage(*m),
        }
    }
}

/// The job id that the argument of `kill` names: `%` then a number.
pub open spec fn job_arg_spec(w: Seq<char>) -> Option<usize> {
    if w.len() > 0 && w[0] == '%' {
        parse_usize_spec(w.drop_first())
    } else {
        None
    }
}

/// The argument `%` followed by the decimal id of a job, as `jobs` prints
/// it, names that job.
pub proof fn lemma_job_arg_decimal(id: usize)
    ensures
        job_arg_spec(seq!['%'] + decimal(id as nat)) == Some(id),
{
    let w = seq!['%'] + decimal(id as nat);
    assert(w.drop_first() == decimal(id as nat));
    lemma_parse_decimal(id);
}

/// What each builtin word asks for, over all lines: the first word names
/// the builtin, and `cd`, `kill` and `mode` read the second word.
pub proof fn lemma_builtin_words(ws: Seq<Seq<char>>, mode: ExecMode, id: usize)
    ensures
        ws.len() == 0 ==> builtin_spec(ws, mode) == BuiltinActionView::NotBuiltin,
        ws.len() >= 1 && ws[0] != "exit"@ && ws[0] != "help"@ && ws[0] != "cd"@ && ws[0] != "jobs"@ && ws[0]
            != "kill"@ && ws[0] != "mode"@ ==> builtin_spec(ws, mode) == BuiltinActionView::NotBuiltin,
        ws.len() >= 1 && ws[0] == "exit"@ ==> builtin_spec(ws, mode) == BuiltinActionView::Exit,
        ws.len() >= 1 && ws[0] == "help"@ ==> builtin_spec(ws, mode) == BuiltinActionView::Help,
        ws.len() >= 1 && ws[0] == "jobs"@ ==> builtin_spec(ws, mode) == BuiltinActionView::ListJobs,
        ws.len() >= 2 && ws[0] == "cd"@ ==> builtin_spec(ws, mode) == BuiltinActionView::ChangeDir(Some(ws[1])),
        ws.len() == 1 && ws[0] == "cd"@ ==> builtin_spec(ws, mode) == BuiltinActionView::ChangeDir(None),
        ws.len() >= 2 && ws[0] == "kill"@ && ws[1] == seq!['%'] + decimal(id as nat) ==> builtin_spec(ws, mode)
            == BuiltinActionView::Kill(id),
        ws.len() == 1 && ws[0] == "kill"@ ==> builtin_spec(ws, mode) == BuiltinActionView::KillUsage,
        ws.len() >= 2 && ws[0] == "kill"@ && (ws[1].len() == 0 || ws[1][0] != '%') ==> builtin_spec(ws, mode)
            == BuiltinActionView::KillUsage,
        ws.len() >= 2 && ws[0] == "mode"@ && ws[1] == "process"@ ==> builtin_spec(ws, mode)
            == BuiltinActionView::ModeSwitched(ExecMode::Process) && mode_after(builtin_spec(ws, mode), mode)
            == ExecMode::Process,
        ws.len() >= 2 && ws[0] == "mode"@ && ws[1] == "thread"@ ==> builtin_spec(ws, mode)
            == BuiltinActionView::ModeSwitched(ExecMode::Thread) && mode_after(builtin_spec(ws, mode), mode)
            == ExecMode::Thread,
        ws.len() == 1 && ws[0] == "mode"@ ==> builtin_spec(ws, mode) == BuiltinActionView::ModeUsage(mode)
            && mode_after(builtin_spec(ws, mode), mode) == mode,
{
    reveal_strlit("exit");
    reveal_strlit("help");
    reveal_strlit("cd");
    reveal_strlit("jobs");
    reveal_strlit("kill");
    reveal_strlit("mode");
    reveal_strlit("process");
    reveal_strlit("thread");
    lemma_job_arg_decimal(id);
    if ws.len() >= 1 {
        let w = ws[0];
        if w == "cd"@ || w == "kill"@ || w == "mode"@ || w == "jobs"@ || w == "help"@ {
            assert(w != "exit"@) by {
                assert(w.len() != 4 || w[0] != 'e');
            }
        }
        if w == "cd"@ || w == "kill"@ || w == "mode"@ || w == "jobs"@ {
            assert(w != "help"@) by {
                assert(w.len() != 4 || w[0] != 'h');
            }
        }
        if w == "kill"@ || w == "mode"@ || w == "jobs"@ {
            assert(w != "cd"@);
        }
        if w == "kill"@ || w == "mode"@ {
            assert(w != "jobs"@) by {
                assert(w[0] != 'j');
            }
        }
        if w == "mode"@ {
            assert(w != "kill"@) by {
                assert(w[0] != 'k');
            }
        }
    }
    if ws.len() >= 2 && ws[1] == "thread"@ {
        assert(ws[1] != "process"@);
    }
}

/// The action that a line with the words `ws` asks for, when the mode is
/// `mode`. Only the first two words count.
pub open spec fn builtin_spec(ws: Seq<Seq<char>>, mode: ExecMode) -> BuiltinActionView {
    if ws.len() == 0 {
        BuiltinActionView::NotBuiltin
    } else if ws[0] == "exit"@ {
        BuiltinActionView::Exit
    } else if ws[0] == "help"@ {
        BuiltinActionView::Help
    } else if ws[0] == "cd"@ {
        BuiltinActionView::ChangeDir(if ws.len() > 1 { Some(ws[1]) } else { None })
    } else if ws[0] == "jobs"@ {
        BuiltinActionView::ListJobs
    } else if ws[0] == "kill"@ {
        match (if ws.len() > 1 { job_arg_spec(ws[1]) } else { None }) {
            Some(id) => BuiltinActionView::Kill(id),
            None => BuiltinActionView::KillUsage,
        }
    } else if ws[0] == "mode"@ {
        if ws.len() > 1 && ws[1] == "process"@ {
            BuiltinActionView::ModeSwitched(ExecMode::Process)
        } else if ws.len() > 1 && ws[1] == "thread"@ {
            BuiltinActionView::ModeSwitched(ExecMode::Thread)
        } else {
            BuiltinActionView::ModeUsage(mode)
        }
    } else {
        BuiltinActionView::NotBuiltin
    }
}

/// The mode after the action: only `mode process` and `mode thread`
/// change it.
pub open spec fn mode_after(action: BuiltinActionView, mode: ExecMode) -> ExecMode {
    match action {
        BuiltinActionView::ModeSwitched(m) => m,
        _ => mode,
    }
}

/// Whether `chars[a..b]` is the text `lit`.
fn span_is(chars: &Vec<char>, a: usize, b: usize, lit: &str) -> (r: bool)
    requires
        a <= b <= chars.len(),
    ensures
        r == (chars@.subrange(a as int, b as int) == lit@),
{
    let l = to_chars(lit);
    let ghost w = chars@.subrange(a as int, b as int);
    if b - a != l.len() {
        assert(w.len() != lit@.len());
        return false;
    }
    let mut i: usize = 0;
    while i < l.len()
        invariant
            a <= b <= chars.len(),
            b - a == l.len(),
            l@ == lit@,
            w == chars@.subrange(a as int, b as int),
            i <= l.len(),
            forall|j: int| 0 <= j < i ==> w[j] == l@[j],
        decreases l.len() - i,
    {
        if chars[a + i] != l[i] {
            assert(w[i as int] == chars@[a + i]);
            return false;
        }
        assert(w[i as int] == chars@[a + i]);
        i = i + 1;
    }
    assert(w =~= lit@);
    true
}

/// Recognises a builtin command in `input` and carries out its effect on
/// the execution mode; what else it asks for is returned to the caller.
pub fn handle_builtin(input: &str, mode: &mut ExecMode) -> (action: BuiltinAction)
    ensures
        action@ == builtin_spec(words(input@), *old(mode)),
        *final(mode) == mode_after(action@, *old(mode)),
{
    let chars = to_chars(input);
    let n = chars.len();
    assert(chars@.subrange(0, n as int) =~= chars@);
    let spans = word_spans(&chars, 0, n);
    let ghost ws = words(input@);
    assert(spans_of(chars@, 0, n as int, spans@, ws));
    if spans.len() == 0 {
        return BuiltinAction::NotBuiltin;
    }
    let (a, b) = spans[0];
    assert(chars@.subrange(a as int, b as int) == ws[0]);
    let has_arg = spans.len() > 1;
    let (c, d) = if has_arg { spans[1] } else { (0, 0) };
    assert(has_arg ==> chars@.subrange(c as int, d as int) == ws[1]);
    if span_is(&chars, a, b, "exit") {
        BuiltinAction::Exit
    } else if span_is(&chars, a, b, "help") {
        BuiltinAction::Help
    } else if span_is(&chars, a, b, "cd") {
        if has_arg {
            BuiltinAction::ChangeDir(Some(String::from_str(input.substring_char(c, d))))
        } else {
            BuiltinAction::ChangeDir(None)
        }
    } else if span_is(&chars, a, b, "jobs") {
        BuiltinAction::ListJobs
    } else if span_is(&chars, a, b, "kill") {
        if has_arg && c < d && chars[c] == '%' {
            let ghost w = chars@.subrange(c as int, d as int);
            assert(w.drop_first() == chars@.subrange(c + 1, d as int));
            match parse_usize(&chars, c + 1, d) {
                Some(id) => BuiltinAction::Kill(id),
                None => BuiltinAction::KillUsage,
            }
        } else {
            assert(has_arg ==> chars@.subrange(c as int, d as int).len() == d - c);
            assert(has_arg && c < d ==> chars@.subrange(c as int, d as int)[0] == chars@[c as int]);
            BuiltinAction::KillUsage
        }
    } else if span_is(&chars, a, b, "mode") {
        if has_arg && span_is(&chars, c, d, "process") {
            *mode = ExecMode::Process;
            BuiltinAction::ModeSwitched(ExecMode::Process)
        } else if has_arg && span_is(&chars, c, d, "thread") {
            *mode = ExecMode::Thread;
            BuiltinAction::ModeSwitched(ExecMode::Thread)
        } else {
            BuiltinAction::ModeUsage(*mode)
        }
    } else {
        BuiltinAction::NotBuiltin
    }
}

} // verus!
