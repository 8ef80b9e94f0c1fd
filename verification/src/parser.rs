//! The command-line grammar: commands separated by `|`; inside each,
//! whitespace-separated words, where `<`, `>` and `>>` take the next word
//! as a file name and a final `&` asks for background execution.

use vstd::prelude::*;
use crate::text::{all_ws, blank, split_on, split_spans, to_chars, word_spans, words, spans_of};

verus! {

/// One program with its arguments and redirections.
#[derive(Clone, Debug)]
pub struct SimpleCommand {
    pub program: String,
    pub args: Vec<String>,
    /// `< file`: standard input is read from this file.
    pub redirect_in: Option<String>,
    /// `> file`: standard output is written to this file, truncated first.
    pub redirect_out: Option<String>,
    /// `>> file`: standard output is appended to this file.
    pub append_out: Option<String>,
    /// A final `&`: the command runs in the background.
    pub background: bool,
}

/// A parsed command line: one command, or two or more joined by `|`.
#[derive(Clone, Debug)]
pub enum Command {
    Simple(SimpleCommand),
    Pipeline(Vec<SimpleCommand>),
}

/// Why a command line was refused.
#[derive(Clone, Copy, Debug, PartialEq, Eq, Structural)]
pub enum ParseError {
    /// The line holds nothing but whitespace.
    EmptyInput,
    /// A command between `|` holds no program name.
    EmptyCommand,
    /// `<`, `>` or `>>` ends a command, with no file name after it.
    MissingRedirectTarget,
}

/// The three redirection operators.
#[derive(Clone, Copy, Debug, PartialEq, Eq, Structural)]
pub enum RedirectKind {
    /// `<`
    Input,
    /// `>`
    Output,
    /// `>>`
    Append,
}

/// A `SimpleCommand` as plain sequences of characters.
pub struct SimpleCommandView {
    pub program: Seq<char>,
    pub args: Seq<Seq<char>>,
    pub redirect_in: Option<Seq<char>>,
    pub redirect_out: Option<Seq<char>>,
    pub append_out: Option<Seq<char>>,
    pub background: bool,
}

/// A `Command` as plain sequences of characters.
pub enum CommandView {
    Simple(SimpleCommandView),
    Pipeline(Seq<SimpleCommandView>),
}

pub open spec fn opt_view(o: Option<String>) -> Option<Seq<char>> {
    match o {
        Some(s) => Some(s@),
        None => None,
    }
}

pub open spec fn strings_view(v: Seq<String>) -> Seq<Seq<char>> {
    v.map_values(|a: String| a@)
}

impl View for SimpleCommand {
    type V = SimpleCommandView;

    open spec fn view(&self) -> SimpleCommandView {
        SimpleCommandView {
            program: self.program@,
            args: strings_view(self.args@),
            redirect_in: opt_view(self.redirect_in),
            redirect_out: opt_view(self.redirect_out),
            append_out: opt_view(self.append_out),
            background: self.background,
        }
    }
}

pub open spec fn commands_view(v: Seq<SimpleCommand>) -> Seq<SimpleCommandView> {
    v.map_values(|c: SimpleCommand| c@)
}

impl View for Command {
    type V = CommandView;

    open spec fn view(&self) -> CommandView {
        match self {
            Command::Simple(c) => CommandView::Simple(c@),
            Command::Pipeline(v) => CommandView::Pipeline(commands_view(v@)),
        }
    }
}

pub open spec fn parse_result_view(r: Result<Command, ParseError>) -> Result<CommandView, ParseError> {
    match r {
        Ok(c) => Ok(c@),
        Err(e) => Err(e),
    }
}

/// What has been read of a command's words so far.
pub struct WordsRead {
    pub program: Option<Seq<char>>,
    pub args: Seq<Seq<char>>,
    pub redirect_in: Option<Seq<char>>,
    pub redirect_out: Option<Seq<char>>,
    pub append_out: Option<Seq<char>>,
    /// An operator whose file name is the next word.
    pub pending: Option<RedirectKind>,
}

/// The operator that a word is, if it is one.
pub open spec fn redirect_of(w: Seq<char>) -> Option<RedirectKind> {
    if w == seq!['<'] {
        Some(RedirectKind::Input)
    } else if w == seq!['>'] {
        Some(RedirectKind::Output)
    } else if w == seq!['>', '>'] {
        Some(RedirectKind::Append)
    } else {
        None
    }
}

/// Reads one more word: the file name of a pending operator, an operator,
/// the program name (the first other word), or an argument.
pub open spec fn read_word(st: WordsRead, w: Seq<char>) -> WordsRead {
    match st.pending {
        Some(RedirectKind::Input) => WordsRead { redirect_in: Some(w), pending: None, ..st },
        Some(RedirectKind::Output) => WordsRead { redirect_out: Some(w), pending: None, ..st },
        Some(RedirectKind::Append) => WordsRead { append_out: Some(w), pending: None, ..st },
        None => match redirect_of(w) {
            Some(k) => WordsRead { pending: Some(k), ..st },
            None => match st.program {
                None => WordsRead { program: Some(w), ..st },
                Some(_) => WordsRead { args: st.args.push(w), ..st },
            },
        },
    }
}

/// The words read from left to right.
pub open spec fn read_words(ws: Seq<Seq<char>>) -> WordsRead
    decreases ws.len(),
{
    if ws.len() == 0 {
        WordsRead {
            program: None,
            args: Seq::empty(),
            redirect_in: None,
            redirect_out: None,
            append_out: None,
            pending: None,
        }
    } else {
        read_word(read_words(ws.drop_last()), ws.last())
    }
}

/// Whether the last word is `&`.
pub open spec fn ends_with_amp(ws: Seq<Seq<char>>) -> bool {
    ws.len() > 0 && ws.last() == seq!['&']
}

/// One command, from its words.
pub open spec fn simple_spec(ws: Seq<Seq<char>>) -> Result<SimpleCommandView, ParseError> {
    let background = ends_with_amp(ws);
    let body = if background { ws.drop_last() } else { ws };
    let st = read_words(body);
    if st.pending is Some {
        Err(ParseError::MissingRedirectTarget)
    } else {
        match st.program {
            None => Err(ParseError::EmptyCommand),
            Some(p) => Ok(SimpleCommandView {
                program: p,
                args: st.args,
                redirect_in: st.redirect_in,
                redirect_out: st.redirect_out,
                append_out: st.append_out,
                background,
            }),
        }
    }
}

/// The commands of the given pieces, left to right; the first refused
/// piece decides the error.
pub open spec fn segments_spec(segs: Seq<Seq<char>>) -> Result<Seq<SimpleCommandView>, ParseError>
    decreases segs.len(),
{
    if segs.len() == 0 {
        Ok(Seq::empty())
    } else {
        match segments_spec(segs.drop_last()) {
            Err(e) => Err(e),
            Ok(cs) => match simple_spec(words(segs.last())) {
                Err(e) => Err(e),
                Ok(c) => Ok(cs.push(c)),
            },
        }
    }
}

/// What `parse` gives back for the line `s`.
pub open spec fn parse_spec(s: Seq<char>) -> Result<CommandView, ParseError> {
    if all_ws(s) {
        Err(ParseError::EmptyInput)
    } else {
        let segs = split_on(s, '|');
        if exists|i: int| 0 <= i < segs.len() && all_ws(#[trigger] segs[i]) {
            Err(ParseError::EmptyCommand)
        } else {
            match segments_spec(segs) {
                Err(e) => Err(e),
                Ok(cs) => if cs.len() == 1 {
                    Ok(CommandView::Simple(cs[0]))
                } else {
                    Ok(CommandView::Pipeline(cs))
                },
            }
        }
    }
}

impl ParseError {
    /// The text that describes the error.
    pub fn message(&self) -> (m: &'static str)
        ensures
            *self == ParseError::EmptyInput ==> m@ == "no input provided"@,
            *self == ParseError::EmptyCommand ==> m@ == "command segment is empty"@,
            *self == ParseError::MissingRedirectTarget ==> m@ == "missing file name after redirection"@,
    {
        match self {
            ParseError::EmptyInput => "no input provided",
            ParseError::EmptyCommand => "command segment is empty",
            ParseError::MissingRedirectTarget => "missing file name after redirection",
        }
    }
}

/// The operator that the word `chars[a..b]` is, if it is one.
fn redirect_at(chars: &Vec<char>, a: usize, b: usize) -> (r: Option<RedirectKind>)
    requires
        a <= b <= chars.len(),
    ensures
        r == redirect_of(chars@.subrange(a as int, b as int)),
{
    let ghost w = chars@.subrange(a as int, b as int);
    if b - a == 1 && chars[a] == '<' {
        assert(w =~= seq!['<']);
        Some(RedirectKind::Input)
    } else if b - a == 1 && chars[a] == '>' {
        assert(w =~= seq!['>']);
        Some(RedirectKind::Output)
    } else if b - a == 2 && chars[a] == '>' && chars[a + 1] == '>' {
        assert(w =~= seq!['>', '>']);
        Some(RedirectKind::Append)
    } else {
        assert(w != seq!['<'] && w != seq!['>'] && w != seq!['>', '>']) by {
            assert(w.len() == b - a);
            if w.len() >= 1 {
                assert(w[0] == chars@[a as int]);
            }
            if w.len() >= 2 {
                assert(w[1] == chars@[a + 1]);
            }
        }
        None
    }
}

/// `input[a..b]` as an owned string.
fn word_string(input: &str, a: usize, b: usize) -> (s: String)
    requires
        a <= b <= input@.len(),
    ensures
        s@ == input@.subrange(a as int, b as int),
{
    String::from_str(input.substring_char(a, b))
}

/// Parses the command whose text is `chars[lo..hi]`; `chars` holds the
/// characters of `input`.
fn parse_simple(input: &str, chars: &Vec<char>, lo: usize, hi: usize) -> (r: Result<SimpleCommand, ParseError>)
    requires
        chars@ == input@,
        lo <= hi <= chars.len(),
    ensures
        match r {
            Ok(c) => simple_spec(words(chars@.subrange(lo as int, hi as int))) == Ok::<SimpleCommandView, ParseError>(c@),
            Err(e) => simple_spec(words(chars@.subrange(lo as int, hi as int))) == Err::<SimpleCommandView, ParseError>(e),
        },
{
    let spans = word_spans(chars, lo, hi);
    let ghost ws = words(chars@.subrange(lo as int, hi as int));
    let mut n = spans.len();
    let mut background = false;
    if n > 0 {
        let (a, b) = spans[n - 1];
        if b - a == 1 && chars[a] == '&' {
            assert(chars@.subrange(a as int, b as int) =~= seq!['&']);
            background = true;
            n = n - 1;
        } else {
            assert(chars@.subrange(a as int, b as int) != seq!['&']) by {
                let w = chars@.subrange(a as int, b as int);
                assert(w.len() == b - a);
                if w.len() >= 1 {
                    assert(w[0] == chars@[a as int]);
                }
            }
        }
    }
    let ghost body = if background { ws.drop_last() } else { ws };
    assert(background == ends_with_amp(ws));
    assert(body.len() == n);
    let mut program: Option<String> = None;
    let mut args: Vec<String> = Vec::new();
    let mut redirect_in: Option<String> = None;
    let mut redirect_out: Option<String> = None;
    let mut append_out: Option<String> = None;
    let mut pending: Option<RedirectKind> = None;
    let mut k: usize = 0;
    assert(body.take(0) =~= Seq::<Seq<char>>::empty());
    assert(strings_view(args@) =~= Seq::<Seq<char>>::empty());
    while k < n
        invariant
            chars@ == input@,
            lo <= hi <= chars.len(),
            spans_of(chars@, lo as int, hi as int, spans@, ws),
            n <= spans.len(),
            body.len() == n,
            forall|j: int| 0 <= j < n ==> body[j] == ws[j],
            k <= n,
            read_words(body.take(k as int)) == (WordsRead {
                program: opt_view(program),
                args: strings_view(args@),
                redirect_in: opt_view(redirect_in),
                redirect_out: opt_view(redirect_out),
                append_out: opt_view(append_out),
                pending,
            }),
        decreases n - k,
    {
        let (a, b) = spans[k];
        let ghost w = chars@.subrange(a as int, b as int);
        assert(w == body[k as int]);
        assert(body.take(k + 1).drop_last() =~= body.take(k as int));
        assert(body.take(k + 1).last() == w);
        match pending {
            Some(RedirectKind::Input) => {
                redirect_in = Some(word_string(input, a, b));
                pending = None;
            },
            Some(RedirectKind::Output) => {
                redirect_out = Some(word_string(input, a, b));
                pending = None;
            },
            Some(RedirectKind::Append) => {
                append_out = Some(word_string(input, a, b));
                pending = None;
            },
            None => {
                match redirect_at(chars, a, b) {
                    Some(kind) => {
                        pending = Some(kind);
                    },
                    None => {
                        if program.is_none() {
                            program = Some(word_string(input, a, b));
                        } else {
                            let ghost old_args = args@;
                            args.push(word_string(input, a, b));
                            assert(strings_view(args@) =~= strings_view(old_args).push(w));
                        }
                    },
                }
            },
        }
        k = k + 1;
    }
    assert(body.take(n as int) =~= body);
    if pending.is_some() {
        return Err(ParseError::MissingRedirectTarget);
    }
    match program {
        None => Err(ParseError::EmptyCommand),
        Some(p) => Ok(SimpleCommand {
            program: p,
            args,
            redirect_in,
            redirect_out,
            append_out,
            background,
        }),
    }
}

/// Parses a command line into one command or a pipeline of commands.
pub fn parse(input: &str) -> (r: Result<Command, ParseError>)
    ensures
        parse_result_view(r) == parse_spec(input@),
{
    let chars = to_chars(input);
    let n = chars.len();
    assert(chars@.subrange(0, n as int) =~= chars@);
    if blank(&chars, 0, n) {
        return Err(ParseError::EmptyInput);
    }
    let segs = split_spans(&chars, 0, n, '|');
    let ghost pieces = split_on(input@, '|');
    let mut i: usize = 0;
    while i < segs.len()
        invariant
            chars@ == input@,
            n == chars.len(),
            spans_of(chars@, 0, n as int, segs@, pieces),
            pieces == split_on(input@, '|'),
            !all_ws(input@),
            i <= segs.len(),
            forall|j: int| 0 <= j < i ==> !all_ws(#[trigger] pieces[j]),
        decreases segs.len() - i,
    {
        let (a, b) = segs[i];
        if blank(&chars, a, b) {
            assert(all_ws(pieces[i as int]));
            return Err(ParseError::EmptyCommand);
        }
        i = i + 1;
    }
    let mut commands: Vec<SimpleCommand> = Vec::new();
    let mut i: usize = 0;
    assert(pieces.take(0) =~= Seq::<Seq<char>>::empty());
    assert(commands_view(commands@) =~= Seq::<SimpleCommandView>::empty());
    while i < segs.len()
        invariant
            chars@ == input@,
            n == chars.len(),
            spans_of(chars@, 0, n as int, segs@, pieces),
            pieces == split_on(input@, '|'),
            !all_ws(input@),
            forall|j: int| 0 <= j < segs.len() ==> !all_ws(#[trigger] pieces[j]),
            i <= segs.len(),
            segments_spec(pieces.take(i as int)) == Ok::<Seq<SimpleCommandView>, ParseError>(commands_view(commands@)),
        decreases segs.len() - i,
    {
        let (a, b) = segs[i];
        assert(pieces.take(i + 1).drop_last() =~= pieces.take(i as int));
        assert(pieces.take(i + 1).last() == pieces[i as int]);
        match parse_simple(input, &chars, a, b) {
            Err(e) => {
                proof { lemma_segments_error(pieces, i as int + 1); }
                assert(pieces.take(segs.len() as int) =~= pieces);
                return Err(e);
            },
            Ok(c) => {
                let ghost before = commands@;
                commands.push(c);
                assert(commands_view(commands@) =~= commands_view(before).push(c@));
            },
        }
        i = i + 1;
    }
    assert(pieces.take(segs.len() as int) =~= pieces);
    if commands.len() == 1 {
        let c = commands.remove(0);
        Ok(Command::Simple(c))
    } else {
        Ok(Command::Pipeline(commands))
    }
}

/// Once a prefix of the pieces is refused, so is every longer prefix, with
/// the same error.
proof fn lemma_segments_error(segs: Seq<Seq<char>>, k: int)
    requires
        0 <= k <= segs.len(),
        segments_spec(segs.take(k)) is Err,
    ensures
        segments_spec(segs) == segments_spec(segs.take(k)),
    decreases segs.len() - k,
{
    if k < segs.len() {
        assert(segs.take(k + 1).drop_last() =~= segs.take(k));
        lemma_segments_error(segs, k + 1);
    } else {
        assert(segs.take(k) =~= segs);
    }
}

} // verus!
