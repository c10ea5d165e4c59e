//! Shell command support: screening arguments against the access rules,
//! collecting the output of two streams, the size ceiling, and shaping the
//! output into a view for the calling agent and one for the human.
use crate::error::ToolError;
use crate::gate::{ignore_verdict, AccessGate};
use crate::text::{chars_of, decimal, join, join_lines, lines_of, push_decimal, push_str, split_lines, string_of, views};
use vstd::prelude::*;

verus! {

/// Largest number of characters a command's output may have.
pub const MAX_OUTPUT_CHARS: usize = 400000;

/// Lines of output shown before the rest is spilled to a file.
pub const MAX_OUTPUT_LINES: usize = 100;

/// The whitespace-separated words of `s`, in order.
pub uninterp spec fn whitespace_words(s: Seq<char>) -> Seq<Seq<char>>;

/// Relies on `str::split_whitespace`: the words of `s`, in order, none empty.
#[verifier::external_body]
fn words_of(s: &str) -> (r: Vec<String>)
    ensures
        r@.map_values(|w: String| w@) == whitespace_words(s@),
        forall|i: int| 0 <= i < r@.len() ==> (#[trigger] r@[i])@.len() > 0,
{
    s.split_whitespace().map(|w| w.to_string()).collect()
}

/// The words of `ws` that do not start with `-`.
pub open spec fn flagless(ws: Seq<Seq<char>>) -> Seq<Seq<char>>
    decreases ws.len(),
{
    if ws.len() == 0 {
        ws
    } else if ws.last().len() > 0 && ws.last()[0] == '-' {
        flagless(ws.drop_last())
    } else {
        flagless(ws.drop_last()).push(ws.last())
    }
}

/// The arguments of `command` that may name a path: every word after the
/// first that is not a flag.
pub open spec fn path_candidates(command: Seq<char>) -> Seq<Seq<char>> {
    let ws = whitespace_words(command);
    if ws.len() == 0 {
        ws
    } else {
        flagless(ws.drop_first())
    }
}

/// The arguments of `command` that may name a path, in order.
pub fn command_path_arguments(command: &str) -> (r: Vec<String>)
    ensures
        r@.map_values(|w: String| w@) == path_candidates(command@),
{
    let ws = words_of(command);
    let ghost all = ws@.map_values(|w: String| w@);
    let mut out: Vec<String> = Vec::new();
    if ws.len() == 0 {
        assert(out@.map_values(|w: String| w@) =~= path_candidates(command@));
        return out;
    }
    let ghost rest = all.drop_first();
    let mut i: usize = 1;
    while i < ws.len()
        invariant
            1 <= i <= ws@.len(),
            all == ws@.map_values(|w: String| w@),
            rest == all.drop_first(),
            out@.map_values(|w: String| w@) =~= flagless(rest.take(i - 1)),
        decreases ws@.len() - i,
    {
        assert(rest.take(i as int).drop_last() =~= rest.take(i - 1));
        assert(rest.take(i as int).last() == ws@[i as int]@);
        let w = &ws[i];
        let wc = chars_of(w.as_str());
        if !(wc.len() > 0 && wc[0] == '-') {
            let ghost before = out@;
            out.push(w.clone());
            assert(out@.map_values(|w: String| w@) =~= before.map_values(|w: String| w@).push(ws@[i as int]@));
        }
        i = i + 1;
    }
    assert(rest.take(i - 1) =~= rest);
    out
}

pub open spec fn restricted_msg(arg: Seq<char>) -> Seq<char> {
    "The command attempts to access '"@ + arg + "' which is restricted by .gooseignore"@
}

/// Refuses a command one of whose existing path arguments the access rules exclude,
/// naming the first such argument.
pub fn check_command_paths(gate: &AccessGate, existing: &Vec<String>) -> (r: Result<(), ToolError>)
    ensures
        r is Ok <==> forall|i: int|
            0 <= i < existing@.len() ==> !ignore_verdict(gate.root(), gate.rules(), #[trigger] existing@[i]@),
        r matches Err(e) ==> e is ExecutionError && exists|i: int|
            0 <= i < existing@.len() && ignore_verdict(gate.root(), gate.rules(), existing@[i]@)
                && (forall|j: int| 0 <= j < i ==> !ignore_verdict(gate.root(), gate.rules(), #[trigger] existing@[j]@))
                && e.text() == restricted_msg(existing@[i]@),
{
    let mut i: usize = 0;
    while i < existing.len()
        invariant
            i <= existing@.len(),
            forall|j: int| 0 <= j < i ==> !ignore_verdict(gate.root(), gate.rules(), #[trigger] existing@[j]@),
        decreases existing@.len() - i,
    {
        if gate.is_ignored(existing[i].as_str()) {
            let mut m: Vec<char> = Vec::new();
            push_str(&mut m, "The command attempts to access '");
            push_str(&mut m, existing[i].as_str());
            push_str(&mut m, "' which is restricted by .gooseignore");
            assert(m@ =~= restricted_msg(existing@[i as int]@));
            return Err(ToolError::ExecutionError(string_of(m.as_slice())));
        }
        i = i + 1;
    }
    Ok(())
}

/// One of a child process's two output streams.
#[derive(Clone, Copy, PartialEq, Eq, Structural, Debug)]
pub enum Stream {
    Stdout,
    Stderr,
}

impl Stream {
    /// The stream's name in progress notifications.
    pub fn name(&self) -> (r: &'static str)
        ensures
            r@ == if *self == Stream::Stdout { "stdout"@ } else { "stderr"@ },
    {
        match self {
            Stream::Stdout => "stdout",
            Stream::Stderr => "stderr",
        }
    }
}

/// What the reader of the streams saw.
#[derive(Debug)]
pub enum StreamEvent {
    /// A line read from a stream, its newline included where it had one.
    Line(Stream, String),
    /// A stream reached its end.
    Closed(Stream),
}

/// A progress notice to send, best effort, for one line of output.
#[derive(Debug)]
pub struct Notice {
    pub stream: Stream,
    pub line: String,
}

/// The output of a running command, collected from both streams in the
/// order the lines arrived.
pub struct OutputCapture {
    combined: String,
    stdout_done: bool,
    stderr_done: bool,
}

impl OutputCapture {
    /// The output collected so far.
    pub closed spec fn text(&self) -> Seq<char> {
        self.combined@
    }

    /// Whether `s` has reached its end.
    pub closed spec fn closed(&self, s: Stream) -> bool {
        match s {
            Stream::Stdout => self.stdout_done,
            Stream::Stderr => self.stderr_done,
        }
    }

    /// Nothing collected, both streams open.
    pub fn new() -> (r: OutputCapture)
        ensures
            r.text() == Seq::<char>::empty(),
            !r.closed(Stream::Stdout),
            !r.closed(Stream::Stderr),
    {
        OutputCapture { combined: String::new(), stdout_done: false, stderr_done: false }
    }

    /// Takes one event: a line from an open stream is appended and answered
    /// with a notice; an end closes its stream. A line from a closed stream
    /// is dropped.
    pub fn on_event(&mut self, ev: StreamEvent) -> (r: Option<Notice>)
        ensures
            match ev {
                StreamEvent::Line(s, l) => if old(self).closed(s) {
                    r is None && final(self).text() == old(self).text()
                } else {
                    r matches Some(n) && n.stream == s && n.line@ == l@ && final(self).text()
                        == old(self).text() + l@
                },
                StreamEvent::Closed(_) => r is None && final(self).text() == old(self).text(),
            },
            forall|t: Stream| #[trigger] final(self).closed(t) == (old(self).closed(t) || ev == StreamEvent::Closed(t)),
    {
        match ev {
            StreamEvent::Line(s, l) => {
                let done = match s {
                    Stream::Stdout => self.stdout_done,
                    Stream::Stderr => self.stderr_done,
                };
                if done {
                    return None;
                }
                self.combined.append(l.as_str());
                Some(Notice { stream: s, line: l })
            },
            StreamEvent::Closed(s) => {
                match s {
                    Stream::Stdout => {
                        self.stdout_done = true;
                    },
                    Stream::Stderr => {
                        self.stderr_done = true;
                    },
                }
                None
            },
        }
    }

    /// Whether `s` has ended.
    pub fn is_closed(&self, s: Stream) -> (r: bool)
        ensures
            r == self.closed(s),
    {
        match s {
            Stream::Stdout => self.stdout_done,
            Stream::Stderr => self.stderr_done,
        }
    }

    /// Whether both streams have ended.
    pub fn finished(&self) -> (r: bool)
        ensures
            r == (self.closed(Stream::Stdout) && self.closed(Stream::Stderr)),
    {
        self.stdout_done && self.stderr_done
    }

    /// The collected output.
    pub fn into_text(self) -> (r: String)
        ensures
            r@ == self.text(),
    {
        self.combined
    }
}

pub open spec fn too_much_output_msg(command: Seq<char>, n: nat) -> Seq<char> {
    "Shell output from command '"@ + command + "' has too many characters ("@ + decimal(n)
        + "). Maximum character count is 400000."@
}

/// Refuses output over the character ceiling, naming the command and the size.
pub fn check_output_size(command: &str, output: &str) -> (r: Result<(), ToolError>)
    ensures
        r is Ok <==> output@.len() <= MAX_OUTPUT_CHARS,
        r matches Err(e) ==> e is ExecutionError && e.text() == too_much_output_msg(
            command@,
            output@.len(),
        ),
{
    let n = output.unicode_len();
    if n <= MAX_OUTPUT_CHARS {
        return Ok(());
    }
    let mut m: Vec<char> = Vec::new();
    push_str(&mut m, "Shell output from command '");
    push_str(&mut m, command);
    push_str(&mut m, "' has too many characters (");
    push_decimal(&mut m, n as u64);
    push_str(&mut m, "). Maximum character count is 400000.");
    assert(m@ =~= too_much_output_msg(command@, output@.len()));
    Err(ToolError::ExecutionError(string_of(m.as_slice())))
}

/// Whether `output` has more lines than are shown, so the whole of it goes
/// to a side file.
pub fn needs_spill(output: &str) -> (r: bool)
    ensures
        r == (lines_of(output@).len() > MAX_OUTPUT_LINES),
{
    let c = chars_of(output);
    let ls = split_lines(c.as_slice());
    assert(views(ls@).len() == ls@.len());
    ls.len() > MAX_OUTPUT_LINES
}

/// The last lines of `output` that are shown, joined.
pub open spec fn tail_excerpt(output: Seq<char>) -> Seq<char> {
    let ls = lines_of(output);
    let start = if ls.len() > 100 { ls.len() - 100 } else { 0 };
    join_lines(ls.subrange(start as int, ls.len() as int))
}

/// The agent's view of output spilled to `spill_path`.
pub open spec fn spilled_note(output: Seq<char>, spill_path: Seq<char>) -> Seq<char> {
    "private note: output was "@ + decimal(lines_of(output).len())
        + " lines and we are only showing the most recent lines, remainder of lines in "@
        + spill_path
        + " do not show tmp file to user, that file can be searched if extra context needed to fulfill request. truncated output: \n"@
        + tail_excerpt(output)
}

/// The two views of a command's output: up to the line limit both are the
/// output itself; past it the agent is told where the whole output lies
/// (`spill_path`) and both see the last lines only.
pub fn shape_output(output: &str, spill_path: &str) -> (r: (String, String))
    ensures
        lines_of(output@).len() <= MAX_OUTPUT_LINES ==> r.0@ == output@ && r.1@ == output@,
        lines_of(output@).len() > MAX_OUTPUT_LINES ==> r.0@ == spilled_note(output@, spill_path@)
            && r.1@ == "... \n"@ + tail_excerpt(output@),
{
    let c = chars_of(output);
    let ls = split_lines(c.as_slice());
    let n = ls.len();
    assert(views(ls@).len() == ls@.len());
    if n <= MAX_OUTPUT_LINES {
        return (String::from_str(output), String::from_str(output));
    }
    let start = n - MAX_OUTPUT_LINES;
    let sub = vstd::slice::slice_subrange(ls.as_slice(), start, n);
    assert(views(sub@) =~= views(ls@).subrange(start as int, n as int));
    let excerpt = join(sub);
    let mut a: Vec<char> = Vec::new();
    push_str(&mut a, "private note: output was ");
    push_decimal(&mut a, n as u64);
    push_str(&mut a, " lines and we are only showing the most recent lines, remainder of lines in ");
    push_str(&mut a, spill_path);
    push_str(
        &mut a,
        " do not show tmp file to user, that file can be searched if extra context needed to fulfill request. truncated output: \n",
    );
    let mut e1 = vstd::slice::slice_to_vec(excerpt.as_slice());
    a.append(&mut e1);
    assert(a@ =~= spilled_note(output@, spill_path@));
    let mut u: Vec<char> = Vec::new();
    push_str(&mut u, "... \n");
    let mut e2 = vstd::slice::slice_to_vec(excerpt.as_slice());
    u.append(&mut e2);
    assert(u@ =~= "... \n"@ + tail_excerpt(output@));
    (string_of(a.as_slice()), string_of(u.as_slice()))
}

} // verus!
