//! The text editing engine: view, write, exact replace, line insert and undo,
//! computed on file contents. Reading and writing the file is the caller's.
use crate::error::ToolError;
use crate::history::EditHistory;
use crate::text::{
    chars_of, count_char, decimal, ensure_final_newline, find_fragment, join, join_lines, lines_of,
    normalize_line_endings, normalized, occurs_at, push_decimal, push_str,
    split_lines, string_of, views, with_final_newline, count_newlines, Occurrence, Platform,
    digit_char, push_signed, signed_decimal, free_of, lemma_lines_free, lemma_lines_of_written, lemma_lines_of_written_crlf,
};
use vstd::prelude::*;

verus! {

/// Largest number of characters a viewed file may hold.
pub const MAX_CHAR_COUNT: usize = 400000;

/// Largest size in bytes of a viewed file.
pub const MAX_FILE_SIZE: u64 = 409600;

/// Lines of context shown around an edit.
pub const SNIPPET_LINES: usize = 4;

/// What an outside edit delegate made of a replace request.
#[derive(Debug)]
pub enum Delegate {
    /// No delegate is configured.
    NotConfigured,
    /// The delegate returned the file's new content.
    Edited(String),
    /// The delegate failed; the literal replacement is used instead.
    Failed,
}

/// The result of a successful mutation: the content to write and the two
/// messages, for the calling agent and for the human.
#[derive(Debug)]
pub struct EditOutcome {
    pub content: String,
    pub assistant: String,
    pub user: String,
}

/// The view of an optional string.
pub open spec fn opt_view(s: Option<&str>) -> Option<Seq<char>> {
    match s {
        Some(x) => Some(x@),
        None => None,
    }
}

/// `t` stands in `s` at exactly one position.
pub open spec fn occurs_once(s: Seq<char>, t: Seq<char>) -> bool {
    exists|i: int| occurs_at(s, t, i) && forall|j: int| occurs_at(s, t, j) ==> j == i
}

/// A position where `t` stands in `s`; the position, where there is one only.
pub open spec fn site(s: Seq<char>, t: Seq<char>) -> int {
    choose|i: int| occurs_at(s, t, i)
}

/// `s` with the `m` characters at `i` replaced by `new`.
pub open spec fn splice(s: Seq<char>, i: int, m: int, new: Seq<char>) -> Seq<char> {
    s.subrange(0, i) + new + s.subrange(i + m, s.len() as int)
}

/// `s` with its one occurrence of `old` replaced by `new`.
pub open spec fn replaced(s: Seq<char>, old: Seq<char>, new: Seq<char>) -> Seq<char> {
    splice(s, site(s, old), old.len() as int, new)
}

/// A replace request on a path with history `stack` and content `current`
/// (`None`: no such file): the new stack and the content written, if any.
pub open spec fn replace_spec(
    stack: Seq<Seq<char>>,
    current: Option<Seq<char>>,
    old: Seq<char>,
    new: Seq<char>,
    d: Delegate,
    p: Platform,
) -> (Seq<Seq<char>>, Option<Seq<char>>) {
    match current {
        None => (stack, None),
        Some(c) => match d {
            Delegate::Edited(u) => (stack.push(c), Some(normalized(u@, p))),
            Delegate::Failed => (
                stack.push(c),
                if occurs_once(c, old) {
                    Some(normalized(replaced(c, old, new), p))
                } else {
                    None
                },
            ),
            Delegate::NotConfigured => if occurs_once(c, old) {
                (stack.push(c), Some(normalized(replaced(c, old, new), p)))
            } else {
                (stack, None)
            },
        },
    }
}

/// An insert request: the new lines, `new` placed after the first `k` lines.
pub open spec fn inserted_lines(c: Seq<char>, k: int, new: Seq<char>) -> Seq<Seq<char>> {
    lines_of(c).insert(k, new)
}

/// An insert request on a path with history `stack`: the new stack and the
/// content written, if any.
pub open spec fn insert_spec(
    stack: Seq<Seq<char>>,
    current: Option<Seq<char>>,
    k: nat,
    new: Seq<char>,
    p: Platform,
) -> (Seq<Seq<char>>, Option<Seq<char>>) {
    match current {
        None => (stack, None),
        Some(c) => if k > lines_of(c).len() {
            (stack, None)
        } else {
            (
                stack.push(c),
                Some(with_final_newline(normalized(join_lines(inserted_lines(c, k as int, new)), p))),
            )
        },
    }
}

/// A write request: the new stack and the content written.
pub open spec fn write_spec(
    stack: Seq<Seq<char>>,
    prior: Option<Seq<char>>,
    text: Seq<char>,
    p: Platform,
) -> (Seq<Seq<char>>, Seq<char>) {
    let saved = match prior {
        Some(c) => c,
        None => Seq::<char>::empty(),
    };
    (stack.push(saved), with_final_newline(normalized(text, p)))
}

/// An undo request: the new stack and the content written back, if any.
pub open spec fn undo_spec(stack: Seq<Seq<char>>) -> (Seq<Seq<char>>, Option<Seq<char>>) {
    if stack.len() == 0 {
        (stack, None)
    } else {
        (stack.drop_last(), Some(stack.last()))
    }
}

pub open spec fn missing_file_msg(path: Seq<char>) -> Seq<char> {
    "File '"@ + path + "' does not exist, you can write a new file with the `write` command"@
}

pub open spec fn repeated_msg() -> Seq<char> {
    "'old_str' must appear exactly once in the file, but it appears multiple times"@
}

pub open spec fn absent_msg() -> Seq<char> {
    "'old_str' must appear exactly once in the file, but it does not appear in the file. Make sure the string exactly matches existing file content, including whitespace!"@
}

pub open spec fn insert_beyond_msg(k: nat, total: nat) -> Seq<char> {
    "Insert line "@ + decimal(k) + " is beyond the end of the file (total lines: "@ + decimal(total)
        + "). Use 0 to insert at the beginning or "@ + decimal(total) + " to insert at the end."@
}

pub open spec fn no_history_msg() -> Seq<char> {
    "No edit history available to undo"@
}

pub open spec fn undone_msg() -> Seq<char> {
    "Undid the last edit"@
}

/// A fenced code block in the given language.
pub open spec fn code_block(language: Seq<char>, body: Seq<char>) -> Seq<char> {
    "```"@ + language + "\n"@ + body + "\n```\n"@
}

pub open spec fn review_tail() -> Seq<char> {
    "\nReview the changes above for errors. Undo and edit the file again if necessary!\n"@
}

/// The line numbers `first`, `first + 1`, ... put before the lines of `ls`.
pub open spec fn numbered(ls: Seq<Seq<char>>, first: nat) -> Seq<Seq<char>> {
    Seq::new(ls.len(), |i: int| decimal((first + i) as nat) + ": "@ + ls[i])
}

/// `a` clipped to at most `n`.
pub open spec fn clip(a: int, n: int) -> int {
    if a < n { a } else { n }
}

/// The lines around a replacement at `i`: from four lines before the
/// replaced text to four lines after the inserted text.
pub open spec fn replace_snippet(c: Seq<char>, i: int, old: Seq<char>, new: Seq<char>) -> Seq<char> {
    let rl = count_char(c.subrange(0, i), '\n') as int;
    let start = if rl >= 4 { rl - 4 } else { 0 };
    let end = rl + 4 + count_char(new, '\n');
    let ls = lines_of(splice(c, i, old.len() as int, new));
    join_lines(ls.subrange(clip(start, ls.len() as int), clip(end + 1, ls.len() as int)))
}

/// The numbered lines around an insertion after line `k`.
pub open spec fn insert_snippet(ls: Seq<Seq<char>>, k: int) -> Seq<char> {
    let lo = if k >= 4 { k - 4 } else { 0 };
    let hi = clip(k + 5, ls.len() as int);
    join_lines(numbered(ls.subrange(lo, hi), (lo + 1) as nat))
}

/// The lines `ls[lo..hi]`, each after its 1-indexed number, joined.
fn numbered_join(ls: &[Vec<char>], lo: usize, hi: usize) -> (r: Vec<char>)
    requires
        lo <= hi <= ls@.len(),
    ensures
        r@ == join_lines(numbered(views(ls@).subrange(lo as int, hi as int), (lo + 1) as nat)),
{
    let ghost sub = views(ls@).subrange(lo as int, hi as int);
    let mut out: Vec<Vec<char>> = Vec::new();
    let mut i: usize = lo;
    while i < hi
        invariant
            lo <= i <= hi,
            hi <= ls@.len(),
            sub == views(ls@).subrange(lo as int, hi as int),
            views(out@) =~= numbered(sub, (lo + 1) as nat).take(i - lo),
        decreases hi - i,
    {
        let mut line: Vec<char> = Vec::new();
        push_decimal(&mut line, (i + 1) as u64);
        push_str(&mut line, ": ");
        let mut rest = vstd::slice::slice_to_vec(ls[i].as_slice());
        line.append(&mut rest);
        let ghost before = out@;
        out.push(line);
        proof {
            assert(views(ls@)[i as int] == ls@[i as int]@);
            assert(views(out@) =~= views(before).push(line@));
            assert(numbered(sub, (lo + 1) as nat).take(i + 1 - lo) =~= numbered(sub, (lo + 1) as nat).take(
                i - lo,
            ).push(numbered(sub, (lo + 1) as nat)[i - lo]));
        }
        i = i + 1;
    }
    assert(numbered(sub, (lo + 1) as nat).take(i - lo) =~= numbered(sub, (lo + 1) as nat));
    join(out.as_slice())
}

/// Joins `ls[a..b]`.
fn join_range(ls: &[Vec<char>], a: usize, b: usize) -> (r: Vec<char>)
    requires
        a <= b <= ls@.len(),
    ensures
        r@ == join_lines(views(ls@).subrange(a as int, b as int)),
{
    let sub = vstd::slice::slice_subrange(ls, a, b);
    assert(views(sub@) =~= views(ls@).subrange(a as int, b as int));
    join(sub)
}

/// `body` as a fenced code block in `language`.
fn block(language: &str, body: &[char]) -> (r: Vec<char>)
    ensures
        r@ == code_block(language@, body@),
{
    let mut m: Vec<char> = Vec::new();
    push_str(&mut m, "```");
    push_str(&mut m, language);
    push_str(&mut m, "\n");
    let mut b = vstd::slice::slice_to_vec(body);
    m.append(&mut b);
    push_str(&mut m, "\n```\n");
    assert(m@ =~= code_block(language@, body@));
    m
}

/// The error for a mutation of a file that does not exist.
fn missing_file(path: &str) -> (r: ToolError)
    ensures
        r is InvalidParameters,
        r.text() == missing_file_msg(path@),
{
    let mut m: Vec<char> = Vec::new();
    push_str(&mut m, "File '");
    push_str(&mut m, path);
    push_str(&mut m, "' does not exist, you can write a new file with the `write` command");
    assert(m@ =~= missing_file_msg(path@));
    ToolError::InvalidParameters(string_of(m.as_slice()))
}

/// Overwrites `path` with `file_text`: line endings made the host's and a
/// final newline added. The prior content (empty for a new file) is saved.
pub fn write_file(
    h: &mut EditHistory,
    path: &str,
    prior: Option<&str>,
    file_text: &str,
    p: Platform,
    language: &str,
) -> (r: EditOutcome)
    ensures
        final(h).stack(path@) == write_spec(old(h).stack(path@), opt_view(prior), file_text@, p).0,
        forall|q: Seq<char>| q != path@ ==> #[trigger] final(h).stack(q) == old(h).stack(q),
        r.content@ == write_spec(old(h).stack(path@), opt_view(prior), file_text@, p).1,
        r.assistant@ == "Successfully wrote to "@ + path@,
        r.user@ == "### "@ + path@ + "\n"@ + code_block(language@, r.content@),
{
    match prior {
        Some(c) => h.push(path, c),
        None => h.push(path, ""),
    }
    proof {
        reveal_strlit("");
    }
    let text = chars_of(file_text);
    let mut content = normalize_line_endings(text.as_slice(), p);
    ensure_final_newline(&mut content);
    let mut a: Vec<char> = Vec::new();
    push_str(&mut a, "Successfully wrote to ");
    push_str(&mut a, path);
    let mut u: Vec<char> = Vec::new();
    push_str(&mut u, "### ");
    push_str(&mut u, path);
    push_str(&mut u, "\n");
    let mut b = block(language, content.as_slice());
    u.append(&mut b);
    assert(u@ =~= "### "@ + path@ + "\n"@ + code_block(language@, content@));
    assert(prior is None ==> ""@ =~= Seq::<char>::empty());
    EditOutcome { content: string_of(content.as_slice()), assistant: string_of(a.as_slice()), user: string_of(u.as_slice()) }
}

/// Writes back the most recent saved content of `path`.
pub fn undo_edit(h: &mut EditHistory, path: &str) -> (r: Result<EditOutcome, ToolError>)
    ensures
        final(h).stack(path@) == undo_spec(old(h).stack(path@)).0,
        forall|q: Seq<char>| q != path@ ==> #[trigger] final(h).stack(q) == old(h).stack(q),
        r is Ok <==> undo_spec(old(h).stack(path@)).1 is Some,
        r matches Ok(o) ==> Some(o.content@) == undo_spec(old(h).stack(path@)).1
            && o.assistant@ == undone_msg() && o.user@ == undone_msg(),
        r matches Err(e) ==> e is InvalidParameters && e.text() == no_history_msg(),
{
    match h.pop(path) {
        Some(c) => Ok(
            EditOutcome {
                content: c,
                assistant: String::from_str("Undid the last edit"),
                user: String::from_str("Undid the last edit"),
            },
        ),
        None => Err(ToolError::InvalidParameters(String::from_str("No edit history available to undo"))),
    }
}

/// The error for a replace whose fragment does not stand exactly once.
fn not_once(found: &Occurrence) -> (r: ToolError)
    requires
        !(found is Unique),
    ensures
        r is InvalidParameters,
        r.text() == if found is Repeated { repeated_msg() } else { absent_msg() },
{
    match found {
        Occurrence::Repeated => ToolError::InvalidParameters(
            String::from_str(
                "'old_str' must appear exactly once in the file, but it appears multiple times",
            ),
        ),
        _ => ToolError::InvalidParameters(
            String::from_str(
                "'old_str' must appear exactly once in the file, but it does not appear in the file. Make sure the string exactly matches existing file content, including whitespace!",
            ),
        ),
    }
}

/// The replace error for a fragment that does not stand exactly once in `c`.
pub open spec fn replace_error_msg(c: Seq<char>, old: Seq<char>) -> Seq<char> {
    if exists|a: int, b: int| a != b && occurs_at(c, old, a) && occurs_at(c, old, b) {
        repeated_msg()
    } else {
        absent_msg()
    }
}

/// Replaces the one occurrence of `old_str` in the file `path`, whose content
/// is `current` (`None`: no such file). A delegate's new content, where there
/// is one, is taken as it is; where the delegate failed, the literal
/// replacement follows without saving the history twice.
pub fn replace_in_file(
    h: &mut EditHistory,
    path: &str,
    current: Option<&str>,
    old_str: &str,
    new_str: &str,
    delegate: &Delegate,
    p: Platform,
    language: &str,
) -> (r: Result<EditOutcome, ToolError>)
    ensures
        final(h).stack(path@) == replace_spec(
            old(h).stack(path@),
            opt_view(current),
            old_str@,
            new_str@,
            *delegate,
            p,
        ).0,
        forall|q: Seq<char>| q != path@ ==> #[trigger] final(h).stack(q) == old(h).stack(q),
        r is Ok <==> replace_spec(
            old(h).stack(path@),
            opt_view(current),
            old_str@,
            new_str@,
            *delegate,
            p,
        ).1 is Some,
        r matches Ok(o) ==> Some(o.content@) == replace_spec(
            old(h).stack(path@),
            opt_view(current),
            old_str@,
            new_str@,
            *delegate,
            p,
        ).1,
        r matches Ok(o) ==> (delegate is Edited ==> o.assistant@ == "Successfully edited "@ + path@
            && o.user@ == "File "@ + path@ + " has been edited"@),
        r matches Ok(o) ==> (!(delegate is Edited) ==> {
            let c = current.unwrap()@;
            let block = code_block(
                language@,
                replace_snippet(c, site(c, old_str@), old_str@, new_str@),
            );
            &&& o.user@ == block
            &&& o.assistant@ == "The file "@ + path@ + " has been edited, and the section now reads:\n"@
                + block + review_tail()
        }),
        r matches Err(e) ==> e is InvalidParameters && e.text() == match current {
            None => missing_file_msg(path@),
            Some(c) => replace_error_msg(c@, old_str@),
        },
{
    let content = match current {
        None => {
            return Err(missing_file(path));
        },
        Some(c) => c,
    };
    match delegate {
        Delegate::NotConfigured => {},
        Delegate::Edited(u) => {
            h.push(path, content);
            let uc = chars_of(u.as_str());
            let written = normalize_line_endings(uc.as_slice(), p);
            let mut a: Vec<char> = Vec::new();
            push_str(&mut a, "Successfully edited ");
            push_str(&mut a, path);
            let mut m: Vec<char> = Vec::new();
            push_str(&mut m, "File ");
            push_str(&mut m, path);
            push_str(&mut m, " has been edited");
            return Ok(
                EditOutcome {
                    content: string_of(written.as_slice()),
                    assistant: string_of(a.as_slice()),
                    user: string_of(m.as_slice()),
                },
            );
        },
        Delegate::Failed => {
            h.push(path, content);
        },
    }
    let c = chars_of(content);
    let o = chars_of(old_str);
    let n = chars_of(new_str);
    let found = find_fragment(c.as_slice(), o.as_slice());
    let i = match found {
        Occurrence::Unique(i) => i,
        _ => {
            proof {
                if occurs_once(c@, o@) {
                    let w = choose|w: int| occurs_at(c@, o@, w) && forall|j: int| occurs_at(c@, o@, j) ==> j == w;
                    if found is Repeated {
                        let (a, b) = choose|a: int, b: int| a != b && occurs_at(c@, o@, a) && occurs_at(c@, o@, b);
                        assert(a == w && b == w);
                    } else {
                        assert(occurs_at(c@, o@, w));
                    }
                }
            }
            return Err(not_once(&found));
        },
    };
    proof {
        assert(occurs_once(c@, o@));
        let w = site(c@, o@);
        assert(occurs_at(c@, o@, w));
        assert(w == i);
        if exists|a: int, b: int| a != b && occurs_at(c@, o@, a) && occurs_at(c@, o@, b) {
            let (a, b) = choose|a: int, b: int| a != b && occurs_at(c@, o@, a) && occurs_at(c@, o@, b);
            assert(a == i && b == i);
        }
    }
    if let Delegate::NotConfigured = delegate {
        h.push(path, content);
    }
    let m = o.len();
    let cl = c.len();
    assert(occurs_at(c@, o@, i as int));
    assert(i + m <= cl);
    let head = vstd::slice::slice_subrange(c.as_slice(), 0, i);
    let tail = vstd::slice::slice_subrange(c.as_slice(), i + m, cl);
    let mut spliced = vstd::slice::slice_to_vec(head);
    let mut mid = vstd::slice::slice_to_vec(n.as_slice());
    let mut rest = vstd::slice::slice_to_vec(tail);
    spliced.append(&mut mid);
    spliced.append(&mut rest);
    assert(spliced@ =~= splice(c@, i as int, m as int, n@));
    let written = normalize_line_endings(spliced.as_slice(), p);
    let rl = count_newlines(head);
    let start = if rl >= SNIPPET_LINES { rl - SNIPPET_LINES } else { 0 };
    let extra = count_newlines(n.as_slice());
    let ls = split_lines(spliced.as_slice());
    let total = ls.len();
    let first = if start < total { start } else { total };
    assert(views(ls@).len() == ls@.len());
    let last = if rl as u128 + 5 + extra as u128 > total as u128 { total } else { rl + 5 + extra };
    let snippet = join_range(ls.as_slice(), first, last);
    let b = block(language, snippet.as_slice());
    let mut a: Vec<char> = Vec::new();
    push_str(&mut a, "The file ");
    push_str(&mut a, path);
    push_str(&mut a, " has been edited, and the section now reads:\n");
    let mut b2 = vstd::slice::slice_to_vec(b.as_slice());
    a.append(&mut b2);
    push_str(&mut a, "\nReview the changes above for errors. Undo and edit the file again if necessary!\n");
    proof {
        assert(head@ == c@.subrange(0, i as int));
        assert(a@ =~= "The file "@ + path@ + " has been edited, and the section now reads:\n"@ + b@
            + review_tail());
    }
    Ok(EditOutcome { content: string_of(written.as_slice()), assistant: string_of(a.as_slice()), user: string_of(b.as_slice()) })
}

/// The error for an insert after a line the file does not have.
fn insert_beyond(k: usize, total: usize) -> (r: ToolError)
    ensures
        r is InvalidParameters,
        r.text() == insert_beyond_msg(k as nat, total as nat),
{
    let mut m: Vec<char> = Vec::new();
    push_str(&mut m, "Insert line ");
    push_decimal(&mut m, k as u64);
    push_str(&mut m, " is beyond the end of the file (total lines: ");
    push_decimal(&mut m, total as u64);
    push_str(&mut m, "). Use 0 to insert at the beginning or ");
    push_decimal(&mut m, total as u64);
    push_str(&mut m, " to insert at the end.");
    assert(m@ =~= insert_beyond_msg(k as nat, total as nat));
    ToolError::InvalidParameters(string_of(m.as_slice()))
}

/// Inserts `new_str` as a line after the first `k` lines of the file `path`
/// (0: before the first line).
pub fn insert_line(
    h: &mut EditHistory,
    path: &str,
    current: Option<&str>,
    k: usize,
    new_str: &str,
    p: Platform,
    language: &str,
) -> (r: Result<EditOutcome, ToolError>)
    ensures
        final(h).stack(path@) == insert_spec(old(h).stack(path@), opt_view(current), k as nat, new_str@, p).0,
        forall|q: Seq<char>| q != path@ ==> #[trigger] final(h).stack(q) == old(h).stack(q),
        r is Ok <==> insert_spec(old(h).stack(path@), opt_view(current), k as nat, new_str@, p).1 is Some,
        r matches Ok(o) ==> {
            let c = current.unwrap()@;
            let block = code_block(language@, insert_snippet(inserted_lines(c, k as int, new_str@), k as int));
            &&& Some(o.content@) == insert_spec(old(h).stack(path@), opt_view(current), k as nat, new_str@, p).1
            &&& o.user@ == block
            &&& o.assistant@ == "Text has been inserted at line "@ + decimal(k as nat + 1) + " in "@
                + path@ + ". The section now reads:\n"@ + block + review_tail()
        },
        r matches Err(e) ==> e is InvalidParameters && e.text() == match current {
            None => missing_file_msg(path@),
            Some(c) => insert_beyond_msg(k as nat, lines_of(c@).len()),
        },
{
    let content = match current {
        None => {
            return Err(missing_file(path));
        },
        Some(c) => c,
    };
    let c = chars_of(content);
    let mut ls = split_lines(c.as_slice());
    let total = ls.len();
    assert(views(ls@).len() == ls@.len());
    if k > total {
        return Err(insert_beyond(k, total));
    }
    h.push(path, content);
    let n = chars_of(new_str);
    ls.insert(k, n);
    assert(views(ls@) =~= inserted_lines(c@, k as int, new_str@));
    let joined = join(ls.as_slice());
    let mut written = normalize_line_endings(joined.as_slice(), p);
    ensure_final_newline(&mut written);
    let lo = if k >= SNIPPET_LINES { k - SNIPPET_LINES } else { 0 };
    let hi = if k as u128 + 5 > ls.len() as u128 { ls.len() } else { k + 5 };
    let snippet = numbered_join(ls.as_slice(), lo, hi);
    let b = block(language, snippet.as_slice());
    let mut a: Vec<char> = Vec::new();
    push_str(&mut a, "Text has been inserted at line ");
    push_decimal(&mut a, k as u64 + 1);
    push_str(&mut a, " in ");
    push_str(&mut a, path);
    push_str(&mut a, ". The section now reads:\n");
    let mut b2 = vstd::slice::slice_to_vec(b.as_slice());
    a.append(&mut b2);
    push_str(&mut a, "\nReview the changes above for errors. Undo and edit the file again if necessary!\n");
    proof {
        assert(a@ =~= "Text has been inserted at line "@ + decimal(k as nat + 1) + " in "@ + path@
            + ". The section now reads:\n"@ + b@ + review_tail());
    }
    Ok(EditOutcome { content: string_of(written.as_slice()), assistant: string_of(a.as_slice()), user: string_of(b.as_slice()) })
}

/// The file size in hundredths of a kilobyte, rounded to the nearest.
pub open spec fn size_hundredths(size: nat) -> nat {
    (size * 100 + 512) / 1024
}

/// A size in kilobytes with two decimals.
pub open spec fn kb_text(size: nat) -> Seq<char> {
    let h = size_hundredths(size);
    decimal(h / 100) + seq!['.', digit_char((h % 100) / 10), digit_char(h % 10)]
}

pub open spec fn too_large_msg(path: Seq<char>, size: nat) -> Seq<char> {
    "File '"@ + path + "' is too large ("@ + kb_text(size)
        + "KB). Maximum size is 400KB to prevent memory issues."@
}

pub open spec fn too_many_chars_msg(path: Seq<char>, n: nat) -> Seq<char> {
    "File '"@ + path + "' has too many characters ("@ + decimal(n)
        + "). Maximum character count is 400000."@
}

pub open spec fn start_beyond_msg(start: i64, total: nat) -> Seq<char> {
    "Start line "@ + signed_decimal(start as int) + " is beyond the end of the file (total lines: "@
        + decimal(total) + ")"@
}

pub open spec fn start_not_before_msg(start: i64, end: i64) -> Seq<char> {
    "Start line "@ + signed_decimal(start as int) + " must be less than end line "@ + signed_decimal(
        end as int,
    )
}

/// The first line shown, 0-indexed, for a 1-indexed start (0 counts as 1).
pub open spec fn start_index(start: i64) -> int {
    if start > 0 {
        start - 1
    } else {
        0
    }
}

/// One past the last line shown: a negative end means the end of the file.
pub open spec fn end_index(end: i64, total: int) -> int {
    if end < 0 {
        total
    } else {
        clip(end as int, total)
    }
}

/// A range whose start lies past the last line.
pub open spec fn starts_beyond(start: i64, total: int) -> bool {
    start < 0 || start_index(start) >= total
}

/// The heading of a view.
pub open spec fn view_heading(path: Seq<char>, range: Option<(i64, i64)>) -> Seq<char> {
    match range {
        None => "### "@ + path,
        Some((a, b)) => "### "@ + path + " (lines "@ + signed_decimal(a as int) + "-"@ + if b == -1 {
            "end"@
        } else {
            signed_decimal(b as int)
        } + ")"@,
    }
}

/// The numbered lines a view shows.
pub open spec fn view_body(ls: Seq<Seq<char>>, range: Option<(i64, i64)>) -> Seq<char> {
    match range {
        None => join_lines(numbered(ls, 1)),
        Some((a, b)) => {
            let si = start_index(a);
            let ei = end_index(b, ls.len() as int);
            join_lines(numbered(ls.subrange(si, ei), (si + 1) as nat))
        },
    }
}

/// Refuses a file larger than the view ceiling, before it is read.
pub fn check_view_size(path: &str, size: u64) -> (r: Result<(), ToolError>)
    ensures
        r is Ok <==> size <= MAX_FILE_SIZE,
        r matches Err(e) ==> e is ExecutionError && e.text() == too_large_msg(path@, size as nat),
{
    if size <= MAX_FILE_SIZE {
        return Ok(());
    }
    let h: u128 = (size as u128 * 100 + 512) / 1024;
    let whole = (h / 100) as u64;
    let frac = h % 100;
    let mut m: Vec<char> = Vec::new();
    push_str(&mut m, "File '");
    push_str(&mut m, path);
    push_str(&mut m, "' is too large (");
    push_decimal(&mut m, whole);
    m.push('.');
    let mut d: Vec<char> = Vec::new();
    push_decimal(&mut d, (frac / 10) as u64);
    push_decimal(&mut d, (frac % 10) as u64);
    assert(d@ =~= seq![digit_char((size_hundredths(size as nat) % 100) / 10), digit_char(size_hundredths(size as nat) % 10)]);
    m.append(&mut d);
    push_str(&mut m, "KB). Maximum size is 400KB to prevent memory issues.");
    assert(m@ =~= too_large_msg(path@, size as nat));
    Err(ToolError::ExecutionError(string_of(m.as_slice())))
}

/// Renders `content` with line numbers, whole or the 1-indexed inclusive
/// `range` of lines, under a heading that names `path`.
pub fn view_file(path: &str, content: &str, range: Option<(i64, i64)>, language: &str) -> (r: Result<
    String,
    ToolError,
>)
    ensures
        content@.len() > MAX_CHAR_COUNT ==> (r matches Err(e) && e is ExecutionError && e.text()
            == too_many_chars_msg(path@, content@.len())),
        content@.len() <= MAX_CHAR_COUNT ==> {
            let ls = lines_of(content@);
            match range {
                Some((a, b)) => if starts_beyond(a, ls.len() as int) {
                    r matches Err(e) && e is InvalidParameters && e.text() == start_beyond_msg(
                        a,
                        ls.len(),
                    )
                } else if start_index(a) >= end_index(b, ls.len() as int) {
                    r matches Err(e) && e is InvalidParameters && e.text() == start_not_before_msg(
                        a,
                        b,
                    )
                } else {
                    r matches Ok(v) && v@ == view_heading(path@, range) + "\n"@ + code_block(
                        language@,
                        view_body(ls, range),
                    )
                },
                None => r matches Ok(v) && v@ == view_heading(path@, range) + "\n"@ + code_block(
                    language@,
                    view_body(ls, range),
                ),
            }
        },
{
    let c = chars_of(content);
    let n = c.len();
    if n > MAX_CHAR_COUNT {
        let mut m: Vec<char> = Vec::new();
        push_str(&mut m, "File '");
        push_str(&mut m, path);
        push_str(&mut m, "' has too many characters (");
        push_decimal(&mut m, n as u64);
        push_str(&mut m, "). Maximum character count is 400000.");
        assert(m@ =~= too_many_chars_msg(path@, content@.len()));
        return Err(ToolError::ExecutionError(string_of(m.as_slice())));
    }
    let ls = split_lines(c.as_slice());
    let total = ls.len();
    assert(views(ls@).len() == ls@.len());
    let mut head: Vec<char> = Vec::new();
    push_str(&mut head, "### ");
    push_str(&mut head, path);
    let (si, ei) = match range {
        None => (0usize, total),
        Some((a, b)) => {
            if a < 0 || (a > 0 && (a - 1) as u64 >= total as u64) || (a == 0 && total == 0) {
                let mut m: Vec<char> = Vec::new();
                push_str(&mut m, "Start line ");
                push_signed(&mut m, a);
                push_str(&mut m, " is beyond the end of the file (total lines: ");
                push_decimal(&mut m, total as u64);
                push_str(&mut m, ")");
                assert(m@ =~= start_beyond_msg(a, total as nat));
                return Err(ToolError::InvalidParameters(string_of(m.as_slice())));
            }
            let si: usize = if a > 0 { (a - 1) as usize } else { 0 };
            let ei: usize = if b < 0 { total } else if b as u64 >= total as u64 { total } else { b as usize };
            if si >= ei {
                let mut m: Vec<char> = Vec::new();
                push_str(&mut m, "Start line ");
                push_signed(&mut m, a);
                push_str(&mut m, " must be less than end line ");
                push_signed(&mut m, b);
                assert(m@ =~= start_not_before_msg(a, b));
                return Err(ToolError::InvalidParameters(string_of(m.as_slice())));
            }
            push_str(&mut head, " (lines ");
            push_signed(&mut head, a);
            push_str(&mut head, "-");
            if b == -1 {
                push_str(&mut head, "end");
            } else {
                push_signed(&mut head, b);
            }
            push_str(&mut head, ")");
            (si, ei)
        },
    };
    assert(head@ =~= view_heading(path@, range));
    let body = numbered_join(ls.as_slice(), si, ei);
    assert(views(ls@).subrange(0, total as int) =~= views(ls@));
    push_str(&mut head, "\n");
    let mut b = block(language, body.as_slice());
    head.append(&mut b);
    Ok(string_of(head.as_slice()))
}

/// A path with nothing saved has nothing to undo: undo writes nothing and
/// leaves the history as it was (the operation fails with invalid parameters).
pub proof fn lemma_undo_needs_history(stack: Seq<Seq<char>>)
    requires
        stack.len() == 0,
    ensures
        undo_spec(stack) == (stack, None::<Seq<char>>),
{
}

/// A replace of a fragment that stands exactly once writes the content with
/// that occurrence, and only it, substituted (in the host's line endings);
/// an undo right after it writes back the original content unchanged and
/// restores the history.
pub proof fn lemma_replace_then_undo(
    stack: Seq<Seq<char>>,
    c: Seq<char>,
    old: Seq<char>,
    new: Seq<char>,
    d: Delegate,
    p: Platform,
)
    requires
        occurs_once(c, old),
        !(d is Edited),
    ensures
        exists|i: int|
            occurs_at(c, old, i) && replace_spec(stack, Some(c), old, new, d, p).1 == Some(
                normalized(c.subrange(0, i) + new + c.subrange(i + old.len(), c.len() as int), p),
            ),
        undo_spec(replace_spec(stack, Some(c), old, new, d, p).0) == (stack, Some(c)),
{
    let i = site(c, old);
    assert(occurs_at(c, old, i));
    assert(replace_spec(stack, Some(c), old, new, d, p).0 == stack.push(c));
    assert(stack.push(c).drop_last() =~= stack);
}

/// A replace of a fragment that stands nowhere, or at two or more positions,
/// writes nothing; without a delegate it saves nothing either.
pub proof fn lemma_replace_needs_one_occurrence(
    stack: Seq<Seq<char>>,
    c: Seq<char>,
    old: Seq<char>,
    new: Seq<char>,
    d: Delegate,
    p: Platform,
)
    requires
        !occurs_once(c, old),
        !(d is Edited),
    ensures
        replace_spec(stack, Some(c), old, new, d, p).1 is None,
        d is NotConfigured ==> replace_spec(stack, Some(c), old, new, d, p).0 == stack,
{
}

/// An insert after line `k`, for `k` up to the number of lines, gives one
/// more line, the new text at index `k` and the others in their order; for
/// text without carriage returns and a new line without line breaks, and
/// where the file's last line is not left empty, the written file holds
/// exactly those lines. An insert past the last line writes and
/// saves nothing.
pub proof fn lemma_insert_adds_one_line(
    stack: Seq<Seq<char>>,
    c: Seq<char>,
    k: nat,
    new: Seq<char>,
    p: Platform,
)
    ensures
        k > lines_of(c).len() ==> insert_spec(stack, Some(c), k, new, p) == (stack, None::<Seq<char>>),
        k <= lines_of(c).len() ==> {
            let ls = inserted_lines(c, k as int, new);
            &&& ls.len() == lines_of(c).len() + 1
            &&& ls[k as int] == new
            &&& forall|i: int| 0 <= i < k ==> ls[i] == lines_of(c)[i]
            &&& forall|i: int| k < i < ls.len() ==> ls[i] == lines_of(c)[i - 1]
        },
        k <= lines_of(c).len() && free_of(c, '\r') && free_of(new, '\r')
            && free_of(new, '\n') && (inserted_lines(c, k as int, new).len() == 1
            || inserted_lines(c, k as int, new).last().len() > 0) ==> lines_of(
            insert_spec(stack, Some(c), k, new, p).1.unwrap(),
        ) == inserted_lines(c, k as int, new),
{
    if k <= lines_of(c).len() && free_of(c, '\r') && free_of(new, '\r')
        && free_of(new, '\n') && (inserted_lines(c, k as int, new).len() == 1
        || inserted_lines(c, k as int, new).last().len() > 0) {
        let ls = inserted_lines(c, k as int, new);
        lemma_lines_free(c);
        assert forall|i: int| 0 <= i < ls.len() implies free_of(#[trigger] ls[i], '\n') && free_of(
            ls[i],
            '\r',
        ) by {
            if i < k {
                assert(ls[i] == lines_of(c)[i]);
            } else if i > k {
                assert(ls[i] == lines_of(c)[i - 1]);
            }
        }
        match p {
            Platform::Unix => lemma_lines_of_written(ls),
            Platform::Windows => lemma_lines_of_written_crlf(ls),
        }
    }
}

} // verus!
