//! Resolving caller-supplied paths, composing glob patterns and naming the
//! language of a file for display.
use crate::error::ToolError;
use crate::text::{chars_of, occurs_at, push_str, string_of, Platform};
use vstd::prelude::*;

verus! {

/// `path` starts with a `~` that stands for the home directory.
pub open spec fn home_marked(path: Seq<char>) -> bool {
    path.len() > 0 && path[0] == '~' && (path.len() == 1 || path[1] == '/')
}

/// Relies on `shellexpand::tilde_with_context`: a leading `~` before `/` or
/// the end becomes `home`.
#[verifier::external_body]
fn tilde_expand(path: &str, home: &str) -> (r: String)
    requires
        home_marked(path@),
    ensures
        r@ == home@ + path@.drop_first(),
{
    shellexpand::tilde_with_context(path, || Some(home)).into_owned()
}

/// Whether `path` starts with a `~` that stands for the home directory.
fn is_home_marked(path: &str) -> (r: bool)
    ensures
        r == home_marked(path@),
{
    let c = chars_of(path);
    c.len() > 0 && c[0] == '~' && (c.len() == 1 || c[1] == '/')
}

/// Expands a leading `~` (before `/` or the end) to the home directory,
/// where one is known; any other path stays as it is.
pub fn expand_home(path: &str, home: Option<&str>) -> (r: String)
    ensures
        r@ == expanded(path@, opt_str(home)),
{
    match home {
        Some(h) => if is_home_marked(path) {
            tilde_expand(path, h)
        } else {
            String::from_str(path)
        },
        None => String::from_str(path),
    }
}

/// An absolute path on the host: rooted at `/` on Unix; on Windows, holding a
/// drive (`:\`) or naming a share (`\\`).
pub open spec fn is_absolute(path: Seq<char>, p: Platform) -> bool {
    match p {
        Platform::Unix => path.len() > 0 && path[0] == '/',
        Platform::Windows => (exists|i: int| occurs_at(path, seq![':', '\\'], i)) || (path.len() >= 2
            && path[0] == '\\' && path[1] == '\\'),
    }
}

/// Whether `path` is absolute on the host.
pub fn is_absolute_path(path: &str, p: Platform) -> (r: bool)
    ensures
        r == is_absolute(path@, p),
{
    let c = chars_of(path);
    let n = c.len();
    match p {
        Platform::Unix => n > 0 && c[0] == '/',
        Platform::Windows => {
            if n >= 2 && c[0] == '\\' && c[1] == '\\' {
                return true;
            }
            let ghost t = seq![':', '\\'];
            let mut i: usize = 0;
            while i < n
                invariant
                    p == Platform::Windows,
                    i <= n,
                    n == c@.len(),
                    c@ == path@,
                    t == seq![':', '\\'],
                    forall|j: int| 0 <= j < i ==> !occurs_at(c@, t, j),
                decreases n - i,
            {
                if i + 1 < n && c[i] == ':' && c[i + 1] == '\\' {
                    assert(c@.subrange(i as int, i + 2) =~= t);
                    assert(occurs_at(path@, seq![':', '\\'], i as int));
                    assert(exists|j: int| occurs_at(path@, seq![':', '\\'], j));
                    return true;
                }
                assert(!occurs_at(c@, t, i as int)) by {
                    if occurs_at(c@, t, i as int) {
                        assert(c@.subrange(i as int, i + 2)[0] == ':');
                        assert(c@.subrange(i as int, i + 2)[1] == '\\');
                    }
                }
                i = i + 1;
            }
            assert(forall|j: int| j >= i ==> !occurs_at(c@, t, j));
            false
        },
    }
}

/// The host's path separator.
pub open spec fn separator(p: Platform) -> char {
    match p {
        Platform::Unix => '/',
        Platform::Windows => '\\',
    }
}

/// `rel` under the directory `dir`, with one separator between them.
pub open spec fn joined_path(dir: Seq<char>, rel: Seq<char>, p: Platform) -> Seq<char> {
    if dir.len() == 0 || dir.last() == separator(p) {
        dir + rel
    } else {
        dir.push(separator(p)) + rel
    }
}

pub open spec fn not_absolute_msg(raw: Seq<char>, suggestion: Seq<char>) -> Seq<char> {
    "The path "@ + raw + " is not an absolute path, did you possibly mean "@ + suggestion + "?"@
}

/// The expansion of `raw` given the home directory.
pub open spec fn expanded(raw: Seq<char>, home: Option<Seq<char>>) -> Seq<char> {
    match home {
        Some(h) => if home_marked(raw) {
            h + raw.drop_first()
        } else {
            raw
        },
        None => raw,
    }
}

/// The view of an optional string.
pub open spec fn opt_str(s: Option<&str>) -> Option<Seq<char>> {
    match s {
        Some(x) => Some(x@),
        None => None,
    }
}

/// Expands `raw` and accepts it only where it is absolute; otherwise the
/// error suggests it under the working directory `cwd`.
pub fn resolve_path(raw: &str, cwd: &str, home: Option<&str>, p: Platform) -> (r: Result<
    String,
    ToolError,
>)
    ensures
        is_absolute(expanded(raw@, opt_str(home)), p) ==> (r matches Ok(s) && s@ == expanded(
            raw@,
            opt_str(home),
        )),
        !is_absolute(expanded(raw@, opt_str(home)), p) ==> (r matches Err(e) && e is InvalidParameters && e.text() == not_absolute_msg(
            raw@,
            joined_path(cwd@, expanded(raw@, opt_str(home)), p),
        )),
        r matches Ok(s) ==> is_absolute(s@, p),
        r matches Err(e) ==> e is InvalidParameters,
{
    let e = expand_home(raw, home);
    if is_absolute_path(e.as_str(), p) {
        return Ok(e);
    }
    let dir = chars_of(cwd);
    let sep = match p {
        Platform::Unix => '/',
        Platform::Windows => '\\',
    };
    let mut m: Vec<char> = Vec::new();
    push_str(&mut m, "The path ");
    push_str(&mut m, raw);
    push_str(&mut m, " is not an absolute path, did you possibly mean ");
    let mut d = vstd::slice::slice_to_vec(dir.as_slice());
    let k = d.len();
    if k > 0 && d[k - 1] != sep {
        d.push(sep);
    }
    assert(d@ + e@ =~= joined_path(cwd@, e@, p));
    m.append(&mut d);
    push_str(&mut m, e.as_str());
    push_str(&mut m, "?");
    assert(m@ =~= not_absolute_msg(raw@, joined_path(cwd@, e@, p)));
    Err(ToolError::InvalidParameters(string_of(m.as_slice())))
}

/// The pattern a glob search runs: `pattern` under `dir`, or `pattern`
/// itself where the directory is the current one.
pub open spec fn glob_pattern_spec(pattern: Seq<char>, dir: Seq<char>) -> Seq<char> {
    if dir == seq!['.'] {
        pattern
    } else {
        trim_slashes(dir) + seq!['/'] + pattern
    }
}

/// `s` without the `/` characters at its end.
pub open spec fn trim_slashes(s: Seq<char>) -> Seq<char>
    decreases s.len(),
{
    if s.len() > 0 && s.last() == '/' {
        trim_slashes(s.drop_last())
    } else {
        s
    }
}

/// Composes the pattern of a glob search in `dir` (the current directory
/// where none is given).
pub fn glob_pattern(pattern: &str, dir: Option<&str>) -> (r: String)
    ensures
        r@ == glob_pattern_spec(pattern@, match dir {
            Some(d) => d@,
            None => seq!['.'],
        }),
{
    let d = match dir {
        Some(d) => chars_of(d),
        None => {
            let mut v: Vec<char> = Vec::new();
            v.push('.');
            v
        },
    };
    if d.len() == 1 && d[0] == '.' {
        assert(d@ =~= seq!['.']);
        return String::from_str(pattern);
    }
    assert(d@ != seq!['.']);
    let mut t = d;
    while t.len() > 0 && t[t.len() - 1] == '/'
        invariant
            trim_slashes(t@) == trim_slashes(d@),
        decreases t@.len(),
    {
        t.pop();
    }
    t.push('/');
    push_str(&mut t, pattern);
    string_of(t.as_slice())
}

/// The extension of the last component of `path`: what follows its last `.`,
/// where that `.` is not the component's first character.
pub open spec fn extension(path: Seq<char>) -> Seq<char> {
    let slash = last_index(path, '/');
    let name = path.subrange(slash + 1, path.len() as int);
    let dot = last_index(name, '.');
    if dot <= 0 {
        Seq::<char>::empty()
    } else {
        name.subrange(dot + 1, name.len() as int)
    }
}

/// The last index of `c` in `s`, or -1.
pub open spec fn last_index(s: Seq<char>, c: char) -> int
    decreases s.len(),
{
    if s.len() == 0 {
        -1
    } else if s.last() == c {
        s.len() - 1
    } else {
        last_index(s.drop_last(), c)
    }
}

proof fn lemma_last_index_bounds(s: Seq<char>, c: char)
    ensures
        -1 <= last_index(s, c) < s.len(),
    decreases s.len(),
{
    if s.len() > 0 {
        lemma_last_index_bounds(s.drop_last(), c);
    }
}

/// Finds the last index of `c` in `s`.
fn last_index_of(s: &[char], c: char) -> (r: Option<usize>)
    ensures
        r matches Some(i) ==> i as int == last_index(s@, c) && i < s@.len(),
        r is None ==> last_index(s@, c) == -1,
{
    let mut k: usize = s.len();
    assert(s@.take(k as int) =~= s@);
    while k > 0
        invariant
            k <= s@.len(),
            last_index(s@, c) == last_index(s@.take(k as int), c),
        decreases k,
    {
        assert(s@.take(k as int).drop_last() =~= s@.take(k - 1));
        if s[k - 1] == c {
            return Some(k - 1);
        }
        k = k - 1;
    }
    None
}

/// The markdown language tag for a file extension; empty where none is known.
pub open spec fn language_of(ext: Seq<char>) -> Seq<char> {
    if ext == "rs"@ { "rust"@ }
    else if ext == "py"@ { "python"@ }
    else if ext == "js"@ { "javascript"@ }
    else if ext == "ts"@ { "typescript"@ }
    else if ext == "json"@ { "json"@ }
    else if ext == "toml"@ { "toml"@ }
    else if ext == "yaml"@ || ext == "yml"@ { "yaml"@ }
    else if ext == "sh"@ { "bash"@ }
    else if ext == "go"@ { "go"@ }
    else if ext == "md"@ { "markdown"@ }
    else if ext == "html"@ { "html"@ }
    else if ext == "css"@ { "css"@ }
    else if ext == "java"@ { "java"@ }
    else if ext == "c"@ || ext == "h"@ { "c"@ }
    else if ext == "cpp"@ { "cpp"@ }
    else if ext == "rb"@ { "ruby"@ }
    else { ""@ }
}

/// Whether `a` holds exactly the characters of `b`.
fn same_text(a: &[char], b: &str) -> (r: bool)
    ensures
        r == (a@ == b@),
{
    let bc = chars_of(b);
    if a.len() != bc.len() {
        return false;
    }
    let mut i: usize = 0;
    while i < a.len()
        invariant
            a@.len() == bc@.len(),
            bc@ == b@,
            i <= a@.len(),
            forall|j: int| 0 <= j < i ==> a@[j] == bc@[j],
        decreases a@.len() - i,
    {
        if a[i] != bc[i] {
            return false;
        }
        i = i + 1;
    }
    assert(a@ =~= bc@);
    true
}

/// The language tag of the file `path`, for fenced code blocks.
pub fn language_identifier(path: &str) -> (r: String)
    ensures
        r@ == language_of(extension(path@)),
{
    let c = chars_of(path);
    proof {
        lemma_last_index_bounds(path@, '/');
    }
    let n = c.len();
    let start = match last_index_of(c.as_slice(), '/') {
        Some(i) => i + 1,
        None => 0,
    };
    let name = vstd::slice::slice_subrange(c.as_slice(), start, n);
    proof {
        lemma_last_index_bounds(name@, '.');
    }
    let ext: &[char] = match last_index_of(name, '.') {
        Some(d) => if d == 0 {
            vstd::slice::slice_subrange(name, 0, 0)
        } else {
            vstd::slice::slice_subrange(name, d + 1, name.len())
        },
        None => vstd::slice::slice_subrange(name, 0, 0),
    };
    assert(ext@ =~= extension(path@));
    let tag = if same_text(ext, "rs") { "rust" }
        else if same_text(ext, "py") { "python" }
        else if same_text(ext, "js") { "javascript" }
        else if same_text(ext, "ts") { "typescript" }
        else if same_text(ext, "json") { "json" }
        else if same_text(ext, "toml") { "toml" }
        else if same_text(ext, "yaml") || same_text(ext, "yml") { "yaml" }
        else if same_text(ext, "sh") { "bash" }
        else if same_text(ext, "go") { "go" }
        else if same_text(ext, "md") { "markdown" }
        else if same_text(ext, "html") { "html" }
        else if same_text(ext, "css") { "css" }
        else if same_text(ext, "java") { "java" }
        else if same_text(ext, "c") || same_text(ext, "h") { "c" }
        else if same_text(ext, "cpp") { "cpp" }
        else if same_text(ext, "rb") { "ruby" }
        else { "" };
    String::from_str(tag)
}

/// The shape of a macOS screenshot's file name; its one group is the
/// meridian, before which macOS writes a narrow no-break space.
pub const SCREENSHOT_PATTERN: &'static str = "^Screenshot \\d{4}-\\d{2}-\\d{2} at \\d{1,2}\\.\\d{2}\\.\\d{2} (AM|PM|am|pm)(?: \\(\\d+\\))?\\.png$";

/// What the first capture group of `pattern` holds on `text`: `None` where
/// the pattern does not compile or does not match, or the group took no part.
pub uninterp spec fn regex_first_group(pattern: Seq<char>, text: Seq<char>) -> Option<Seq<char>>;

/// Relies on `regex::Regex::new` and `Regex::captures`: the text of the first
/// group of the first match.
#[verifier::external_body]
fn first_group(pattern: &str, text: &str) -> (r: Option<String>)
    ensures
        match r {
            Some(g) => regex_first_group(pattern@, text@) == Some(g@),
            None => regex_first_group(pattern@, text@) is None,
        },
{
    regex::Regex::new(pattern).ok().and_then(|re| re.captures(text)).and_then(|c| c.get(1)).map(
        |m| m.as_str().to_string(),
    )
}

/// The last position at or below `k` where `t` stands in `s`, or -1.
pub open spec fn last_site_below(s: Seq<char>, t: Seq<char>, k: int) -> int
    decreases k + 1,
{
    if k < 0 {
        -1
    } else if occurs_at(s, t, k) {
        k
    } else {
        last_site_below(s, t, k - 1)
    }
}

/// The narrow no-break space macOS puts before the meridian.
pub open spec fn narrow_space() -> char {
    '\u{202F}'
}

/// A screenshot path as macOS wrote it: in a file name of the screenshot
/// shape, the space before the meridian's last occurrence becomes a narrow
/// no-break space; any other path stays as it is.
pub open spec fn screenshot_path(path: Seq<char>) -> Seq<char> {
    let start = last_index(path, '/') + 1;
    let name = path.subrange(start, path.len() as int);
    match regex_first_group(SCREENSHOT_PATTERN@, name) {
        Some(m) => {
            let pos = last_site_below(name, m, name.len() as int);
            if pos > 0 && name[pos - 1] == ' ' {
                path.update(start + pos - 1, narrow_space())
            } else {
                path
            }
        },
        None => path,
    }
}

/// The last position where `t` stands in `s`.
fn last_site(s: &[char], t: &[char]) -> (r: Option<usize>)
    ensures
        r matches Some(f) ==> f as int == last_site_below(s@, t@, s@.len() as int) && f <= s@.len(),
        r is None ==> last_site_below(s@, t@, s@.len() as int) == -1,
{
    let mut k: usize = s.len();
    loop
        invariant
            k <= s@.len(),
            last_site_below(s@, t@, s@.len() as int) == last_site_below(s@, t@, k as int),
        decreases k,
    {
        if crate::text::occurs_at_exec(s, t, k) {
            return Some(k);
        }
        if k == 0 {
            assert(last_site_below(s@, t@, -1) == -1);
            return None;
        }
        k = k - 1;
    }
}

/// Rewrites a macOS screenshot path to the name macOS gave the file.
pub fn normalize_screenshot_path(path: &str) -> (r: String)
    ensures
        r@ == screenshot_path(path@),
{
    let c = chars_of(path);
    let n = c.len();
    proof {
        lemma_last_index_bounds(path@, '/');
    }
    let start = match last_index_of(c.as_slice(), '/') {
        Some(i) => i + 1,
        None => 0,
    };
    let name = vstd::slice::slice_subrange(c.as_slice(), start, n);
    let name_text = string_of(name);
    let m = match first_group(SCREENSHOT_PATTERN, name_text.as_str()) {
        Some(m) => m,
        None => {
            return String::from_str(path);
        },
    };
    let mc = chars_of(m.as_str());
    let pos = match last_site(name, mc.as_slice()) {
        Some(f) => f,
        None => {
            return String::from_str(path);
        },
    };
    if pos > 0 && name[pos - 1] == ' ' {
        let mut out = c;
        out.set(start + pos - 1, '\u{202F}');
        assert(out@ =~= screenshot_path(path@));
        string_of(out.as_slice())
    } else {
        String::from_str(path)
    }
}

} // verus!
