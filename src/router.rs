//! The developer tool router: the access rules, the edit history and the host
//! platform, and the decisions a tool call makes before and after the
//! file system or a process is touched.
use crate::editor::{
    code_block, review_tail, site, replace_snippet, insert_snippet, inserted_lines, missing_file_msg,
    replace_error_msg, insert_beyond_msg, no_history_msg, undone_msg, view_heading, view_body, starts_beyond,
    start_index, end_index, start_beyond_msg, start_not_before_msg, too_many_chars_msg, too_large_msg,
    MAX_CHAR_COUNT,
    check_view_size, insert_line, insert_spec, opt_view, replace_in_file, replace_spec, undo_edit,
    undo_spec, view_file, write_file, write_spec, Delegate, EditOutcome, MAX_FILE_SIZE,
};
use crate::error::ToolError;
use crate::gate::{ignore_verdict, AccessGate};
use crate::history::EditHistory;
use crate::paths::{normalize_screenshot_path, screenshot_path, extension, language_of, expanded, is_absolute, joined_path, language_identifier, not_absolute_msg, opt_str, resolve_path};
use crate::shell::{check_command_paths, restricted_msg};
use crate::text::{decimal, lines_of, push_str, str_eq, string_of, Platform};
use vstd::prelude::*;

verus! {

/// The tools the router offers.
#[derive(Clone, Copy, PartialEq, Eq, Structural, Debug)]
pub enum ToolKind {
    Shell,
    Glob,
    Grep,
    TextEditor,
    ListWindows,
    ScreenCapture,
    ImageProcessor,
}

/// The tool a name calls, if any.
pub open spec fn tool_of(name: Seq<char>) -> Option<ToolKind> {
    if name == "shell"@ { Some(ToolKind::Shell) }
    else if name == "glob"@ { Some(ToolKind::Glob) }
    else if name == "grep"@ { Some(ToolKind::Grep) }
    else if name == "text_editor"@ { Some(ToolKind::TextEditor) }
    else if name == "list_windows"@ { Some(ToolKind::ListWindows) }
    else if name == "screen_capture"@ { Some(ToolKind::ScreenCapture) }
    else if name == "image_processor"@ { Some(ToolKind::ImageProcessor) }
    else { None }
}

/// Routes a tool name; an unknown one is not found.
pub fn parse_tool(name: &str) -> (r: Result<ToolKind, ToolError>)
    ensures
        tool_of(name@) matches Some(k) ==> r == Ok::<ToolKind, ToolError>(k),
        tool_of(name@) is None ==> (r matches Err(e) && e is NotFound && e.text() == "Tool "@ + name@
            + " not found"@),
{
    if str_eq(name, "shell") {
        Ok(ToolKind::Shell)
    } else if str_eq(name, "glob") {
        Ok(ToolKind::Glob)
    } else if str_eq(name, "grep") {
        Ok(ToolKind::Grep)
    } else if str_eq(name, "text_editor") {
        Ok(ToolKind::TextEditor)
    } else if str_eq(name, "list_windows") {
        Ok(ToolKind::ListWindows)
    } else if str_eq(name, "screen_capture") {
        Ok(ToolKind::ScreenCapture)
    } else if str_eq(name, "image_processor") {
        Ok(ToolKind::ImageProcessor)
    } else {
        let mut m: Vec<char> = Vec::new();
        push_str(&mut m, "Tool ");
        push_str(&mut m, name);
        push_str(&mut m, " not found");
        Err(ToolError::NotFound(string_of(m.as_slice())))
    }
}

/// The message for a required parameter that is missing.
pub open spec fn missing_msg(name: Seq<char>) -> Seq<char> {
    "Missing '"@ + name + "' parameter"@
}

/// The error for the missing parameter `name`.
fn missing_param(name: &str) -> (r: ToolError)
    ensures
        r is InvalidParameters,
        r.text() == missing_msg(name@),
{
    let mut m: Vec<char> = Vec::new();
    push_str(&mut m, "Missing '");
    push_str(&mut m, name);
    push_str(&mut m, "' parameter");
    assert(m@ =~= missing_msg(name@));
    ToolError::InvalidParameters(string_of(m.as_slice()))
}

/// A required parameter, or the error naming it.
pub fn require_param(value: Option<String>, name: &str) -> (r: Result<String, ToolError>)
    ensures
        value matches Some(v) ==> r matches Ok(s) && s@ == v@,
        value is None ==> (r matches Err(e) && e is InvalidParameters && e.text() == missing_msg(
            name@,
        )),
{
    match value {
        Some(v) => Ok(v),
        None => {
            let mut m: Vec<char> = Vec::new();
            push_str(&mut m, "Missing '");
            push_str(&mut m, name);
            push_str(&mut m, "' parameter");
            Err(ToolError::InvalidParameters(string_of(m.as_slice())))
        },
    }
}

/// The shell command of a call, which is required.
pub fn require_command(value: Option<String>) -> (r: Result<String, ToolError>)
    ensures
        value matches Some(v) ==> r matches Ok(s) && s@ == v@,
        value is None ==> (r matches Err(e) && e is InvalidParameters && e.text()
            == "The command string is required"@),
{
    match value {
        Some(v) => Ok(v),
        None => Err(ToolError::InvalidParameters(String::from_str("The command string is required"))),
    }
}

/// The pattern of a file search, which is required.
pub fn require_pattern(value: Option<String>) -> (r: Result<String, ToolError>)
    ensures
        value matches Some(v) ==> r matches Ok(s) && s@ == v@,
        value is None ==> (r matches Err(e) && e is InvalidParameters && e.text()
            == "The pattern string is required"@),
{
    match value {
        Some(v) => Ok(v),
        None => Err(ToolError::InvalidParameters(String::from_str("The pattern string is required"))),
    }
}

/// A text editor operation with its parameters.
#[derive(Debug)]
pub enum EditorCommand {
    /// Shows the file, or the 1-indexed inclusive range of lines.
    View(Option<(i64, i64)>),
    /// Overwrites the file.
    Write(String),
    /// Replaces the one occurrence of the first text by the second.
    Replace(String, String),
    /// Inserts a line after the given number of lines.
    Insert(usize, String),
    /// Writes back the content before the last edit.
    Undo,
}

/// The line range a view asks for: two entries, a missing start read as 1
/// and a missing end as the end of the file.
pub open spec fn range_of(v: Option<Seq<Option<i64>>>) -> Option<(i64, i64)> {
    match v {
        Some(a) => if a.len() == 2 {
            Some(
                (
                    match a[0] {
                        Some(x) => x,
                        None => 1i64,
                    },
                    match a[1] {
                        Some(x) => x,
                        None => -1i64,
                    },
                ),
            )
        } else {
            None
        },
        None => None,
    }
}

/// The insert position a line number asks for; a negative one lies past
/// every file.
pub open spec fn insert_position(k: i64) -> usize {
    if k < 0 || k > usize::MAX {
        usize::MAX
    } else {
        k as usize
    }
}

/// The view of an optional string.
pub open spec fn opt_string(s: Option<String>) -> Option<Seq<char>> {
    match s {
        Some(x) => Some(x@),
        None => None,
    }
}

/// What `parse_editor_command` makes of a request.
pub open spec fn editor_command_spec(
    command: Seq<char>,
    file_text: Option<Seq<char>>,
    old_str: Option<Seq<char>>,
    new_str: Option<Seq<char>>,
    insert: Option<i64>,
    view_range: Option<Seq<Option<i64>>>,
    r: Result<EditorCommand, ToolError>,
) -> bool {
    if command == "view"@ {
        r matches Ok(EditorCommand::View(x)) && x == range_of(view_range)
    } else if command == "write"@ {
        match file_text {
            Some(t) => r matches Ok(EditorCommand::Write(w)) && w@ == t,
            None => r matches Err(e) && e is InvalidParameters && e.text() == missing_msg("file_text"@),
        }
    } else if command == "str_replace"@ || command == "edit_file"@ {
        match (old_str, new_str) {
            (Some(o), Some(n)) => r matches Ok(EditorCommand::Replace(a, b)) && a@ == o && b@ == n,
            (None, _) => r matches Err(e) && e is InvalidParameters && e.text() == missing_msg("old_str"@),
            (Some(_), None) => r matches Err(e) && e is InvalidParameters && e.text() == missing_msg(
                "new_str"@,
            ),
        }
    } else if command == "insert"@ {
        match (insert, new_str) {
            (Some(k), Some(n)) => r matches Ok(EditorCommand::Insert(a, b)) && a == insert_position(k)
                && b@ == n,
            (None, _) => r matches Err(e) && e is InvalidParameters && e.text() == missing_msg(
                "insert_line"@,
            ),
            (Some(_), None) => r matches Err(e) && e is InvalidParameters && e.text() == missing_msg(
                "new_str"@,
            ),
        }
    } else if command == "undo_edit"@ {
        r matches Ok(EditorCommand::Undo)
    } else {
        r matches Err(e) && e is InvalidParameters && e.text() == "Unknown command '"@ + command + "'"@
    }
}

/// Reads a text editor request from its named parameters; `view_range` holds
/// the entries of the range array, each a number or not.
pub fn parse_editor_command(
    command: &str,
    file_text: Option<String>,
    old_str: Option<String>,
    new_str: Option<String>,
    insert: Option<i64>,
    view_range: Option<Vec<Option<i64>>>,
) -> (r: Result<EditorCommand, ToolError>)
    ensures
        editor_command_spec(
            command@,
            opt_string(file_text),
            opt_string(old_str),
            opt_string(new_str),
            insert,
            match view_range {
                Some(v) => Some(v@),
                None => None,
            },
            r,
        ),
{
    if str_eq(command, "view") {
        let range = match view_range {
            Some(v) => if v.len() == 2 {
                let a = match v[0] {
                    Some(x) => x,
                    None => 1,
                };
                let b = match v[1] {
                    Some(x) => x,
                    None => -1,
                };
                Some((a, b))
            } else {
                None
            },
            None => None,
        };
        Ok(EditorCommand::View(range))
    } else if str_eq(command, "write") {
        match require_param(file_text, "file_text") {
            Ok(t) => Ok(EditorCommand::Write(t)),
            Err(e) => Err(e),
        }
    } else if str_eq(command, "str_replace") || str_eq(command, "edit_file") {
        let o = match require_param(old_str, "old_str") {
            Ok(o) => o,
            Err(e) => {
                return Err(e);
            },
        };
        match require_param(new_str, "new_str") {
            Ok(n) => Ok(EditorCommand::Replace(o, n)),
            Err(e) => Err(e),
        }
    } else if str_eq(command, "insert") {
        let k = match insert {
            Some(k) => if k < 0 {
                usize::MAX
            } else if k as u64 > usize::MAX as u64 {
                usize::MAX
            } else {
                k as usize
            },
            None => {
                return Err(missing_param("insert_line"));
            },
        };
        match require_param(new_str, "new_str") {
            Ok(n) => Ok(EditorCommand::Insert(k, n)),
            Err(e) => Err(e),
        }
    } else if str_eq(command, "undo_edit") {
        Ok(EditorCommand::Undo)
    } else {
        let mut m: Vec<char> = Vec::new();
        push_str(&mut m, "Unknown command '");
        push_str(&mut m, command);
        push_str(&mut m, "'");
        assert(m@ =~= "Unknown command '"@ + command@ + "'"@);
        Err(ToolError::InvalidParameters(string_of(m.as_slice())))
    }
}

pub open spec fn restricted_path_msg(path: Seq<char>) -> Seq<char> {
    "Access to '"@ + path + "' is restricted by .gooseignore"@
}

/// The developer tools' shared state.
pub struct DeveloperRouter {
    gate: AccessGate,
    history: EditHistory,
    platform: Platform,
}

impl DeveloperRouter {
    /// The root the access rules match relative to.
    pub closed spec fn gate_root(&self) -> Seq<char> {
        self.gate.root()
    }

    /// The rules in force, in order.
    pub closed spec fn gate_rules(&self) -> Seq<Seq<char>> {
        self.gate.rules()
    }

    /// The saved contents of `p`, oldest first.
    pub closed spec fn stack(&self, p: Seq<char>) -> Seq<Seq<char>> {
        self.history.stack(p)
    }

    /// The host platform.
    pub closed spec fn host(&self) -> Platform {
        self.platform
    }

    /// A router with the given access rules and no edit history.
    pub fn new(gate: AccessGate, platform: Platform) -> (r: DeveloperRouter)
        ensures
            r.gate_root() == gate.root(),
            r.gate_rules() == gate.rules(),
            r.host() == platform,
            forall|p: Seq<char>| #[trigger] r.stack(p) == Seq::<Seq<char>>::empty(),
    {
        DeveloperRouter { gate, history: EditHistory::new(), platform }
    }

    /// The access rules, for checks made outside the router.
    pub fn access_rules(&self) -> (r: &AccessGate)
        ensures
            r.root() == self.gate_root(),
            r.rules() == self.gate_rules(),
    {
        &self.gate
    }

    /// The host platform.
    pub fn platform(&self) -> (r: Platform)
        ensures
            r == self.host(),
    {
        self.platform
    }

    /// Whether the access rules exclude `path`.
    pub fn is_ignored(&self, path: &str) -> (r: bool)
        ensures
            r == ignore_verdict(self.gate_root(), self.gate_rules(), path@),
    {
        self.gate.is_ignored(path)
    }

    /// Refuses a command with an existing path argument that the access rules exclude.
    pub fn screen_command(&self, existing: &Vec<String>) -> (r: Result<(), ToolError>)
        ensures
            r is Ok <==> forall|i: int|
                0 <= i < existing@.len() ==> !ignore_verdict(
                    self.gate_root(),
                    self.gate_rules(),
                    #[trigger] existing@[i]@,
                ),
            r matches Err(e) ==> e is ExecutionError && exists|i: int|
                0 <= i < existing@.len() && ignore_verdict(self.gate_root(), self.gate_rules(), existing@[i]@)
                    && (forall|j: int| 0 <= j < i ==> !ignore_verdict(self.gate_root(), self.gate_rules(), #[trigger] existing@[j]@))
                    && e.text() == restricted_msg(existing@[i]@),
    {
        check_command_paths(&self.gate, existing)
    }

    /// Resolves the path of a file operation and lets it through the access rules.
    pub fn editor_path(&self, raw: &str, cwd: &str, home: Option<&str>) -> (r: Result<String, ToolError>)
        ensures
            ({
                let x = expanded(raw@, opt_str(home));
                &&& is_absolute(x, self.host()) && !ignore_verdict(self.gate_root(), self.gate_rules(), x)
                    ==> (r matches Ok(p) && p@ == x)
                &&& is_absolute(x, self.host()) && ignore_verdict(self.gate_root(), self.gate_rules(), x)
                    ==> (r matches Err(e) && e is ExecutionError && e.text() == restricted_path_msg(x))
                &&& !is_absolute(x, self.host()) ==> (r matches Err(e) && e is InvalidParameters
                    && e.text() == not_absolute_msg(raw@, joined_path(cwd@, x, self.host())))
            }),
    {
        let p = match resolve_path(raw, cwd, home, self.platform) {
            Ok(p) => p,
            Err(e) => {
                return Err(e);
            },
        };
        if self.gate.is_ignored(p.as_str()) {
            let mut m: Vec<char> = Vec::new();
            push_str(&mut m, "Access to '");
            push_str(&mut m, p.as_str());
            push_str(&mut m, "' is restricted by .gooseignore");
            assert(m@ =~= restricted_path_msg(p@));
            return Err(ToolError::ExecutionError(string_of(m.as_slice())));
        }
        Ok(p)
    }

    /// Resolves the path of an image; on macOS a screenshot's name is first
    /// rewritten to the one macOS gave the file. Then the access rules decide.
    pub fn image_path(&self, raw: &str, cwd: &str, home: Option<&str>, macos: bool) -> (r: Result<String, ToolError>)
        ensures
            r matches Ok(p) ==> !ignore_verdict(self.gate_root(), self.gate_rules(), p@),
            is_absolute(expanded(raw@, opt_str(home)), self.host()) ==> {
                let p = if macos {
                    screenshot_path(expanded(raw@, opt_str(home)))
                } else {
                    expanded(raw@, opt_str(home))
                };
                &&& !ignore_verdict(self.gate_root(), self.gate_rules(), p) ==> (r matches Ok(q) && q@ == p)
                &&& ignore_verdict(self.gate_root(), self.gate_rules(), p) ==> (r matches Err(e)
                    && e is ExecutionError && e.text() == restricted_path_msg(p))
            },
            !is_absolute(expanded(raw@, opt_str(home)), self.host()) ==> (r matches Err(e)
                && e is InvalidParameters && e.text() == not_absolute_msg(
                raw@,
                joined_path(cwd@, expanded(raw@, opt_str(home)), self.host()),
            )),
    {
        let resolved = match resolve_path(raw, cwd, home, self.platform) {
            Ok(p) => p,
            Err(e) => {
                return Err(e);
            },
        };
        let p = if macos {
            normalize_screenshot_path(resolved.as_str())
        } else {
            resolved
        };
        if self.gate.is_ignored(p.as_str()) {
            let mut m: Vec<char> = Vec::new();
            push_str(&mut m, "Access to '");
            push_str(&mut m, p.as_str());
            push_str(&mut m, "' is restricted by .gooseignore");
            assert(m@ =~= restricted_path_msg(p@));
            return Err(ToolError::ExecutionError(string_of(m.as_slice())));
        }
        Ok(p)
    }

    /// Refuses a file over the view ceiling before it is read.
    pub fn check_view_size(&self, path: &str, size: u64) -> (r: Result<(), ToolError>)
        ensures
            r is Ok <==> size <= MAX_FILE_SIZE,
            r matches Err(e) ==> e is ExecutionError && e.text() == too_large_msg(path@, size as nat),
    {
        check_view_size(path, size)
    }

    /// Renders the file at `path` with line numbers.
    pub fn text_editor_view(&self, path: &str, content: &str, range: Option<(i64, i64)>) -> (r: Result<
        String,
        ToolError,
    >)
        ensures
            content@.len() > MAX_CHAR_COUNT ==> (r matches Err(e) && e is ExecutionError && e.text()
                == too_many_chars_msg(path@, content@.len())),
            content@.len() <= MAX_CHAR_COUNT ==> {
                let ls = lines_of(content@);
                match range {
                    Some((a, b)) => if starts_beyond(a, ls.len() as int) {
                        r matches Err(e) && e is InvalidParameters && e.text() == start_beyond_msg(
                            a,
                            ls.len(),
                        )
                    } else if start_index(a) >= end_index(b, ls.len() as int) {
                        r matches Err(e) && e is InvalidParameters && e.text() == start_not_before_msg(
                            a,
                            b,
                        )
                    } else {
                        r matches Ok(v) && v@ == view_heading(path@, range) + "\n"@ + code_block(
                            language_of(extension(path@)),
                            view_body(ls, range),
                        )
                    },
                    None => r matches Ok(v) && v@ == view_heading(path@, range) + "\n"@ + code_block(
                        language_of(extension(path@)),
                        view_body(ls, range),
                    ),
                }
            },
    {
        let language = language_identifier(path);
        view_file(path, content, range, language.as_str())
    }

    /// Overwrites the file at `path`, whose content was `prior` (`None`: no file).
    pub fn text_editor_write(&mut self, path: &str, prior: Option<&str>, file_text: &str) -> (r: EditOutcome)
        ensures
            final(self).stack(path@) == write_spec(old(self).stack(path@), opt_view(prior), file_text@, old(self).host()).0,
            forall|q: Seq<char>| q != path@ ==> #[trigger] final(self).stack(q) == old(self).stack(q),
            r.content@ == write_spec(old(self).stack(path@), opt_view(prior), file_text@, old(self).host()).1,
            r.assistant@ == "Successfully wrote to "@ + path@,
            r.user@ == "### "@ + path@ + "\n"@ + code_block(language_of(extension(path@)), r.content@),
            final(self).host() == old(self).host(),
            final(self).gate_root() == old(self).gate_root(),
            final(self).gate_rules() == old(self).gate_rules(),
    {
        let language = language_identifier(path);
        write_file(&mut self.history, path, prior, file_text, self.platform, language.as_str())
    }

    /// Replaces the one occurrence of `old_str` in the file at `path`, whose
    /// content is `current` (`None`: no file), or takes the delegate's result.
    pub fn text_editor_replace(
        &mut self,
        path: &str,
        current: Option<&str>,
        old_str: &str,
        new_str: &str,
        delegate: &Delegate,
    ) -> (r: Result<EditOutcome, ToolError>)
        ensures
            final(self).stack(path@) == replace_spec(old(self).stack(path@), opt_view(current), old_str@, new_str@, *delegate, old(self).host()).0,
            forall|q: Seq<char>| q != path@ ==> #[trigger] final(self).stack(q) == old(self).stack(q),
            r is Ok <==> replace_spec(old(self).stack(path@), opt_view(current), old_str@, new_str@, *delegate, old(self).host()).1 is Some,
            r matches Ok(o) ==> Some(o.content@) == replace_spec(old(self).stack(path@), opt_view(current), old_str@, new_str@, *delegate, old(self).host()).1,
            r matches Ok(o) ==> (delegate is Edited ==> o.assistant@ == "Successfully edited "@ + path@
                && o.user@ == "File "@ + path@ + " has been edited"@),
            r matches Ok(o) ==> (!(delegate is Edited) ==> {
                let c = current.unwrap()@;
                let block = code_block(
                    language_of(extension(path@)),
                    replace_snippet(c, site(c, old_str@), old_str@, new_str@),
                );
                &&& o.user@ == block
                &&& o.assistant@ == "The file "@ + path@ + " has been edited, and the section now reads:\n"@
                    + block + review_tail()
            }),
            r matches Err(e) ==> e is InvalidParameters && e.text() == match current {
                None => missing_file_msg(path@),
                Some(c) => replace_error_msg(c@, old_str@),
            },
            final(self).host() == old(self).host(),
            final(self).gate_root() == old(self).gate_root(),
            final(self).gate_rules() == old(self).gate_rules(),
    {
        let language = language_identifier(path);
        replace_in_file(&mut self.history, path, current, old_str, new_str, delegate, self.platform, language.as_str())
    }

    /// Inserts `new_str` after the first `k` lines of the file at `path`.
    pub fn text_editor_insert(&mut self, path: &str, current: Option<&str>, k: usize, new_str: &str) -> (r: Result<EditOutcome, ToolError>)
        ensures
            final(self).stack(path@) == insert_spec(old(self).stack(path@), opt_view(current), k as nat, new_str@, old(self).host()).0,
            forall|q: Seq<char>| q != path@ ==> #[trigger] final(self).stack(q) == old(self).stack(q),
            r is Ok <==> insert_spec(old(self).stack(path@), opt_view(current), k as nat, new_str@, old(self).host()).1 is Some,
            r matches Ok(o) ==> {
                let c = current.unwrap()@;
                let block = code_block(
                    language_of(extension(path@)),
                    insert_snippet(inserted_lines(c, k as int, new_str@), k as int),
                );
                &&& Some(o.content@) == insert_spec(old(self).stack(path@), opt_view(current), k as nat, new_str@, old(self).host()).1
                &&& o.user@ == block
                &&& o.assistant@ == "Text has been inserted at line "@ + decimal(k as nat + 1) + " in "@
                    + path@ + ". The section now reads:\n"@ + block + review_tail()
            },
            r matches Err(e) ==> e is InvalidParameters && e.text() == match current {
                None => missing_file_msg(path@),
                Some(c) => insert_beyond_msg(k as nat, lines_of(c@).len()),
            },
            final(self).host() == old(self).host(),
            final(self).gate_root() == old(self).gate_root(),
            final(self).gate_rules() == old(self).gate_rules(),
    {
        let language = language_identifier(path);
        insert_line(&mut self.history, path, current, k, new_str, self.platform, language.as_str())
    }

    /// Writes back the content the file at `path` had before its last edit.
    pub fn text_editor_undo(&mut self, path: &str) -> (r: Result<EditOutcome, ToolError>)
        ensures
            final(self).stack(path@) == undo_spec(old(self).stack(path@)).0,
            forall|q: Seq<char>| q != path@ ==> #[trigger] final(self).stack(q) == old(self).stack(q),
            old(self).stack(path@).len() == 0 ==> (r matches Err(e) && e is InvalidParameters && e.text()
                == no_history_msg()),
            old(self).stack(path@).len() > 0 ==> (r matches Ok(o) && o.content@ == old(self).stack(path@).last()
                && o.assistant@ == undone_msg() && o.user@ == undone_msg()),
            final(self).host() == old(self).host(),
            final(self).gate_root() == old(self).gate_root(),
            final(self).gate_rules() == old(self).gate_rules(),
    {
        undo_edit(&mut self.history, path)
    }
}

/// On a fresh router no path has anything to undo: for every path the access rules
/// lets through, undo fails with invalid parameters until the path is edited.
pub proof fn lemma_fresh_router_cannot_undo(r: DeveloperRouter, p: Seq<char>)
    requires
        forall|q: Seq<char>| #[trigger] r.stack(q) == Seq::<Seq<char>>::empty(),
    ensures
        undo_spec(r.stack(p)).1 is None,
        undo_spec(r.stack(p)).0 == r.stack(p),
{
    assert(r.stack(p) == Seq::<Seq<char>>::empty());
}

} // verus!
