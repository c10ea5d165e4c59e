use goose_mcp::editor::{check_view_size, Delegate};
use goose_mcp::error::ToolError;
use goose_mcp::gate::{AccessGate, RuleFiles};
use goose_mcp::router::{parse_editor_command, DeveloperRouter, EditorCommand};
use goose_mcp::text::Platform;

const PATH: &str = "/tmp/project/test.txt";

fn router() -> DeveloperRouter {
    let files = RuleFiles { global: None, local: None, fallback: None };
    DeveloperRouter::new(AccessGate::build("/tmp/project", &files).unwrap(), Platform::Unix)
}

/// Writes `text` as a new file and returns its content on disk.
fn write_new(r: &mut DeveloperRouter, text: &str) -> String {
    r.text_editor_write(PATH, None, text).content
}

fn view(r: &DeveloperRouter, content: &str, range: Option<(i64, i64)>) -> Result<String, ToolError> {
    r.text_editor_view(PATH, content, range)
}

#[test]
fn test_text_editor_write_and_view_file() {
    let mut r = router();
    let content = write_new(&mut r, "Hello, world!");
    assert_eq!(content, "Hello, world!\n");
    let text = view(&r, &content, None).unwrap();
    assert!(text.contains("Hello, world!"));
    assert!(text.contains("1: Hello, world!"));
}

#[test]
fn test_text_editor_str_replace() {
    let mut r = router();
    let content = write_new(&mut r, "Hello, world!");
    let out = r
        .text_editor_replace(PATH, Some(&content), "world", "Rust", &Delegate::NotConfigured)
        .unwrap();
    assert!(out.assistant.contains("has been edited, and the section now reads"));
    assert_eq!(out.content, "Hello, Rust!\n");
    let text = view(&r, &out.content, None).unwrap();
    assert!(text.contains("Rust") || text.contains("Hello, Rust!"));
}

#[test]
fn test_text_editor_undo_edit() {
    let mut r = router();
    let content = write_new(&mut r, "First line");
    let edited = r
        .text_editor_replace(PATH, Some(&content), "First line", "Second line", &Delegate::NotConfigured)
        .unwrap();
    assert_eq!(edited.content, "Second line\n");
    let undo = r.text_editor_undo(PATH).unwrap();
    assert!(undo.assistant.contains("Undid the last edit"));
    let text = view(&r, &undo.content, None).unwrap();
    assert!(text.contains("First line"));
}

#[test]
fn write_replace_undo_scenario() {
    let mut r = router();
    let content = write_new(&mut r, "Hello, world!");
    assert!(view(&r, &content, None).unwrap().contains("1: Hello, world!"));
    let edited = r
        .text_editor_replace(PATH, Some(&content), "world", "Rust", &Delegate::NotConfigured)
        .unwrap();
    assert!(view(&r, &edited.content, None).unwrap().contains("Hello, Rust!"));
    let undone = r.text_editor_undo(PATH).unwrap();
    assert_eq!(undone.content, content);
    assert!(view(&r, &undone.content, None).unwrap().contains("Hello, world!"));
}

#[test]
fn undo_without_history_fails() {
    let mut r = router();
    let err = r.text_editor_undo(PATH).unwrap_err();
    assert!(matches!(err, ToolError::InvalidParameters(_)));
    assert_eq!(err.message(), "No edit history available to undo");
}

#[test]
fn undo_after_write_restores_prior_and_then_runs_out() {
    let mut r = router();
    let first = write_new(&mut r, "one");
    let second = r.text_editor_write(PATH, Some(&first), "two").content;
    assert_eq!(second, "two\n");
    assert_eq!(r.text_editor_undo(PATH).unwrap().content, "one\n");
    assert_eq!(r.text_editor_undo(PATH).unwrap().content, "");
    assert!(matches!(r.text_editor_undo(PATH), Err(ToolError::InvalidParameters(_))));
}

#[test]
fn history_is_kept_per_path() {
    let mut r = router();
    let other = "/tmp/project/other.txt";
    write_new(&mut r, "mine");
    assert!(r.text_editor_undo(other).is_err());
    assert!(r.text_editor_undo(PATH).is_ok());
}

#[test]
fn replace_with_fragment_absent_or_repeated_fails() {
    let mut r = router();
    let content = "a b a\n";
    let err = r
        .text_editor_replace(PATH, Some(content), "c", "d", &Delegate::NotConfigured)
        .unwrap_err();
    assert!(matches!(err, ToolError::InvalidParameters(_)));
    assert!(err.message().contains("does not appear in the file"));
    let err = r
        .text_editor_replace(PATH, Some(content), "a", "d", &Delegate::NotConfigured)
        .unwrap_err();
    assert!(matches!(err, ToolError::InvalidParameters(_)));
    assert!(err.message().contains("appears multiple times"));
    // nothing was saved, so nothing to undo
    assert!(r.text_editor_undo(PATH).is_err());
}

#[test]
fn replace_counts_overlapping_occurrences() {
    let mut r = router();
    let err = r
        .text_editor_replace(PATH, Some("aaa\n"), "aa", "b", &Delegate::NotConfigured)
        .unwrap_err();
    assert!(err.message().contains("appears multiple times"));
}

#[test]
fn replace_of_missing_file_fails() {
    let mut r = router();
    let err = r
        .text_editor_replace(PATH, None, "a", "b", &Delegate::NotConfigured)
        .unwrap_err();
    assert!(matches!(err, ToolError::InvalidParameters(_)));
    assert_eq!(
        err.message(),
        "File '/tmp/project/test.txt' does not exist, you can write a new file with the `write` command"
    );
}

#[test]
fn replace_snippet_shows_context() {
    let mut r = router();
    let content: String = (1..=20).map(|i| format!("line {}\n", i)).collect();
    let out = r
        .text_editor_replace(PATH, Some(&content), "line 10\n", "ten\n", &Delegate::NotConfigured)
        .unwrap();
    assert!(out.user.starts_with("```\nline 6\n"));
    assert!(out.user.contains("ten\nline 11"));
    assert!(out.user.ends_with("line 15\n```\n"));
    assert!(!out.user.contains("line 5\n"));
    assert!(!out.user.contains("line 16"));
}

#[test]
fn delegate_result_is_written() {
    let mut r = router();
    let out = r
        .text_editor_replace(PATH, Some("a\r\nb\n"), "a", "z", &Delegate::Edited("smart\r\nedit".to_string()))
        .unwrap();
    assert_eq!(out.content, "smart\nedit");
    assert_eq!(out.assistant, "Successfully edited /tmp/project/test.txt");
    assert_eq!(out.user, "File /tmp/project/test.txt has been edited");
    assert_eq!(r.text_editor_undo(PATH).unwrap().content, "a\r\nb\n");
}

#[test]
fn failed_delegate_falls_back_to_literal_replace() {
    let mut r = router();
    let out = r
        .text_editor_replace(PATH, Some("x = 1\n"), "1", "2", &Delegate::Failed)
        .unwrap();
    assert_eq!(out.content, "x = 2\n");
    assert_eq!(r.text_editor_undo(PATH).unwrap().content, "x = 1\n");
    assert!(r.text_editor_undo(PATH).is_err());
}

#[test]
fn test_text_editor_view_range() {
    let mut r = router();
    let content = write_new(&mut r, "Line 1\nLine 2\nLine 3\nLine 4\nLine 5\nLine 6\nLine 7\nLine 8\nLine 9\nLine 10");
    let text = view(&r, &content, Some((3, 6))).unwrap();
    assert!(text.contains("3: Line 3"));
    assert!(text.contains("4: Line 4"));
    assert!(text.contains("5: Line 5"));
    assert!(text.contains("6: Line 6"));
    assert!(text.contains("(lines 3-6)"));
    assert!(!text.contains("1: Line 1"));
    assert!(!text.contains("7: Line 7"));
}

#[test]
fn test_text_editor_view_range_to_end() {
    let mut r = router();
    let content = write_new(&mut r, "Line 1\nLine 2\nLine 3\nLine 4\nLine 5");
    let text = view(&r, &content, Some((3, -1))).unwrap();
    assert!(text.contains("3: Line 3"));
    assert!(text.contains("4: Line 4"));
    assert!(text.contains("5: Line 5"));
    assert!(text.contains("(lines 3-end)"));
    assert!(!text.contains("1: Line 1"));
    assert!(!text.contains("2: Line 2"));
}

#[test]
fn test_text_editor_view_range_invalid() {
    let mut r = router();
    let content = write_new(&mut r, "Line 1\nLine 2\nLine 3");
    let err = view(&r, &content, Some((10, 15))).unwrap_err();
    assert!(matches!(err, ToolError::InvalidParameters(_)));
    assert!(err.message().contains("beyond the end of the file"));
    let err = view(&r, &content, Some((3, 2))).unwrap_err();
    assert!(matches!(err, ToolError::InvalidParameters(_)));
    assert!(err.message().contains("must be less than end line"));
}

#[test]
fn view_output_is_exact() {
    let r = router();
    let text = view(&r, "fn main() {}\n", None).unwrap();
    assert_eq!(text, "### /tmp/project/test.txt\n```\n1: fn main() {}\n```\n");
    let rs = r.text_editor_view("/src/main.rs", "a\nb\nc\n", Some((2, 3))).unwrap();
    assert_eq!(rs, "### /src/main.rs (lines 2-3)\n```rust\n2: b\n3: c\n```\n");
    let err = view(&r, "a\n", Some((1, 1))).map(|_| ()).err();
    assert!(err.is_none());
    let err = view(&r, "", Some((1, -1))).unwrap_err();
    assert_eq!(err.message(), "Start line 1 is beyond the end of the file (total lines: 0)");
}

#[test]
fn test_text_editor_size_limits() {
    let err = check_view_size("/tmp/project/large.txt", 3 * 1024 * 1024).unwrap_err();
    assert!(matches!(err, ToolError::ExecutionError(_)));
    assert!(err.message().contains("too large"));
    assert_eq!(
        err.message(),
        "File '/tmp/project/large.txt' is too large (3072.00KB). Maximum size is 400KB to prevent memory issues."
    );
    assert!(check_view_size("/tmp/project/ok.txt", 400 * 1024).is_ok());
    let r = router();
    let content = "x".repeat(405_000);
    let err = r.text_editor_view("/tmp/project/many_chars.txt", &content, None).unwrap_err();
    assert!(matches!(err, ToolError::ExecutionError(_)));
    assert!(err.message().contains("too many characters"));
}

fn insert_then_view(initial: &str, k: usize, new: &str) -> (String, String) {
    let mut r = router();
    let content = write_new(&mut r, initial);
    let out = r.text_editor_insert(PATH, Some(&content), k, new).unwrap();
    let text = view(&r, &out.content, None).unwrap();
    (out.assistant, text)
}

#[test]
fn test_text_editor_insert_at_beginning() {
    let (msg, text) = insert_then_view("Line 2\nLine 3\nLine 4", 0, "Line 1");
    assert!(msg.contains("Text has been inserted at line 1"));
    assert!(text.contains("1: Line 1"));
    assert!(text.contains("2: Line 2"));
    assert!(text.contains("3: Line 3"));
    assert!(text.contains("4: Line 4"));
}

#[test]
fn test_text_editor_insert_in_middle() {
    let (msg, text) = insert_then_view("Line 1\nLine 2\nLine 4\nLine 5", 2, "Line 3");
    assert!(msg.contains("Text has been inserted at line 3"));
    for i in 1..=5 {
        assert!(text.contains(&format!("{}: Line {}", i, i)));
    }
}

#[test]
fn test_text_editor_insert_at_end() {
    let (msg, text) = insert_then_view("Line 1\nLine 2\nLine 3", 3, "Line 4");
    assert!(msg.contains("Text has been inserted at line 4"));
    for i in 1..=4 {
        assert!(text.contains(&format!("{}: Line {}", i, i)));
    }
}

#[test]
fn insert_adds_exactly_one_line() {
    let mut r = router();
    let content = "a\nb\nc\n";
    for k in 0..=3 {
        let out = r.text_editor_insert(PATH, Some(content), k, "new").unwrap();
        let lines: Vec<&str> = out.content.lines().collect();
        assert_eq!(lines.len(), 4);
        assert_eq!(lines[k], "new");
    }
}

#[test]
fn insert_snippet_is_numbered_from_one() {
    let mut r = router();
    let out = r.text_editor_insert(PATH, Some("a\nb\n"), 0, "top").unwrap();
    assert_eq!(out.user, "```\n1: top\n2: a\n3: b\n```\n");
}

#[test]
fn test_text_editor_insert_invalid_line() {
    let mut r = router();
    let content = write_new(&mut r, "Line 1\nLine 2\nLine 3");
    let err = r.text_editor_insert(PATH, Some(&content), 10, "Line 11").unwrap_err();
    assert!(matches!(err, ToolError::InvalidParameters(_)));
    assert!(err.message().contains("beyond the end of the file"));
    assert_eq!(
        err.message(),
        "Insert line 10 is beyond the end of the file (total lines: 3). Use 0 to insert at the beginning or 3 to insert at the end."
    );
}

#[test]
fn test_text_editor_insert_missing_parameters() {
    let err = parse_editor_command("insert", None, None, Some("New line".to_string()), None, None)
        .err()
        .unwrap();
    assert!(matches!(err, ToolError::InvalidParameters(_)));
    assert!(err.message().contains("Missing 'insert_line' parameter"));
    let err = parse_editor_command("insert", None, None, None, Some(1), None).err().unwrap();
    assert!(matches!(err, ToolError::InvalidParameters(_)));
    assert!(err.message().contains("Missing 'new_str' parameter"));
}

#[test]
fn test_text_editor_insert_with_undo() {
    let mut r = router();
    let content = write_new(&mut r, "Line 1\nLine 2");
    r.text_editor_insert(PATH, Some(&content), 1, "Inserted Line").unwrap();
    let undo = r.text_editor_undo(PATH).unwrap();
    assert!(undo.assistant.contains("Undid the last edit"));
    let text = view(&r, &undo.content, None).unwrap();
    assert!(text.contains("1: Line 1"));
    assert!(text.contains("2: Line 2"));
    assert!(!text.contains("Inserted Line"));
}

#[test]
fn test_text_editor_insert_nonexistent_file() {
    let mut r = router();
    let err = r.text_editor_insert("/tmp/project/nonexistent.txt", None, 0, "New line").unwrap_err();
    assert!(matches!(err, ToolError::InvalidParameters(_)));
    assert!(err.message().contains("does not exist"));
}

#[test]
fn failed_insert_saves_nothing() {
    let mut r = router();
    assert!(r.text_editor_insert(PATH, Some("a\n"), 5, "x").is_err());
    assert!(r.text_editor_undo(PATH).is_err());
}

#[test]
fn windows_line_endings_on_write() {
    let files = RuleFiles { global: None, local: None, fallback: None };
    let mut r = DeveloperRouter::new(AccessGate::build("C:\\work", &files).unwrap(), Platform::Windows);
    let out = r.text_editor_write("C:\\work\\a.txt", None, "a\nb\r\nc");
    assert_eq!(out.content, "a\r\nb\r\nc\n");
}

#[test]
fn editor_commands_parse() {
    assert!(matches!(parse_editor_command("view", None, None, None, None, None), Ok(EditorCommand::View(None))));
    assert!(matches!(
        parse_editor_command("view", None, None, None, None, Some(vec![Some(3), None])),
        Ok(EditorCommand::View(Some((3, -1))))
    ));
    assert!(matches!(
        parse_editor_command("view", None, None, None, None, Some(vec![Some(3)])),
        Ok(EditorCommand::View(None))
    ));
    assert!(matches!(
        parse_editor_command("edit_file", None, Some("a".into()), Some("b".into()), None, None),
        Ok(EditorCommand::Replace(_, _))
    ));
    assert!(matches!(
        parse_editor_command("insert", None, None, Some("x".into()), Some(-1), None),
        Ok(EditorCommand::Insert(usize::MAX, _))
    ));
    assert!(matches!(parse_editor_command("undo_edit", None, None, None, None, None), Ok(EditorCommand::Undo)));
    let err = parse_editor_command("write", None, None, None, None, None).err().unwrap();
    assert_eq!(err.message(), "Missing 'file_text' parameter");
    let err = parse_editor_command("str_replace", None, None, Some("b".into()), None, None).err().unwrap();
    assert_eq!(err.message(), "Missing 'old_str' parameter");
    let err = parse_editor_command("delete", None, None, None, None, None).err().unwrap();
    assert!(matches!(err, ToolError::InvalidParameters(_)));
    assert_eq!(err.message(), "Unknown command 'delete'");
}

#[test]
fn undo_after_replace_restores_exact_bytes() {
    let mut r = router();
    let original = "first\r\nfoo bar\r\nlast";
    let out = r
        .text_editor_replace(PATH, Some(original), "foo", "baz", &Delegate::NotConfigured)
        .unwrap();
    assert_eq!(out.content, "first\nbaz bar\nlast");
    let undone = r.text_editor_undo(PATH).unwrap();
    assert_eq!(undone.content, original);
}

#[test]
fn replace_substitutes_only_the_matched_text() {
    let mut r = router();
    let out = r
        .text_editor_replace(PATH, Some("alpha beta gamma\n"), "beta", "BETA", &Delegate::NotConfigured)
        .unwrap();
    assert_eq!(out.content, "alpha BETA gamma\n");
}
