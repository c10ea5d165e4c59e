use goose_mcp::error::ToolError;
use goose_mcp::gate::AccessGate;
use goose_mcp::router::{parse_tool, require_command, DeveloperRouter, ToolKind};
use goose_mcp::shell::{
    check_output_size, command_path_arguments, needs_spill, shape_output, OutputCapture, Stream,
    StreamEvent,
};
use goose_mcp::text::Platform;

fn router_with(lines: &[&str]) -> DeveloperRouter {
    let owned: Vec<String> = lines.iter().map(|l| l.to_string()).collect();
    DeveloperRouter::new(AccessGate::from_lines("/tmp/project", &owned).unwrap(), Platform::Unix)
}

fn numbered_output(n: usize) -> String {
    (1..=n).map(|i| format!("Line {}\n", i)).collect()
}

#[test]
fn test_process_shell_output_short() {
    let short_output = "Line 1\nLine 2\nLine 3\nLine 4\nLine 5";
    let result = shape_output(short_output, "");
    assert_eq!(result.0, short_output);
    assert_eq!(result.1, short_output);
}

#[test]
fn test_process_shell_output_empty() {
    let result = shape_output("", "");
    assert_eq!(result.0, "");
    assert_eq!(result.1, "");
}

#[test]
fn test_shell_missing_parameters() {
    let result = require_command(None);
    assert!(result.is_err());
    let err = result.err().unwrap();
    assert!(matches!(err, ToolError::InvalidParameters(_)));
}

#[test]
fn test_bash_output_truncation() {
    let output = numbered_output(150);
    assert!(needs_spill(&output));
    let (assistant, user) = shape_output(&output, "/tmp/spill-150.txt");
    assert!(assistant.contains("private note: output was"));
    assert!(user.starts_with("..."));
    assert!(!user.contains("private note: output was"));
    assert!(user.contains("Line 51"));
    assert!(user.contains("Line 150"));
    assert!(!user.contains("Line 50\n"));
    let start_tag = "remainder of lines in";
    let end_tag = "do not show tmp file to user";
    let start = assistant.find(start_tag).unwrap() + start_tag.len();
    let end = assistant.find(end_tag).unwrap();
    assert_eq!(assistant[start..end].trim(), "/tmp/spill-150.txt");
    // the side file receives the whole output
    let lines: Vec<&str> = output.lines().collect();
    assert_eq!(lines.len(), 150);
    assert_eq!(lines.first(), Some(&"Line 1"));
    assert_eq!(lines.last(), Some(&"Line 150"));
}

#[test]
fn output_of_exactly_one_hundred_lines_is_kept() {
    let output = numbered_output(100);
    assert!(!needs_spill(&output));
    let (a, u) = shape_output(&output, "/unused");
    assert_eq!(a, output);
    assert_eq!(u, output);
}

#[test]
fn output_of_one_hundred_and_one_lines_is_cut() {
    let output = numbered_output(101);
    assert!(needs_spill(&output));
    let (a, u) = shape_output(&output, "/tmp/s");
    assert!(a.starts_with("private note: output was 101 lines"));
    assert!(u.starts_with("... \nLine 2\n"));
    assert!(u.ends_with("Line 101"));
    assert!(!u.contains("Line 1\n"));
}

#[test]
fn output_size_ceiling() {
    let ok = "x".repeat(400_000);
    assert!(check_output_size("yes", &ok).is_ok());
    let big = "x".repeat(400_001);
    let err = check_output_size("yes", &big).unwrap_err();
    assert!(matches!(err, ToolError::ExecutionError(_)));
    assert_eq!(
        err.message(),
        "Shell output from command 'yes' has too many characters (400001). Maximum character count is 400000."
    );
}

#[test]
fn path_arguments_skip_command_and_flags() {
    let args = command_path_arguments("cat -n  /tmp/a.txt\t--all b.txt");
    assert_eq!(args, vec!["/tmp/a.txt".to_string(), "b.txt".to_string()]);
    assert!(command_path_arguments("").is_empty());
    assert!(command_path_arguments("   ls   ").is_empty());
}

#[test]
fn test_bash_respects_ignore_patterns() {
    let router = router_with(&["secret.txt"]);
    let secret = vec!["/tmp/project/secret.txt".to_string()];
    let err = router.screen_command(&secret).unwrap_err();
    assert!(matches!(err, ToolError::ExecutionError(_)));
    assert_eq!(
        err.message(),
        "The command attempts to access '/tmp/project/secret.txt' which is restricted by .gooseignore"
    );
    let allowed = vec!["/tmp/project/allowed.txt".to_string()];
    assert!(router.screen_command(&allowed).is_ok());
}

#[test]
fn test_bash_respects_gitignore_fallback() {
    let files = goose_mcp::gate::RuleFiles { global: None, local: None, fallback: Some("*.log".to_string()) };
    let router = DeveloperRouter::new(AccessGate::build("/tmp/project", &files).unwrap(), Platform::Unix);
    let log = vec!["/tmp/project/test.log".to_string()];
    assert!(matches!(router.screen_command(&log).unwrap_err(), ToolError::ExecutionError(_)));
    let allowed = vec!["/tmp/project/allowed.txt".to_string()];
    assert!(router.screen_command(&allowed).is_ok());
}

#[test]
fn capture_collects_both_streams_until_closed() {
    let mut cap = OutputCapture::new();
    let n = cap.on_event(StreamEvent::Line(Stream::Stdout, "out 1\n".to_string())).unwrap();
    assert_eq!(n.stream, Stream::Stdout);
    assert_eq!(n.line, "out 1\n");
    assert_eq!(n.stream.name(), "stdout");
    let n = cap.on_event(StreamEvent::Line(Stream::Stderr, "err 1\n".to_string())).unwrap();
    assert_eq!(n.stream.name(), "stderr");
    assert!(cap.on_event(StreamEvent::Closed(Stream::Stdout)).is_none());
    assert!(!cap.finished());
    assert!(cap.on_event(StreamEvent::Line(Stream::Stdout, "late\n".to_string())).is_none());
    cap.on_event(StreamEvent::Line(Stream::Stderr, "err 2".to_string()));
    cap.on_event(StreamEvent::Closed(Stream::Stderr));
    assert!(cap.finished());
    assert_eq!(cap.into_text(), "out 1\nerr 1\nerr 2");
}

#[test]
fn tools_route_by_name() {
    assert_eq!(parse_tool("shell").unwrap(), ToolKind::Shell);
    assert_eq!(parse_tool("grep").unwrap(), ToolKind::Grep);
    assert_eq!(parse_tool("text_editor").unwrap(), ToolKind::TextEditor);
    assert_eq!(parse_tool("image_processor").unwrap(), ToolKind::ImageProcessor);
    let err = parse_tool("teleport").unwrap_err();
    assert!(matches!(err, ToolError::NotFound(_)));
    assert_eq!(err.message(), "Tool teleport not found");
}
