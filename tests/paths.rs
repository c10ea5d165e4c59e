use goose_mcp::error::ToolError;
use goose_mcp::gate::{AccessGate, RuleFiles};
use goose_mcp::paths::{expand_home, glob_pattern, is_absolute_path, language_identifier, resolve_path};
use goose_mcp::router::DeveloperRouter;
use goose_mcp::text::Platform;

#[test]
fn test_windows_specific_commands() {
    assert!(resolve_path("C:\\Windows\\System32", "C:\\", None, Platform::Windows).is_ok());
    assert!(resolve_path("\\\\server\\share", "C:\\", None, Platform::Windows).is_ok());
    assert!(resolve_path("relative\\dir", "C:\\", None, Platform::Windows).is_err());
}

#[test]
fn relative_path_gets_a_suggestion() {
    let err = resolve_path("src/main.rs", "/home/me/project", None, Platform::Unix).unwrap_err();
    assert!(matches!(err, ToolError::InvalidParameters(_)));
    assert_eq!(
        err.message(),
        "The path src/main.rs is not an absolute path, did you possibly mean /home/me/project/src/main.rs?"
    );
    let err = resolve_path("a.txt", "/", None, Platform::Unix).unwrap_err();
    assert!(err.message().ends_with("did you possibly mean /a.txt?"));
}

#[test]
fn home_marker_expands() {
    assert_eq!(expand_home("~/notes.txt", Some("/home/me")), "/home/me/notes.txt");
    assert_eq!(expand_home("~", Some("/home/me")), "/home/me");
    assert_eq!(expand_home("~other/x", Some("/home/me")), "~other/x");
    assert_eq!(expand_home("/abs/~/x", Some("/home/me")), "/abs/~/x");
    assert_eq!(expand_home("~/x", None), "~/x");
    assert_eq!(resolve_path("~/x", "/cwd", Some("/home/me"), Platform::Unix).unwrap(), "/home/me/x");
}

#[test]
fn absolute_paths_by_platform() {
    assert!(is_absolute_path("/etc", Platform::Unix));
    assert!(!is_absolute_path("etc", Platform::Unix));
    assert!(!is_absolute_path("", Platform::Unix));
    assert!(is_absolute_path("D:\\data", Platform::Windows));
    assert!(!is_absolute_path("D:data", Platform::Windows));
}

#[test]
fn test_text_editor_respects_ignore_patterns() {
    let lines = vec!["secret.txt".to_string()];
    let r = DeveloperRouter::new(AccessGate::from_lines("/tmp/project", &lines).unwrap(), Platform::Unix);
    let err = r.editor_path("/tmp/project/secret.txt", "/tmp/project", None).unwrap_err();
    assert!(matches!(err, ToolError::ExecutionError(_)));
    assert_eq!(err.message(), "Access to '/tmp/project/secret.txt' is restricted by .gooseignore");
    assert_eq!(
        r.editor_path("/tmp/project/allowed.txt", "/tmp/project", None).unwrap(),
        "/tmp/project/allowed.txt"
    );
}

#[test]
fn test_text_editor_respects_gitignore_fallback() {
    let files = RuleFiles { global: None, local: None, fallback: Some("*.log".to_string()) };
    let r = DeveloperRouter::new(AccessGate::build("/tmp/project", &files).unwrap(), Platform::Unix);
    let err = r.editor_path("/tmp/project/test.log", "/tmp/project", None).unwrap_err();
    assert!(matches!(err, ToolError::ExecutionError(_)));
    assert!(r.editor_path("/tmp/project/allowed.txt", "/tmp/project", None).is_ok());
    let err = r.editor_path("test.log", "/tmp/project", None).unwrap_err();
    assert!(matches!(err, ToolError::InvalidParameters(_)));
}

#[test]
fn glob_patterns_compose() {
    assert_eq!(glob_pattern("*.rs", None), "*.rs");
    assert_eq!(glob_pattern("*.rs", Some(".")), "*.rs");
    assert_eq!(glob_pattern("*.rs", Some("src//")), "src/*.rs");
    assert_eq!(glob_pattern("**/*.md", Some("/docs")), "/docs/**/*.md");
}

#[test]
fn language_tags() {
    assert_eq!(language_identifier("/a/b/main.rs"), "rust");
    assert_eq!(language_identifier("/a/b/script.py"), "python");
    assert_eq!(language_identifier("conf.yml"), "yaml");
    assert_eq!(language_identifier("/a.b/README"), "");
    assert_eq!(language_identifier("/a/.bashrc"), "");
    assert_eq!(language_identifier("/a/archive.tar.gz"), "");
}

#[test]
fn tilde_before_backslash_stays_as_written() {
    assert_eq!(expand_home("~\\notes.txt", Some("C:\\Users\\me")), "~\\notes.txt");
    let err = resolve_path("~\\notes.txt", "C:\\work", Some("C:\\Users\\me"), Platform::Windows).unwrap_err();
    assert!(matches!(err, ToolError::InvalidParameters(_)));
    assert_eq!(
        err.message(),
        "The path ~\\notes.txt is not an absolute path, did you possibly mean C:\\work\\~\\notes.txt?"
    );
}
