use goose_mcp::error::ToolError;
use goose_mcp::gate::AccessGate;
use goose_mcp::listing::{file_listing, FoundFile};
use goose_mcp::paths::normalize_screenshot_path;
use goose_mcp::router::{require_pattern, DeveloperRouter};
use goose_mcp::text::Platform;

fn found(path: &str, modified: u128) -> FoundFile {
    FoundFile { path: path.to_string(), modified }
}

fn gate(lines: &[&str]) -> AccessGate {
    let owned: Vec<String> = lines.iter().map(|l| l.to_string()).collect();
    AccessGate::from_lines("/tmp/project", &owned).unwrap()
}

#[test]
fn listing_is_newest_first_and_stable() {
    let files = vec![
        found("/tmp/project/a.txt", 10),
        found("/tmp/project/b.txt", 30),
        found("/tmp/project/c.txt", 20),
        found("/tmp/project/d.txt", 30),
    ];
    let text = file_listing(&gate(&[]), &files);
    assert_eq!(text, "/tmp/project/b.txt\n/tmp/project/d.txt\n/tmp/project/c.txt\n/tmp/project/a.txt");
}

#[test]
fn listing_leaves_out_excluded_files() {
    let files = vec![
        found("/tmp/project/.env", 50),
        found("/tmp/project/main.rs", 40),
        found("/tmp/project/secret.txt", 60),
    ];
    let text = file_listing(&gate(&["secret.txt", ".env"]), &files);
    assert_eq!(text, "/tmp/project/main.rs");
    assert_eq!(file_listing(&gate(&[]), &Vec::new()), "");
}

#[test]
fn pattern_is_required() {
    let err = require_pattern(None).unwrap_err();
    assert!(matches!(err, ToolError::InvalidParameters(_)));
    assert_eq!(err.message(), "The pattern string is required");
    assert_eq!(require_pattern(Some("*.rs".to_string())).unwrap(), "*.rs");
}

#[test]
fn screenshot_names_get_the_narrow_space() {
    let p = "/Users/me/Desktop/Screenshot 2025-01-31 at 10.02.03 AM.png";
    assert_eq!(
        normalize_screenshot_path(p),
        "/Users/me/Desktop/Screenshot 2025-01-31 at 10.02.03\u{202F}AM.png"
    );
    let q = "Screenshot 2025-01-31 at 9.02.03 pm (2).png";
    assert_eq!(normalize_screenshot_path(q), "Screenshot 2025-01-31 at 9.02.03\u{202F}pm (2).png");
}

#[test]
fn other_names_stay_as_they_are() {
    for p in [
        "/Users/me/Desktop/photo.png",
        "/Users/me/Screenshot 2025-01-31 at 10.02.03 AM.jpg",
        "/Users/me/Screenshot 2025-1-31 at 10.02.03 AM.png",
        "/Users/AM PM/Screenshot.png",
    ] {
        assert_eq!(normalize_screenshot_path(p), p);
    }
}

#[test]
fn image_path_renames_before_the_rules_decide() {
    let lines = vec!["*03 AM.png".to_string()];
    let r = DeveloperRouter::new(AccessGate::from_lines("/tmp", &lines).unwrap(), Platform::Unix);
    let raw = "/tmp/Screenshot 2025-01-31 at 10.02.03 AM.png";
    let err = r.image_path(raw, "/tmp", None, false).unwrap_err();
    assert!(matches!(err, ToolError::ExecutionError(_)));
    let renamed = r.image_path(raw, "/tmp", None, true).unwrap();
    assert_eq!(renamed, "/tmp/Screenshot 2025-01-31 at 10.02.03\u{202F}AM.png");
    let err = r.image_path("pic.png", "/tmp", None, true).unwrap_err();
    assert!(matches!(err, ToolError::InvalidParameters(_)));
}
