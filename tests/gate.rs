use goose_mcp::gate::{AccessGate, RuleFiles};

const ROOT: &str = "/tmp/project";

fn gate_of(lines: &[&str]) -> AccessGate {
    let owned: Vec<String> = lines.iter().map(|l| l.to_string()).collect();
    AccessGate::from_lines(ROOT, &owned).unwrap()
}

fn files(global: Option<&str>, local: Option<&str>, fallback: Option<&str>) -> RuleFiles {
    RuleFiles {
        global: global.map(|s| s.to_string()),
        local: local.map(|s| s.to_string()),
        fallback: fallback.map(|s| s.to_string()),
    }
}

#[test]
fn test_goose_ignore_basic_patterns() {
    let gate = gate_of(&["secret.txt", "*.env"]);
    assert!(gate.is_ignored("secret.txt"), "secret.txt should be ignored");
    assert!(gate.is_ignored("./secret.txt"), "./secret.txt should be ignored");
    assert!(!gate.is_ignored("not_secret.txt"), "not_secret.txt should not be ignored");
    assert!(gate.is_ignored("test.env"), "*.env pattern should match test.env");
    assert!(gate.is_ignored("./test.env"), "*.env pattern should match ./test.env");
    assert!(!gate.is_ignored("test.txt"), "*.env pattern should not match test.txt");
}

#[test]
fn test_gitignore_fallback_when_no_gooseignore() {
    let gate = AccessGate::build(ROOT, &files(None, None, Some("*.log\n*.tmp\n.env"))).unwrap();
    assert!(gate.is_ignored("test.log"));
    assert!(gate.is_ignored("build.tmp"));
    assert!(gate.is_ignored(".env"));
    assert!(!gate.is_ignored("test.txt"));
    assert!(gate.has_explicit_rules());
}

#[test]
fn test_gooseignore_takes_precedence_over_gitignore() {
    let gate = AccessGate::build(ROOT, &files(None, Some("*.secret"), Some("*.log\ntarget/"))).unwrap();
    assert!(gate.is_ignored("test.secret"));
    assert!(!gate.is_ignored("test.log"));
    assert!(!gate.is_ignored("build.tmp"));
}

#[test]
fn test_default_patterns_when_no_ignore_files() {
    let gate = AccessGate::build(ROOT, &files(None, None, None)).unwrap();
    assert!(gate.is_ignored(".env"));
    assert!(gate.is_ignored(".env.local"));
    assert!(gate.is_ignored("secrets.txt"));
    assert!(!gate.is_ignored("normal.txt"));
    assert!(!gate.has_explicit_rules());
}

#[test]
fn global_rules_apply_beside_local_rules() {
    let gate = AccessGate::build(ROOT, &files(Some("*.key"), Some("*.secret"), None)).unwrap();
    assert!(gate.is_ignored("id.key"));
    assert!(gate.is_ignored("a.secret"));
    assert!(!gate.is_ignored(".env"));
}

#[test]
fn global_rules_apply_beside_fallback_rules() {
    let gate = AccessGate::build(ROOT, &files(Some("*.key"), None, Some("*.log"))).unwrap();
    assert!(gate.is_ignored("id.key"));
    assert!(gate.is_ignored("run.log"));
}

#[test]
fn fallback_pattern_ignored_only_without_local_file() {
    let with_local = AccessGate::build(ROOT, &files(None, Some("*.secret"), Some("*.log"))).unwrap();
    let without_fallback = AccessGate::build(ROOT, &files(None, Some("*.secret"), None)).unwrap();
    for p in ["run.log", "a.secret", "x.txt", "dir/run.log"] {
        assert_eq!(with_local.is_ignored(p), without_fallback.is_ignored(p), "{}", p);
    }
    assert!(!with_local.is_ignored("run.log"));
}

#[test]
fn negated_rule_lets_path_through() {
    let gate = gate_of(&["*.log", "!keep.log"]);
    assert!(gate.is_ignored("a.log"));
    assert!(!gate.is_ignored("keep.log"));
}

#[test]
fn comments_and_byte_order_mark_in_rule_files() {
    let gate = AccessGate::build(ROOT, &files(None, Some("\u{feff}*.pem\n# *.txt\n\n"), None)).unwrap();
    assert!(gate.is_ignored("server.pem"));
    assert!(!gate.is_ignored("notes.txt"));
}

#[test]
fn absolute_paths_under_root_match() {
    let gate = gate_of(&["secret.txt"]);
    assert!(gate.is_ignored("/tmp/project/secret.txt"));
    assert!(!gate.is_ignored("/tmp/project/allowed.txt"));
}
