use std::path::PathBuf;

use agentbox::paths::{join_path, same_path, validate_path, validate_sandbox_path};

const BASE: &str = "/workspace";

#[test]
fn valid_absolute_path() {
    let r = validate_path("/workspace/foo/bar.txt", BASE);
    assert_eq!(PathBuf::from(r.unwrap()), PathBuf::from("/workspace/foo/bar.txt"));
}

#[test]
fn valid_workspace_root() {
    let r = validate_path("/workspace", BASE);
    assert_eq!(PathBuf::from(r.unwrap()), PathBuf::from("/workspace"));
}

#[test]
fn dot_dot_escape_rejected() {
    let r = validate_path("/workspace/../etc/passwd", BASE);
    assert!(r.is_err());
    assert!(r.unwrap_err().contains("resolves outside"));
}

#[test]
fn multiple_dot_dots_rejected() {
    let r = validate_path("/workspace/a/../../etc/passwd", BASE);
    assert!(r.is_err());
}

#[test]
fn relative_path_resolved() {
    let r = validate_path("foo/bar", BASE);
    assert_eq!(PathBuf::from(r.unwrap()), PathBuf::from("/workspace/foo/bar"));
}

#[test]
fn relative_dot_dot_escape_rejected() {
    let r = validate_path("../etc/passwd", BASE);
    assert!(r.is_err());
}

#[test]
fn absolute_outside_base_rejected() {
    let r = validate_path("/etc/passwd", BASE);
    assert!(r.is_err());
}

#[test]
fn null_byte_rejected() {
    let r = validate_path("/workspace/foo\0bar", BASE);
    assert!(r.is_err());
    assert!(r.unwrap_err().contains("null byte"));
}

#[test]
fn workspace_prefix_not_confused() {
    let r = validate_path("/workspace2/evil", BASE);
    assert!(r.is_err());
}

#[test]
fn dot_resolves_to_base() {
    let r = validate_path(".", BASE);
    assert_eq!(PathBuf::from(r.unwrap()), PathBuf::from("/workspace"));
}

#[test]
fn trailing_slash_passes() {
    let r = validate_path("/workspace/", BASE);
    assert_eq!(PathBuf::from(r.unwrap()), PathBuf::from("/workspace"));
}

#[test]
fn deeply_nested_valid_path() {
    let r = validate_path("/workspace/a/b/c/d/e.txt", BASE);
    assert_eq!(PathBuf::from(r.unwrap()), PathBuf::from("/workspace/a/b/c/d/e.txt"));
}

#[test]
fn custom_base_dir() {
    let r = validate_path("/data/files/test.txt", "/data/files");
    assert_eq!(PathBuf::from(r.unwrap()), PathBuf::from("/data/files/test.txt"));
}

#[test]
fn custom_base_escape_rejected() {
    let r = validate_path("/data/files/../secret", "/data/files");
    assert!(r.is_err());
}

#[test]
fn outside_message_names_request_and_base() {
    let r = validate_path("/etc/passwd", BASE);
    assert_eq!(
        r.unwrap_err(),
        "Path '/etc/passwd' resolves outside allowed directory '/workspace'"
    );
    assert_eq!(validate_path("a\0", BASE).unwrap_err(), "Path contains null byte");
}

#[test]
fn normalized_form_is_returned() {
    assert_eq!(validate_path("/workspace//a/./b/../c", BASE).unwrap(), "/workspace/a/c");
    assert_eq!(validate_path("./x", BASE).unwrap(), "/workspace/x");
}

#[test]
fn validated_path_validates_again_to_itself() {
    let once = validate_path("a/../b/./c", BASE).unwrap();
    let twice = validate_path(&once, BASE).unwrap();
    assert_eq!(once, twice);
}

#[test]
fn validate_sandbox_path_valid() {
    assert!(validate_sandbox_path("/workspace/foo.txt").is_ok());
}

#[test]
fn validate_sandbox_path_traversal_rejected() {
    assert!(validate_sandbox_path("/workspace/../etc/passwd").is_err());
}

#[test]
fn validate_sandbox_path_outside_rejected() {
    assert!(validate_sandbox_path("/etc/passwd").is_err());
}

#[test]
fn validate_sandbox_path_null_byte_rejected() {
    assert!(validate_sandbox_path("/workspace/foo\0bar").is_err());
}

#[test]
fn validate_sandbox_path_prefix_not_confused() {
    assert!(validate_sandbox_path("/workspace2/evil").is_err());
}

#[test]
fn validate_sandbox_path_relative_rejected() {
    assert!(validate_sandbox_path("workspace/foo.txt").is_err());
    assert!(validate_sandbox_path("foo.txt").is_err());
}

#[test]
fn validate_sandbox_path_messages() {
    let (status, message) = validate_sandbox_path("/etc/passwd").unwrap_err().into_status_and_message();
    assert_eq!(status, 400);
    assert_eq!(message, "Path must be under /workspace, got: /etc/passwd");
    let (status, message) = validate_sandbox_path("/workspace/a\0").unwrap_err().into_status_and_message();
    assert_eq!(status, 400);
    assert_eq!(message, "Path contains null byte");
}

#[test]
fn sandbox_check_agrees_with_guest_check() {
    for p in ["/workspace/a", "/workspace/../x", "/etc", "/workspace", "/workspace2", "/a/../workspace/b"] {
        assert_eq!(validate_sandbox_path(p).is_ok(), validate_path(p, BASE).is_ok(), "{p}");
    }
}

#[test]
fn join_path_inserts_one_separator() {
    assert_eq!(join_path("/var/lib", "x.bin"), "/var/lib/x.bin");
    assert_eq!(join_path("/var/lib/", "x.bin"), "/var/lib/x.bin");
    assert_eq!(join_path("", "x.bin"), "x.bin");
    assert_eq!(join_path("/var/lib", "/abs"), "/abs");
}

#[test]
fn same_path_compares_components() {
    assert!(same_path("/workspace", "/workspace/"));
    assert!(same_path("/workspace//a", "/workspace/a"));
    assert!(same_path("/workspace/./a", "/workspace/a"));
    assert!(!same_path("/workspace/a/..", "/workspace"));
    assert!(!same_path("/workspace2", "/workspace"));
}
