use agentbox::api::{
    api_key_accepted, destroy_refusal, forward_not_found, sandbox_not_found, upload_target,
    CreatePortForwardRequest, CreateSandboxRequest, ExecRequest, FilesQuery,
};
use agentbox::config::VmDefaults;
use agentbox::error::RemoveSandboxError;

fn empty_request() -> CreateSandboxRequest {
    CreateSandboxRequest { memory_mb: None, vcpus: None, network: None, disk_size_mb: None, timeout: None }
}

#[test]
fn create_request_takes_defaults() {
    let c = empty_request().resolve(&VmDefaults::default());
    assert_eq!(c.memory_mb, 2048);
    assert_eq!(c.vcpus, 2);
    assert!(!c.network);
    assert_eq!(c.disk_size_mb, 512);
    assert_eq!(c.timeout_secs, 3600);
}

#[test]
fn create_request_overrides_and_clamps_disk() {
    let req = CreateSandboxRequest {
        memory_mb: Some(4096),
        vcpus: Some(4),
        network: Some(true),
        disk_size_mb: Some(100),
        timeout: Some(60),
    };
    let c = req.resolve(&VmDefaults::default());
    assert_eq!(c.memory_mb, 4096);
    assert_eq!(c.vcpus, 4);
    assert!(c.network);
    assert_eq!(c.disk_size_mb, 512);
    assert_eq!(c.timeout_secs, 60);
    let big = CreateSandboxRequest { disk_size_mb: Some(10_000), ..empty_request() };
    assert_eq!(big.resolve(&VmDefaults::default()).disk_size_mb, 2048);
    let mid = CreateSandboxRequest { disk_size_mb: Some(1024), ..empty_request() };
    assert_eq!(mid.resolve(&VmDefaults::default()).disk_size_mb, 1024);
}

#[test]
fn exec_request_timeout_defaults_to_thirty() {
    assert_eq!(ExecRequest { command: "ls".into(), timeout: None }.timeout_secs(), 30);
    assert_eq!(ExecRequest { command: "ls".into(), timeout: Some(5) }.timeout_secs(), 5);
}

#[test]
fn files_query_defaults() {
    let q = FilesQuery { path: None, list: None };
    assert_eq!(q.path_or_workspace(), "/workspace");
    assert!(!q.wants_listing());
    let (status, message) = q.required_path().unwrap_err().into_status_and_message();
    assert_eq!(status, 400);
    assert_eq!(message, "Missing 'path' query parameter");
    let q = FilesQuery { path: Some("/workspace/x".into()), list: Some(true) };
    assert_eq!(q.path_or_workspace(), "/workspace/x");
    assert!(q.wants_listing());
    assert_eq!(q.required_path().unwrap(), "/workspace/x");
    assert!(!FilesQuery { path: None, list: Some(false) }.wants_listing());
}

#[test]
fn port_zero_is_refused() {
    let (status, message) =
        CreatePortForwardRequest { guest_port: 0 }.check_port().unwrap_err().into_status_and_message();
    assert_eq!(status, 400);
    assert_eq!(message, "guest_port must be between 1 and 65535");
    assert!(CreatePortForwardRequest { guest_port: 8080 }.check_port().is_ok());
}

#[test]
fn upload_defaults_to_workspace_upload() {
    assert_eq!(upload_target(String::new()), "/workspace/upload");
    assert_eq!(upload_target("/workspace/f".to_string()), "/workspace/f");
}

#[test]
fn not_found_answers() {
    assert_eq!(sandbox_not_found().into_status_and_message(), (404, "Sandbox not found".to_string()));
    assert_eq!(
        forward_not_found(3000).into_status_and_message(),
        (404, "Port forward for port 3000 not found".to_string())
    );
    assert_eq!(
        destroy_refusal(RemoveSandboxError::NotFound).into_status_and_message(),
        (404, "Sandbox not found".to_string())
    );
    assert_eq!(
        destroy_refusal(RemoveSandboxError::InUse).into_status_and_message(),
        (400, "Sandbox is currently in use by another request".to_string())
    );
}

#[test]
fn no_key_means_open_access() {
    assert!(api_key_accepted(&None, None, None));
    assert!(api_key_accepted(&None, Some("Bearer wrong"), Some("token=x")));
}

#[test]
fn bearer_header_must_match_exactly() {
    let key = Some("s3cret".to_string());
    assert!(api_key_accepted(&key, Some("Bearer s3cret"), None));
    assert!(!api_key_accepted(&key, Some("Bearer s3cret "), None));
    assert!(!api_key_accepted(&key, Some("bearer s3cret"), None));
    assert!(!api_key_accepted(&key, Some("s3cret"), None));
    assert!(!api_key_accepted(&key, None, None));
}

#[test]
fn token_query_parameter_is_percent_decoded() {
    let key = Some("a b/c".to_string());
    assert!(api_key_accepted(&key, None, Some("token=a%20b%2Fc")));
    assert!(api_key_accepted(&key, None, Some("x=1&token=a%20b%2Fc&y=2")));
    assert!(!api_key_accepted(&key, None, Some("x=1&token=a%20b")));
    assert!(!api_key_accepted(&key, None, Some("xtoken=a%20b%2Fc")));
    assert!(api_key_accepted(&key, Some("Bearer nope"), Some("token=a%20b%2Fc")));
    let plain = Some("abc".to_string());
    assert!(api_key_accepted(&plain, None, Some("token=abc")));
    assert!(!api_key_accepted(&plain, None, Some("token=%ff")));
}

#[test]
fn stray_percent_signs_stay_literal() {
    let key = Some("100%zz".to_string());
    assert!(api_key_accepted(&key, None, Some("token=100%zz")));
    assert!(api_key_accepted(&key, None, Some("token=100%25zz")));
}
