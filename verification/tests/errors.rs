use agentbox::error::{AgentBoxError, AppError, RemoveSandboxError};

#[test]
fn display_vm_creation() {
    let e = AgentBoxError::VmCreation("disk full".into());
    assert_eq!(e.to_string(), "VM creation failed: disk full");
}

#[test]
fn display_vm_not_found() {
    let e = AgentBoxError::VmNotFound("abc123".into());
    assert_eq!(e.to_string(), "VM not found: abc123");
}

#[test]
fn display_vsock_connection() {
    let e = AgentBoxError::VsockConnection("refused".into());
    assert_eq!(e.to_string(), "Vsock connection error: refused");
}

#[test]
fn display_exec_failed() {
    let e = AgentBoxError::ExecFailed("signal 9".into());
    assert_eq!(e.to_string(), "Execution failed: signal 9");
}

#[test]
fn display_file_op() {
    let e = AgentBoxError::FileOp("permission denied".into());
    assert_eq!(e.to_string(), "File operation error: permission denied");
}

#[test]
fn display_pool_exhausted() {
    let e = AgentBoxError::PoolExhausted;
    assert_eq!(e.to_string(), "Pool exhausted: no available sandboxes");
}

#[test]
fn display_snapshot_load() {
    let e = AgentBoxError::SnapshotLoad("corrupt".into());
    assert_eq!(e.to_string(), "Snapshot load error: corrupt");
}

#[test]
fn display_timeout() {
    let e = AgentBoxError::Timeout("5s exceeded".into());
    assert_eq!(e.to_string(), "Operation timed out: 5s exceeded");
}

#[test]
fn display_config() {
    let e = AgentBoxError::Config("missing field".into());
    assert_eq!(e.to_string(), "Configuration error: missing field");
}

#[test]
fn display_remaining_variants() {
    assert_eq!(AgentBoxError::ApiTransport("x".into()).to_string(), "API transport error: x");
    assert_eq!(AgentBoxError::PathTraversal("x".into()).to_string(), "Path traversal rejected: x");
    assert_eq!(AgentBoxError::PortForward("x".into()).to_string(), "Port forward error: x");
    assert_eq!(AgentBoxError::Io("gone".into()).to_string(), "IO error: gone");
    assert_eq!(AgentBoxError::Json("bad".into()).to_string(), "JSON error: bad");
}

#[test]
fn pool_exhausted_maps_to_service_unavailable() {
    let e = AppError::from(AgentBoxError::PoolExhausted);
    assert!(matches!(e, AppError::ServiceUnavailable(_)));
}

#[test]
fn vm_not_found_maps_to_not_found() {
    let e = AppError::from(AgentBoxError::VmNotFound("abc".into()));
    assert!(matches!(e, AppError::NotFound(_)));
}

#[test]
fn vm_creation_maps_to_internal() {
    let e = AppError::from(AgentBoxError::VmCreation("fail".into()));
    assert!(matches!(e, AppError::Internal(_)));
}

#[test]
fn timeout_maps_to_internal() {
    let e = AppError::from(AgentBoxError::Timeout("too slow".into()));
    assert!(matches!(e, AppError::Internal(_)));
}

#[test]
fn path_traversal_maps_to_bad_request_with_bare_message() {
    let e = AppError::from(AgentBoxError::PathTraversal("no".into()));
    let (status, message) = e.into_status_and_message();
    assert_eq!(status, 400);
    assert_eq!(message, "no");
}

#[test]
fn app_error_statuses_and_messages() {
    assert_eq!(AppError::NotFound("nf".into()).into_status_and_message(), (404, "nf".to_string()));
    assert_eq!(AppError::BadRequest("br".into()).into_status_and_message(), (400, "br".to_string()));
    assert_eq!(
        AppError::ServiceUnavailable("su".into()).into_status_and_message(),
        (503, "su".to_string())
    );
    assert_eq!(AppError::Internal("int".into()).into_status_and_message(), (500, "int".to_string()));
    let (status, message) = AppError::from(AgentBoxError::PoolExhausted).into_status_and_message();
    assert_eq!(status, 503);
    assert_eq!(message, "Pool exhausted: no available sandboxes");
    let (status, message) = AppError::from(AgentBoxError::VmNotFound("abc".into())).into_status_and_message();
    assert_eq!(status, 404);
    assert_eq!(message, "VM not found: abc");
}

#[test]
fn remove_errors_compare() {
    assert_eq!(RemoveSandboxError::NotFound, RemoveSandboxError::NotFound);
    assert_ne!(RemoveSandboxError::NotFound, RemoveSandboxError::InUse);
}
