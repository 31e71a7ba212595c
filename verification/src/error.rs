//! Error types of the library and of the HTTP layer, with their exact messages.
use vstd::prelude::*;

verus! {

/// `prefix` followed by `body`, as a new `String`.
pub fn concat(prefix: &str, body: &str) -> (s: String)
    ensures
        s@ == prefix@ + body@,
{
    let mut s = prefix.to_owned();
    s.append(body);
    s
}

/// Errors raised by the sandbox core. Variants that wrap an I/O or JSON error
/// carry that error's message.
#[derive(Debug, Clone)]
pub enum AgentBoxError {
    VmCreation(String),
    VmNotFound(String),
    VsockConnection(String),
    ExecFailed(String),
    FileOp(String),
    PoolExhausted,
    SnapshotLoad(String),
    ApiTransport(String),
    Timeout(String),
    Config(String),
    PathTraversal(String),
    PortForward(String),
    Io(String),
    Json(String),
}

/// The human-readable message of each error.
pub open spec fn agentbox_error_text(e: AgentBoxError) -> Seq<char> {
    match e {
        AgentBoxError::VmCreation(s) => "VM creation failed: "@ + s@,
        AgentBoxError::VmNotFound(s) => "VM not found: "@ + s@,
        AgentBoxError::VsockConnection(s) => "Vsock connection error: "@ + s@,
        AgentBoxError::ExecFailed(s) => "Execution failed: "@ + s@,
        AgentBoxError::FileOp(s) => "File operation error: "@ + s@,
        AgentBoxError::PoolExhausted => "Pool exhausted: no available sandboxes"@,
        AgentBoxError::SnapshotLoad(s) => "Snapshot load error: "@ + s@,
        AgentBoxError::ApiTransport(s) => "API transport error: "@ + s@,
        AgentBoxError::Timeout(s) => "Operation timed out: "@ + s@,
        AgentBoxError::Config(s) => "Configuration error: "@ + s@,
        AgentBoxError::PathTraversal(s) => "Path traversal rejected: "@ + s@,
        AgentBoxError::PortForward(s) => "Port forward error: "@ + s@,
        AgentBoxError::Io(s) => "IO error: "@ + s@,
        AgentBoxError::Json(s) => "JSON error: "@ + s@,
    }
}

impl AgentBoxError {
    /// The error's message (what `Display` prints).
    #[allow(clippy::inherent_to_string)]
    pub fn to_string(&self) -> (s: String)
        ensures
            s@ == agentbox_error_text(*self),
    {
        match self {
            AgentBoxError::VmCreation(s) => concat("VM creation failed: ", s.as_str()),
            AgentBoxError::VmNotFound(s) => concat("VM not found: ", s.as_str()),
            AgentBoxError::VsockConnection(s) => concat("Vsock connection error: ", s.as_str()),
            AgentBoxError::ExecFailed(s) => concat("Execution failed: ", s.as_str()),
            AgentBoxError::FileOp(s) => concat("File operation error: ", s.as_str()),
            AgentBoxError::PoolExhausted => "Pool exhausted: no available sandboxes".to_owned(),
            AgentBoxError::SnapshotLoad(s) => concat("Snapshot load error: ", s.as_str()),
            AgentBoxError::ApiTransport(s) => concat("API transport error: ", s.as_str()),
            AgentBoxError::Timeout(s) => concat("Operation timed out: ", s.as_str()),
            AgentBoxError::Config(s) => concat("Configuration error: ", s.as_str()),
            AgentBoxError::PathTraversal(s) => concat("Path traversal rejected: ", s.as_str()),
            AgentBoxError::PortForward(s) => concat("Port forward error: ", s.as_str()),
            AgentBoxError::Io(s) => concat("IO error: ", s.as_str()),
            AgentBoxError::Json(s) => concat("JSON error: ", s.as_str()),
        }
    }
}

/// Errors answered by the HTTP API; each maps to one status code.
#[derive(Debug, Clone)]
pub enum AppError {
    NotFound(String),
    BadRequest(String),
    ServiceUnavailable(String),
    Internal(String),
}

impl View for AppError {
    /// The HTTP status code and the message of the error.
    type V = (u16, Seq<char>);

    open spec fn view(&self) -> (u16, Seq<char>) {
        match self {
            AppError::NotFound(m) => (404, m@),
            AppError::BadRequest(m) => (400, m@),
            AppError::ServiceUnavailable(m) => (503, m@),
            AppError::Internal(m) => (500, m@),
        }
    }
}

/// How a core error is reported over HTTP: an exhausted pool is 503, an unknown
/// VM 404, a rejected path 400 with its bare message, everything else 500 with
/// the error's text.
pub open spec fn app_error_of(e: AgentBoxError) -> (u16, Seq<char>) {
    match e {
        AgentBoxError::PoolExhausted => (503, agentbox_error_text(e)),
        AgentBoxError::VmNotFound(_) => (404, agentbox_error_text(e)),
        AgentBoxError::PathTraversal(m) => (400, m@),
        _ => (500, agentbox_error_text(e)),
    }
}

impl AppError {
    /// Converts a core error into the HTTP error that reports it.
    pub fn from(e: AgentBoxError) -> (a: AppError)
        ensures
            a@ == app_error_of(e),
    {
        match e {
            AgentBoxError::PoolExhausted => AppError::ServiceUnavailable(e.to_string()),
            AgentBoxError::VmNotFound(_) => AppError::NotFound(e.to_string()),
            AgentBoxError::PathTraversal(msg) => AppError::BadRequest(msg),
            _ => AppError::Internal(e.to_string()),
        }
    }

    /// The status code and the message that the JSON body `{"error": message}` carries.
    pub fn into_status_and_message(self) -> (r: (u16, String))
        ensures
            r.0 == self@.0,
            r.1@ == self@.1,
    {
        match self {
            AppError::NotFound(m) => (404, m),
            AppError::BadRequest(m) => (400, m),
            AppError::ServiceUnavailable(m) => (503, m),
            AppError::Internal(m) => (500, m),
        }
    }
}

/// Why a sandbox could not be taken out of the registry.
#[derive(Debug, Clone, Copy, PartialEq, Eq, Structural)]
pub enum RemoveSandboxError {
    NotFound,
    InUse,
}

} // verus!
