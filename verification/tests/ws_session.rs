use agentbox::error::AgentBoxError;
use agentbox::sandbox::ExecEvent;
use agentbox::ws::{ClientMessage, ServerMessage, WsAction, WsEvent, WsSession};

fn running() -> WsSession {
    let (mut s, _) = WsSession::new();
    match s.step(WsEvent::ExecStarted) {
        WsAction::Nothing => {}
        other => panic!("unexpected {other:?}"),
    }
    s
}

#[test]
fn session_starts_idle_with_ready() {
    let (s, first) = WsSession::new();
    assert!(!s.running);
    assert!(matches!(first, ServerMessage::Ready));
}

#[test]
fn exec_when_idle_starts_with_default_timeout() {
    let (mut s, _) = WsSession::new();
    let a = s.step(WsEvent::Client(ClientMessage::Exec { command: "ls -la".into(), timeout: None }));
    match a {
        WsAction::StartExec { command, timeout_secs } => {
            assert_eq!(command, "ls -la");
            assert_eq!(timeout_secs, 30);
        }
        other => panic!("unexpected {other:?}"),
    }
    assert!(!s.running);
    let a = s.step(WsEvent::Client(ClientMessage::Exec { command: "pwd".into(), timeout: Some(5) }));
    assert!(matches!(a, WsAction::StartExec { timeout_secs: 5, .. }));
}

#[test]
fn second_exec_is_refused_while_running() {
    let mut s = running();
    let a = s.step(WsEvent::Client(ClientMessage::Exec { command: "ls".into(), timeout: None }));
    match a {
        WsAction::Send(ServerMessage::Error { message }) => assert_eq!(message, "A command is already running"),
        other => panic!("unexpected {other:?}"),
    }
    assert!(s.running);
}

#[test]
fn output_is_forwarded_base64() {
    let mut s = running();
    match s.step(WsEvent::Output(ExecEvent::Stdout(b"hello".to_vec()))) {
        WsAction::Send(ServerMessage::Stdout { data }) => assert_eq!(data, "aGVsbG8="),
        other => panic!("unexpected {other:?}"),
    }
    match s.step(WsEvent::Output(ExecEvent::Stderr(b"error".to_vec()))) {
        WsAction::Send(ServerMessage::Stderr { data }) => assert_eq!(data, "ZXJyb3I="),
        other => panic!("unexpected {other:?}"),
    }
    assert!(s.running);
}

#[test]
fn exit_and_error_end_the_command() {
    let mut s = running();
    match s.step(WsEvent::Output(ExecEvent::Exit(3))) {
        WsAction::SendAndRelease(ServerMessage::Exit { code }) => assert_eq!(code, 3),
        other => panic!("unexpected {other:?}"),
    }
    assert!(!s.running);
    let mut s = running();
    match s.step(WsEvent::Output(ExecEvent::Error("boom".into()))) {
        WsAction::SendAndRelease(ServerMessage::Error { message }) => assert_eq!(message, "boom"),
        other => panic!("unexpected {other:?}"),
    }
    assert!(!s.running);
}

#[test]
fn deadline_kills_and_reports() {
    let mut s = running();
    match s.step(WsEvent::Deadline) {
        WsAction::KillAndSend(ServerMessage::Error { message }) => assert_eq!(message, "Command timed out"),
        other => panic!("unexpected {other:?}"),
    }
    assert!(!s.running);
}

#[test]
fn stdin_only_reaches_a_running_command() {
    let (mut idle, _) = WsSession::new();
    assert!(matches!(
        idle.step(WsEvent::Client(ClientMessage::Stdin { data: "aGVsbG8=".into() })),
        WsAction::Nothing
    ));
    let mut s = running();
    match s.step(WsEvent::Client(ClientMessage::Stdin { data: "aGVsbG8=".into() })) {
        WsAction::ForwardStdin(b) => assert_eq!(b, b"hello".to_vec()),
        other => panic!("unexpected {other:?}"),
    }
    assert!(matches!(
        s.step(WsEvent::Client(ClientMessage::Stdin { data: "not base64!".into() })),
        WsAction::Nothing
    ));
}

#[test]
fn signals_and_failures() {
    let (mut s, _) = WsSession::new();
    assert!(matches!(s.step(WsEvent::Client(ClientMessage::Signal { signal: 9 })), WsAction::SendSignal(9)));
    match s.step(WsEvent::SignalFailed(AgentBoxError::ExecFailed("no".into()))) {
        WsAction::Send(ServerMessage::Error { message }) => assert_eq!(message, "Execution failed: no"),
        other => panic!("unexpected {other:?}"),
    }
    match s.step(WsEvent::ExecFailed(AgentBoxError::VsockConnection("refused".into()))) {
        WsAction::Send(ServerMessage::Error { message }) => assert_eq!(message, "Vsock connection error: refused"),
        other => panic!("unexpected {other:?}"),
    }
    assert!(!s.running);
}

#[test]
fn invalid_messages_and_frames() {
    let (mut s, _) = WsSession::new();
    match s.step(WsEvent::Unparsable("unknown variant".into())) {
        WsAction::Send(ServerMessage::Error { message }) => assert_eq!(message, "Invalid message: unknown variant"),
        other => panic!("unexpected {other:?}"),
    }
    assert!(matches!(s.step(WsEvent::OtherFrame), WsAction::Nothing));
    assert!(matches!(s.step(WsEvent::Closed), WsAction::Close));
}

#[test]
fn late_output_and_deadline_are_ignored() {
    let (mut idle, _) = WsSession::new();
    assert!(matches!(idle.step(WsEvent::Output(ExecEvent::Stdout(b"late".to_vec()))), WsAction::Nothing));
    assert!(matches!(idle.step(WsEvent::Output(ExecEvent::Exit(0))), WsAction::Nothing));
    assert!(matches!(idle.step(WsEvent::Deadline), WsAction::Nothing));
    assert!(!idle.running);
    let mut s = running();
    assert!(matches!(s.step(WsEvent::Output(ExecEvent::Exit(0))), WsAction::SendAndRelease(_)));
    assert!(matches!(s.step(WsEvent::Output(ExecEvent::Stderr(b"after".to_vec()))), WsAction::Nothing));
    assert!(!s.running);
}
