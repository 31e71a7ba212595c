use agentbox::guest::{
    guest_agent_args, parse_port, GuestArgError, GuestArgs,
    connect_failure_message, delete_target, exec_outcome, exec_params, exit_code_of, file_target,
    forward_port, guest_method, list_target, stream_command, unknown_method_message, write_plan,
    GuestMethod, GuestParams, OutputStream, StreamMessage,
    exec_decision, read_content, ExecEnd, STREAM_READ_BYTES,
};

fn params() -> GuestParams {
    GuestParams { path: None, content: None, command: None, timeout: None, port: None }
}

fn with_path(p: &str) -> Option<GuestParams> {
    Some(GuestParams { path: Some(p.to_string()), ..params() })
}

#[test]
fn methods_select_handlers() {
    assert_eq!(guest_method("ping"), GuestMethod::Ping);
    assert_eq!(guest_method("exec"), GuestMethod::Exec);
    assert_eq!(guest_method("exec_stream"), GuestMethod::ExecStream);
    assert_eq!(guest_method("read_file"), GuestMethod::ReadFile);
    assert_eq!(guest_method("write_file"), GuestMethod::WriteFile);
    assert_eq!(guest_method("list_files"), GuestMethod::ListFiles);
    assert_eq!(guest_method("nonexistent"), GuestMethod::Unknown);
    assert_eq!(guest_method("Ping"), GuestMethod::Unknown);
}

#[test]
fn unknown_method_names_the_method() {
    assert_eq!(unknown_method_message("nonexistent"), "Unknown method: nonexistent");
}

#[test]
fn exec_params_require_params_and_command() {
    assert_eq!(exec_params(&None).unwrap_err(), "Missing params");
    assert_eq!(exec_params(&Some(params())).unwrap_err(), "Missing 'command' parameter");
    let p = Some(GuestParams { command: Some("echo hello".into()), ..params() });
    assert_eq!(exec_params(&p).unwrap(), ("echo hello".to_string(), 30));
    let p = Some(GuestParams { command: Some("sleep 100".into()), timeout: Some(1), ..params() });
    assert_eq!(exec_params(&p).unwrap(), ("sleep 100".to_string(), 1));
}

#[test]
fn stream_command_requires_command() {
    assert_eq!(stream_command(&None).unwrap_err(), "Missing 'command' parameter");
    assert_eq!(stream_command(&Some(params())).unwrap_err(), "Missing 'command' parameter");
    let p = Some(GuestParams { command: Some("ls".into()), ..params() });
    assert_eq!(stream_command(&p).unwrap(), "ls");
}

#[test]
fn read_target_checks_the_path() {
    assert_eq!(file_target(&None, "/workspace").unwrap_err(), "Missing 'path' parameter");
    assert_eq!(file_target(&Some(params()), "/workspace").unwrap_err(), "Missing 'path' parameter");
    assert_eq!(file_target(&with_path("/workspace/a.txt"), "/workspace").unwrap(), "/workspace/a.txt");
    let e = file_target(&with_path("/tmp/ws/../etc/passwd"), "/tmp/ws").unwrap_err();
    assert!(e.contains("resolves outside"));
}

#[test]
fn list_target_defaults_to_workspace() {
    assert_eq!(list_target(&None, "/workspace").unwrap(), "/workspace");
    assert_eq!(list_target(&Some(params()), "/workspace").unwrap(), "/workspace");
    assert!(list_target(&None, "/tmp/ws").unwrap_err().contains("resolves outside"));
    assert!(list_target(&with_path("../../"), "/tmp/ws").unwrap_err().contains("resolves outside"));
    assert_eq!(list_target(&with_path("sub"), "/tmp/ws").unwrap(), "/tmp/ws/sub");
}

#[test]
fn delete_target_refuses_workspace_root() {
    assert_eq!(delete_target(&None, "/tmp/ws").unwrap_err(), "Missing 'path' parameter");
    assert_eq!(delete_target(&with_path("/tmp/ws"), "/tmp/ws").unwrap_err(), "Cannot delete workspace root");
    assert_eq!(delete_target(&with_path("/tmp/ws/"), "/tmp/ws").unwrap_err(), "Cannot delete workspace root");
    assert_eq!(delete_target(&with_path("a/.."), "/tmp/ws").unwrap_err(), "Cannot delete workspace root");
    assert!(delete_target(&with_path("../etc/passwd"), "/tmp/ws").unwrap_err().contains("resolves outside"));
    assert_eq!(delete_target(&with_path("/tmp/ws/f.txt"), "/tmp/ws").unwrap(), "/tmp/ws/f.txt");
}

#[test]
fn write_plan_checks_in_order() {
    assert_eq!(write_plan(&None, "/ws").unwrap_err(), "Missing params");
    assert_eq!(write_plan(&Some(params()), "/ws").unwrap_err(), "Missing 'path' parameter");
    assert_eq!(write_plan(&with_path("/ws/a"), "/ws").unwrap_err(), "Missing 'content' parameter");
    let bad = Some(GuestParams { path: Some("/ws/a".into()), content: Some("!!!".into()), ..params() });
    assert!(write_plan(&bad, "/ws").unwrap_err().starts_with("Invalid base64 content: "));
    let outside = Some(GuestParams {
        path: Some("/etc/evil.txt".into()),
        content: Some("ZXZpbA==".into()),
        ..params()
    });
    assert!(write_plan(&outside, "/ws").unwrap_err().contains("resolves outside"));
    let good = Some(GuestParams {
        path: Some("/ws/a/b/c/test.txt".into()),
        content: Some("aGVsbG8gd29ybGQ=".into()),
        ..params()
    });
    let (path, bytes) = write_plan(&good, "/ws").unwrap();
    assert_eq!(path, "/ws/a/b/c/test.txt");
    assert_eq!(bytes, b"hello world".to_vec());
}

#[test]
fn write_plan_decodes_before_checking_the_path() {
    let both_bad = Some(GuestParams { path: Some("/etc/x".into()), content: Some("%%".into()), ..params() });
    assert!(write_plan(&both_bad, "/ws").unwrap_err().starts_with("Invalid base64 content: "));
}

#[test]
fn forward_port_truncates_to_sixteen_bits() {
    assert_eq!(forward_port(&None).unwrap_err(), "Missing 'port' parameter");
    assert_eq!(forward_port(&Some(params())).unwrap_err(), "Missing 'port' parameter");
    let p = Some(GuestParams { port: Some(19999), ..params() });
    assert_eq!(forward_port(&p).unwrap(), 19999);
    let p = Some(GuestParams { port: Some(65536 + 80), ..params() });
    assert_eq!(forward_port(&p).unwrap(), 80);
}

#[test]
fn connect_failure_names_the_port() {
    assert_eq!(connect_failure_message(19999), "Failed to connect to guest port 19999");
}

#[test]
fn exit_codes_default_to_minus_one() {
    assert_eq!(exit_code_of(Some(42)), 42);
    assert_eq!(exit_code_of(None), -1);
}

#[test]
fn exec_outcome_reads_output_lossily() {
    let r = exec_outcome(b"hello\n", b"err\xff", Some(0));
    assert_eq!(r.stdout, "hello\n");
    assert_eq!(r.stderr, "err\u{FFFD}");
    assert_eq!(r.exit_code, 0);
    assert_eq!(exec_outcome(b"", b"", None).exit_code, -1);
}

#[test]
fn stream_chunks_are_base64() {
    let m = StreamMessage::chunk(7, OutputStream::Stdout, b"hello");
    assert_eq!(m.id, 7);
    assert_eq!(m.stream, "stdout");
    assert_eq!(m.data, "aGVsbG8=");
    let m = StreamMessage::chunk(8, OutputStream::Stderr, b"error");
    assert_eq!(m.stream, "stderr");
    assert_eq!(m.data, "ZXJyb3I=");
}

#[test]
fn stream_chunks_use_the_standard_alphabet() {
    assert_eq!(StreamMessage::chunk(1, OutputStream::Stdout, &[0xfb, 0xff]).data, "+/8=");
    assert_eq!(StreamMessage::chunk(1, OutputStream::Stdout, b"").data, "");
}

#[test]
fn ports_parse_like_u16() {
    assert_eq!(parse_port("5000"), Some(5000));
    assert_eq!(parse_port("+80"), Some(80));
    assert_eq!(parse_port("0007"), Some(7));
    assert_eq!(parse_port("65535"), Some(65535));
    assert_eq!(parse_port("65536"), None);
    assert_eq!(parse_port(""), None);
    assert_eq!(parse_port("+"), None);
    assert_eq!(parse_port("-1"), None);
    assert_eq!(parse_port("12a"), None);
    assert_eq!(parse_port("99999999999"), None);
    for s in ["5000", "+80", "0007", "65535", "65536", "", "+", "-1", "12a", " 1"] {
        assert_eq!(parse_port(s), s.parse::<u16>().ok(), "{s:?}");
    }
}

#[test]
fn agent_arguments() {
    let args = |v: &[&str]| v.iter().map(|s| s.to_string()).collect::<Vec<String>>();
    assert_eq!(guest_agent_args(&args(&[])).unwrap(), GuestArgs { port: 5000, tcp: false });
    assert_eq!(guest_agent_args(&args(&["--tcp"])).unwrap(), GuestArgs { port: 5000, tcp: true });
    assert_eq!(
        guest_agent_args(&args(&["--port", "6000", "--tcp"])).unwrap(),
        GuestArgs { port: 6000, tcp: true }
    );
    assert_eq!(guest_agent_args(&args(&["--port"])).unwrap(), GuestArgs { port: 5000, tcp: false });
    match guest_agent_args(&args(&["--verbose"])) {
        Err(GuestArgError::Unknown(a)) => assert_eq!(a, "--verbose"),
        other => panic!("unexpected {other:?}"),
    }
    match guest_agent_args(&args(&["--port", "x"])) {
        Err(GuestArgError::InvalidPort(v)) => assert_eq!(v, "x"),
        other => panic!("unexpected {other:?}"),
    }
}

#[test]
fn exec_ends_decide_reply_and_kill() {
    let d = exec_decision(ExecEnd::TimedOut);
    assert!(d.kill_child);
    assert_eq!(d.reply.unwrap_err(), "command timed out");
    let d = exec_decision(ExecEnd::Failed("broken pipe".into()));
    assert!(!d.kill_child);
    assert_eq!(d.reply.unwrap_err(), "Process error: broken pipe");
    let d = exec_decision(ExecEnd::Finished { stdout: b"out".to_vec(), stderr: b"e\xff".to_vec(), code: None });
    assert!(!d.kill_child);
    let r = d.reply.unwrap();
    assert_eq!(r.stdout, "out");
    assert_eq!(r.stderr, "e\u{FFFD}");
    assert_eq!(r.exit_code, -1);
}

#[test]
fn read_content_is_base64_of_the_file() {
    assert_eq!(read_content(b"hello world"), "aGVsbG8gd29ybGQ=");
    assert_eq!(read_content(b""), "");
}

#[test]
fn written_bytes_read_back_unchanged() {
    let data: Vec<u8> = (0u8..=255).collect();
    let sent = agentbox::vsock::write_file_params("/workspace/bin.dat", &data);
    let p = Some(GuestParams { path: Some(sent.0.clone()), content: Some(sent.1.clone()), ..params() });
    let (path, stored) = write_plan(&p, "/workspace").unwrap();
    assert_eq!(path, "/workspace/bin.dat");
    assert_eq!(stored, data);
    let reply = read_content(&stored);
    assert_eq!(agentbox::vsock::file_content(Some(reply)).unwrap(), data);
}

#[test]
fn streamed_chunks_rebuild_the_output() {
    let output: Vec<u8> = (0..10_000u32).map(|i| (i % 251) as u8).collect();
    let mut rebuilt = Vec::new();
    for piece in output.chunks(STREAM_READ_BYTES) {
        let m = StreamMessage::chunk(3, OutputStream::Stdout, piece);
        assert_eq!(m.id, 3);
        assert_eq!(m.stream, "stdout");
        let back = agentbox::vsock::file_content(Some(m.data)).unwrap();
        assert!(back.len() <= 4096);
        rebuilt.extend(back);
    }
    assert_eq!(rebuilt, output);
}
