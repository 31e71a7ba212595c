use std::collections::hash_map::DefaultHasher;
use std::hash::{Hash, Hasher};

use agentbox::cli::{base_url, endpoint_url, join_command, server_error_message};
use agentbox::config::{GuestConfig, VmConfig, VmDefaults};
use agentbox::error::AgentBoxError;
use agentbox::output::OutputMode;
use agentbox::sandbox::{
    exec_result_from_reply, file_entry_from_reply, guest_network_command, guest_network_verdict,
    ExecEvent, ExecResult, Sandbox, SandboxConfig, SandboxId, SandboxStatus,
};
use agentbox::snapshot::SnapshotManager;
use agentbox::vm::{generate_mac, network_plan, new_vm_id, NetworkInfo, VmHandle, VmManager};
use agentbox::vsock::{
    check_handshake, file_content, handshake_verdict, ping_succeeded, reply_error, stream_step,
    RequestIds, StreamFields, StreamStep, VsockClient,
    stdin_data, write_file_params,
};

#[test]
fn sandbox_id_hash_consistent() {
    let a = SandboxId("same".into());
    let b = SandboxId("same".into());
    let hash = |v: &SandboxId| {
        let mut h = DefaultHasher::new();
        v.hash(&mut h);
        h.finish()
    };
    assert_eq!(hash(&a), hash(&b));
}

#[test]
fn test_snapshot_paths() {
    let mgr = SnapshotManager::new("/var/lib/agentbox/snapshot".to_string());
    assert_eq!(mgr.snapshot_path, "/var/lib/agentbox/snapshot");
    assert_eq!(mgr.vmstate_path(), "/var/lib/agentbox/snapshot/vmstate.bin");
    assert_eq!(mgr.memory_path(), "/var/lib/agentbox/snapshot/memory.bin");
}

#[test]
fn test_vm_manager_new() {
    let config = VmConfig {
        firecracker_bin: "/usr/bin/firecracker".to_string(),
        kernel_path: "/var/lib/agentbox/vmlinux".to_string(),
        rootfs_path: "/var/lib/agentbox/rootfs.ext4".to_string(),
        snapshot_path: "/var/lib/agentbox/snapshot".to_string(),
        defaults: VmDefaults::default(),
    };
    let manager = VmManager::new(config);
    assert_eq!(manager.config.firecracker_bin, "/usr/bin/firecracker");
    assert_eq!(manager.config.snapshot_path, "/var/lib/agentbox/snapshot");
}

#[test]
fn subnets_are_numbered_from_zero() {
    let mut manager = VmManager::new(VmConfig::default());
    assert_eq!(manager.next_subnet_id, 0);
    assert_eq!(manager.next_subnet(), 0);
    assert_eq!(manager.next_subnet(), 1);
    assert_eq!(manager.next_subnet_id, 2);
    manager.next_subnet_id = u32::MAX;
    assert_eq!(manager.next_subnet(), u32::MAX);
    assert_eq!(manager.next_subnet(), 0);
}

#[test]
fn test_vsock_client_new() {
    let client = VsockClient::new("/tmp/test.sock".to_string(), 5000);
    assert_eq!(client.uds_path, "/tmp/test.sock");
    assert_eq!(client.port, 5000);
    assert_eq!(client.uds_path(), "/tmp/test.sock");
    assert_eq!(client.port(), 5000);
    assert_eq!(client.connect_line(), "CONNECT 5000\n");
}

#[test]
fn request_ids_count_up_from_one() {
    let mut ids = RequestIds::new();
    assert_eq!(ids.next, 1);
    assert_eq!(ids.next_id(), 1);
    assert_eq!(ids.next_id(), 2);
    assert_eq!(ids.next, 3);
    let mut last = RequestIds { next: u64::MAX };
    assert_eq!(last.next_id(), u64::MAX);
    assert_eq!(last.next_id(), 0);
}

#[test]
fn handshake_needs_ok() {
    assert!(handshake_verdict("OK 3\n").is_ok());
    match handshake_verdict("ERR\n") {
        Err(AgentBoxError::VsockConnection(m)) => assert_eq!(m, "vsock CONNECT failed: ERR\n"),
        other => panic!("unexpected {other:?}"),
    }
    assert!(check_handshake(b"OK 1073741824\n").is_ok());
    assert!(check_handshake(b"O").is_err());
}

#[test]
fn replies_and_pings() {
    assert!(reply_error(None).is_none());
    match reply_error(Some("boom".into())) {
        Some(AgentBoxError::ExecFailed(m)) => assert_eq!(m, "boom"),
        other => panic!("unexpected {other:?}"),
    }
    assert!(ping_succeeded(Some("ok")));
    assert!(!ping_succeeded(Some("OK")));
    assert!(!ping_succeeded(None));
}

#[test]
fn exec_reply_fields_have_defaults() {
    let r = exec_result_from_reply(Some("out".into()), None, Some(4_294_967_298));
    assert_eq!(r.stdout, "out");
    assert_eq!(r.stderr, "");
    assert_eq!(r.exit_code, 2);
    assert_eq!(exec_result_from_reply(None, None, None).exit_code, -1);
    let e = file_entry_from_reply(Some("a.txt".into()), Some(5), None);
    assert_eq!(e.name, "a.txt");
    assert_eq!(e.size, 5);
    assert!(!e.is_dir);
    let e = file_entry_from_reply(None, None, Some(true));
    assert_eq!(e.name, "");
    assert_eq!(e.size, 0);
    assert!(e.is_dir);
}

#[test]
fn file_content_decodes_base64() {
    assert_eq!(file_content(Some("aGk=".into())).unwrap(), b"hi".to_vec());
    assert_eq!(file_content(None).unwrap(), Vec::<u8>::new());
    assert!(matches!(file_content(Some("***".into())), Err(AgentBoxError::FileOp(_))));
}

fn fields() -> StreamFields {
    StreamFields { stream: None, data: None, has_result: false, exit_code: None, error: None }
}

#[test]
fn stream_messages_are_classified() {
    match stream_step(StreamFields { stream: Some("stdout".into()), data: Some("aGk=".into()), ..fields() }) {
        StreamStep::Event(ExecEvent::Stdout(b)) => assert_eq!(b, b"hi".to_vec()),
        other => panic!("unexpected {other:?}"),
    }
    match stream_step(StreamFields { stream: Some("stderr".into()), data: Some("!!".into()), ..fields() }) {
        StreamStep::Event(ExecEvent::Stderr(b)) => assert!(b.is_empty()),
        other => panic!("unexpected {other:?}"),
    }
    assert!(matches!(stream_step(StreamFields { stream: Some("other".into()), ..fields() }), StreamStep::Skip));
    match stream_step(StreamFields { has_result: true, exit_code: Some(7), ..fields() }) {
        StreamStep::Finish(ExecEvent::Exit(c)) => assert_eq!(c, 7),
        other => panic!("unexpected {other:?}"),
    }
    match stream_step(StreamFields { has_result: true, ..fields() }) {
        StreamStep::Finish(ExecEvent::Exit(c)) => assert_eq!(c, -1),
        other => panic!("unexpected {other:?}"),
    }
    match stream_step(StreamFields { error: Some("bad".into()), ..fields() }) {
        StreamStep::Finish(ExecEvent::Error(m)) => assert_eq!(m, "bad"),
        other => panic!("unexpected {other:?}"),
    }
    assert!(matches!(stream_step(fields()), StreamStep::Skip));
}

#[test]
fn sandbox_wraps_its_vm() {
    let rt = tokio::runtime::Runtime::new().unwrap();
    let _guard = rt.enter();
    let child = tokio::process::Command::new("sleep").arg("30").kill_on_drop(true).spawn().unwrap();
    let vm = VmHandle {
        id: "abc123def456".into(),
        process: child,
        api_socket: "/tmp/x/api.sock".into(),
        vsock_uds: "/tmp/x/vsock.sock".into(),
        work_dir: "/tmp/x".into(),
        network: None,
    };
    let config = SandboxConfig { memory_mb: 512, vcpus: 1, network: false, disk_size_mb: 512, timeout_secs: 60 };
    let sb = Sandbox::new(vm, config, &GuestConfig::default());
    assert_eq!(sb.id().0, "abc123def456");
    assert_eq!(sb.vsock.uds_path, "/tmp/x/vsock.sock");
    assert_eq!(sb.vsock.port, 5000);
    let info = sb.info();
    assert_eq!(info.id.0, "abc123def456");
    assert_eq!(info.status, SandboxStatus::Ready);
    assert_eq!(info.config.memory_mb, 512);
    assert!(info.created_at.ends_with("s ago"));
    let later = sb.info_at(125);
    assert_eq!(later.created_at, "125s ago");
    assert_eq!(later.id.0, "abc123def456");
    assert_eq!(later.status, SandboxStatus::Ready);
    assert_eq!(sb.info_at(0).created_at, "0s ago");
    let vm = sb.into_vm();
    assert_eq!(vm.work_dir, "/tmp/x");
}

fn net() -> NetworkInfo {
    NetworkInfo {
        tap_device: "tap_x".into(),
        host_ip: "172.16.0.1".into(),
        guest_ip: "172.16.0.2".into(),
        subnet_cidr: "172.16.0.0/30".into(),
    }
}

#[test]
fn guest_network_setup() {
    assert_eq!(
        guest_network_command(&net()),
        "ip addr add 172.16.0.2/30 dev eth0 && ip link set eth0 up && ip route add default via 172.16.0.1 && echo 'nameserver 8.8.8.8' > /etc/resolv.conf"
    );
    let ok = ExecResult { stdout: String::new(), stderr: String::new(), exit_code: 0 };
    assert!(guest_network_verdict(&ok).is_ok());
    let bad = ExecResult { stdout: String::new(), stderr: "no eth0".into(), exit_code: -2 };
    match guest_network_verdict(&bad) {
        Err(AgentBoxError::VmCreation(m)) => assert_eq!(m, "Guest network setup failed (exit -2): no eth0"),
        other => panic!("unexpected {other:?}"),
    }
}

#[test]
fn network_plan_numbers_subnets() {
    let n = network_plan(0, "abcdef123456");
    assert_eq!(n.tap_device, "tap_abcdef12");
    assert_eq!(n.host_ip, "172.16.0.1");
    assert_eq!(n.guest_ip, "172.16.0.2");
    assert_eq!(n.subnet_cidr, "172.16.0.0/30");
    let n = network_plan(65, "0123456789ab");
    assert_eq!(n.host_ip, "172.16.1.5");
    assert_eq!(n.guest_ip, "172.16.1.6");
    assert_eq!(n.subnet_cidr, "172.16.1.4/30");
}

#[test]
fn mac_and_vm_ids() {
    assert_eq!(generate_mac("abc"), "AA:FC:00:61:62:63");
    assert_eq!(generate_mac("a"), "AA:FC:00:61:00:00");
    let id = new_vm_id();
    assert_eq!(id.len(), 12);
    assert_eq!(id.as_bytes()[8], b'-');
    assert!(id.chars().all(|c| c == '-' || c.is_ascii_hexdigit() && !c.is_ascii_uppercase()));
}

#[test]
fn client_urls_and_errors() {
    assert_eq!(base_url("http://127.0.0.1:8080///"), "http://127.0.0.1:8080");
    assert_eq!(base_url("http://h"), "http://h");
    assert_eq!(endpoint_url("http://h", "/sandboxes"), "http://h/sandboxes");
    assert_eq!(
        server_error_message("404 Not Found", "{\"error\":\"Sandbox not found\"}", Some("Sandbox not found")),
        "Server error (404 Not Found): Sandbox not found"
    );
    assert_eq!(server_error_message("502 Bad Gateway", "oops", None), "Server error (502 Bad Gateway): oops");
    assert_eq!(join_command(&vec!["ls".to_string(), "-la".to_string()]), "ls -la");
    assert_eq!(join_command(&Vec::new()), "");
    assert!(OutputMode::new(true).json);
    assert!(!OutputMode::new(false).json);
}

#[test]
fn write_and_stdin_parameters_are_base64() {
    let (path, content) = write_file_params("/workspace/a.txt", b"hello");
    assert_eq!(path, "/workspace/a.txt");
    assert_eq!(content, "aGVsbG8=");
    assert_eq!(stdin_data(b"hello"), "aGVsbG8=");
    assert_eq!(stdin_data(&[0xfb, 0xff]), "+/8=");
}

#[test]
fn different_subnets_never_share_addresses() {
    let plans: Vec<NetworkInfo> = (0..200u32).map(|k| network_plan(k, "abcdef123456")).collect();
    let mut seen = std::collections::HashSet::new();
    for n in &plans {
        assert_ne!(n.host_ip, n.guest_ip);
        assert!(seen.insert(n.host_ip.clone()));
        assert!(seen.insert(n.guest_ip.clone()));
    }
    let cidrs: std::collections::HashSet<&String> = plans.iter().map(|n| &n.subnet_cidr).collect();
    assert_eq!(cidrs.len(), plans.len());
}
