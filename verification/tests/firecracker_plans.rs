use agentbox::firecracker::{
    api_put_outcome, boot_requests, setup_commands, snapshot_load_request, teardown_commands, FcRequest,
};
use agentbox::error::AgentBoxError;
use agentbox::sandbox::SandboxConfig;
use agentbox::vm::NetworkInfo;

fn config() -> SandboxConfig {
    SandboxConfig { memory_mb: 1024, vcpus: 3, network: true, disk_size_mb: 512, timeout_secs: 60 }
}

fn net() -> NetworkInfo {
    NetworkInfo {
        tap_device: "tap_abcdef12".into(),
        host_ip: "172.16.0.5".into(),
        guest_ip: "172.16.0.6".into(),
        subnet_cidr: "172.16.0.4/30".into(),
    }
}

#[test]
fn boot_requests_without_network() {
    let r = boot_requests("abcdef123456", "/k/vmlinux".into(), &config(), &None);
    assert_eq!(r.len(), 5);
    let endpoints: Vec<String> = r.iter().map(|x| x.endpoint()).collect();
    assert_eq!(endpoints, vec!["/boot-source", "/drives/rootfs", "/vsock", "/machine-config", "/actions"]);
    match &r[0] {
        FcRequest::BootSource { kernel_image_path, boot_args } => {
            assert_eq!(kernel_image_path, "/k/vmlinux");
            assert_eq!(boot_args, "console=ttyS0 reboot=k panic=1 pci=off");
        }
        other => panic!("unexpected {other:?}"),
    }
    match &r[1] {
        FcRequest::Drive { drive_id, path_on_host, is_root_device, is_read_only } => {
            assert_eq!(drive_id, "rootfs");
            assert_eq!(path_on_host, "rootfs.ext4");
            assert!(*is_root_device);
            assert!(!*is_read_only);
        }
        other => panic!("unexpected {other:?}"),
    }
    match &r[2] {
        FcRequest::Vsock { guest_cid, uds_path } => {
            assert_eq!(*guest_cid, 3);
            assert_eq!(uds_path, "vsock.sock");
        }
        other => panic!("unexpected {other:?}"),
    }
    match &r[3] {
        FcRequest::MachineConfig { vcpu_count, mem_size_mib } => {
            assert_eq!(*vcpu_count, 3);
            assert_eq!(*mem_size_mib, 1024);
        }
        other => panic!("unexpected {other:?}"),
    }
    match &r[4] {
        FcRequest::Action { action_type } => assert_eq!(action_type, "InstanceStart"),
        other => panic!("unexpected {other:?}"),
    }
}

#[test]
fn boot_requests_with_network_add_eth0() {
    let r = boot_requests("abcdef123456", "/k/vmlinux".into(), &config(), &Some(net()));
    assert_eq!(r.len(), 6);
    assert_eq!(r[3].endpoint(), "/network-interfaces/eth0");
    match &r[3] {
        FcRequest::NetworkInterface { iface_id, guest_mac, host_dev_name } => {
            assert_eq!(iface_id, "eth0");
            assert_eq!(guest_mac, "AA:FC:00:61:62:63");
            assert_eq!(host_dev_name, "tap_abcdef12");
        }
        other => panic!("unexpected {other:?}"),
    }
    assert_eq!(r[5].endpoint(), "/actions");
}

#[test]
fn snapshot_load_resumes_from_file_backend() {
    let r = snapshot_load_request("/s/vmstate.bin".into(), "/s/memory.bin".into());
    assert_eq!(r.endpoint(), "/snapshot/load");
    match r {
        FcRequest::LoadSnapshot { snapshot_path, backend_path, backend_type, enable_diff_snapshots, resume_vm } => {
            assert_eq!(snapshot_path, "/s/vmstate.bin");
            assert_eq!(backend_path, "/s/memory.bin");
            assert_eq!(backend_type, "File");
            assert!(!enable_diff_snapshots);
            assert!(resume_vm);
        }
        other => panic!("unexpected {other:?}"),
    }
}

#[test]
fn network_setup_commands() {
    let c = setup_commands(&net());
    assert_eq!(c.len(), 5);
    assert_eq!(c[0].program, "ip");
    assert_eq!(c[0].args, vec!["tuntap", "add", "dev", "tap_abcdef12", "mode", "tap"]);
    assert_eq!(c[0].failure.as_deref(), Some("TAP create failed: "));
    assert_eq!(c[1].args, vec!["addr", "add", "172.16.0.5/30", "dev", "tap_abcdef12"]);
    assert_eq!(c[1].failure.as_deref(), Some("TAP configure failed: "));
    assert_eq!(c[2].args, vec!["link", "set", "tap_abcdef12", "up"]);
    assert_eq!(c[2].failure.as_deref(), Some("TAP up failed: "));
    assert_eq!(c[3].program, "sysctl");
    assert_eq!(c[3].args, vec!["-w", "net.ipv4.ip_forward=1"]);
    assert!(c[3].failure.is_none());
    assert_eq!(c[4].program, "iptables");
    assert_eq!(c[4].args, vec!["-t", "nat", "-A", "POSTROUTING", "-s", "172.16.0.4/30", "-j", "MASQUERADE"]);
    assert_eq!(c[4].failure.as_deref(), Some("NAT rule failed: "));
}

#[test]
fn network_teardown_commands() {
    let c = teardown_commands(&net());
    assert_eq!(c.len(), 2);
    assert_eq!(c[0].program, "iptables");
    assert_eq!(c[0].args, vec!["-t", "nat", "-D", "POSTROUTING", "-s", "172.16.0.4/30", "-j", "MASQUERADE"]);
    assert_eq!(c[1].program, "ip");
    assert_eq!(c[1].args, vec!["link", "del", "tap_abcdef12"]);
    assert!(c.iter().all(|x| x.failure.is_none()));
}

#[test]
fn command_failures() {
    let c = setup_commands(&net());
    match c[0].failure_error("exit 1") {
        Some(e) => assert_eq!(e.to_string(), "VM creation failed: TAP create failed: exit 1"),
        None => panic!("expected an error"),
    }
    assert!(c[3].failure_error("x").is_none());
    assert_eq!(
        c[2].exit_failure_text(b"RTNETLINK answers: No such device\n"),
        "ip link set tap_abcdef12 up failed: RTNETLINK answers: No such device\n"
    );
}

#[test]
fn api_answers_decide_the_outcome() {
    assert!(api_put_outcome(200, "OK", b"").is_ok());
    assert!(api_put_outcome(204, "No Content", b"ignored").is_ok());
    match api_put_outcome(400, "Bad Request", b"invalid vcpu_count") {
        Err(AgentBoxError::ApiTransport(m)) => assert_eq!(m, "FC API 400 Bad Request: invalid vcpu_count"),
        other => panic!("unexpected {other:?}"),
    }
    let e = api_put_outcome(500, "Internal Server Error", b"internal error").unwrap_err();
    assert!(e.to_string().contains("FC API 500"));
    match api_put_outcome(301, "Moved Permanently", b"\xff") {
        Err(AgentBoxError::ApiTransport(m)) => assert_eq!(m, "FC API 301 Moved Permanently: \u{FFFD}"),
        other => panic!("unexpected {other:?}"),
    }
}
