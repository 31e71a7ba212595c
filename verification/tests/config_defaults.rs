use agentbox::config::{
    AgentBoxConfig, CorsConfig, DaemonConfig, GuestConfig, PoolConfig, RateLimitConfig, TlsConfig,
    VmConfig, VmDefaults,
};

#[test]
fn defaults_daemon() {
    let d = DaemonConfig::default();
    assert_eq!(d.listen, "127.0.0.1:8080");
    assert_eq!(d.log_level, "info");
}

#[test]
fn defaults_vm() {
    let v = VmConfig::default();
    assert_eq!(v.firecracker_bin, "/usr/local/bin/firecracker");
    assert_eq!(v.kernel_path, "/var/lib/agentbox/vmlinux");
    assert_eq!(v.rootfs_path, "/var/lib/agentbox/rootfs.ext4");
    assert_eq!(v.snapshot_path, "/var/lib/agentbox/snapshot");
    assert_eq!(v.defaults.memory_mb, 2048);
    assert_eq!(v.defaults.vcpus, 2);
    assert!(!v.defaults.network);
    assert_eq!(v.defaults.timeout_secs, 3600);
}

#[test]
fn defaults_pool() {
    let p = PoolConfig::default();
    assert_eq!(p.min_size, 2);
    assert_eq!(p.max_size, 10);
    assert_eq!(p.idle_timeout_secs, 3600);
    assert_eq!(p.network_min_size, 0);
}

#[test]
fn defaults_guest() {
    let g = GuestConfig::default();
    assert_eq!(g.vsock_port, 5000);
    assert_eq!(g.ping_timeout_ms, 5000);
}

#[test]
fn defaults_composite() {
    let c = AgentBoxConfig::default();
    assert_eq!(c.daemon.listen, DaemonConfig::default().listen);
    assert_eq!(c.vm.defaults.memory_mb, VmDefaults::default().memory_mb);
    assert_eq!(c.pool.max_size, PoolConfig::default().max_size);
    assert_eq!(c.guest.vsock_port, GuestConfig::default().vsock_port);
}

#[test]
fn tls_default_is_unconfigured() {
    let tls = TlsConfig::default();
    assert!(!tls.is_configured());
    assert!(tls.cert_path.is_none());
    assert!(tls.key_path.is_none());
}

#[test]
fn tls_is_configured_requires_both_paths() {
    let partial = TlsConfig { cert_path: Some("/etc/cert.pem".to_string()), key_path: None };
    assert!(!partial.is_configured());

    let full = TlsConfig {
        cert_path: Some("/etc/cert.pem".to_string()),
        key_path: Some("/etc/key.pem".to_string()),
    };
    assert!(full.is_configured());
}

#[test]
fn tls_key_without_certificate_is_unconfigured() {
    let only_key = TlsConfig { cert_path: None, key_path: Some("/etc/key.pem".to_string()) };
    assert!(!only_key.is_configured());
}

#[test]
fn cors_default_is_empty() {
    let cors = CorsConfig::default();
    assert!(cors.allowed_origins.is_empty());
}

#[test]
fn rate_limit_default_is_disabled() {
    let rl = RateLimitConfig::default();
    assert_eq!(rl.requests_per_second, 0);
    assert_eq!(rl.burst_size, 100);
}

#[test]
fn defaults_daemon_has_no_api_key() {
    assert!(DaemonConfig::default().api_key.is_none());
    assert_eq!(VmDefaults::default().disk_size_mb, 512);
}
