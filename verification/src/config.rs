//! Daemon configuration and its documented defaults. Paths are held as text.
use vstd::prelude::*;

verus! {

/// The whole configuration; every section falls back to its defaults.
#[derive(Debug, Clone)]
pub struct AgentBoxConfig {
    pub daemon: DaemonConfig,
    pub vm: VmConfig,
    pub pool: PoolConfig,
    pub guest: GuestConfig,
    pub tls: TlsConfig,
    pub cors: CorsConfig,
    pub rate_limit: RateLimitConfig,
}

/// Host daemon settings.
#[derive(Debug, Clone)]
pub struct DaemonConfig {
    pub listen: String,
    pub log_level: String,
    pub api_key: Option<String>,
}

/// Where the Firecracker binary and the VM artifacts live.
#[derive(Debug, Clone)]
pub struct VmConfig {
    pub firecracker_bin: String,
    pub kernel_path: String,
    pub rootfs_path: String,
    pub snapshot_path: String,
    pub defaults: VmDefaults,
}

/// Resources a sandbox gets when the request does not say.
#[derive(Debug, Clone, Copy)]
pub struct VmDefaults {
    pub memory_mb: u32,
    pub vcpus: u32,
    pub network: bool,
    pub disk_size_mb: u32,
    pub timeout_secs: u64,
}

/// Warm-pool sizing.
#[derive(Debug, Clone, Copy)]
pub struct PoolConfig {
    pub min_size: usize,
    pub max_size: usize,
    pub idle_timeout_secs: u64,
    pub network_min_size: usize,
}

/// How the host reaches the guest agent.
#[derive(Debug, Clone, Copy)]
pub struct GuestConfig {
    pub vsock_port: u32,
    pub ping_timeout_ms: u64,
}

/// TLS certificate and key; TLS is on only when both are given.
#[derive(Debug, Clone)]
pub struct TlsConfig {
    pub cert_path: Option<String>,
    pub key_path: Option<String>,
}

/// Allowed CORS origins; empty means same-origin only, `["*"]` is permissive.
#[derive(Debug, Clone)]
pub struct CorsConfig {
    pub allowed_origins: Vec<String>,
}

/// Per-IP rate limiting; a rate of 0 disables it.
#[derive(Debug, Clone, Copy)]
pub struct RateLimitConfig {
    pub requests_per_second: u64,
    pub burst_size: u32,
}

impl TlsConfig {
    /// True exactly when both the certificate and the key path are set.
    pub fn is_configured(&self) -> (b: bool)
        ensures
            b == (self.cert_path is Some && self.key_path is Some),
    {
        self.cert_path.is_some() && self.key_path.is_some()
    }
}

impl Default for RateLimitConfig {
    /// Disabled, with a burst of 100.
    fn default() -> (r: Self)
        ensures
            r.requests_per_second == 0,
            r.burst_size == 100,
    {
        RateLimitConfig { requests_per_second: 0, burst_size: 100 }
    }
}

impl Default for DaemonConfig {
    /// Listen on 127.0.0.1:8080, log at `info`, no API key.
    fn default() -> (d: Self)
        ensures
            d.listen@ == "127.0.0.1:8080"@,
            d.log_level@ == "info"@,
            d.api_key is None,
    {
        DaemonConfig {
            listen: "127.0.0.1:8080".to_owned(),
            log_level: "info".to_owned(),
            api_key: None,
        }
    }
}

impl Default for VmDefaults {
    /// 2048 MB, 2 vCPUs, no network, 512 MB disk, one-hour timeout.
    fn default() -> (d: Self)
        ensures
            d.memory_mb == 2048,
            d.vcpus == 2,
            !d.network,
            d.disk_size_mb == 512,
            d.timeout_secs == 3600,
    {
        VmDefaults { memory_mb: 2048, vcpus: 2, network: false, disk_size_mb: 512, timeout_secs: 3600 }
    }
}

impl Default for VmConfig {
    /// The install locations under `/usr/local/bin` and `/var/lib/agentbox`.
    fn default() -> (c: Self)
        ensures
            c.firecracker_bin@ == "/usr/local/bin/firecracker"@,
            c.kernel_path@ == "/var/lib/agentbox/vmlinux"@,
            c.rootfs_path@ == "/var/lib/agentbox/rootfs.ext4"@,
            c.snapshot_path@ == "/var/lib/agentbox/snapshot"@,
            c.defaults.memory_mb == 2048,
            c.defaults.vcpus == 2,
            !c.defaults.network,
            c.defaults.disk_size_mb == 512,
            c.defaults.timeout_secs == 3600,
    {
        VmConfig {
            firecracker_bin: "/usr/local/bin/firecracker".to_owned(),
            kernel_path: "/var/lib/agentbox/vmlinux".to_owned(),
            rootfs_path: "/var/lib/agentbox/rootfs.ext4".to_owned(),
            snapshot_path: "/var/lib/agentbox/snapshot".to_owned(),
            defaults: VmDefaults::default(),
        }
    }
}

impl Default for PoolConfig {
    /// Keep 2 to 10 VMs, evict after an idle hour, no warm network VMs.
    fn default() -> (p: Self)
        ensures
            p.min_size == 2,
            p.max_size == 10,
            p.idle_timeout_secs == 3600,
            p.network_min_size == 0,
    {
        PoolConfig { min_size: 2, max_size: 10, idle_timeout_secs: 3600, network_min_size: 0 }
    }
}

impl Default for GuestConfig {
    /// Guest agent on vsock port 5000, five-second ping timeout.
    fn default() -> (g: Self)
        ensures
            g.vsock_port == 5000,
            g.ping_timeout_ms == 5000,
    {
        GuestConfig { vsock_port: 5000, ping_timeout_ms: 5000 }
    }
}

impl Default for TlsConfig {
    /// No certificate, no key.
    fn default() -> (t: Self)
        ensures
            t.cert_path is None,
            t.key_path is None,
    {
        TlsConfig { cert_path: None, key_path: None }
    }
}

impl Default for CorsConfig {
    /// No allowed origins.
    fn default() -> (c: Self)
        ensures
            c.allowed_origins@.len() == 0,
    {
        CorsConfig { allowed_origins: Vec::new() }
    }
}

impl Default for AgentBoxConfig {
    /// Every section at its default.
    fn default() -> (c: Self)
        ensures
            c.daemon.listen@ == "127.0.0.1:8080"@,
            c.daemon.log_level@ == "info"@,
            c.daemon.api_key is None,
            c.vm.firecracker_bin@ == "/usr/local/bin/firecracker"@,
            c.vm.kernel_path@ == "/var/lib/agentbox/vmlinux"@,
            c.vm.rootfs_path@ == "/var/lib/agentbox/rootfs.ext4"@,
            c.vm.snapshot_path@ == "/var/lib/agentbox/snapshot"@,
            c.vm.defaults.memory_mb == 2048,
            c.vm.defaults.vcpus == 2,
            !c.vm.defaults.network,
            c.vm.defaults.disk_size_mb == 512,
            c.vm.defaults.timeout_secs == 3600,
            c.pool.min_size == 2,
            c.pool.max_size == 10,
            c.pool.idle_timeout_secs == 3600,
            c.pool.network_min_size == 0,
            c.guest.vsock_port == 5000,
            c.guest.ping_timeout_ms == 5000,
            c.tls.cert_path is None,
            c.tls.key_path is None,
            c.cors.allowed_origins@.len() == 0,
            c.rate_limit.requests_per_second == 0,
            c.rate_limit.burst_size == 100,
    {
        AgentBoxConfig {
            daemon: DaemonConfig::default(),
            vm: VmConfig::default(),
            pool: PoolConfig::default(),
            guest: GuestConfig::default(),
            tls: TlsConfig::default(),
            cors: CorsConfig::default(),
            rate_limit: RateLimitConfig::default(),
        }
    }
}

} // verus!
