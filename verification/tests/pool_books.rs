use std::sync::Arc;

use agentbox::config::{GuestConfig, PoolConfig, VmConfig};
use agentbox::error::AgentBoxError;
use agentbox::pool::{agent_not_ready, idle_expired, warm_sandbox_config, Pool};
use agentbox::sandbox::{Sandbox, SandboxConfig};
use agentbox::vm::{VmHandle, VmManager};

fn test_pool() -> Pool {
    let vm_manager = Arc::new(VmManager::new(VmConfig::default()));
    Pool::new(PoolConfig::default(), GuestConfig::default(), vm_manager)
}

fn sandbox(id: &str, network: bool) -> Sandbox {
    let child = tokio::process::Command::new("sleep").arg("30").kill_on_drop(true).spawn().unwrap();
    let vm = VmHandle {
        id: id.to_string(),
        process: child,
        api_socket: "/dev/null".into(),
        vsock_uds: format!("/tmp/{id}/vsock.sock"),
        work_dir: "/tmp".into(),
        network: None,
    };
    let config = SandboxConfig { memory_mb: 128, vcpus: 1, network, disk_size_mb: 512, timeout_secs: 60 };
    Sandbox::new(vm, config, &GuestConfig::default())
}

#[test]
fn test_pool_new() {
    let pool = test_pool();
    assert_eq!(pool.config().min_size, 2);
    assert_eq!(pool.config().max_size, 10);
}

#[test]
fn test_pool_list_active_empty() {
    let pool = test_pool();
    assert!(pool.list_active().is_empty());
}

#[test]
fn test_pool_status() {
    let pool = test_pool();
    let status = pool.status();
    assert_eq!(status.warm_vms, 0);
    assert_eq!(status.active_sandboxes, 0);
    assert_eq!(status.config.min_size, 2);
    assert_eq!(status.config.max_size, 10);
}

#[test]
fn pool_with_no_room_is_exhausted() {
    let cfg = PoolConfig { min_size: 0, max_size: 0, idle_timeout_secs: 3600, network_min_size: 0 };
    let pool = Pool::new(cfg, GuestConfig::default(), Arc::new(VmManager::new(VmConfig::default())));
    assert!(matches!(pool.check_capacity(), Err(AgentBoxError::PoolExhausted)));
    assert!(!pool.should_replenish());
    assert!(test_pool().check_capacity().is_ok());
    assert!(test_pool().should_replenish());
}

#[test]
fn claim_takes_oldest_matching_warm_sandbox() {
    let rt = tokio::runtime::Runtime::new().unwrap();
    let _guard = rt.enter();
    let mut pool = test_pool();
    pool.add_warm(sandbox("plain1", false));
    pool.add_warm(sandbox("net1", true));
    pool.add_warm(sandbox("plain2", false));
    assert_eq!(pool.warm_count(), 3);
    assert!(!pool.should_replenish());
    let got = pool.take_warm(true).unwrap();
    assert_eq!(got.id.0, "net1");
    assert!(pool.take_warm(true).is_none());
    let got = pool.take_warm(false).unwrap();
    assert_eq!(got.id.0, "plain1");
    assert_eq!(pool.warm_count(), 1);
    assert!(pool.should_replenish());
}

#[test]
fn active_sandboxes_are_tracked() {
    let rt = tokio::runtime::Runtime::new().unwrap();
    let _guard = rt.enter();
    let mut pool = test_pool();
    let sb = sandbox("act1", false);
    pool.register_active(sb.info());
    assert_eq!(pool.active_count(), 1);
    assert_eq!(pool.status().active_sandboxes, 1);
    let listed = pool.list_active();
    assert_eq!(listed.len(), 1);
    assert_eq!(listed[0].id.0, "act1");
    assert_eq!(pool.release(&sb.id).unwrap().id.0, "act1");
    assert!(pool.release(&sb.id).is_none());
    assert_eq!(pool.active_count(), 0);
}

#[test]
fn idle_eviction_and_drain() {
    let rt = tokio::runtime::Runtime::new().unwrap();
    let _guard = rt.enter();
    let mut pool = test_pool();
    pool.add_warm(sandbox("w1", false));
    pool.add_warm(sandbox("w2", false));
    assert!(pool.evict_idle().is_empty());
    assert_eq!(pool.warm_count(), 2);
    let drained: Vec<String> = pool.drain_warm().into_iter().map(|s| s.id.0.clone()).collect();
    assert_eq!(drained, vec!["w1", "w2"]);
    assert_eq!(pool.warm_count(), 0);

    let cfg = PoolConfig { min_size: 1, max_size: 4, idle_timeout_secs: 0, network_min_size: 0 };
    let mut quick = Pool::new(cfg, GuestConfig::default(), Arc::new(VmManager::new(VmConfig::default())));
    quick.add_warm(sandbox("old", false));
    let start = std::time::Instant::now();
    while start.elapsed() < std::time::Duration::from_millis(5) {}
    let evicted: Vec<String> = quick.evict_idle().into_iter().map(|s| s.id.0.clone()).collect();
    assert_eq!(evicted, vec!["old"]);
    assert_eq!(quick.warm_count(), 0);
}

#[test]
fn idle_timeout_is_strict() {
    assert!(!idle_expired(0, 0));
    assert!(idle_expired(1, 0));
    assert!(!idle_expired(5_000_000_000, 5));
    assert!(idle_expired(5_000_000_001, 5));
}

#[test]
fn warm_sandboxes_have_fixed_settings() {
    let c = warm_sandbox_config();
    assert_eq!(c.memory_mb, 2048);
    assert_eq!(c.vcpus, 2);
    assert!(!c.network);
    assert_eq!(c.disk_size_mb, 512);
    assert_eq!(c.timeout_secs, 3600);
    assert_eq!(agent_not_ready().to_string(), "Operation timed out: Guest agent not ready within timeout");
}

#[test]
fn eviction_follows_the_given_idle_times() {
    let rt = tokio::runtime::Runtime::new().unwrap();
    let _guard = rt.enter();
    let cfg = PoolConfig { min_size: 1, max_size: 8, idle_timeout_secs: 300, network_min_size: 0 };
    let mut pool = Pool::new(cfg, GuestConfig::default(), Arc::new(VmManager::new(VmConfig::default())));
    pool.add_warm(sandbox("a", false));
    pool.add_warm(sandbox("b", true));
    pool.add_warm(sandbox("c", false));
    pool.add_warm(sandbox("d", false));
    let readings: Vec<u128> = vec![300_000_000_001, 300_000_000_000, 1, 900_000_000_000];
    let evicted: Vec<String> = pool.evict_idle_at(&readings).into_iter().map(|s| s.id.0.clone()).collect();
    assert_eq!(evicted, vec!["a", "d"]);
    assert_eq!(pool.warm_count(), 2);
    let kept: Vec<String> = pool.drain_warm().into_iter().map(|s| s.id.0.clone()).collect();
    assert_eq!(kept, vec!["b", "c"]);
}
