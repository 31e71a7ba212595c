use std::sync::Arc;

use agentbox::error::RemoveSandboxError;
use agentbox::idmap::IdMap;
use agentbox::port_forward::{max_forwards_per_sandbox, PortForwardEntry, PortForwardTable};
use agentbox::sandbox::SandboxId;
use agentbox::state::SandboxRegistry;

fn id(s: &str) -> SandboxId {
    SandboxId(s.to_string())
}

#[test]
fn registered_sandbox_is_found() {
    let mut r: SandboxRegistry<u32> = SandboxRegistry::new();
    assert!(r.get(&id("a")).is_none());
    r.register(id("a"), 1);
    r.register(id("b"), 2);
    assert_eq!(*r.get(&id("a")).unwrap(), 1);
    assert_eq!(*r.get(&id("b")).unwrap(), 2);
    r.register(id("a"), 3);
    assert_eq!(*r.get(&id("a")).unwrap(), 3);
}

#[test]
fn removed_sandbox_is_gone() {
    let mut r: SandboxRegistry<u32> = SandboxRegistry::new();
    r.register(id("a"), 1);
    assert_eq!(r.remove(&id("a")).unwrap(), 1);
    assert_eq!(r.remove(&id("a")).unwrap_err(), RemoveSandboxError::NotFound);
    assert!(r.get(&id("a")).is_none());
    assert_eq!(r.remove(&id("zzz")).unwrap_err(), RemoveSandboxError::NotFound);
}

#[test]
fn sandbox_in_use_is_not_removed() {
    let mut r: SandboxRegistry<u32> = SandboxRegistry::new();
    r.register(id("a"), 7);
    let held: Arc<u32> = r.get(&id("a")).unwrap();
    assert_eq!(r.remove(&id("a")).unwrap_err(), RemoveSandboxError::InUse);
    assert_eq!(*r.get(&id("a")).unwrap(), 7);
    drop(held);
    assert_eq!(r.remove(&id("a")).unwrap(), 7);
}

#[test]
fn id_map_basics() {
    let mut m: IdMap<u32> = IdMap::new();
    assert_eq!(m.len(), 0);
    m.insert("a".into(), 1);
    m.insert("b".into(), 2);
    m.insert("a".into(), 3);
    assert_eq!(m.len(), 2);
    assert_eq!(m.get("a"), Some(&3));
    assert_eq!(m.remove("a"), Some(3));
    assert_eq!(m.remove("a"), None);
    assert_eq!(m.values_cloned(), vec![2]);
}

fn entry(guest: u16, host: u16) -> PortForwardEntry<()> {
    PortForwardEntry { guest_port: guest, host_port: host, handle: () }
}

#[test]
fn forward_info_reports_listen_address() {
    let i = entry(3000, 41234).info();
    assert_eq!(i.guest_port, 3000);
    assert_eq!(i.host_port, 41234);
    assert_eq!(i.local_address, "127.0.0.1:41234");
    assert_eq!(agentbox::port_forward::forward_bind_address(), "127.0.0.1:0");
}

#[test]
fn duplicate_forward_is_refused() {
    let mut t: PortForwardTable<()> = PortForwardTable::new();
    assert!(t.check_new("sb", 3000).is_ok());
    t.insert("sb".into(), entry(3000, 40000));
    let (status, message) = t.check_new("sb", 3000).unwrap_err().into_status_and_message();
    assert_eq!(status, 400);
    assert_eq!(message, "Port 3000 is already forwarded");
    assert!(t.check_new("other", 3000).is_ok());
}

#[test]
fn forward_limit_is_sixteen() {
    assert_eq!(max_forwards_per_sandbox(), 16);
    let mut t: PortForwardTable<()> = PortForwardTable::new();
    for p in 1..=16u16 {
        assert!(t.check_new("sb", p).is_ok());
        t.insert("sb".into(), entry(p, 40000 + p));
    }
    assert_eq!(t.count_for("sb"), 16);
    let (status, message) = t.check_new("sb", 17).unwrap_err().into_status_and_message();
    assert_eq!(status, 400);
    assert_eq!(message, "Maximum of 16 port forwards per sandbox reached");
    assert!(t.check_new("other", 17).is_ok());
}

#[test]
fn forwards_are_listed_and_removed() {
    let mut t: PortForwardTable<()> = PortForwardTable::new();
    t.insert("a".into(), entry(1, 101));
    t.insert("b".into(), entry(2, 102));
    t.insert("a".into(), entry(3, 103));
    let listed: Vec<u16> = t.list("a").iter().map(|i| i.guest_port).collect();
    assert_eq!(listed, vec![1, 3]);
    let removed = t.remove("a", 1).unwrap();
    assert_eq!(removed.host_port, 101);
    assert!(t.remove("a", 1).is_none());
    let gone: Vec<u16> = t.remove_sandbox("a").iter().map(|e| e.guest_port).collect();
    assert_eq!(gone, vec![3]);
    assert_eq!(t.count_for("a"), 0);
    assert_eq!(t.count_for("b"), 1);
    assert!(t.list("a").is_empty());
}

#[test]
fn removal_hands_back_the_stored_handles() {
    let mut t: PortForwardTable<&'static str> = PortForwardTable::new();
    t.insert("a".into(), PortForwardEntry { guest_port: 1, host_port: 101, handle: "task-a1" });
    t.insert("b".into(), PortForwardEntry { guest_port: 1, host_port: 102, handle: "task-b1" });
    t.insert("a".into(), PortForwardEntry { guest_port: 2, host_port: 103, handle: "task-a2" });
    t.insert("a".into(), PortForwardEntry { guest_port: 3, host_port: 104, handle: "task-a3" });
    let removed = t.remove("a", 2).unwrap();
    assert_eq!(removed.handle, "task-a2");
    assert_eq!(removed.host_port, 103);
    let gone: Vec<&str> = t.remove_sandbox("a").into_iter().map(|e| e.handle).collect();
    assert_eq!(gone, vec!["task-a1", "task-a3"]);
    let left = t.remove("b", 1).unwrap();
    assert_eq!(left.handle, "task-b1");
}
