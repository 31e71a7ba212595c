//! Sandboxes: identifiers, resource settings, results of running commands,
//! and the sandbox object that ties a VM to its guest-agent client.
use vstd::prelude::*;
use crate::config::GuestConfig;
use crate::error::AgentBoxError;
use crate::text::{append_decimal, append_signed, decimal, signed_decimal};
use crate::vm::NetworkInfo;
use crate::vm::VmHandle;
use crate::vsock::VsockClient;

verus! {

/// A sandbox identifier (the id of the VM behind it).
#[derive(Debug, Clone, PartialEq, Eq, Hash)]
pub struct SandboxId(pub String);

/// Resources of one sandbox.
#[derive(Debug, Clone, Copy)]
pub struct SandboxConfig {
    pub memory_mb: u32,
    pub vcpus: u32,
    pub network: bool,
    pub disk_size_mb: u32,
    pub timeout_secs: u64,
}

/// Lifecycle state reported for a sandbox.
#[derive(Debug, Clone, Copy, PartialEq, Eq, Structural)]
pub enum SandboxStatus {
    Creating,
    Ready,
    Busy,
    Destroying,
}

/// What the API reports about a sandbox.
#[derive(Debug, Clone)]
pub struct SandboxInfo {
    pub id: SandboxId,
    pub status: SandboxStatus,
    pub config: SandboxConfig,
    pub created_at: String,
}

impl SandboxInfo {
    /// A copy of this record.
    pub fn duplicate(&self) -> (r: Self)
        ensures
            r.id.0@ == self.id.0@,
            r.status == self.status,
            r.config == self.config,
            r.created_at@ == self.created_at@,
    {
        SandboxInfo {
            id: SandboxId(self.id.0.clone()),
            status: self.status,
            config: self.config,
            created_at: self.created_at.clone(),
        }
    }
}

/// The outcome of a finished command.
#[derive(Debug, Clone)]
pub struct ExecResult {
    pub stdout: String,
    pub stderr: String,
    pub exit_code: i32,
}

/// One event of a streamed command.
#[derive(Debug)]
pub enum ExecEvent {
    Stdout(Vec<u8>),
    Stderr(Vec<u8>),
    Exit(i32),
    Error(String),
}

/// One directory entry inside a sandbox.
#[derive(Debug, Clone)]
pub struct FileEntry {
    pub name: String,
    pub size: u64,
    pub is_dir: bool,
}

#[verifier::external_type_specification]
#[verifier::external_body]
pub struct ExInstant(std::time::Instant);

/// `Instant::now()`.
#[verifier::external_body]
pub(crate) fn instant_now() -> std::time::Instant {
    std::time::Instant::now()
}

/// `Instant::elapsed`: the time since `instant`. Nothing is claimed of it,
/// since it depends on the clock.
#[verifier::external_body]
pub(crate) fn instant_elapsed(instant: &std::time::Instant) -> core::time::Duration {
    instant.elapsed()
}

/// `Duration::as_secs`: the whole seconds of a duration. Nothing is claimed
/// of it, since the duration is opaque here.
#[verifier::external_body]
fn duration_secs(d: &core::time::Duration) -> u64 {
    d.as_secs()
}

/// A claimed VM together with the client that talks to its guest agent.
#[derive(Debug)]
pub struct Sandbox {
    pub id: SandboxId,
    pub vm: VmHandle,
    pub vsock: VsockClient,
    pub config: SandboxConfig,
    pub created_at: std::time::Instant,
}

/// The age text of a sandbox: `"<seconds>s ago"`.
pub open spec fn age_text(secs: nat) -> Seq<char> {
    decimal(secs) + "s ago"@
}

impl Sandbox {
    /// Wraps a VM: the sandbox takes the VM's id, and its guest client targets
    /// the VM's vsock socket on the configured port. Its age starts now.
    pub fn new(vm: VmHandle, config: SandboxConfig, guest_config: &GuestConfig) -> (s: Self)
        ensures
            s.id.0@ == vm.id@,
            s.vsock.uds_path@ == vm.vsock_uds@,
            s.vsock.port == guest_config.vsock_port,
            s.config == config,
            s.vm == vm,
    {
        let id = SandboxId(vm.id.clone());
        let vsock = VsockClient::new(vm.vsock_uds.clone(), guest_config.vsock_port);
        Sandbox { id, vm, vsock, config, created_at: instant_now() }
    }

    /// The sandbox's identifier.
    pub fn id(&self) -> (id: &SandboxId)
        ensures
            id == &self.id,
    {
        &self.id
    }

    /// The sandbox as the API reports it when it is `elapsed_secs` seconds
    /// old: ready, with its settings, and `"<elapsed_secs>s ago"`.
    pub fn info_at(&self, elapsed_secs: u64) -> (info: SandboxInfo)
        ensures
            info.id.0@ == self.id.0@,
            info.status == SandboxStatus::Ready,
            info.config == self.config,
            info.created_at@ == age_text(elapsed_secs as nat),
    {
        let mut created_at = String::new();
        append_decimal(&mut created_at, elapsed_secs);
        created_at.append("s ago");
        SandboxInfo {
            id: SandboxId(self.id.0.clone()),
            status: SandboxStatus::Ready,
            config: self.config,
            created_at,
        }
    }

    /// The sandbox as the API reports it now: its age is read from the clock
    /// in whole seconds, and the rest is `info_at` of that age.
    pub fn info(&self) -> (info: SandboxInfo)
        ensures
            info.id.0@ == self.id.0@,
            info.status == SandboxStatus::Ready,
            info.config == self.config,
            exists|secs: u64| info.created_at@ == #[trigger] age_text(secs as nat),
    {
        let secs = duration_secs(&instant_elapsed(&self.created_at));
        let info = self.info_at(secs);
        assert(info.created_at@ == age_text(secs as nat));
        info
    }

    /// Gives up the sandbox and returns its VM, for destruction.
    pub fn into_vm(self) -> (vm: VmHandle)
        ensures
            vm == self.vm,
    {
        self.vm
    }
}

/// The result reported for a command from the fields of the guest's reply:
/// missing output is empty, a missing exit code is -1, and the code is
/// truncated to 32 bits.
pub fn exec_result_from_reply(stdout: Option<String>, stderr: Option<String>, exit_code: Option<i64>) -> (r: ExecResult)
    ensures
        r.stdout@ == (match stdout {
            Some(s) => s@,
            None => Seq::<char>::empty(),
        }),
        r.stderr@ == (match stderr {
            Some(s) => s@,
            None => Seq::<char>::empty(),
        }),
        r.exit_code == (match exit_code {
            Some(c) => c as i32,
            None => -1i32,
        }),
{
    ExecResult {
        stdout: match stdout {
            Some(s) => s,
            None => String::new(),
        },
        stderr: match stderr {
            Some(s) => s,
            None => String::new(),
        },
        exit_code: match exit_code {
            Some(c) => c as i32,
            None => -1,
        },
    }
}

/// A directory entry from the fields of the guest's listing: a missing name
/// is empty, a missing size 0, a missing kind a plain file.
pub fn file_entry_from_reply(name: Option<String>, size: Option<u64>, is_dir: Option<bool>) -> (e: FileEntry)
    ensures
        e.name@ == (match name {
            Some(s) => s@,
            None => Seq::<char>::empty(),
        }),
        e.size == (match size {
            Some(n) => n,
            None => 0u64,
        }),
        e.is_dir == (match is_dir {
            Some(b) => b,
            None => false,
        }),
{
    FileEntry {
        name: match name {
            Some(s) => s,
            None => String::new(),
        },
        size: match size {
            Some(n) => n,
            None => 0,
        },
        is_dir: match is_dir {
            Some(b) => b,
            None => false,
        },
    }
}

/// The shell command that configures networking inside a freshly booted
/// guest: its address on eth0, the link up, the default route through the
/// host, and a public DNS server.
pub open spec fn guest_network_script(guest_ip: Seq<char>, host_ip: Seq<char>) -> Seq<char> {
    "ip addr add "@ + guest_ip + "/30 dev eth0 && ip link set eth0 up && ip route add default via "@
        + host_ip + " && echo 'nameserver 8.8.8.8' > /etc/resolv.conf"@
}

/// The guest-side network setup command for `net`.
pub fn guest_network_command(net: &NetworkInfo) -> (c: String)
    ensures
        c@ == guest_network_script(net.guest_ip@, net.host_ip@),
{
    let mut c = "ip addr add ".to_owned();
    c.append(net.guest_ip.as_str());
    c.append("/30 dev eth0 && ip link set eth0 up && ip route add default via ");
    c.append(net.host_ip.as_str());
    c.append(" && echo 'nameserver 8.8.8.8' > /etc/resolv.conf");
    c
}

/// Whether the guest network setup worked: it did when the command exited
/// with 0; otherwise the VM cannot be used and the error names the exit
/// code and the command's error output.
pub fn guest_network_verdict(result: &ExecResult) -> (r: Result<(), AgentBoxError>)
    ensures
        r is Ok <==> result.exit_code == 0,
        r matches Err(e) ==> e matches AgentBoxError::VmCreation(m) && m@ == "Guest network setup failed (exit "@
            + signed_decimal(result.exit_code as int) + "): "@ + result.stderr@,
{
    if result.exit_code == 0 {
        Ok(())
    } else {
        let mut m = "Guest network setup failed (exit ".to_owned();
        append_signed(&mut m, result.exit_code as i64);
        m.append("): ");
        m.append(result.stderr.as_str());
        Err(AgentBoxError::VmCreation(m))
    }
}

} // verus!
