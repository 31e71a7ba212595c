//! What the host asks of Firecracker and of the system to bring a VM up: the
//! API requests that configure and boot it or restore it from a snapshot,
//! and the commands that set up and tear down its TAP networking. Sending
//! the requests and running the commands happen around these plans.
use vstd::prelude::*;
use vstd::string::StringSliceAdditionalSpecFns;
use crate::encoding::{lossy_text, utf8_lossy};
use crate::cli::{join_words, word_views};
use crate::error::{concat, AgentBoxError};
use crate::sandbox::SandboxConfig;
use crate::vm::{generate_mac, mac_for, NetworkInfo};
use crate::text::{append_decimal, decimal};

verus! {

/// One request to the Firecracker API (a `PUT` of a JSON body).
#[derive(Debug, Clone)]
pub enum FcRequest {
    BootSource { kernel_image_path: String, boot_args: String },
    Drive { drive_id: String, path_on_host: String, is_root_device: bool, is_read_only: bool },
    Vsock { guest_cid: u32, uds_path: String },
    NetworkInterface { iface_id: String, guest_mac: String, host_dev_name: String },
    MachineConfig { vcpu_count: u32, mem_size_mib: u32 },
    Action { action_type: String },
    LoadSnapshot {
        snapshot_path: String,
        backend_path: String,
        backend_type: String,
        enable_diff_snapshots: bool,
        resume_vm: bool,
    },
}

/// A Firecracker API request as text and numbers.
pub enum FcRequestView {
    BootSource { kernel_image_path: Seq<char>, boot_args: Seq<char> },
    Drive { drive_id: Seq<char>, path_on_host: Seq<char>, is_root_device: bool, is_read_only: bool },
    Vsock { guest_cid: u32, uds_path: Seq<char> },
    NetworkInterface { iface_id: Seq<char>, guest_mac: Seq<char>, host_dev_name: Seq<char> },
    MachineConfig { vcpu_count: u32, mem_size_mib: u32 },
    Action { action_type: Seq<char> },
    LoadSnapshot {
        snapshot_path: Seq<char>,
        backend_path: Seq<char>,
        backend_type: Seq<char>,
        enable_diff_snapshots: bool,
        resume_vm: bool,
    },
}

impl View for FcRequest {
    type V = FcRequestView;

    open spec fn view(&self) -> FcRequestView {
        match self {
            FcRequest::BootSource { kernel_image_path, boot_args } => FcRequestView::BootSource {
                kernel_image_path: kernel_image_path@,
                boot_args: boot_args@,
            },
            FcRequest::Drive { drive_id, path_on_host, is_root_device, is_read_only } => FcRequestView::Drive {
                drive_id: drive_id@,
                path_on_host: path_on_host@,
                is_root_device: *is_root_device,
                is_read_only: *is_read_only,
            },
            FcRequest::Vsock { guest_cid, uds_path } => FcRequestView::Vsock {
                guest_cid: *guest_cid,
                uds_path: uds_path@,
            },
            FcRequest::NetworkInterface { iface_id, guest_mac, host_dev_name } => FcRequestView::NetworkInterface {
                iface_id: iface_id@,
                guest_mac: guest_mac@,
                host_dev_name: host_dev_name@,
            },
            FcRequest::MachineConfig { vcpu_count, mem_size_mib } => FcRequestView::MachineConfig {
                vcpu_count: *vcpu_count,
                mem_size_mib: *mem_size_mib,
            },
            FcRequest::Action { action_type } => FcRequestView::Action { action_type: action_type@ },
            FcRequest::LoadSnapshot {
                snapshot_path,
                backend_path,
                backend_type,
                enable_diff_snapshots,
                resume_vm,
            } => FcRequestView::LoadSnapshot {
                snapshot_path: snapshot_path@,
                backend_path: backend_path@,
                backend_type: backend_type@,
                enable_diff_snapshots: *enable_diff_snapshots,
                resume_vm: *resume_vm,
            },
        }
    }
}

/// The API path a request is sent to.
pub open spec fn endpoint_of(r: FcRequestView) -> Seq<char> {
    match r {
        FcRequestView::BootSource { .. } => "/boot-source"@,
        FcRequestView::Drive { drive_id, .. } => "/drives/"@ + drive_id,
        FcRequestView::Vsock { .. } => "/vsock"@,
        FcRequestView::NetworkInterface { iface_id, .. } => "/network-interfaces/"@ + iface_id,
        FcRequestView::MachineConfig { .. } => "/machine-config"@,
        FcRequestView::Action { .. } => "/actions"@,
        FcRequestView::LoadSnapshot { .. } => "/snapshot/load"@,
    }
}

impl FcRequest {
    /// The API path this request is sent to.
    pub fn endpoint(&self) -> (p: String)
        ensures
            p@ == endpoint_of(self@),
    {
        match self {
            FcRequest::BootSource { .. } => "/boot-source".to_owned(),
            FcRequest::Drive { drive_id, .. } => concat("/drives/", drive_id.as_str()),
            FcRequest::Vsock { .. } => "/vsock".to_owned(),
            FcRequest::NetworkInterface { iface_id, .. } => concat("/network-interfaces/", iface_id.as_str()),
            FcRequest::MachineConfig { .. } => "/machine-config".to_owned(),
            FcRequest::Action { .. } => "/actions".to_owned(),
            FcRequest::LoadSnapshot { .. } => "/snapshot/load".to_owned(),
        }
    }
}

/// The kernel command line every VM boots with.
pub open spec fn boot_args_text() -> Seq<char> {
    "console=ttyS0 reboot=k panic=1 pci=off"@
}

/// The requests that configure and start a freshly booted VM, in order: the
/// kernel, the root drive (the VM's own `rootfs.ext4`), the vsock device
/// (guest CID 3 on `vsock.sock`), the network interface `eth0` when the VM
/// has a TAP device, the machine size, and the start action.
pub open spec fn boot_plan(
    kernel_image_path: Seq<char>,
    vm_id_bytes: Seq<u8>,
    config: SandboxConfig,
    tap_device: Option<Seq<char>>,
) -> Seq<FcRequestView> {
    let head = seq![
        FcRequestView::BootSource { kernel_image_path, boot_args: boot_args_text() },
        FcRequestView::Drive {
            drive_id: "rootfs"@,
            path_on_host: "rootfs.ext4"@,
            is_root_device: true,
            is_read_only: false,
        },
        FcRequestView::Vsock { guest_cid: 3, uds_path: "vsock.sock"@ },
    ];
    let net = match tap_device {
        Some(tap) => seq![
            FcRequestView::NetworkInterface {
                iface_id: "eth0"@,
                guest_mac: mac_for(vm_id_bytes),
                host_dev_name: tap,
            },
        ],
        None => Seq::empty(),
    };
    head + net + seq![
        FcRequestView::MachineConfig { vcpu_count: config.vcpus, mem_size_mib: config.memory_mb },
        FcRequestView::Action { action_type: "InstanceStart"@ },
    ]
}

/// The views of a list of requests.
pub open spec fn request_views(v: Seq<FcRequest>) -> Seq<FcRequestView> {
    v.map_values(|r: FcRequest| r@)
}

/// The requests that configure and boot the VM `vm_id` with the given
/// kernel, size and networking.
pub fn boot_requests(
    vm_id: &str,
    kernel_image_path: String,
    config: &SandboxConfig,
    network: &Option<NetworkInfo>,
) -> (r: Vec<FcRequest>)
    ensures
        request_views(r@) == boot_plan(
            kernel_image_path@,
            vm_id.spec_bytes(),
            *config,
            match network {
                Some(n) => Some(n.tap_device@),
                None => None,
            },
        ),
{
    let mut r: Vec<FcRequest> = Vec::new();
    r.push(
        FcRequest::BootSource {
            kernel_image_path,
            boot_args: "console=ttyS0 reboot=k panic=1 pci=off".to_owned(),
        },
    );
    r.push(
        FcRequest::Drive {
            drive_id: "rootfs".to_owned(),
            path_on_host: "rootfs.ext4".to_owned(),
            is_root_device: true,
            is_read_only: false,
        },
    );
    r.push(FcRequest::Vsock { guest_cid: 3, uds_path: "vsock.sock".to_owned() });
    match network {
        Some(n) => {
            r.push(
                FcRequest::NetworkInterface {
                    iface_id: "eth0".to_owned(),
                    guest_mac: generate_mac(vm_id),
                    host_dev_name: n.tap_device.clone(),
                },
            );
        },
        None => {},
    }
    r.push(FcRequest::MachineConfig { vcpu_count: config.vcpus, mem_size_mib: config.memory_mb });
    r.push(FcRequest::Action { action_type: "InstanceStart".to_owned() });
    assert(request_views(r@) =~= boot_plan(
        kernel_image_path@,
        vm_id.spec_bytes(),
        *config,
        match network {
            Some(n) => Some(n.tap_device@),
            None => None,
        },
    ));
    r
}

/// The request that restores a VM from the snapshot files `vmstate` and
/// `memory` (memory backed by the file, no diff snapshots, resumed at once).
pub fn snapshot_load_request(vmstate: String, memory: String) -> (r: FcRequest)
    ensures
        r@ == (FcRequestView::LoadSnapshot {
            snapshot_path: vmstate@,
            backend_path: memory@,
            backend_type: "File"@,
            enable_diff_snapshots: false,
            resume_vm: true,
        }),
{
    FcRequest::LoadSnapshot {
        snapshot_path: vmstate,
        backend_path: memory,
        backend_type: "File".to_owned(),
        enable_diff_snapshots: false,
        resume_vm: true,
    }
}

/// A system command run for a VM's networking. `failure` is the message
/// prefix of the error that aborts the setup when the command fails; a
/// command without one is best-effort.
#[derive(Debug, Clone)]
pub struct HostCommand {
    pub program: String,
    pub args: Vec<String>,
    pub failure: Option<String>,
}

impl View for HostCommand {
    type V = (Seq<char>, Seq<Seq<char>>, Option<Seq<char>>);

    open spec fn view(&self) -> (Seq<char>, Seq<Seq<char>>, Option<Seq<char>>) {
        (
            self.program@,
            word_views(self.args@),
            match self.failure {
                Some(f) => Some(f@),
                None => None,
            },
        )
    }
}

/// The views of a list of commands.
pub open spec fn command_views(v: Seq<HostCommand>) -> Seq<(Seq<char>, Seq<Seq<char>>, Option<Seq<char>>)> {
    v.map_values(|c: HostCommand| c@)
}

/// The commands that give a VM its TAP device and outbound NAT: create the
/// device, give the host its address on the /30, bring the device up, turn
/// on IP forwarding (best-effort), and masquerade the subnet.
pub open spec fn setup_plan(tap: Seq<char>, host_ip: Seq<char>, cidr: Seq<char>) -> Seq<
    (Seq<char>, Seq<Seq<char>>, Option<Seq<char>>),
> {
    seq![
        ("ip"@, seq!["tuntap"@, "add"@, "dev"@, tap, "mode"@, "tap"@], Some("TAP create failed: "@)),
        ("ip"@, seq!["addr"@, "add"@, host_ip + "/30"@, "dev"@, tap], Some("TAP configure failed: "@)),
        ("ip"@, seq!["link"@, "set"@, tap, "up"@], Some("TAP up failed: "@)),
        ("sysctl"@, seq!["-w"@, "net.ipv4.ip_forward=1"@], None),
        (
            "iptables"@,
            seq!["-t"@, "nat"@, "-A"@, "POSTROUTING"@, "-s"@, cidr, "-j"@, "MASQUERADE"@],
            Some("NAT rule failed: "@),
        ),
    ]
}

/// The commands that undo the setup, both best-effort: drop the NAT rule,
/// delete the device.
pub open spec fn teardown_plan(tap: Seq<char>, cidr: Seq<char>) -> Seq<
    (Seq<char>, Seq<Seq<char>>, Option<Seq<char>>),
> {
    seq![
        ("iptables"@, seq!["-t"@, "nat"@, "-D"@, "POSTROUTING"@, "-s"@, cidr, "-j"@, "MASQUERADE"@], None),
        ("ip"@, seq!["link"@, "del"@, tap], None),
    ]
}

fn push_arg(v: &mut Vec<String>, a: &str)
    ensures
        word_views(final(v)@) == word_views(old(v)@).push(a@),
{
    let ghost before = v@;
    v.push(a.to_owned());
    assert(word_views(v@) =~= word_views(before).push(a@));
}

fn args_of(parts: &Vec<&str>) -> (v: Vec<String>)
    ensures
        word_views(v@) == parts@.map_values(|p: &str| p@),
{
    let mut v: Vec<String> = Vec::new();
    let mut i: usize = 0;
    while i < parts.len()
        invariant
            i <= parts.len(),
            word_views(v@) == parts@.take(i as int).map_values(|p: &str| p@),
        decreases parts.len() - i,
    {
        push_arg(&mut v, parts[i]);
        assert(parts@.take(i + 1).map_values(|p: &str| p@) =~= parts@.take(i as int).map_values(
            |p: &str| p@,
        ).push(parts@[i as int]@));
        i += 1;
    }
    assert(parts@.take(parts.len() as int) =~= parts@);
    v
}

fn command(program: &str, parts: Vec<&str>, failure: Option<&str>) -> (c: HostCommand)
    ensures
        c@ == (
            program@,
            parts@.map_values(|p: &str| p@),
            match failure {
                Some(f) => Some(f@),
                None => None,
            },
        ),
{
    HostCommand {
        program: program.to_owned(),
        args: args_of(&parts),
        failure: match failure {
            Some(f) => Some(f.to_owned()),
            None => None,
        },
    }
}

/// The commands that set up the networking described by `net`.
pub fn setup_commands(net: &NetworkInfo) -> (r: Vec<HostCommand>)
    ensures
        command_views(r@) == setup_plan(net.tap_device@, net.host_ip@, net.subnet_cidr@),
{
    let tap = net.tap_device.as_str();
    let mut host = net.host_ip.clone();
    host.append("/30");
    let cidr = net.subnet_cidr.as_str();
    let c0 = command("ip", vec!["tuntap", "add", "dev", tap, "mode", "tap"], Some("TAP create failed: "));
    let c1 = command("ip", vec!["addr", "add", host.as_str(), "dev", tap], Some("TAP configure failed: "));
    let c2 = command("ip", vec!["link", "set", tap, "up"], Some("TAP up failed: "));
    let c3 = command("sysctl", vec!["-w", "net.ipv4.ip_forward=1"], None);
    let c4 = command(
        "iptables",
        vec!["-t", "nat", "-A", "POSTROUTING", "-s", cidr, "-j", "MASQUERADE"],
        Some("NAT rule failed: "),
    );
    let ghost plan = setup_plan(net.tap_device@, net.host_ip@, net.subnet_cidr@);
    assert(c0@.1 =~= plan[0].1);
    assert(c1@.1 =~= plan[1].1);
    assert(c2@.1 =~= plan[2].1);
    assert(c3@.1 =~= plan[3].1);
    assert(c4@.1 =~= plan[4].1);
    let r = vec![c0, c1, c2, c3, c4];
    assert(command_views(r@) =~= plan);
    r
}

/// The commands that tear down the networking described by `net`.
pub fn teardown_commands(net: &NetworkInfo) -> (r: Vec<HostCommand>)
    ensures
        command_views(r@) == teardown_plan(net.tap_device@, net.subnet_cidr@),
{
    let c0 = command(
        "iptables",
        vec!["-t", "nat", "-D", "POSTROUTING", "-s", net.subnet_cidr.as_str(), "-j", "MASQUERADE"],
        None,
    );
    let c1 = command("ip", vec!["link", "del", net.tap_device.as_str()], None);
    let ghost plan = teardown_plan(net.tap_device@, net.subnet_cidr@);
    assert(c0@.1 =~= plan[0].1);
    assert(c1@.1 =~= plan[1].1);
    let r = vec![c0, c1];
    assert(command_views(r@) =~= plan);
    r
}

impl HostCommand {
    /// The error a failed run of this command causes: none for a
    /// best-effort command, otherwise a VM creation error whose message is
    /// the command's prefix followed by `detail`.
    pub fn failure_error(&self, detail: &str) -> (e: Option<AgentBoxError>)
        ensures
            match self.failure {
                None => e is None,
                Some(p) => e matches Some(AgentBoxError::VmCreation(m)) && m@ == p@ + detail@,
            },
    {
        match &self.failure {
            None => None,
            Some(p) => Some(AgentBoxError::VmCreation(concat(p.as_str(), detail))),
        }
    }

    /// What a command that ran and exited unsuccessfully reports: the
    /// command line, then its standard error read as UTF-8 with invalid
    /// sequences replaced.
    pub fn exit_failure_text(&self, stderr: &[u8]) -> (s: String)
        ensures
            s@ == self.program@ + " "@ + join_words(word_views(self.args@)) + " failed: "@ + utf8_lossy(
                stderr@,
            ),
    {
        let mut s = self.program.clone();
        s.append(" ");
        let mut i: usize = 0;
        while i < self.args.len()
            invariant
                i <= self.args.len(),
                s@ == self.program@ + " "@ + join_words(word_views(self.args@.take(i as int))),
            decreases self.args.len() - i,
        {
            if i > 0 {
                s.append(" ");
            }
            s.append(self.args[i].as_str());
            proof {
                let t = word_views(self.args@.take(i + 1));
                assert(t.drop_last() =~= word_views(self.args@.take(i as int)));
                assert(t.last() == self.args@[i as int]@);
                if i == 0 {
                    assert(join_words(word_views(self.args@.take(i as int))) =~= Seq::<char>::empty());
                }
            }
            i += 1;
        }
        assert(self.args@.take(self.args.len() as int) =~= self.args@);
        s.append(" failed: ");
        let err = lossy_text(stderr);
        s.append(err.as_str());
        s
    }
}

/// The message of a refused Firecracker API call: `"FC API <code> <reason>: <body>"`,
/// the body read as UTF-8 with invalid sequences replaced.
pub open spec fn api_refusal_message(status: u16, reason: Seq<char>, body: Seq<u8>) -> Seq<char> {
    "FC API "@ + decimal(status as nat) + " "@ + reason + ": "@ + utf8_lossy(body)
}

/// The outcome of a Firecracker API `PUT` from the HTTP answer: success for
/// a 2xx status, otherwise a transport error naming the status (its code and
/// `reason`, the status's canonical reason phrase) and the answer's body.
pub fn api_put_outcome(status: u16, reason: &str, body: &[u8]) -> (r: Result<(), AgentBoxError>)
    ensures
        r is Ok <==> 200 <= status < 300,
        !(200 <= status < 300) ==> (r matches Err(AgentBoxError::ApiTransport(m)) && m@
            == api_refusal_message(status, reason@, body@)),
{
    if 200 <= status && status < 300 {
        return Ok(());
    }
    let mut m = "FC API ".to_owned();
    append_decimal(&mut m, status as u64);
    m.append(" ");
    m.append(reason);
    m.append(": ");
    let text = lossy_text(body);
    m.append(text.as_str());
    Err(AgentBoxError::ApiTransport(m))
}

} // verus!
