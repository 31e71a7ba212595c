//! VM handles and the pure parts of VM setup: identifiers, the per-VM /30
//! subnet on the host, the TAP device name and the guest MAC address.
use vstd::prelude::*;
use vstd::utf8::*;
use vstd::string::StringSliceAdditionalSpecFns;
use crate::config::VmConfig;
use crate::error::concat;
use crate::text::{
    append_decimal, chars_of, decimal, lemma_decimal_has_no_dot, lemma_decimal_injective,
    lemma_decimal_len, string_of,
};

verus! {

broadcast use vstd::utf8::encode_utf8_decode_utf8;

#[verifier::external_type_specification]
#[verifier::external_body]
pub struct ExChild(tokio::process::Child);

/// Host-side networking of one VM.
#[derive(Debug, Clone)]
pub struct NetworkInfo {
    pub tap_device: String,
    pub host_ip: String,
    pub guest_ip: String,
    pub subnet_cidr: String,
}

/// A running Firecracker process and the files that belong to it.
#[derive(Debug)]
pub struct VmHandle {
    pub id: String,
    pub process: tokio::process::Child,
    pub api_socket: String,
    pub vsock_uds: String,
    pub work_dir: String,
    pub network: Option<NetworkInfo>,
}

/// Creates and tears down VMs; hands out one /30 subnet per networked VM.
/// Its owner keeps it behind a lock, so that every VM takes its subnet
/// number from the one counter.
pub struct VmManager {
    pub config: VmConfig,
    pub next_subnet_id: u32,
}

/// The subnet number handed out after `n` (wrapping after the largest `u32`).
pub open spec fn following_subnet(n: u32) -> u32 {
    if n == u32::MAX {
        0
    } else {
        (n + 1) as u32
    }
}

/// The subnet number a counter standing at `start` hands out at its `k`-th
/// call (counting from 0).
pub open spec fn subnet_after(start: u32, k: nat) -> u32
    decreases k,
{
    if k == 0 {
        start
    } else {
        following_subnet(subnet_after(start, (k - 1) as nat))
    }
}

/// The characters that a v4 UUID renders to: 36 characters, lowercase
/// hexadecimal digits with hyphens at positions 8, 13, 18 and 23.
pub open spec fn is_hyphenated_uuid(s: Seq<char>) -> bool {
    &&& s.len() == 36
    &&& forall|i: int|
        0 <= i < 36 ==> if i == 8 || i == 13 || i == 18 || i == 23 {
            s[i] == '-'
        } else {
            ('0' <= #[trigger] s[i] <= '9') || ('a' <= s[i] <= 'f')
        }
}

/// `uuid::Uuid::new_v4().to_string()`: a fresh random UUID in its hyphenated
/// lowercase form. Nothing is claimed of which UUID comes back.
#[verifier::external_body]
fn random_uuid_text() -> (s: String)
    ensures
        is_hyphenated_uuid(s@),
{
    uuid::Uuid::new_v4().to_string()
}

/// A fresh VM identifier: the first 12 characters of a random UUID.
pub fn new_vm_id() -> (id: String)
    ensures
        id@.len() == 12,
        forall|i: int| 0 <= i < 12 ==> id@[i] == '-' || ('0' <= #[trigger] id@[i] <= '9') || ('a' <= id@[i] <= 'f'),
        id@[8] == '-',
{
    let u = random_uuid_text();
    let cs = chars_of(u.as_str());
    let mut out: Vec<char> = Vec::new();
    let mut i: usize = 0;
    while i < 12
        invariant
            i <= 12,
            cs@ == u@,
            is_hyphenated_uuid(u@),
            out@ == cs@.take(i as int),
        decreases 12 - i,
    {
        out.push(cs[i]);
        assert(cs@.take(i as int).push(cs@[i as int]) =~= cs@.take(i + 1));
        i += 1;
    }
    let id = string_of(&out);
    assert forall|i: int| 0 <= i < 12 implies id@[i] == '-' || ('0' <= #[trigger] id@[i] <= '9') || (
    'a' <= id@[i] <= 'f') by {
        assert(id@[i] == u@[i]);
    }
    id
}

/// The dotted address `172.16.a.b`.
pub open spec fn ipv4_172_16(a: nat, b: nat) -> Seq<char> {
    "172.16."@ + decimal(a) + "."@ + decimal(b)
}

/// The host networking plan for subnet number `subnet_id`: the /30 block
/// starting at `4 * subnet_id` within 172.16.0.0, the host on `.1`, the guest
/// on `.2`, and a TAP device named after the first 8 bytes of the VM id.
pub open spec fn network_plan_spec(subnet_id: u32, vm_id_bytes: Seq<u8>) -> (
    Seq<char>,
    Seq<char>,
    Seq<char>,
    Seq<char>,
) {
    let base = subnet_id as nat * 4;
    let third = base / 256;
    let fourth = base % 256;
    (
        "tap_"@ + decode_utf8(vm_id_bytes.subrange(0, 8)),
        ipv4_172_16(third, fourth + 1),
        ipv4_172_16(third, fourth + 2),
        ipv4_172_16(third, fourth) + "/30"@,
    )
}

/// Two dotted addresses `172.16.a.b` are equal only for equal parts.
proof fn lemma_ipv4_injective(a: nat, b: nat, c: nat, d: nat)
    requires
        ipv4_172_16(a, b) == ipv4_172_16(c, d),
    ensures
        a == c,
        b == d,
{
    reveal_strlit("172.16.");
    reveal_strlit(".");
    let l = ipv4_172_16(a, b);
    let r = ipv4_172_16(c, d);
    let da = decimal(a);
    let dc = decimal(c);
    let na: int = da.len() as int;
    let nc: int = dc.len() as int;
    lemma_decimal_has_no_dot(a);
    lemma_decimal_has_no_dot(c);
    lemma_decimal_len(a);
    lemma_decimal_len(c);
    assert(l[7 + na] == '.');
    assert(r[7 + nc] == '.');
    if na < nc {
        assert(r[7 + na] == dc[na]);
        assert(false);
    } else if na > nc {
        assert(l[7 + nc] == da[nc]);
        assert(false);
    }
    assert(da =~= l.subrange(7, 7 + na));
    assert(dc =~= r.subrange(7, 7 + nc));
    lemma_decimal_injective(a, c);
    assert(decimal(b) =~= l.subrange(8 + na, l.len() as int));
    assert(decimal(d) =~= r.subrange(8 + nc, r.len() as int));
    lemma_decimal_injective(b, d);
}

/// Law: every VM gets a /30 of its own. Within one plan the host and guest
/// addresses differ; for different subnet numbers no address of one plan is
/// an address of the other, and the two CIDR blocks differ.
pub proof fn law_subnets_disjoint(a: u32, b: u32, id_a: Seq<u8>, id_b: Seq<u8>)
    ensures
        network_plan_spec(a, id_a).1 != network_plan_spec(a, id_a).2,
        a != b ==> {
            let pa = network_plan_spec(a, id_a);
            let pb = network_plan_spec(b, id_b);
            &&& pa.1 != pb.1
            &&& pa.1 != pb.2
            &&& pa.2 != pb.1
            &&& pa.2 != pb.2
            &&& pa.3 != pb.3
        },
{
    let pa = network_plan_spec(a, id_a);
    let pb = network_plan_spec(b, id_b);
    let ta = (a as nat * 4) / 256;
    let fa = (a as nat * 4) % 256;
    let tb = (b as nat * 4) / 256;
    let fb = (b as nat * 4) % 256;
    assert(ta == a as nat / 64 && fa == 4 * (a as nat % 64));
    assert(tb == b as nat / 64 && fb == 4 * (b as nat % 64));
    if pa.1 == pa.2 {
        lemma_ipv4_injective(ta, fa + 1, ta, fa + 2);
    }
    if a != b {
        if pa.1 == pb.1 {
            lemma_ipv4_injective(ta, fa + 1, tb, fb + 1);
        }
        if pa.1 == pb.2 {
            lemma_ipv4_injective(ta, fa + 1, tb, fb + 2);
        }
        if pa.2 == pb.1 {
            lemma_ipv4_injective(ta, fa + 2, tb, fb + 1);
        }
        if pa.2 == pb.2 {
            lemma_ipv4_injective(ta, fa + 2, tb, fb + 2);
        }
        if pa.3 == pb.3 {
            reveal_strlit("/30");
            let xa = ipv4_172_16(ta, fa);
            let xb = ipv4_172_16(tb, fb);
            assert(xa =~= pa.3.subrange(0, pa.3.len() - 3));
            assert(xb =~= pb.3.subrange(0, pb.3.len() - 3));
            lemma_ipv4_injective(ta, fa, tb, fb);
        }
    }
}

fn ipv4_text(a: u32, b: u32) -> (s: String)
    ensures
        s@ == ipv4_172_16(a as nat, b as nat),
{
    let mut s = "172.16.".to_owned();
    append_decimal(&mut s, a as u64);
    s.append(".");
    append_decimal(&mut s, b as u64);
    s
}

/// Addresses and device name for the VM `vm_id` on subnet `subnet_id`.
pub fn network_plan(subnet_id: u32, vm_id: &str) -> (n: NetworkInfo)
    requires
        subnet_id as nat * 4 <= u32::MAX,
        vm_id.spec_bytes().len() >= 8,
        is_char_boundary(vm_id.spec_bytes(), 8),
    ensures
        (n.tap_device@, n.host_ip@, n.guest_ip@, n.subnet_cidr@) == network_plan_spec(
            subnet_id,
            vm_id.spec_bytes(),
        ),
{
    let (head, _) = vm_id.split_at(8);
    assert(encode_utf8(head@) == vm_id.spec_bytes().subrange(0, 8));
    let tap = concat("tap_", head);
    let base = subnet_id * 4;
    let third = base / 256;
    let fourth = base % 256;
    let host_ip = ipv4_text(third, fourth + 1);
    let guest_ip = ipv4_text(third, fourth + 2);
    let mut cidr = ipv4_text(third, fourth);
    cidr.append("/30");
    NetworkInfo { tap_device: tap, host_ip, guest_ip, subnet_cidr: cidr }
}

/// The lowercase hexadecimal digit for `d < 16`.
pub open spec fn hex_char(d: nat) -> char {
    if d < 10 {
        crate::text::digit_char(d)
    } else if d == 10 {
        'a'
    } else if d == 11 {
        'b'
    } else if d == 12 {
        'c'
    } else if d == 13 {
        'd'
    } else if d == 14 {
        'e'
    } else {
        'f'
    }
}

/// Two lowercase hexadecimal digits (`{:02x}`).
pub open spec fn hex2(b: u8) -> Seq<char> {
    seq![hex_char(b as nat / 16), hex_char(b as nat % 16)]
}

fn hex_digit(d: u8) -> (c: char)
    requires
        d < 16,
    ensures
        c == hex_char(d as nat),
{
    if d < 10 {
        let v = crate::text::decimal_chars(d as u64);
        assert(v@ == seq![crate::text::digit_char(d as nat)]);
        v[0]
    } else if d == 10 {
        'a'
    } else if d == 11 {
        'b'
    } else if d == 12 {
        'c'
    } else if d == 13 {
        'd'
    } else if d == 14 {
        'e'
    } else {
        'f'
    }
}

/// The byte at `i`, or zero past the end.
pub open spec fn byte_or_zero(b: Seq<u8>, i: int) -> u8 {
    if i < b.len() {
        b[i]
    } else {
        0
    }
}

/// The guest MAC for a VM: the locally administered prefix `AA:FC:00`
/// followed by the first three bytes of the VM id (zero where it is shorter).
pub open spec fn mac_for(id_bytes: Seq<u8>) -> Seq<char> {
    "AA:FC:00:"@ + hex2(byte_or_zero(id_bytes, 0)) + ":"@ + hex2(byte_or_zero(id_bytes, 1)) + ":"@
        + hex2(byte_or_zero(id_bytes, 2))
}

fn push_hex2(out: &mut Vec<char>, b: u8)
    ensures
        final(out)@ == old(out)@ + hex2(b),
{
    out.push(hex_digit(b / 16));
    out.push(hex_digit(b % 16));
    assert(final(out)@ =~= old(out)@ + hex2(b));
}

/// Generates the guest MAC address for the VM `vm_id`.
pub fn generate_mac(vm_id: &str) -> (mac: String)
    ensures
        mac@ == mac_for(vm_id.spec_bytes()),
{
    let bytes = vm_id.as_bytes();
    let b0 = if bytes.len() > 0 { bytes[0] } else { 0 };
    let b1 = if bytes.len() > 1 { bytes[1] } else { 0 };
    let b2 = if bytes.len() > 2 { bytes[2] } else { 0 };
    let mut out = chars_of("AA:FC:00:");
    push_hex2(&mut out, b0);
    out.push(':');
    push_hex2(&mut out, b1);
    out.push(':');
    push_hex2(&mut out, b2);
    let colon = chars_of(":");
    assert(colon@ == ":"@);
    proof {
        reveal_strlit(":");
    }
    assert(out@ =~= mac_for(vm_id.spec_bytes()));
    string_of(&out)
}

impl VmManager {
    /// A manager for the given artifacts; subnet numbering starts at 0.
    pub fn new(config: VmConfig) -> (m: Self)
        ensures
            m.config == config,
            m.next_subnet_id == 0,
    {
        VmManager { config, next_subnet_id: 0 }
    }

    /// Takes the next subnet number: the counter's value, which then moves on
    /// by one (wrapping after the largest `u32`).
    pub fn next_subnet(&mut self) -> (r: u32)
        ensures
            r == old(self).next_subnet_id,
            final(self).next_subnet_id == following_subnet(r),
            final(self).config == old(self).config,
    {
        let r = self.next_subnet_id;
        self.next_subnet_id = if r == u32::MAX {
            0
        } else {
            r + 1
        };
        r
    }
}

proof fn lemma_subnet_after(start: u32, k: nat)
    ensures
        subnet_after(start, k) == (start + k) % 0x1_0000_0000,
    decreases k,
{
    if k > 0 {
        lemma_subnet_after(start, (k - 1) as nat);
    }
}

/// Law: VMs set up one after another get disjoint subnets. Among fewer than
/// 2^32 successive calls of `next_subnet` on one manager, the `i`-th and the
/// `j`-th (`i != j`) hand out different numbers, so their networking plans
/// share no address and their CIDR blocks differ.
pub proof fn law_successive_subnets_disjoint(
    start: u32,
    i: nat,
    j: nat,
    id_a: Seq<u8>,
    id_b: Seq<u8>,
)
    requires
        i != j,
        i < 0x1_0000_0000,
        j < 0x1_0000_0000,
    ensures
        subnet_after(start, i) != subnet_after(start, j),
        ({
            let pa = network_plan_spec(subnet_after(start, i), id_a);
            let pb = network_plan_spec(subnet_after(start, j), id_b);
            &&& pa.1 != pb.1
            &&& pa.1 != pb.2
            &&& pa.2 != pb.1
            &&& pa.2 != pb.2
            &&& pa.3 != pb.3
        }),
{
    lemma_subnet_after(start, i);
    lemma_subnet_after(start, j);
    law_subnets_disjoint(subnet_after(start, i), subnet_after(start, j), id_a, id_b);
}

} // verus!
