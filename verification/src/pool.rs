//! The warm pool: pre-booted sandboxes waiting to be claimed, and the
//! sandboxes handed out. The VM work itself (booting, probing, destroying)
//! is done by the caller; this type decides and keeps the books.
use vstd::prelude::*;
use std::collections::VecDeque;
use std::sync::Arc;
use crate::config::{GuestConfig, PoolConfig};
use crate::error::AgentBoxError;
use crate::idmap::IdMap;
use crate::sandbox::{Sandbox, SandboxConfig, SandboxId, SandboxInfo};
use crate::vm::VmManager;

verus! {

/// Pool occupancy as the API reports it.
#[derive(Debug, Clone, Copy)]
pub struct PoolStatus {
    pub warm_vms: usize,
    pub active_sandboxes: usize,
    pub config: PoolStatusConfig,
}

/// The sizing part of the pool configuration.
#[derive(Debug, Clone, Copy)]
pub struct PoolStatusConfig {
    pub min_size: usize,
    pub max_size: usize,
    pub idle_timeout_secs: u64,
}

/// `Duration::as_nanos`: the whole nanoseconds of a duration. Nothing is
/// claimed of it, since the duration is opaque here.
#[verifier::external_body]
fn duration_nanos(d: &core::time::Duration) -> u128 {
    d.as_nanos()
}

/// Whether a VM idle for `elapsed_nanos` has outlived `idle_timeout_secs`
/// (strictly longer than the timeout).
pub fn idle_expired(elapsed_nanos: u128, idle_timeout_secs: u64) -> (b: bool)
    ensures
        b == (elapsed_nanos > idle_timeout_secs as nat * 1_000_000_000),
{
    assert(idle_timeout_secs as u128 * 1_000_000_000u128 <= u128::MAX) by (nonlinear_arith)
        requires
            idle_timeout_secs <= u64::MAX,
    ;
    elapsed_nanos > idle_timeout_secs as u128 * 1_000_000_000u128
}

struct PooledSandbox {
    sandbox: Sandbox,
    pooled_at: std::time::Instant,
}

/// The elements of `s` whose flag is `keep`, in order.
pub open spec fn select<A>(s: Seq<A>, flags: Seq<bool>, keep: bool) -> Seq<A>
    decreases s.len(),
{
    if s.len() == 0 || flags.len() != s.len() {
        Seq::empty()
    } else {
        let rest = select(s.drop_last(), flags.drop_last(), keep);
        if flags.last() == keep {
            rest.push(s.last())
        } else {
            rest
        }
    }
}

/// Whether `elapsed_nanos` are the idle times read from the clock for VMs
/// pooled at `pooled`, one each and in order: `Instant::elapsed` of the
/// pooling instant, taken in whole nanoseconds.
pub closed spec fn clock_readings(pooled: Seq<std::time::Instant>, elapsed_nanos: Seq<u128>) -> bool {
    &&& elapsed_nanos.len() == pooled.len()
    &&& forall|i: int| 0 <= i < pooled.len() ==> #[trigger] read_from_clock(pooled[i], elapsed_nanos[i])
}

/// Whether `nanos` is `Instant::elapsed` of `pooled_at`, in whole nanoseconds.
closed spec fn read_from_clock(pooled_at: std::time::Instant, nanos: u128) -> bool {
    exists|d: core::time::Duration|
        call_ensures(crate::sandbox::instant_elapsed, (&pooled_at,), d) && call_ensures(
            duration_nanos,
            (&d,),
            nanos,
        )
}

/// For each idle time, whether it exceeds `idle_timeout_secs` (see
/// `idle_expired`).
pub open spec fn idle_flags(elapsed_nanos: Seq<u128>, idle_timeout_secs: u64) -> Seq<bool> {
    Seq::new(
        elapsed_nanos.len(),
        |i: int| elapsed_nanos[i] > idle_timeout_secs as nat * 1_000_000_000,
    )
}

/// Index of the first warm sandbox whose network setting is `network`.
pub open spec fn first_with_network(warm: Seq<Sandbox>, network: bool) -> Option<int> {
    if exists|i: int| 0 <= i < warm.len() && warm[i].config.network == network {
        let i = choose|i: int|
            0 <= i < warm.len() && warm[i].config.network == network && forall|j: int|
                0 <= j < i ==> warm[j].config.network != network;
        Some(i)
    } else {
        None
    }
}

/// The settings of the sandboxes the pool boots ahead of demand: 2048 MB,
/// 2 vCPUs, no network, a 512 MB disk, one hour.
pub fn warm_sandbox_config() -> (c: SandboxConfig)
    ensures
        c.memory_mb == 2048,
        c.vcpus == 2,
        !c.network,
        c.disk_size_mb == 512,
        c.timeout_secs == 3600,
{
    SandboxConfig { memory_mb: 2048, vcpus: 2, network: false, disk_size_mb: 512, timeout_secs: 3600 }
}

/// The error of an on-demand claim whose guest agent never answered.
pub fn agent_not_ready() -> (e: AgentBoxError)
    ensures
        e matches AgentBoxError::Timeout(m) && m@ == "Guest agent not ready within timeout"@,
{
    AgentBoxError::Timeout("Guest agent not ready within timeout".to_owned())
}

/// Warm sandboxes in arrival order, and the active ones by id.
pub struct Pool {
    config: PoolConfig,
    guest_config: GuestConfig,
    vm_manager: Arc<VmManager>,
    available: VecDeque<PooledSandbox>,
    active: IdMap<SandboxInfo>,
}

impl Pool {
    /// The pool's sizing.
    pub closed spec fn pool_config(&self) -> PoolConfig {
        self.config
    }

    /// How the pool reaches guest agents.
    pub closed spec fn pool_guest_config(&self) -> GuestConfig {
        self.guest_config
    }

    /// The warm sandboxes, oldest first.
    pub closed spec fn warm(&self) -> Seq<Sandbox> {
        self.available@.map_values(|p: PooledSandbox| p.sandbox)
    }

    /// When each warm sandbox joined the pool, oldest first.
    pub closed spec fn pooled_times(&self) -> Seq<std::time::Instant> {
        self.available@.map_values(|p: PooledSandbox| p.pooled_at)
    }

    /// The claimed sandboxes, by id.
    pub closed spec fn active(&self) -> Map<Seq<char>, SandboxInfo> {
        self.active.view()
    }

    /// Number of claimed sandboxes.
    pub closed spec fn active_len(&self) -> nat {
        self.active.values().len()
    }

    /// Whether the pool may grow by one more VM.
    pub open spec fn has_room(&self) -> bool {
        self.warm().len() + self.active_len() < self.pool_config().max_size
    }

    /// Whether the background task should boot another warm VM.
    pub open spec fn wants_more(&self) -> bool {
        self.warm().len() < self.pool_config().min_size && self.has_room()
    }

    /// An empty pool.
    pub fn new(config: PoolConfig, guest_config: GuestConfig, vm_manager: Arc<VmManager>) -> (p:
        Self)
        ensures
            p.pool_config() == config,
            p.pool_guest_config() == guest_config,
            p.pool_vm_manager() == vm_manager,
            p.warm().len() == 0,
            p.active() == Map::<Seq<char>, SandboxInfo>::empty(),
            p.active_len() == 0,
    {
        let p = Pool {
            config,
            guest_config,
            vm_manager,
            available: VecDeque::new(),
            active: IdMap::new(),
        };
        assert(p.warm() =~= Seq::<Sandbox>::empty());
        p
    }

    /// The pool's sizing.
    pub fn config(&self) -> (c: &PoolConfig)
        ensures
            *c == self.pool_config(),
    {
        &self.config
    }

    /// How the pool reaches guest agents.
    pub fn guest_config(&self) -> (g: &GuestConfig)
        ensures
            *g == self.pool_guest_config(),
    {
        &self.guest_config
    }

    /// The VM manager the pool's VMs come from.
    pub closed spec fn pool_vm_manager(&self) -> Arc<VmManager> {
        self.vm_manager
    }

    /// Another handle to the VM manager the pool's VMs come from.
    pub fn vm_manager(&self) -> (m: Arc<VmManager>)
        ensures
            m == self.pool_vm_manager(),
    {
        crate::state::arc_clone(&self.vm_manager)
    }

    /// Number of warm sandboxes.
    pub fn warm_count(&self) -> (n: usize)
        ensures
            n == self.warm().len(),
    {
        self.available.len()
    }

    /// Number of claimed sandboxes.
    pub fn active_count(&self) -> (n: usize)
        ensures
            n == self.active_len(),
            n == self.active().dom().len(),
    {
        self.active.len()
    }

    /// The fast path of a claim: takes the oldest warm sandbox whose network
    /// setting matches, if there is one.
    pub fn take_warm(&mut self, network: bool) -> (r: Option<Sandbox>)
        ensures
            match first_with_network(old(self).warm(), network) {
                Some(i) => r == Some(old(self).warm()[i]) && final(self).warm() == old(
                    self,
                ).warm().remove(i),
                None => r is None && final(self).warm() == old(self).warm(),
            },
            final(self).active() == old(self).active(),
            final(self).active_len() == old(self).active_len(),
            final(self).pool_config() == old(self).pool_config(),
            final(self).pool_guest_config() == old(self).pool_guest_config(),
    {
        let ghost w = self.warm();
        let mut i: usize = 0;
        while i < self.available.len()
            invariant
                i <= self.available@.len(),
                w == self.warm(),
                w == old(self).warm(),
                self.active == old(self).active,
                self.config == old(self).config,
                self.guest_config == old(self).guest_config,
                forall|j: int| 0 <= j < i ==> w[j].config.network != network,
            decreases self.available.len() - i,
        {
            if self.available[i].sandbox.config.network == network {
                let ghost idx = i as int;
                assert(w[idx].config.network == network);
                let ghost chosen = first_with_network(w, network);
                assert(chosen == Some(idx)) by {
                    let c = choose|c: int|
                        0 <= c < w.len() && w[c].config.network == network && forall|j: int|
                            0 <= j < c ==> w[j].config.network != network;
                    if c < idx {
                    } else if c > idx {
                        assert(w[idx].config.network == network);
                    }
                }
                match self.available.remove(i) {
                    Some(ps) => {
                        assert(self.warm() =~= w.remove(idx));
                        return Some(ps.sandbox);
                    },
                    None => {
                        return None;
                    },
                }
            }
            i += 1;
        }
        None
    }

    /// The capacity check before booting a sandbox on demand: refused with
    /// `PoolExhausted` once warm and claimed sandboxes reach the maximum.
    pub fn check_capacity(&self) -> (r: Result<(), AgentBoxError>)
        ensures
            r is Ok <==> self.has_room(),
            r is Ok <==> self.warm().len() + self.active_len() < self.pool_config().max_size,
            r is Err ==> r == Err::<(), AgentBoxError>(AgentBoxError::PoolExhausted),
    {
        let warm = self.available.len();
        let active = self.active.len();
        if warm >= self.config.max_size || active >= self.config.max_size - warm {
            Err(AgentBoxError::PoolExhausted)
        } else {
            Ok(())
        }
    }

    /// Whether the background task should boot another warm VM: fewer than
    /// the minimum are warm and the maximum is not reached.
    pub fn should_replenish(&self) -> (b: bool)
        ensures
            b == self.wants_more(),
            b == (self.warm().len() < self.pool_config().min_size && self.warm().len()
                + self.active_len() < self.pool_config().max_size),
    {
        let warm = self.available.len();
        let active = self.active.len();
        warm < self.config.min_size && warm < self.config.max_size && active < self.config.max_size
            - warm
    }

    /// Adds a freshly booted, responsive sandbox at the back of the warm list.
    pub fn add_warm(&mut self, sandbox: Sandbox)
        ensures
            final(self).warm() == old(self).warm().push(sandbox),
            final(self).active() == old(self).active(),
            final(self).active_len() == old(self).active_len(),
            final(self).pool_config() == old(self).pool_config(),
            final(self).pool_guest_config() == old(self).pool_guest_config(),
    {
        let ghost w = self.warm();
        self.available.push_back(PooledSandbox { sandbox, pooled_at: crate::sandbox::instant_now() });
        assert(self.warm() =~= w.push(sandbox));
    }

    /// Records a claimed sandbox as active.
    pub fn register_active(&mut self, info: SandboxInfo)
        ensures
            final(self).active() == old(self).active().insert(info.id.0@, info),
            final(self).warm() == old(self).warm(),
            final(self).pool_config() == old(self).pool_config(),
            final(self).pool_guest_config() == old(self).pool_guest_config(),
    {
        let key = info.id.0.clone();
        self.active.insert(key, info);
    }

    /// Forgets a released sandbox; returns what was recorded for it.
    pub fn release(&mut self, id: &SandboxId) -> (r: Option<SandboxInfo>)
        ensures
            final(self).active() == old(self).active().remove(id.0@),
            match r {
                Some(info) => old(self).active().contains_key(id.0@) && info == old(
                    self,
                ).active()[id.0@],
                None => !old(self).active().contains_key(id.0@),
            },
            final(self).warm() == old(self).warm(),
            final(self).pool_config() == old(self).pool_config(),
    {
        self.active.remove(id.0.as_str())
    }

    /// Takes out the warm sandboxes whose idle time, given oldest first in
    /// `elapsed_nanos`, exceeds the idle timeout; the others keep their order.
    pub fn evict_idle_at(&mut self, elapsed_nanos: &Vec<u128>) -> (r: Vec<Sandbox>)
        requires
            elapsed_nanos@.len() == old(self).warm().len(),
        ensures
            r@ == select(
                old(self).warm(),
                idle_flags(elapsed_nanos@, old(self).pool_config().idle_timeout_secs),
                true,
            ),
            final(self).warm() == select(
                old(self).warm(),
                idle_flags(elapsed_nanos@, old(self).pool_config().idle_timeout_secs),
                false,
            ),
            final(self).active() == old(self).active(),
            final(self).active_len() == old(self).active_len(),
            final(self).pool_config() == old(self).pool_config(),
            final(self).pool_guest_config() == old(self).pool_guest_config(),
    {
        let ghost w = self.warm();
        let ghost n = w.len();
        let timeout = self.config.idle_timeout_secs;
        let ghost flags = idle_flags(elapsed_nanos@, timeout);
        let mut pending: VecDeque<PooledSandbox> = VecDeque::new();
        std::mem::swap(&mut pending, &mut self.available);
        let mut kept: VecDeque<PooledSandbox> = VecDeque::new();
        let mut expired: Vec<Sandbox> = Vec::new();
        let mut k: usize = 0;
        while k < elapsed_nanos.len()
            invariant
                n == w.len(),
                elapsed_nanos@.len() == n,
                flags == idle_flags(elapsed_nanos@, timeout),
                k <= n,
                pending@.len() == n - k,
                pending@.map_values(|p: PooledSandbox| p.sandbox) == w.subrange(k as int, n as int),
                kept@.map_values(|p: PooledSandbox| p.sandbox) == select(
                    w.subrange(0, k as int),
                    flags.subrange(0, k as int),
                    false,
                ),
                expired@ == select(w.subrange(0, k as int), flags.subrange(0, k as int), true),
            decreases n - k,
        {
            let ghost p0 = pending@;
            match pending.pop_front() {
                Some(ps) => {
                    assert(pending@.map_values(|p: PooledSandbox| p.sandbox) =~= w.subrange(
                        k + 1,
                        n as int,
                    )) by {
                        assert(pending@ =~= p0.drop_first());
                        assert(p0.map_values(|p: PooledSandbox| p.sandbox).drop_first()
                            =~= pending@.map_values(|p: PooledSandbox| p.sandbox));
                        assert(w.subrange(k as int, n as int).drop_first() =~= w.subrange(
                            k + 1,
                            n as int,
                        ));
                    }
                    assert(ps.sandbox == w[k as int]) by {
                        assert(p0.map_values(|p: PooledSandbox| p.sandbox)[0] == w.subrange(
                            k as int,
                            n as int,
                        )[0]);
                    }
                    let gone = idle_expired(elapsed_nanos[k], timeout);
                    assert(gone == flags[k as int]);
                    assert(w.subrange(0, k + 1).drop_last() =~= w.subrange(0, k as int));
                    assert(flags.subrange(0, k + 1).drop_last() =~= flags.subrange(0, k as int));
                    assert(w.subrange(0, k + 1).last() == w[k as int]);
                    assert(flags.subrange(0, k + 1).last() == flags[k as int]);
                    if gone {
                        let ghost e0 = expired@;
                        expired.push(ps.sandbox);
                        assert(expired@ =~= e0.push(w[k as int]));
                    } else {
                        let ghost k0 = kept@;
                        kept.push_back(ps);
                        assert(kept@.map_values(|p: PooledSandbox| p.sandbox) =~= k0.map_values(
                            |p: PooledSandbox| p.sandbox,
                        ).push(w[k as int]));
                    }
                },
                None => {
                    assert(false);
                },
            }
            k += 1;
        }
        assert(w.subrange(0, n as int) =~= w);
        assert(flags.subrange(0, n as int) =~= flags);
        self.available = kept;
        expired
    }

    /// Takes out every warm sandbox that has sat idle longer than the idle
    /// timeout; the others keep their order. The idle times are read from the
    /// clock, one per warm sandbox, so the split is stated for the readings
    /// taken, whatever they were.
    pub fn evict_idle(&mut self) -> (r: Vec<Sandbox>)
        ensures
            exists|elapsed: Seq<u128>|
                elapsed.len() == old(self).warm().len() && clock_readings(
                    old(self).pooled_times(),
                    elapsed,
                ) && r@ == select(
                    old(self).warm(),
                    #[trigger] idle_flags(elapsed, old(self).pool_config().idle_timeout_secs),
                    true,
                ) && final(self).warm() == select(
                    old(self).warm(),
                    idle_flags(elapsed, old(self).pool_config().idle_timeout_secs),
                    false,
                ),
            final(self).active() == old(self).active(),
            final(self).active_len() == old(self).active_len(),
            final(self).pool_config() == old(self).pool_config(),
            final(self).pool_guest_config() == old(self).pool_guest_config(),
    {
        let ghost pooled = self.pooled_times();
        let mut readings: Vec<u128> = Vec::new();
        let mut i: usize = 0;
        while i < self.available.len()
            invariant
                i <= self.available@.len(),
                pooled == self.pooled_times(),
                readings@.len() == i,
                forall|j: int| 0 <= j < i ==> #[trigger] read_from_clock(pooled[j], readings@[j]),
            decreases self.available@.len() - i,
        {
            let elapsed = crate::sandbox::instant_elapsed(&self.available[i].pooled_at);
            let n = duration_nanos(&elapsed);
            assert(pooled[i as int] == self.available@[i as int].pooled_at);
            assert(read_from_clock(pooled[i as int], n));
            let ghost r0 = readings@;
            readings.push(n);
            assert forall|j: int| 0 <= j < i + 1 implies #[trigger] read_from_clock(
                pooled[j],
                readings@[j],
            ) by {
                if j < i {
                    assert(readings@[j] == r0[j]);
                    assert(read_from_clock(pooled[j], r0[j]));
                } else {
                    assert(readings@[j] == n);
                }
            }
            i += 1;
        }
        assert(readings@.len() == self.warm().len());
        assert(clock_readings(pooled, readings@));
        self.evict_idle_at(&readings)
    }

    /// Empties the warm list (at shutdown) and returns its sandboxes in order.
    pub fn drain_warm(&mut self) -> (r: Vec<Sandbox>)
        ensures
            r@ == old(self).warm(),
            final(self).warm().len() == 0,
            final(self).active() == old(self).active(),
            final(self).active_len() == old(self).active_len(),
    {
        let ghost w = self.warm();
        let ghost n = w.len();
        let mut out: Vec<Sandbox> = Vec::new();
        while self.available.len() > 0
            invariant
                n == w.len(),
                self.available@.len() <= n,
                self.available@.map_values(|p: PooledSandbox| p.sandbox) == w.subrange(
                    n - self.available@.len(),
                    n as int,
                ),
                out@ == w.subrange(0, n - self.available@.len()),
                self.active == old(self).active,
            decreases self.available@.len(),
        {
            let ghost k = n - self.available@.len();
            let ghost p0 = self.available@;
            match self.available.pop_front() {
                Some(ps) => {
                    assert(self.available@.map_values(|p: PooledSandbox| p.sandbox) =~= w.subrange(
                        k + 1,
                        n as int,
                    )) by {
                        assert(self.available@ =~= p0.drop_first());
                        assert(p0.map_values(|p: PooledSandbox| p.sandbox).drop_first()
                            =~= self.available@.map_values(|p: PooledSandbox| p.sandbox));
                        assert(w.subrange(k, n as int).drop_first() =~= w.subrange(k + 1, n as int));
                    }
                    assert(ps.sandbox == w[k]) by {
                        assert(p0.map_values(|p: PooledSandbox| p.sandbox)[0] == w.subrange(
                            k,
                            n as int,
                        )[0]);
                    }
                    out.push(ps.sandbox);
                    assert(out@ =~= w.subrange(0, k + 1));
                },
                None => {
                    assert(false);
                },
            }
        }
        assert(w.subrange(0, n as int) =~= w);
        assert(self.warm() =~= Seq::<Sandbox>::empty());
        out
    }

    /// Occupancy and sizing.
    pub fn status(&self) -> (s: PoolStatus)
        ensures
            s.warm_vms == self.warm().len(),
            s.active_sandboxes == self.active_len(),
            s.config.min_size == self.pool_config().min_size,
            s.config.max_size == self.pool_config().max_size,
            s.config.idle_timeout_secs == self.pool_config().idle_timeout_secs,
    {
        PoolStatus {
            warm_vms: self.available.len(),
            active_sandboxes: self.active.len(),
            config: PoolStatusConfig {
                min_size: self.config.min_size,
                max_size: self.config.max_size,
                idle_timeout_secs: self.config.idle_timeout_secs,
            },
        }
    }

    /// What is recorded for each claimed sandbox (in no particular order).
    pub fn list_active(&self) -> (r: Vec<SandboxInfo>)
        ensures
            r@.len() == self.active_len(),
            forall|k: Seq<char>|
                self.active().contains_key(k) ==> exists|i: int|
                    0 <= i < r@.len() && same_info(#[trigger] r@[i], self.active()[k]),
    {
        let refs = self.active.value_refs();
        let mut out: Vec<SandboxInfo> = Vec::new();
        let mut i: usize = 0;
        while i < refs.len()
            invariant
                i <= refs@.len(),
                out@.len() == i,
                forall|j: int| 0 <= j < i ==> same_info(#[trigger] out@[j], *refs@[j]),
            decreases refs.len() - i,
        {
            out.push(refs[i].duplicate());
            i += 1;
        }
        assert forall|k: Seq<char>| self.active().contains_key(k) implies exists|i: int|
            0 <= i < out@.len() && same_info(#[trigger] out@[i], self.active()[k]) by {
            let i = choose|i: int|
                0 <= i < self.active.values().len() && #[trigger] self.active.values()[i]
                    == self.active.view()[k];
            assert(same_info(out@[i], *refs@[i]));
        }
        out
    }
}

/// Two records say the same about a sandbox.
pub open spec fn same_info(a: SandboxInfo, b: SandboxInfo) -> bool {
    a.id.0@ == b.id.0@ && a.status == b.status && a.config == b.config && a.created_at@
        == b.created_at@
}

/// Law: the fast path of a claim takes the oldest warm sandbox with the
/// requested network setting; when it finds none, no warm sandbox has it.
pub proof fn law_claim_takes_oldest_match(warm: Seq<Sandbox>, network: bool)
    ensures
        match first_with_network(warm, network) {
            Some(i) => 0 <= i < warm.len() && warm[i].config.network == network && forall|j: int|
                0 <= j < i ==> warm[j].config.network != network,
            None => forall|j: int| 0 <= j < warm.len() ==> warm[j].config.network != network,
        },
{
    if exists|i: int| 0 <= i < warm.len() && warm[i].config.network == network {
        let w = choose|i: int| 0 <= i < warm.len() && warm[i].config.network == network;
        lemma_first_match_exists(warm, network, w);
    }
}

proof fn lemma_first_match_exists(warm: Seq<Sandbox>, network: bool, w: int)
    requires
        0 <= w < warm.len(),
        warm[w].config.network == network,
    ensures
        exists|i: int|
            0 <= i < warm.len() && warm[i].config.network == network && forall|j: int|
                0 <= j < i ==> warm[j].config.network != network,
    decreases w,
{
    if exists|j: int| 0 <= j < w && warm[j].config.network == network {
        let j = choose|j: int| 0 <= j < w && warm[j].config.network == network;
        lemma_first_match_exists(warm, network, j);
    } else {
        assert(forall|j: int| 0 <= j < w ==> warm[j].config.network != network);
    }
}

/// Law: the pool only grows when there is room: whenever it would boot a VM
/// (to replenish or on demand), warm plus claimed plus the new one stays
/// within the maximum.
pub proof fn law_growth_within_max(p: &Pool)
    ensures
        p.wants_more() ==> p.has_room(),
        p.has_room() ==> p.warm().len() + p.active_len() + 1 <= p.pool_config().max_size,
{
}

/// Law: the capacity check counts warm and claimed VMs together and nothing
/// else: there is room for one more VM exactly when warm plus claimed is
/// below the maximum, and the pool replenishes exactly when fewer than the
/// minimum are warm and there is room.
pub proof fn law_room_is_warm_plus_claimed_below_max(p: &Pool)
    ensures
        p.has_room() <==> p.warm().len() + p.active_len() < p.pool_config().max_size,
        p.wants_more() <==> p.warm().len() < p.pool_config().min_size && p.warm().len()
            + p.active_len() < p.pool_config().max_size,
{
}

proof fn lemma_select_keeps<A>(s: Seq<A>, flags: Seq<bool>, keep: bool, i: int)
    requires
        flags.len() == s.len(),
        0 <= i < s.len(),
        flags[i] == keep,
    ensures
        select(s, flags, keep).contains(s[i]),
    decreases s.len(),
{
    let rest = select(s.drop_last(), flags.drop_last(), keep);
    if i == s.len() - 1 {
        assert(select(s, flags, keep) == rest.push(s.last()));
        assert(select(s, flags, keep)[rest.len() as int] == s[i]);
    } else {
        lemma_select_keeps(s.drop_last(), flags.drop_last(), keep, i);
        let k = choose|k: int| 0 <= k < rest.len() && rest[k] == s.drop_last()[i];
        if flags.last() == keep {
            assert(select(s, flags, keep)[k] == rest[k]);
        }
    }
}

proof fn lemma_select_split<A>(s: Seq<A>, flags: Seq<bool>)
    requires
        flags.len() == s.len(),
    ensures
        select(s, flags, true).len() + select(s, flags, false).len() == s.len(),
    decreases s.len(),
{
    if s.len() > 0 {
        lemma_select_split(s.drop_last(), flags.drop_last());
    }
}

/// Law: idle eviction splits the warm sandboxes by their idle times, given
/// in nanoseconds: one idle longer than `idle_timeout_secs * 10^9` ns is
/// among the evicted, any other is among those kept, and every warm sandbox
/// lands on exactly one side.
pub proof fn law_eviction_follows_idle_time(
    warm: Seq<Sandbox>,
    elapsed_nanos: Seq<u128>,
    idle_timeout_secs: u64,
    i: int,
)
    requires
        elapsed_nanos.len() == warm.len(),
        0 <= i < warm.len(),
    ensures
        elapsed_nanos[i] > idle_timeout_secs as nat * 1_000_000_000 ==> select(
            warm,
            idle_flags(elapsed_nanos, idle_timeout_secs),
            true,
        ).contains(warm[i]),
        elapsed_nanos[i] <= idle_timeout_secs as nat * 1_000_000_000 ==> select(
            warm,
            idle_flags(elapsed_nanos, idle_timeout_secs),
            false,
        ).contains(warm[i]),
        select(warm, idle_flags(elapsed_nanos, idle_timeout_secs), true).len() + select(
            warm,
            idle_flags(elapsed_nanos, idle_timeout_secs),
            false,
        ).len() == warm.len(),
{
    let flags = idle_flags(elapsed_nanos, idle_timeout_secs);
    lemma_select_keeps(warm, flags, flags[i], i);
    lemma_select_split(warm, flags);
}

} // verus!
