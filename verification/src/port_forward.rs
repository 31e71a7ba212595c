//! Host-port forwards into sandboxes: at most one forward per guest port and
//! at most 16 per sandbox.
use vstd::prelude::*;
use crate::error::AppError;
use crate::text::{append_decimal, decimal};

verus! {

/// Forwards allowed per sandbox.
pub const MAX_FORWARDS_PER_SANDBOX: usize = 16;

/// Simultaneous connections served by one forward.
pub const MAX_CONNECTIONS_PER_FORWARD: usize = 128;

/// The per-sandbox forward limit.
pub fn max_forwards_per_sandbox() -> (n: usize)
    ensures
        n == MAX_FORWARDS_PER_SANDBOX,
{
    MAX_FORWARDS_PER_SANDBOX
}

/// What the API reports about a forward.
#[derive(Debug, Clone)]
pub struct PortForwardInfo {
    pub guest_port: u16,
    pub host_port: u16,
    pub local_address: String,
}

/// A live forward: the guest port, the host port it listens on, and the
/// handle of the task that serves it.
#[derive(Debug)]
pub struct PortForwardEntry<H> {
    pub guest_port: u16,
    pub host_port: u16,
    pub handle: H,
}

/// The address a forward listens on: `127.0.0.1:<host port>` (forwards are
/// reachable from the host only).
pub open spec fn listen_address(host_port: u16) -> Seq<char> {
    "127.0.0.1:"@ + decimal(host_port as nat)
}

/// Where a new forward binds: localhost, on a port the system picks.
pub fn forward_bind_address() -> (a: String)
    ensures
        a@ == "127.0.0.1:0"@,
{
    "127.0.0.1:0".to_owned()
}

impl<H> PortForwardEntry<H> {
    /// The forward as the API reports it.
    pub fn info(&self) -> (i: PortForwardInfo)
        ensures
            i.guest_port == self.guest_port,
            i.host_port == self.host_port,
            i.local_address@ == listen_address(self.host_port),
    {
        let mut local_address = "127.0.0.1:".to_owned();
        append_decimal(&mut local_address, self.host_port as u64);
        PortForwardInfo { guest_port: self.guest_port, host_port: self.host_port, local_address }
    }
}

/// Number of forwards of sandbox `s` in `v`.
pub open spec fn forward_count(v: Seq<(Seq<char>, u16, u16)>, s: Seq<char>) -> nat
    decreases v.len(),
{
    if v.len() == 0 {
        0
    } else {
        forward_count(v.drop_last(), s) + if v.last().0 == s {
            1nat
        } else {
            0nat
        }
    }
}

/// Whether `v` has a forward of guest port `p` for sandbox `s`.
pub open spec fn has_forward(v: Seq<(Seq<char>, u16, u16)>, s: Seq<char>, p: u16) -> bool {
    exists|i: int| 0 <= i < v.len() && v[i].0 == s && v[i].1 == p
}

/// No sandbox forwards the same guest port twice.
pub open spec fn unique_forwards(v: Seq<(Seq<char>, u16, u16)>) -> bool {
    forall|i: int, j: int|
        0 <= i < v.len() && 0 <= j < v.len() && i != j ==> !(v[i].0 == v[j].0 && v[i].1 == v[j].1)
}

/// The message refusing a second forward of `p`.
pub open spec fn duplicate_message(p: u16) -> Seq<char> {
    "Port "@ + decimal(p as nat) + " is already forwarded"@
}

/// The message refusing a forward beyond the limit.
pub open spec fn limit_message() -> Seq<char> {
    "Maximum of "@ + decimal(MAX_FORWARDS_PER_SANDBOX as nat) + " port forwards per sandbox reached"@
}

/// (sandbox id, guest port, host port) of each stored forward.
pub open spec fn forwards_view<H>(v: Seq<(String, PortForwardEntry<H>)>) -> Seq<(Seq<char>, u16, u16)> {
    v.map_values(|e: (String, PortForwardEntry<H>)| (e.0@, e.1.guest_port, e.1.host_port))
}

/// Whether a forward belongs to sandbox `s`.
pub open spec fn of_sandbox(s: Seq<char>) -> spec_fn((Seq<char>, u16, u16)) -> bool {
    |e: (Seq<char>, u16, u16)| e.0 == s
}

/// Whether a forward belongs to another sandbox than `s`.
pub open spec fn not_of_sandbox(s: Seq<char>) -> spec_fn((Seq<char>, u16, u16)) -> bool {
    |e: (Seq<char>, u16, u16)| e.0 != s
}

/// (sandbox id, entry) of each stored forward.
pub open spec fn stored_entries<H>(v: Seq<(String, PortForwardEntry<H>)>) -> Seq<(Seq<char>, PortForwardEntry<H>)> {
    v.map_values(|e: (String, PortForwardEntry<H>)| (e.0@, e.1))
}

/// Whether a stored forward belongs to sandbox `s`.
pub open spec fn entry_of<H>(s: Seq<char>) -> spec_fn((Seq<char>, PortForwardEntry<H>)) -> bool {
    |e: (Seq<char>, PortForwardEntry<H>)| e.0 == s
}

/// Whether a stored forward belongs to another sandbox than `s`.
pub open spec fn entry_not_of<H>(s: Seq<char>) -> spec_fn((Seq<char>, PortForwardEntry<H>)) -> bool {
    |e: (Seq<char>, PortForwardEntry<H>)| e.0 != s
}

/// The stored entries of sandbox `s`, handles included, in order.
pub open spec fn entries_of<H>(st: Seq<(Seq<char>, PortForwardEntry<H>)>, s: Seq<char>) -> Seq<PortForwardEntry<H>> {
    st.filter(entry_of(s)).map_values(|e: (Seq<char>, PortForwardEntry<H>)| e.1)
}

/// All forwards, by sandbox id.
pub struct PortForwardTable<H> {
    entries: Vec<(String, PortForwardEntry<H>)>,
}

impl<H> PortForwardTable<H> {
    #[verifier::type_invariant]
    spec fn well_formed(&self) -> bool {
        unique_forwards(self.view())
    }

    /// (sandbox id, guest port, host port) of each forward.
    pub closed spec fn view(&self) -> Seq<(Seq<char>, u16, u16)> {
        forwards_view(self.entries@)
    }

    /// Each forward with its sandbox id, as stored: the entry itself, task
    /// handle included.
    pub closed spec fn stored(&self) -> Seq<(Seq<char>, PortForwardEntry<H>)> {
        stored_entries(self.entries@)
    }

    /// The two views agree: `view` is `stored` without the handles.
    pub proof fn lemma_view_of_stored(&self)
        ensures
            self.view().len() == self.stored().len(),
            forall|i: int|
                0 <= i < self.view().len() ==> #[trigger] self.view()[i] == (
                    self.stored()[i].0,
                    self.stored()[i].1.guest_port,
                    self.stored()[i].1.host_port,
                ),
    {
    }

    /// No forwards.
    pub fn new() -> (t: Self)
        ensures
            t.view() == Seq::<(Seq<char>, u16, u16)>::empty(),
            t.stored() == Seq::<(Seq<char>, PortForwardEntry<H>)>::empty(),
    {
        let t = PortForwardTable { entries: Vec::new() };
        assert(t.view() =~= Seq::<(Seq<char>, u16, u16)>::empty());
        assert(t.stored() =~= Seq::<(Seq<char>, PortForwardEntry<H>)>::empty());
        t
    }

    fn find(&self, sandbox: &str, port: u16) -> (r: Option<usize>)
        ensures
            match r {
                Some(i) => i < self.view().len() && self.view()[i as int].0 == sandbox@
                    && self.view()[i as int].1 == port,
                None => !has_forward(self.view(), sandbox@, port),
            },
    {
        let mut i: usize = 0;
        while i < self.entries.len()
            invariant
                i <= self.entries@.len(),
                forall|j: int|
                    0 <= j < i ==> !(self.view()[j].0 == sandbox@ && self.view()[j].1 == port),
            decreases self.entries.len() - i,
        {
            if self.entries[i].1.guest_port == port && crate::text::str_eq(
                self.entries[i].0.as_str(),
                sandbox,
            ) {
                return Some(i);
            }
            i += 1;
        }
        None
    }

    /// How many forwards sandbox `sandbox` has.
    pub fn count_for(&self, sandbox: &str) -> (n: usize)
        ensures
            n == forward_count(self.view(), sandbox@),
    {
        let mut n: usize = 0;
        let mut i: usize = 0;
        while i < self.entries.len()
            invariant
                i <= self.entries@.len(),
                n == forward_count(self.view().take(i as int), sandbox@),
                n <= i,
            decreases self.entries.len() - i,
        {
            assert(self.view().take(i + 1).drop_last() =~= self.view().take(i as int));
            if crate::text::str_eq(self.entries[i].0.as_str(), sandbox) {
                n += 1;
            }
            i += 1;
        }
        assert(self.view().take(self.entries.len() as int) =~= self.view());
        n
    }

    /// Whether a new forward of `guest_port` may be opened for `sandbox`: not
    /// when that port is already forwarded, nor when the sandbox has reached
    /// the limit.
    pub fn check_new(&self, sandbox: &str, guest_port: u16) -> (r: Result<(), AppError>)
        ensures
            has_forward(self.view(), sandbox@, guest_port) ==> (r matches Err(e) && e@ == (
                400u16,
                duplicate_message(guest_port),
            )),
            !has_forward(self.view(), sandbox@, guest_port) && forward_count(self.view(), sandbox@)
                >= MAX_FORWARDS_PER_SANDBOX ==> (r matches Err(e) && e@ == (400u16, limit_message())),
            r is Ok <==> !has_forward(self.view(), sandbox@, guest_port) && forward_count(
                self.view(),
                sandbox@,
            ) < MAX_FORWARDS_PER_SANDBOX,
    {
        if self.find(sandbox, guest_port).is_some() {
            let mut m = "Port ".to_owned();
            append_decimal(&mut m, guest_port as u64);
            m.append(" is already forwarded");
            return Err(AppError::BadRequest(m));
        }
        let max = max_forwards_per_sandbox();
        if self.count_for(sandbox) >= max {
            let mut m = "Maximum of ".to_owned();
            append_decimal(&mut m, max as u64);
            m.append(" port forwards per sandbox reached");
            return Err(AppError::BadRequest(m));
        }
        Ok(())
    }

    /// Records a forward for `sandbox`, replacing one of the same guest port.
    pub fn insert(&mut self, sandbox: String, entry: PortForwardEntry<H>)
        ensures
            !has_forward(old(self).view(), sandbox@, entry.guest_port) ==> final(self).view() == old(
                self,
            ).view().push((sandbox@, entry.guest_port, entry.host_port)),
            forall|i: int|
                0 <= i < old(self).view().len() && old(self).view()[i].0 == sandbox@ && old(
                    self,
                ).view()[i].1 == entry.guest_port ==> final(self).view() == old(self).view().remove(
                    i,
                ).push((sandbox@, entry.guest_port, entry.host_port)),
            !has_forward(old(self).view(), sandbox@, entry.guest_port) ==> final(self).stored()
                == old(self).stored().push((sandbox@, entry)),
            forall|i: int|
                0 <= i < old(self).view().len() && old(self).view()[i].0 == sandbox@ && old(
                    self,
                ).view()[i].1 == entry.guest_port ==> final(self).stored() == old(
                    self,
                ).stored().remove(i).push((sandbox@, entry)),
    {
        proof {
            use_type_invariant(&*self);
        }
        let ghost before = self.view();
        let ghost sbefore = self.stored();
        let ghost entry_g = entry;
        let ghost sandbox_g = sandbox@;
        let mut entries: Vec<(String, PortForwardEntry<H>)> = Vec::new();
        std::mem::swap(&mut entries, &mut self.entries);
        let tmp = PortForwardTable { entries };
        let found = tmp.find(sandbox.as_str(), entry.guest_port);
        let PortForwardTable { mut entries } = tmp;
        assert(forwards_view(entries@) == before);
        assert(stored_entries(entries@) == sbefore);
        match found {
            Some(i) => {
                entries.remove(i);
                assert(forwards_view(entries@) =~= before.remove(i as int));
                assert(stored_entries(entries@) =~= sbefore.remove(i as int));
            },
            None => {},
        }
        let ghost mid = forwards_view(entries@);
        let ghost smid = stored_entries(entries@);
        let ghost key = (sandbox@, entry.guest_port, entry.host_port);
        entries.push((sandbox, entry));
        assert(forwards_view(entries@) =~= mid.push(key));
        assert(stored_entries(entries@) =~= smid.push((sandbox_g, entry_g)));
        assert(unique_forwards(mid.push(key))) by {
            let w = mid.push(key);
            assert forall|a: int, b: int| 0 <= a < w.len() && 0 <= b < w.len() && a != b implies !(w[a].0
                == w[b].0 && w[a].1 == w[b].1) by {
                match found {
                    Some(i) => {
                        let ii = i as int;
                        let a2 = if a < ii { a } else { a + 1 };
                        let b2 = if b < ii { b } else { b + 1 };
                        if a < mid.len() && b < mid.len() {
                            assert(w[a] == before[a2]);
                            assert(w[b] == before[b2]);
                        } else if a < mid.len() {
                            assert(w[a] == before[a2]);
                            assert(before[ii].0 == key.0 && before[ii].1 == key.1);
                        } else {
                            assert(w[b] == before[b2]);
                            assert(before[ii].0 == key.0 && before[ii].1 == key.1);
                        }
                    },
                    None => {
                        if a < mid.len() && b < mid.len() {
                        } else if a < mid.len() {
                            assert(w[a] == before[a]);
                        } else {
                            assert(w[b] == before[b]);
                        }
                    },
                }
            }
        }
        self.entries = entries;
        assert forall|i: int|
            0 <= i < before.len() && before[i].0 == key.0 && before[i].1 == key.1 implies self.view()
            == before.remove(i).push(key) && self.stored() == sbefore.remove(i).push(
            (sandbox_g, entry_g),
        ) by {
            match found {
                Some(j) => {
                    assert(i == j as int);
                },
                None => {},
            }
        }
    }

    /// Stops tracking the forward of `guest_port` for `sandbox` and returns it.
    pub fn remove(&mut self, sandbox: &str, guest_port: u16) -> (r: Option<PortForwardEntry<H>>)
        ensures
            r is Some <==> has_forward(old(self).view(), sandbox@, guest_port),
            r is None ==> final(self).view() == old(self).view(),
            r matches Some(e) ==> e.guest_port == guest_port && exists|i: int|
                0 <= i < old(self).view().len() && old(self).view()[i] == (
                    sandbox@,
                    guest_port,
                    e.host_port,
                ) && final(self).view() == old(self).view().remove(i),
            r is None ==> final(self).stored() == old(self).stored(),
            r matches Some(e) ==> exists|i: int|
                0 <= i < old(self).stored().len() && old(self).stored()[i] == (sandbox@, e)
                    && final(self).stored() == old(self).stored().remove(i),
    {
        proof {
            use_type_invariant(&*self);
        }
        let ghost before = self.view();
        let ghost sbefore = self.stored();
        match self.find(sandbox, guest_port) {
            None => None,
            Some(i) => {
                let mut entries: Vec<(String, PortForwardEntry<H>)> = Vec::new();
                std::mem::swap(&mut entries, &mut self.entries);
                assert(forwards_view(entries@) == before);
                assert(stored_entries(entries@) == sbefore);
                let ghost pair = entries@[i as int];
                let (_, e) = entries.remove(i);
                assert(forwards_view(entries@) =~= before.remove(i as int));
                assert(stored_entries(entries@) =~= sbefore.remove(i as int));
                assert(sbefore[i as int] == (sandbox@, e)) by {
                    assert(pair.1 == e);
                    assert(before[i as int].0 == pair.0@);
                }
                assert(unique_forwards(before.remove(i as int))) by {
                    let w = before.remove(i as int);
                    assert forall|a: int, b: int|
                        0 <= a < w.len() && 0 <= b < w.len() && a != b implies !(w[a].0 == w[b].0
                        && w[a].1 == w[b].1) by {
                        let a2 = if a < i { a } else { a + 1 };
                        let b2 = if b < i { b } else { b + 1 };
                        assert(w[a] == before[a2]);
                        assert(w[b] == before[b2]);
                    }
                }
                self.entries = entries;
                Some(e)
            },
        }
    }

    /// Stops tracking every forward of `sandbox` and returns them, in order.
    pub fn remove_sandbox(&mut self, sandbox: &str) -> (r: Vec<PortForwardEntry<H>>)
        ensures
            final(self).view() == old(self).view().filter(not_of_sandbox(sandbox@)),
            r@.map_values(|e: PortForwardEntry<H>| (sandbox@, e.guest_port, e.host_port)) == old(
                self,
            ).view().filter(of_sandbox(sandbox@)),
            r@ == entries_of(old(self).stored(), sandbox@),
            final(self).stored() == old(self).stored().filter(entry_not_of(sandbox@)),
    {
        proof {
            use_type_invariant(&*self);
        }
        let ghost before = self.view();
        let ghost sb = self.stored();
        let mut entries: Vec<(String, PortForwardEntry<H>)> = Vec::new();
        std::mem::swap(&mut entries, &mut self.entries);
        assert(forwards_view(entries@) == before);
        assert(forwards_view(entries@) =~= before.subrange(0, before.len() as int));
        assert(stored_entries(entries@) =~= sb.subrange(0, sb.len() as int));
        let mut kept: Vec<(String, PortForwardEntry<H>)> = Vec::new();
        let mut taken: Vec<PortForwardEntry<H>> = Vec::new();
        let ghost n = before.len();
        while entries.len() > 0
            invariant
                entries.len() <= n,
                n == before.len(),
                forwards_view(entries@) == before.subrange(n - entries.len(), n as int),
                forwards_view(kept@) == before.subrange(0, n - entries.len()).filter(not_of_sandbox(sandbox@)),
                taken@.map_values(|e: PortForwardEntry<H>| (sandbox@, e.guest_port, e.host_port))
                    == before.subrange(0, n - entries.len()).filter(of_sandbox(sandbox@)),
                sb.len() == n,
                stored_entries(entries@) == sb.subrange(n - entries.len(), n as int),
                stored_entries(kept@) == sb.subrange(0, n - entries.len()).filter(
                    entry_not_of(sandbox@),
                ),
                taken@ == sb.subrange(0, n - entries.len()).filter(entry_of(sandbox@)).map_values(
                    |e: (Seq<char>, PortForwardEntry<H>)| e.1,
                ),
                unique_forwards(before),
                unique_forwards(forwards_view(kept@)),
                forall|a: int|
                    0 <= a < kept@.len() ==> exists|j: int|
                        0 <= j < n - entries.len() && #[trigger] forwards_view(kept@)[a] == before[j],
            decreases entries.len(),
        {
            let ghost k = n - entries.len();
            let ghost e0 = entries@;
            let (name, e) = entries.remove(0);
            let ghost y = sb[k];
            assert(stored_entries(entries@) =~= stored_entries(e0).drop_first());
            assert(stored_entries(entries@) =~= sb.subrange(n - entries.len(), n as int));
            assert((name@, e) == y) by {
                assert(stored_entries(e0)[0] == sb.subrange(k, n as int)[0]);
            }
            assert(sb.subrange(0, k + 1).drop_last() =~= sb.subrange(0, k));
            assert(sb.subrange(0, k + 1).last() == y);
            assert(forwards_view(entries@) =~= forwards_view(e0).drop_first());
            assert(forwards_view(entries@) =~= before.subrange(n - entries.len(), n as int));
            let ghost x = before[k];
            assert((name@, e.guest_port, e.host_port) == x) by {
                assert(forwards_view(e0)[0] == before.subrange(k, n as int)[0]);
            }
            assert(before.subrange(0, k + 1).drop_last() =~= before.subrange(0, k));
            assert(before.subrange(0, k + 1).last() == x);
            proof {
                reveal_with_fuel(Seq::<_>::filter, 1);
            }
            let ghost keep_old = before.subrange(0, k).filter(not_of_sandbox(sandbox@));
            let ghost take_old = before.subrange(0, k).filter(of_sandbox(sandbox@));
            let ghost skeep_old = sb.subrange(0, k).filter(entry_not_of(sandbox@));
            let ghost stake_old = sb.subrange(0, k).filter(entry_of(sandbox@));
            assert(entry_of::<H>(sandbox@)(y) == (y.0 == sandbox@));
            assert(entry_not_of::<H>(sandbox@)(y) == (y.0 != sandbox@));
            let same = crate::text::str_eq(name.as_str(), sandbox);
            assert(x.0 == name@);
            assert(same == (x.0 == sandbox@));
            assert(of_sandbox(sandbox@)(x) == (x.0 == sandbox@));
            assert(not_of_sandbox(sandbox@)(x) == (x.0 != sandbox@));
            if same {
                assert forall|a: int| 0 <= a < kept@.len() implies exists|j: int|
                    0 <= j < k + 1 && #[trigger] forwards_view(kept@)[a] == before[j] by {
                    let j = choose|j: int| 0 <= j < k && forwards_view(kept@)[a] == before[j];
                    assert(forwards_view(kept@)[a] == before[j]);
                }
                let ghost t0 = taken@;
                taken.push(e);
                assert(sb.subrange(0, k + 1).filter(entry_of(sandbox@)) == stake_old.push(y));
                assert(sb.subrange(0, k + 1).filter(entry_not_of(sandbox@)) == skeep_old);
                assert(taken@ =~= stake_old.push(y).map_values(
                    |e: (Seq<char>, PortForwardEntry<H>)| e.1,
                ));
                assert(taken@.map_values(|e: PortForwardEntry<H>| (sandbox@, e.guest_port, e.host_port))
                    =~= t0.map_values(|e: PortForwardEntry<H>| (sandbox@, e.guest_port, e.host_port)).push(x));
                assert(of_sandbox(sandbox@)(x) && !not_of_sandbox(sandbox@)(x));
                assert(before.subrange(0, k + 1).filter(of_sandbox(sandbox@)) == take_old.push(x));
                assert(before.subrange(0, k + 1).filter(not_of_sandbox(sandbox@)) == keep_old);
            } else {
                let ghost k0 = kept@;
                kept.push((name, e));
                assert(stored_entries(kept@) =~= stored_entries(k0).push(y));
                assert(sb.subrange(0, k + 1).filter(entry_of(sandbox@)) == stake_old);
                assert(sb.subrange(0, k + 1).filter(entry_not_of(sandbox@)) == skeep_old.push(y));
                assert(forwards_view(kept@) =~= forwards_view(k0).push(x));
                assert(!of_sandbox(sandbox@)(x) && not_of_sandbox(sandbox@)(x));
                assert(before.subrange(0, k + 1).filter(of_sandbox(sandbox@)) == take_old);
                assert(before.subrange(0, k + 1).filter(not_of_sandbox(sandbox@)) == keep_old.push(x));
                assert forall|a: int, b: int|
                    0 <= a < kept@.len() && 0 <= b < kept@.len() && a != b implies !(
                    forwards_view(kept@)[a].0 == forwards_view(kept@)[b].0 && forwards_view(kept@)[a].1 == forwards_view(
                        kept@,
                    )[b].1) by {
                    if a < k0.len() && b < k0.len() {
                        assert(forwards_view(kept@)[a] == forwards_view(k0)[a]);
                        assert(forwards_view(kept@)[b] == forwards_view(k0)[b]);
                    } else if a < k0.len() {
                        assert(forwards_view(kept@)[a] == forwards_view(k0)[a]);
                        let j = choose|j: int| 0 <= j < k && forwards_view(k0)[a] == before[j];
                        assert(j != k);
                    } else {
                        assert(forwards_view(kept@)[b] == forwards_view(k0)[b]);
                        let j = choose|j: int| 0 <= j < k && forwards_view(k0)[b] == before[j];
                        assert(j != k);
                    }
                }
                assert forall|a: int| 0 <= a < kept@.len() implies exists|j: int|
                    0 <= j < k + 1 && #[trigger] forwards_view(kept@)[a] == before[j] by {
                    if a < k0.len() {
                        assert(forwards_view(kept@)[a] == forwards_view(k0)[a]);
                        let j = choose|j: int| 0 <= j < k && forwards_view(k0)[a] == before[j];
                        assert(forwards_view(kept@)[a] == before[j]);
                    } else {
                        assert(forwards_view(kept@)[a] == before[k]);
                    }
                }
            }
        }
        assert(before.subrange(0, n as int) =~= before);
        assert(sb.subrange(0, n as int) =~= sb);
        self.entries = kept;
        taken
    }

    /// The forwards of `sandbox`, in the order they were opened.
    pub fn list(&self, sandbox: &str) -> (r: Vec<PortForwardInfo>)
        ensures
            r@.len() == self.view().filter(of_sandbox(sandbox@)).len(),
            forall|k: int|
                0 <= k < r@.len() ==> {
                    let f = self.view().filter(of_sandbox(sandbox@))[k];
                    &&& (#[trigger] r@[k]).guest_port == f.1
                    &&& r@[k].host_port == f.2
                    &&& r@[k].local_address@ == listen_address(f.2)
                },
    {
        let ghost v = self.view();
        let mut out: Vec<PortForwardInfo> = Vec::new();
        let mut i: usize = 0;
        while i < self.entries.len()
            invariant
                i <= self.entries@.len(),
                v == self.view(),
                out@.len() == v.take(i as int).filter(of_sandbox(sandbox@)).len(),
                forall|k: int|
                    0 <= k < out@.len() ==> {
                        let f = v.take(i as int).filter(of_sandbox(sandbox@))[k];
                        &&& (#[trigger] out@[k]).guest_port == f.1
                        &&& out@[k].host_port == f.2
                        &&& out@[k].local_address@ == listen_address(f.2)
                    },
            decreases self.entries.len() - i,
        {
            let ghost x = v[i as int];
            assert(v.take(i + 1).drop_last() =~= v.take(i as int));
            assert(v.take(i + 1).last() == x);
            proof {
                reveal_with_fuel(Seq::<_>::filter, 1);
            }
            let ghost old_f = v.take(i as int).filter(of_sandbox(sandbox@));
            let same = crate::text::str_eq(self.entries[i].0.as_str(), sandbox);
            assert(x.0 == self.entries@[i as int].0@);
            if same {
                let info = self.entries[i].1.info();
                out.push(info);
                assert(v.take(i + 1).filter(of_sandbox(sandbox@)) == old_f.push(x));
            } else {
                assert(v.take(i + 1).filter(of_sandbox(sandbox@)) == old_f);
            }
            i += 1;
        }
        assert(v.take(self.entries.len() as int) =~= v);
        out
    }
}

/// Law: a forward that `check_new` allowed and `insert` then recorded
/// leaves the sandbox within the per-sandbox limit.
pub proof fn law_checked_insert_within_limit<H>(
    before: PortForwardTable<H>,
    after: PortForwardTable<H>,
    sandbox: Seq<char>,
    guest_port: u16,
    host_port: u16,
)
    requires
        !has_forward(before.view(), sandbox, guest_port),
        forward_count(before.view(), sandbox) < MAX_FORWARDS_PER_SANDBOX,
        after.view() == before.view().push((sandbox, guest_port, host_port)),
    ensures
        forward_count(after.view(), sandbox) <= MAX_FORWARDS_PER_SANDBOX,
        has_forward(after.view(), sandbox, guest_port),
{
    assert(after.view().drop_last() =~= before.view());
    assert(after.view()[before.view().len() as int] == (sandbox, guest_port, host_port));
}

proof fn lemma_no_count_without_entries(v: Seq<(Seq<char>, u16, u16)>, s: Seq<char>)
    requires
        forall|i: int| 0 <= i < v.len() ==> v[i].0 != s,
    ensures
        forward_count(v, s) == 0,
    decreases v.len(),
{
    if v.len() > 0 {
        lemma_no_count_without_entries(v.drop_last(), s);
    }
}

/// Law: once a sandbox's forwards are removed, it has none left, and every
/// other sandbox keeps all of its forwards.
pub proof fn law_remove_sandbox_clears_it<H>(
    before: PortForwardTable<H>,
    after: PortForwardTable<H>,
    sandbox: Seq<char>,
)
    requires
        after.view() == before.view().filter(not_of_sandbox(sandbox)),
    ensures
        forward_count(after.view(), sandbox) == 0,
        forall|other: Seq<char>, p: u16|
            other != sandbox ==> (has_forward(after.view(), other, p) <==> has_forward(
                before.view(),
                other,
                p,
            )),
{
    let v = before.view();
    let f = not_of_sandbox(sandbox);
    assert forall|i: int| 0 <= i < after.view().len() implies after.view()[i].0 != sandbox by {
        v.lemma_filter_pred(f, i);
    }
    lemma_no_count_without_entries(after.view(), sandbox);
    assert forall|other: Seq<char>, p: u16|
        other != sandbox implies (has_forward(after.view(), other, p) <==> has_forward(v, other, p)) by {
        if has_forward(v, other, p) {
            let i = choose|i: int| 0 <= i < v.len() && v[i].0 == other && v[i].1 == p;
            v.lemma_filter_contains(f, i);
            let k = choose|k: int| 0 <= k < after.view().len() && after.view()[k] == v[i];
            assert(after.view()[k].0 == other && after.view()[k].1 == p);
        }
        if has_forward(after.view(), other, p) {
            let i = choose|i: int|
                0 <= i < after.view().len() && after.view()[i].0 == other && after.view()[i].1 == p;
            assert(after.view().contains(after.view()[i]));
            v.lemma_filter_contains_rev(f, after.view()[i]);
        }
    }
}

/// Law: removing a sandbox's forwards hands back every forward it had, as
/// stored (task handle included), so each can be stopped; none of its
/// forwards stays in the table, and the others stay as they were.
pub proof fn law_remove_sandbox_returns_its_forwards<H>(
    before: PortForwardTable<H>,
    after: PortForwardTable<H>,
    returned: Seq<PortForwardEntry<H>>,
    sandbox: Seq<char>,
)
    requires
        after.stored() == before.stored().filter(entry_not_of(sandbox)),
        returned == entries_of(before.stored(), sandbox),
    ensures
        forall|i: int|
            0 <= i < before.stored().len() && (#[trigger] before.stored()[i]).0 == sandbox
                ==> returned.contains(before.stored()[i].1),
        forall|i: int| 0 <= i < after.stored().len() ==> (#[trigger] after.stored()[i]).0 != sandbox,
        forall|i: int|
            0 <= i < before.stored().len() && (#[trigger] before.stored()[i]).0 != sandbox
                ==> after.stored().contains(before.stored()[i]),
{
    let st = before.stored();
    let taken = st.filter(entry_of(sandbox));
    assert forall|i: int|
        0 <= i < st.len() && (#[trigger] st[i]).0 == sandbox implies returned.contains(st[i].1) by {
        st.lemma_filter_contains(entry_of(sandbox), i);
        let k = choose|k: int| 0 <= k < taken.len() && taken[k] == st[i];
        assert(returned[k] == st[i].1);
    }
    assert forall|i: int| 0 <= i < after.stored().len() implies (#[trigger] after.stored()[i]).0
        != sandbox by {
        st.lemma_filter_pred(entry_not_of(sandbox), i);
    }
    assert forall|i: int|
        0 <= i < st.len() && (#[trigger] st[i]).0 != sandbox implies after.stored().contains(st[i]) by {
        st.lemma_filter_contains(entry_not_of(sandbox), i);
    }
}

/// Law: after the forward of a port is removed, the sandbox no longer
/// forwards that port.
pub proof fn law_removed_forward_is_gone<H>(
    before: PortForwardTable<H>,
    after: PortForwardTable<H>,
    sandbox: Seq<char>,
    guest_port: u16,
    i: int,
)
    requires
        unique_forwards(before.view()),
        0 <= i < before.view().len(),
        before.view()[i].0 == sandbox,
        before.view()[i].1 == guest_port,
        after.view() == before.view().remove(i),
    ensures
        !has_forward(after.view(), sandbox, guest_port),
{
    let v = before.view();
    let w = after.view();
    if has_forward(w, sandbox, guest_port) {
        let j = choose|j: int| 0 <= j < w.len() && w[j].0 == sandbox && w[j].1 == guest_port;
        let j2 = if j < i { j } else { j + 1 };
        assert(w[j] == v[j2]);
    }
}

} // verus!
