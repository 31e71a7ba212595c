//! The daemon's table of live sandboxes. Each sandbox is shared through an
//! `Arc`; a sandbox can only be taken out while nobody else holds it.
use vstd::prelude::*;
use std::sync::Arc;
use crate::error::RemoveSandboxError;
use crate::sandbox::SandboxId;

verus! {

/// `Arc::clone`: another handle to the same value.
#[verifier::external_body]
pub(crate) fn arc_clone<T>(a: &Arc<T>) -> (r: Arc<T>)
    ensures
        r == *a,
{
    Arc::clone(a)
}

/// `Arc::try_unwrap`: the value when this is its only handle, otherwise the
/// handle back unchanged. Which of the two happens depends on the other
/// handles alive at that moment, so nothing says which one.
#[verifier::external_body]
fn arc_try_unwrap<T>(a: Arc<T>) -> (r: Result<T, Arc<T>>)
    ensures
        match r {
            Ok(t) => t == *a,
            Err(b) => b == a,
        },
{
    Arc::try_unwrap(a)
}

/// Whether `Arc::try_unwrap` was called on a handle to `value` and reported
/// it still shared (another handle alive), handing the handle back.
pub closed spec fn refused_as_shared<T>(value: T) -> bool {
    exists|a: Arc<T>| *a == value && call_ensures(arc_try_unwrap::<T>, (a,), Err::<T, Arc<T>>(a))
}

/// The map that a list of entries stands for (later entries win).
pub open spec fn entries_map<T>(s: Seq<(SandboxId, Arc<T>)>) -> Map<Seq<char>, T>
    decreases s.len(),
{
    if s.len() == 0 {
        Map::empty()
    } else {
        entries_map(s.drop_last()).insert(s.last().0.0@, *s.last().1)
    }
}

/// No two entries share an identifier.
pub open spec fn distinct_ids<T>(s: Seq<(SandboxId, Arc<T>)>) -> bool {
    forall|i: int, j: int|
        0 <= i < s.len() && 0 <= j < s.len() && i != j ==> s[i].0.0@ != s[j].0.0@
}

proof fn lemma_entries_map_key<T>(s: Seq<(SandboxId, Arc<T>)>, k: Seq<char>)
    requires
        distinct_ids(s),
    ensures
        entries_map(s).contains_key(k) <==> exists|i: int| 0 <= i < s.len() && s[i].0.0@ == k,
        forall|i: int| 0 <= i < s.len() && s[i].0.0@ == k ==> entries_map(s)[k] == *s[i].1,
    decreases s.len(),
{
    if s.len() > 0 {
        let d = s.drop_last();
        assert(distinct_ids(d)) by {
            assert forall|a: int, b: int| 0 <= a < d.len() && 0 <= b < d.len() && a != b implies d[a].0.0@
                != d[b].0.0@ by {
                assert(d[a] == s[a]);
                assert(d[b] == s[b]);
            }
        }
        lemma_entries_map_key(d, k);
        assert(s[s.len() - 1] == s.last());
        if entries_map(s).contains_key(k) {
            if s.last().0.0@ != k {
                let i = choose|i: int| 0 <= i < d.len() && d[i].0.0@ == k;
                assert(s[i] == d[i]);
            }
        }
        if exists|i: int| 0 <= i < s.len() && s[i].0.0@ == k {
            let i = choose|i: int| 0 <= i < s.len() && s[i].0.0@ == k;
            if i < s.len() - 1 {
                assert(s[i] == d[i]);
            }
        }
        assert forall|i: int| 0 <= i < s.len() && s[i].0.0@ == k implies entries_map(s)[k] == *s[i].1 by {
            if i < s.len() - 1 {
                assert(s[i] == d[i]);
                assert(s[i].0.0@ != s[s.len() - 1].0.0@);
            }
        }
    }
}

proof fn lemma_entries_map_remove<T>(s: Seq<(SandboxId, Arc<T>)>, i: int)
    requires
        distinct_ids(s),
        0 <= i < s.len(),
    ensures
        entries_map(s.remove(i)) == entries_map(s).remove(s[i].0.0@),
        distinct_ids(s.remove(i)),
    decreases s.len(),
{
    let k = s[i].0.0@;
    let r = s.remove(i);
    assert(distinct_ids(r)) by {
        assert forall|a: int, b: int| 0 <= a < r.len() && 0 <= b < r.len() && a != b implies r[a].0.0@
            != r[b].0.0@ by {
            let a2 = if a < i { a } else { a + 1 };
            let b2 = if b < i { b } else { b + 1 };
            assert(r[a] == s[a2]);
            assert(r[b] == s[b2]);
        }
    }
    if i == s.len() - 1 {
        assert(r =~= s.drop_last());
        lemma_entries_map_key(s.drop_last(), k);
        assert(!entries_map(s.drop_last()).contains_key(k)) by {
            if entries_map(s.drop_last()).contains_key(k) {
                let j = choose|j: int| 0 <= j < s.drop_last().len() && s.drop_last()[j].0.0@ == k;
                assert(s[j] == s.drop_last()[j]);
            }
        }
        assert(entries_map(r) =~= entries_map(s).remove(k));
    } else {
        let d = s.drop_last();
        assert(distinct_ids(d)) by {
            assert forall|a: int, b: int| 0 <= a < d.len() && 0 <= b < d.len() && a != b implies d[a].0.0@
                != d[b].0.0@ by {
                assert(d[a] == s[a]);
                assert(d[b] == s[b]);
            }
        }
        lemma_entries_map_remove(d, i);
        assert(d[i] == s[i]);
        assert(r =~= d.remove(i).push(s.last()));
        assert(r.drop_last() =~= d.remove(i));
        assert(s.last().0.0@ != k) by {
            assert(s[s.len() - 1] == s.last());
        }
        assert(entries_map(r) =~= entries_map(s).remove(k));
    }
}

/// The live sandboxes, by identifier.
pub struct SandboxRegistry<T> {
    entries: Vec<(SandboxId, Arc<T>)>,
}

impl<T> SandboxRegistry<T> {
    #[verifier::type_invariant]
    spec fn well_formed(&self) -> bool {
        distinct_ids(self.entries@)
    }

    /// The sandboxes by identifier.
    pub closed spec fn view(&self) -> Map<Seq<char>, T> {
        entries_map(self.entries@)
    }

    /// An empty table.
    pub fn new() -> (r: Self)
        ensures
            r.view() == Map::<Seq<char>, T>::empty(),
    {
        SandboxRegistry { entries: Vec::new() }
    }

    fn find(&self, id: &SandboxId) -> (r: Option<usize>)
        ensures
            match r {
                Some(i) => i < self.entries@.len() && self.entries@[i as int].0.0@ == id.0@,
                None => forall|i: int|
                    0 <= i < self.entries@.len() ==> self.entries@[i].0.0@ != id.0@,
            },
    {
        let mut i: usize = 0;
        while i < self.entries.len()
            invariant
                i <= self.entries@.len(),
                forall|j: int| 0 <= j < i ==> self.entries@[j].0.0@ != id.0@,
            decreases self.entries.len() - i,
        {
            if self.entries[i].0.0 == id.0 {
                return Some(i);
            }
            i += 1;
        }
        None
    }

    /// Adds (or replaces) the sandbox under `id`.
    pub fn register(&mut self, id: SandboxId, sandbox: T)
        ensures
            final(self).view() == old(self).view().insert(id.0@, sandbox),
    {
        proof {
            use_type_invariant(&*self);
        }
        let ghost k = id.0@;
        let mut entries: Vec<(SandboxId, Arc<T>)> = Vec::new();
        std::mem::swap(&mut entries, &mut self.entries);
        let ghost before = entries@;
        match self.find_in(&entries, &id) {
            Some(i) => {
                proof {
                    lemma_entries_map_remove(entries@, i as int);
                }
                entries.remove(i);
            },
            None => {
                proof {
                    lemma_entries_map_key(entries@, k);
                }
            },
        }
        let ghost mid = entries@;
        assert(entries_map(mid) == entries_map(before).remove(k));
        proof {
            lemma_entries_map_key(mid, k);
        }
        entries.push((id, Arc::new(sandbox)));
        assert(distinct_ids(entries@)) by {
            assert forall|a: int, b: int|
                0 <= a < entries@.len() && 0 <= b < entries@.len() && a != b implies entries@[a].0.0@
                != entries@[b].0.0@ by {
                if a < mid.len() && b < mid.len() {
                    assert(entries@[a] == mid[a]);
                    assert(entries@[b] == mid[b]);
                } else if a < mid.len() {
                    assert(entries@[a] == mid[a]);
                    assert(!entries_map(mid).contains_key(k));
                } else {
                    assert(entries@[b] == mid[b]);
                    assert(!entries_map(mid).contains_key(k));
                }
            }
        }
        assert(entries@.drop_last() =~= mid);
        assert(entries_map(entries@) =~= entries_map(before).insert(k, sandbox));
        self.entries = entries;
    }

    fn find_in(&self, entries: &Vec<(SandboxId, Arc<T>)>, id: &SandboxId) -> (r: Option<usize>)
        ensures
            match r {
                Some(i) => i < entries@.len() && entries@[i as int].0.0@ == id.0@,
                None => forall|i: int| 0 <= i < entries@.len() ==> entries@[i].0.0@ != id.0@,
            },
    {
        let mut i: usize = 0;
        while i < entries.len()
            invariant
                i <= entries@.len(),
                forall|j: int| 0 <= j < i ==> entries@[j].0.0@ != id.0@,
            decreases entries.len() - i,
        {
            if entries[i].0.0 == id.0 {
                return Some(i);
            }
            i += 1;
        }
        None
    }

    /// Another handle to the sandbox under `id`, if there is one.
    pub fn get(&self, id: &SandboxId) -> (r: Option<Arc<T>>)
        ensures
            match r {
                Some(a) => self.view().contains_key(id.0@) && *a == self.view()[id.0@],
                None => !self.view().contains_key(id.0@),
            },
    {
        proof {
            use_type_invariant(self);
            lemma_entries_map_key(self.entries@, id.0@);
        }
        match self.find(id) {
            Some(i) => Some(arc_clone(&self.entries[i].1)),
            None => None,
        }
    }

    /// Takes the sandbox under `id` out of the table. An unknown id is
    /// `NotFound`; a sandbox still held elsewhere stays in the table and the
    /// answer is `InUse`.
    pub fn remove(&mut self, id: &SandboxId) -> (r: Result<T, RemoveSandboxError>)
        ensures
            r == Err::<T, RemoveSandboxError>(RemoveSandboxError::NotFound) <==> !old(
                self,
            ).view().contains_key(id.0@),
            r matches Err(e) ==> final(self).view() == old(self).view(),
            r matches Ok(t) ==> old(self).view().contains_key(id.0@) && t == old(self).view()[id.0@]
                && final(self).view() == old(self).view().remove(id.0@),
            r == Err::<T, RemoveSandboxError>(RemoveSandboxError::InUse) ==> old(
                self,
            ).view().contains_key(id.0@) && refused_as_shared(old(self).view()[id.0@]),
    {
        proof {
            use_type_invariant(&*self);
        }
        let ghost k = id.0@;
        let mut entries: Vec<(SandboxId, Arc<T>)> = Vec::new();
        std::mem::swap(&mut entries, &mut self.entries);
        let ghost before = entries@;
        proof {
            lemma_entries_map_key(before, k);
        }
        match self.find_in(&entries, id) {
            None => {
                self.entries = entries;
                Err(RemoveSandboxError::NotFound)
            },
            Some(i) => {
                proof {
                    lemma_entries_map_remove(before, i as int);
                }
                let (key, handle) = entries.remove(i);
                let ghost mid = entries@;
                let ghost h = handle;
                proof {
                    lemma_entries_map_key(before, k);
                }
                match arc_try_unwrap(handle) {
                    Ok(t) => {
                        self.entries = entries;
                        Ok(t)
                    },
                    Err(handle) => {
                        proof {
                            lemma_entries_map_key(mid, k);
                        }
                        entries.push((key, handle));
                        assert(distinct_ids(entries@)) by {
                            assert forall|a: int, b: int|
                                0 <= a < entries@.len() && 0 <= b < entries@.len() && a != b implies entries@[a].0.0@
                                != entries@[b].0.0@ by {
                                if a < mid.len() && b < mid.len() {
                                    assert(entries@[a] == mid[a]);
                                    assert(entries@[b] == mid[b]);
                                } else if a < mid.len() {
                                    assert(entries@[a] == mid[a]);
                                    assert(!entries_map(mid).contains_key(k));
                                } else {
                                    assert(entries@[b] == mid[b]);
                                    assert(!entries_map(mid).contains_key(k));
                                }
                            }
                        }
                        assert(entries@.drop_last() =~= mid);
                        assert(entries_map(entries@) =~= entries_map(before));
                        assert(*h == entries_map(before)[k]);
                        assert(call_ensures(arc_try_unwrap::<T>, (h,), Err::<T, Arc<T>>(h)));
                        self.entries = entries;
                        Err(RemoveSandboxError::InUse)
                    },
                }
            },
        }
    }
}

/// Law: a registered sandbox is what a lookup of its id finds, and
/// registering it changes no other entry.
pub proof fn law_lookup_after_register<T>(
    before: SandboxRegistry<T>,
    after: SandboxRegistry<T>,
    id: Seq<char>,
    sandbox: T,
)
    requires
        after.view() == before.view().insert(id, sandbox),
    ensures
        after.view().contains_key(id),
        after.view()[id] == sandbox,
        forall|other: Seq<char>|
            other != id ==> (after.view().contains_key(other) == before.view().contains_key(other)
                && (before.view().contains_key(other) ==> after.view()[other] == before.view()[other])),
{
}

/// Law: once a sandbox has been removed, its id is unknown (a second removal
/// answers `NotFound`, a lookup finds nothing), and no other entry changed.
pub proof fn law_removed_sandbox_is_gone<T>(
    before: SandboxRegistry<T>,
    after: SandboxRegistry<T>,
    id: Seq<char>,
)
    requires
        after.view() == before.view().remove(id),
    ensures
        !after.view().contains_key(id),
        forall|other: Seq<char>|
            other != id ==> (after.view().contains_key(other) == before.view().contains_key(other)
                && (before.view().contains_key(other) ==> after.view()[other] == before.view()[other])),
{
}

} // verus!
