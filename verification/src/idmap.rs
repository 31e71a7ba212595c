//! A small map keyed by sandbox id text, kept as a list of distinct keys.
use vstd::prelude::*;

verus! {

/// The map that a list of entries stands for (later entries win).
pub open spec fn pairs_map<V>(s: Seq<(String, V)>) -> Map<Seq<char>, V>
    decreases s.len(),
{
    if s.len() == 0 {
        Map::empty()
    } else {
        pairs_map(s.drop_last()).insert(s.last().0@, s.last().1)
    }
}

/// No two entries share a key.
pub open spec fn distinct_keys<V>(s: Seq<(String, V)>) -> bool {
    forall|i: int, j: int| 0 <= i < s.len() && 0 <= j < s.len() && i != j ==> s[i].0@ != s[j].0@
}

proof fn lemma_drop_last_distinct<V>(s: Seq<(String, V)>)
    requires
        distinct_keys(s),
        s.len() > 0,
    ensures
        distinct_keys(s.drop_last()),
{
    let d = s.drop_last();
    assert forall|a: int, b: int| 0 <= a < d.len() && 0 <= b < d.len() && a != b implies d[a].0@
        != d[b].0@ by {
        assert(d[a] == s[a]);
        assert(d[b] == s[b]);
    }
}

proof fn lemma_pairs_map_key<V>(s: Seq<(String, V)>, k: Seq<char>)
    requires
        distinct_keys(s),
    ensures
        pairs_map(s).contains_key(k) <==> exists|i: int| 0 <= i < s.len() && s[i].0@ == k,
        forall|i: int| 0 <= i < s.len() && s[i].0@ == k ==> pairs_map(s)[k] == s[i].1,
    decreases s.len(),
{
    if s.len() > 0 {
        let d = s.drop_last();
        lemma_drop_last_distinct(s);
        lemma_pairs_map_key(d, k);
        assert(s[s.len() - 1] == s.last());
        if pairs_map(s).contains_key(k) {
            if s.last().0@ != k {
                let i = choose|i: int| 0 <= i < d.len() && d[i].0@ == k;
                assert(s[i] == d[i]);
            }
        }
        if exists|i: int| 0 <= i < s.len() && s[i].0@ == k {
            let i = choose|i: int| 0 <= i < s.len() && s[i].0@ == k;
            if i < s.len() - 1 {
                assert(s[i] == d[i]);
            }
        }
        assert forall|i: int| 0 <= i < s.len() && s[i].0@ == k implies pairs_map(s)[k] == s[i].1 by {
            if i < s.len() - 1 {
                assert(s[i] == d[i]);
                assert(s[i].0@ != s[s.len() - 1].0@);
            }
        }
    }
}

proof fn lemma_pairs_map_remove<V>(s: Seq<(String, V)>, i: int)
    requires
        distinct_keys(s),
        0 <= i < s.len(),
    ensures
        pairs_map(s.remove(i)) == pairs_map(s).remove(s[i].0@),
        distinct_keys(s.remove(i)),
    decreases s.len(),
{
    let k = s[i].0@;
    let r = s.remove(i);
    assert(distinct_keys(r)) by {
        assert forall|a: int, b: int| 0 <= a < r.len() && 0 <= b < r.len() && a != b implies r[a].0@
            != r[b].0@ by {
            let a2 = if a < i { a } else { a + 1 };
            let b2 = if b < i { b } else { b + 1 };
            assert(r[a] == s[a2]);
            assert(r[b] == s[b2]);
        }
    }
    let d = s.drop_last();
    lemma_drop_last_distinct(s);
    if i == s.len() - 1 {
        assert(r =~= d);
        lemma_pairs_map_key(d, k);
        assert(!pairs_map(d).contains_key(k)) by {
            if pairs_map(d).contains_key(k) {
                let j = choose|j: int| 0 <= j < d.len() && d[j].0@ == k;
                assert(s[j] == d[j]);
            }
        }
        assert(pairs_map(r) =~= pairs_map(s).remove(k));
    } else {
        lemma_pairs_map_remove(d, i);
        assert(d[i] == s[i]);
        assert(r =~= d.remove(i).push(s.last()));
        assert(r.drop_last() =~= d.remove(i));
        assert(s.last().0@ != k) by {
            assert(s[s.len() - 1] == s.last());
        }
        assert(pairs_map(r) =~= pairs_map(s).remove(k));
    }
}

/// Entries with distinct string keys.
pub struct IdMap<V> {
    entries: Vec<(String, V)>,
}

impl<V> IdMap<V> {
    #[verifier::type_invariant]
    spec fn well_formed(&self) -> bool {
        distinct_keys(self.entries@)
    }

    /// The map.
    pub closed spec fn view(&self) -> Map<Seq<char>, V> {
        pairs_map(self.entries@)
    }

    /// The values, in storage order.
    pub closed spec fn values(&self) -> Seq<V> {
        self.entries@.map_values(|e: (String, V)| e.1)
    }

    /// An empty map.
    pub fn new() -> (m: Self)
        ensures
            m.view() == Map::<Seq<char>, V>::empty(),
            m.values().len() == 0,
    {
        IdMap { entries: Vec::new() }
    }

    /// Number of entries (one per key).
    pub fn len(&self) -> (n: usize)
        ensures
            n == self.values().len(),
            n == self.view().dom().len(),
            self.view().dom().finite(),
    {
        proof {
            use_type_invariant(self);
            self.lemma_len();
        }
        self.entries.len()
    }

    proof fn lemma_len(&self)
        requires
            distinct_keys(self.entries@),
        ensures
            self.view().dom().finite(),
            self.view().dom().len() == self.entries@.len(),
    {
        lemma_dom_len(self.entries@);
    }

    fn position(entries: &Vec<(String, V)>, key: &str) -> (r: Option<usize>)
        ensures
            match r {
                Some(i) => i < entries@.len() && entries@[i as int].0@ == key@,
                None => forall|i: int| 0 <= i < entries@.len() ==> entries@[i].0@ != key@,
            },
    {
        let mut i: usize = 0;
        while i < entries.len()
            invariant
                i <= entries@.len(),
                forall|j: int| 0 <= j < i ==> entries@[j].0@ != key@,
            decreases entries.len() - i,
        {
            if crate::text::str_eq(entries[i].0.as_str(), key) {
                return Some(i);
            }
            i += 1;
        }
        None
    }

    /// Sets `key` to `value` (replacing an earlier value).
    pub fn insert(&mut self, key: String, value: V)
        ensures
            final(self).view() == old(self).view().insert(key@, value),
    {
        proof {
            use_type_invariant(&*self);
        }
        let ghost k = key@;
        let mut entries: Vec<(String, V)> = Vec::new();
        std::mem::swap(&mut entries, &mut self.entries);
        let ghost before = entries@;
        match Self::position(&entries, key.as_str()) {
            Some(i) => {
                proof {
                    lemma_pairs_map_remove(entries@, i as int);
                }
                entries.remove(i);
            },
            None => {
                proof {
                    lemma_pairs_map_key(entries@, k);
                }
            },
        }
        let ghost mid = entries@;
        assert(pairs_map(mid) == pairs_map(before).remove(k));
        proof {
            lemma_pairs_map_key(mid, k);
        }
        entries.push((key, value));
        assert(distinct_keys(entries@)) by {
            assert forall|a: int, b: int|
                0 <= a < entries@.len() && 0 <= b < entries@.len() && a != b implies entries@[a].0@
                != entries@[b].0@ by {
                if a < mid.len() && b < mid.len() {
                    assert(entries@[a] == mid[a]);
                    assert(entries@[b] == mid[b]);
                } else if a < mid.len() {
                    assert(entries@[a] == mid[a]);
                    assert(!pairs_map(mid).contains_key(k));
                } else {
                    assert(entries@[b] == mid[b]);
                    assert(!pairs_map(mid).contains_key(k));
                }
            }
        }
        assert(entries@.drop_last() =~= mid);
        assert(pairs_map(entries@) =~= pairs_map(before).insert(k, value));
        self.entries = entries;
    }

    /// Removes `key`; returns its value if it was there.
    pub fn remove(&mut self, key: &str) -> (r: Option<V>)
        ensures
            final(self).view() == old(self).view().remove(key@),
            match r {
                Some(v) => old(self).view().contains_key(key@) && v == old(self).view()[key@],
                None => !old(self).view().contains_key(key@),
            },
    {
        proof {
            use_type_invariant(&*self);
        }
        let mut entries: Vec<(String, V)> = Vec::new();
        std::mem::swap(&mut entries, &mut self.entries);
        let ghost before = entries@;
        proof {
            lemma_pairs_map_key(before, key@);
        }
        match Self::position(&entries, key) {
            None => {
                assert(pairs_map(before).remove(key@) =~= pairs_map(before));
                self.entries = entries;
                None
            },
            Some(i) => {
                proof {
                    lemma_pairs_map_remove(before, i as int);
                }
                let (_, v) = entries.remove(i);
                self.entries = entries;
                Some(v)
            },
        }
    }

    /// The value under `key`, if any.
    pub fn get(&self, key: &str) -> (r: Option<&V>)
        ensures
            match r {
                Some(v) => self.view().contains_key(key@) && *v == self.view()[key@],
                None => !self.view().contains_key(key@),
            },
    {
        proof {
            use_type_invariant(self);
            lemma_pairs_map_key(self.entries@, key@);
        }
        match Self::position(&self.entries, key) {
            Some(i) => Some(&self.entries[i].1),
            None => None,
        }
    }

    proof fn lemma_values(&self)
        requires
            distinct_keys(self.entries@),
        ensures
            forall|k: Seq<char>|
                self.view().contains_key(k) ==> exists|i: int|
                    0 <= i < self.values().len() && #[trigger] self.values()[i] == self.view()[k],
    {
        assert forall|k: Seq<char>| self.view().contains_key(k) implies exists|i: int|
            0 <= i < self.values().len() && #[trigger] self.values()[i] == self.view()[k] by {
            lemma_pairs_map_key(self.entries@, k);
            let i = choose|i: int| 0 <= i < self.entries@.len() && self.entries@[i].0@ == k;
            assert(self.values()[i] == self.entries@[i].1);
        }
    }
}

impl<V> IdMap<V> {
    /// References to all values, in storage order.
    pub fn value_refs(&self) -> (r: Vec<&V>)
        ensures
            r@.len() == self.values().len(),
            forall|i: int| 0 <= i < r@.len() ==> *(#[trigger] r@[i]) == self.values()[i],
            forall|k: Seq<char>|
                self.view().contains_key(k) ==> exists|i: int|
                    0 <= i < self.values().len() && #[trigger] self.values()[i] == self.view()[k],
    {
        proof {
            use_type_invariant(self);
            self.lemma_values();
        }
        let mut out: Vec<&V> = Vec::new();
        let mut i: usize = 0;
        while i < self.entries.len()
            invariant
                i <= self.entries@.len(),
                out@.len() == i,
                forall|j: int| 0 <= j < i ==> *(#[trigger] out@[j]) == self.values()[j],
            decreases self.entries.len() - i,
        {
            out.push(&self.entries[i].1);
            i += 1;
        }
        out
    }
}

impl<V: Clone> IdMap<V> {
    /// Copies of all values, in storage order.
    pub fn values_cloned(&self) -> (r: Vec<V>)
        ensures
            r@.len() == self.values().len(),
            forall|i: int| 0 <= i < r@.len() ==> cloned::<V>(self.values()[i], #[trigger] r@[i]),
            forall|k: Seq<char>|
                self.view().contains_key(k) ==> exists|i: int|
                    0 <= i < self.values().len() && #[trigger] self.values()[i] == self.view()[k],
    {
        proof {
            use_type_invariant(self);
            self.lemma_values();
        }
        let mut out: Vec<V> = Vec::new();
        let mut i: usize = 0;
        while i < self.entries.len()
            invariant
                i <= self.entries@.len(),
                out@.len() == i,
                forall|j: int| 0 <= j < i ==> cloned::<V>(self.values()[j], #[trigger] out@[j]),
            decreases self.entries.len() - i,
        {
            out.push(self.entries[i].1.clone());
            i += 1;
        }
        out
    }
}

proof fn lemma_dom_len<V>(s: Seq<(String, V)>)
    requires
        distinct_keys(s),
    ensures
        pairs_map(s).dom().finite(),
        pairs_map(s).dom().len() == s.len(),
    decreases s.len(),
{
    if s.len() > 0 {
        let d = s.drop_last();
        lemma_drop_last_distinct(s);
        lemma_dom_len(d);
        lemma_pairs_map_key(d, s.last().0@);
        assert(!pairs_map(d).contains_key(s.last().0@)) by {
            if pairs_map(d).contains_key(s.last().0@) {
                let j = choose|j: int| 0 <= j < d.len() && d[j].0@ == s.last().0@;
                assert(s[j] == d[j]);
                assert(s[s.len() - 1] == s.last());
            }
        }
        assert(pairs_map(s).dom() =~= pairs_map(d).dom().insert(s.last().0@));
    } else {
        assert(pairs_map(s).dom() =~= Set::<Seq<char>>::empty());
    }
}

} // verus!
