use vstd::prelude::*;

verus! {

/// Compares two byte slices.
pub fn bytes_equal(a: &[u8], b: &[u8]) -> (r: bool)
    ensures
        r == (a@ == b@),
{
    if a.len() != b.len() {
        return false;
    }
    let mut i: usize = 0;
    while i < a.len()
        invariant
            a@.len() == b@.len(),
            i <= a@.len(),
            forall|j: int| 0 <= j < i ==> a@[j] == b@[j],
        decreases a@.len() - i,
    {
        if a[i] != b[i] {
            return false;
        }
        i = i + 1;
    }
    assert(a@ =~= b@);
    true
}

/// The first `max_len` bytes of `v` (all of them when it is shorter).
pub open spec fn prefix_up_to(v: Seq<u8>, max_len: int) -> Seq<u8> {
    if v.len() <= max_len {
        v
    } else {
        v.subrange(0, max_len)
    }
}

/// A key-value store of byte strings: the contract storage that the host
/// offers to a contract (`storage_save` / `storage_load`), held in memory.
pub struct KvStore {
    entries: Vec<(Vec<u8>, Vec<u8>)>,
    contents: Ghost<Map<Seq<u8>, Seq<u8>>>,
}

impl View for KvStore {
    type V = Map<Seq<u8>, Seq<u8>>;

    open spec fn view(&self) -> Map<Seq<u8>, Seq<u8>> {
        self.as_map()
    }
}

impl KvStore {
    /// The contents of the store: which key holds which bytes.
    pub closed spec fn as_map(&self) -> Map<Seq<u8>, Seq<u8>> {
        self.contents@
    }

    /// Each stored key occurs once, and the entries are exactly the map.
    pub closed spec fn wf(&self) -> bool {
        &&& forall|i: int, j: int|
            0 <= i < j < self.entries@.len() ==> self.entries@[i].0@ != self.entries@[j].0@
        &&& forall|i: int|
            0 <= i < self.entries@.len() ==> #[trigger] self.contents@.contains_key(self.entries@[i].0@)
                && self.contents@[self.entries@[i].0@] == self.entries@[i].1@
        &&& forall|k: Seq<u8>|
            #[trigger] self.contents@.contains_key(k) ==> exists|i: int|
                0 <= i < self.entries@.len() && self.entries@[i].0@ == k
    }

    /// An empty store.
    pub fn new() -> (s: KvStore)
        ensures
            s.wf(),
            s@ == Map::<Seq<u8>, Seq<u8>>::empty(),
    {
        KvStore { entries: Vec::new(), contents: Ghost(Map::empty()) }
    }

    fn find(&self, key: &[u8]) -> (r: Option<usize>)
        requires
            self.wf(),
        ensures
            match r {
                Some(i) => i < self.entries@.len() && self.entries@[i as int].0@ == key@,
                None => !self@.contains_key(key@),
            },
    {
        let mut i: usize = 0;
        while i < self.entries.len()
            invariant
                self.wf(),
                i <= self.entries@.len(),
                forall|j: int| 0 <= j < i ==> self.entries@[j].0@ != key@,
            decreases self.entries@.len() - i,
        {
            if bytes_equal(self.entries[i].0.as_slice(), key) {
                return Some(i);
            }
            i = i + 1;
        }
        None
    }

    /// Whether `key` holds a value.
    pub fn contains_key(&self, key: &[u8]) -> (r: bool)
        requires
            self.wf(),
        ensures
            r == self@.contains_key(key@),
    {
        match self.find(key) {
            Some(_) => true,
            None => false,
        }
    }

    /// The value under `key`, cut to at most `max_len` bytes, or `None` when
    /// the key holds nothing.
    pub fn load(&self, key: &[u8], max_len: usize) -> (r: Option<Vec<u8>>)
        requires
            self.wf(),
        ensures
            self@.contains_key(key@) ==> (r matches Some(v) && v@ == prefix_up_to(self@[key@], max_len as int)),
            !self@.contains_key(key@) ==> r is None,
    {
        match self.find(key) {
            None => None,
            Some(i) => {
                let v = &self.entries[i].1;
                let n = if v.len() <= max_len { v.len() } else { max_len };
                let out = crate::wire::copy_range(v.as_slice(), 0, n);
                proof {
                    if v@.len() <= max_len {
                        assert(v@.subrange(0, v@.len() as int) == v@);
                    }
                }
                Some(out)
            },
        }
    }

    /// Stores `value` under `key`, replacing what was there.
    pub fn save(&mut self, key: &[u8], value: &[u8])
        requires
            old(self).wf(),
        ensures
            final(self).wf(),
            final(self)@ == old(self)@.insert(key@, value@),
    {
        let kv = crate::wire::copy_range(key, 0, key.len());
        let vv = crate::wire::copy_range(value, 0, value.len());
        proof {
            assert(key@.subrange(0, key@.len() as int) == key@);
            assert(value@.subrange(0, value@.len() as int) == value@);
        }
        match self.find(key) {
            Some(i) => {
                self.entries.set(i, (kv, vv));
                self.contents = Ghost(self.contents@.insert(key@, value@));
                proof {
                    assert forall|j: int| 0 <= j < self.entries@.len() implies
                        #[trigger] self.contents@.contains_key(self.entries@[j].0@)
                        && self.contents@[self.entries@[j].0@] == self.entries@[j].1@ by {
                        if j != i {
                            assert(old(self).entries@[j] == self.entries@[j]);
                            assert(old(self).entries@[j].0@ != old(self).entries@[i as int].0@);
                        }
                    }
                    assert forall|a: int, b: int| 0 <= a < b < self.entries@.len() implies
                        self.entries@[a].0@ != self.entries@[b].0@ by {
                        assert(old(self).entries@[a].0@ != old(self).entries@[b].0@);
                    }
                    assert forall|k: Seq<u8>| #[trigger] self.contents@.contains_key(k) implies exists|j: int|
                        0 <= j < self.entries@.len() && self.entries@[j].0@ == k by {
                        if k != key@ {
                            assert(old(self).contents@.contains_key(k));
                            let j = choose|j: int| 0 <= j < old(self).entries@.len() && old(self).entries@[j].0@ == k;
                            assert(self.entries@[j].0@ == k);
                        } else {
                            assert(self.entries@[i as int].0@ == k);
                        }
                    }
                }
            },
            None => {
                self.entries.push((kv, vv));
                self.contents = Ghost(self.contents@.insert(key@, value@));
                proof {
                    let n = self.entries@.len() - 1;
                    assert forall|j: int| 0 <= j < self.entries@.len() implies
                        #[trigger] self.contents@.contains_key(self.entries@[j].0@)
                        && self.contents@[self.entries@[j].0@] == self.entries@[j].1@ by {
                        if j != n {
                            assert(old(self).entries@[j] == self.entries@[j]);
                            assert(old(self).contents@.contains_key(old(self).entries@[j].0@));
                        }
                    }
                    assert forall|k: Seq<u8>| #[trigger] self.contents@.contains_key(k) implies exists|j: int|
                        0 <= j < self.entries@.len() && self.entries@[j].0@ == k by {
                        if k != key@ {
                            assert(old(self).contents@.contains_key(k));
                            let j = choose|j: int| 0 <= j < old(self).entries@.len() && old(self).entries@[j].0@ == k;
                            assert(self.entries@[j].0@ == k);
                        } else {
                            assert(self.entries@[n].0@ == k);
                        }
                    }
                    assert forall|a: int, b: int| 0 <= a < b < self.entries@.len() implies
                        self.entries@[a].0@ != self.entries@[b].0@ by {
                        if b == n {
                            assert(old(self).contents@.contains_key(old(self).entries@[a].0@));
                        }
                    }
                }
            },
        }
    }

    /// Deletes whatever `key` holds.
    pub fn remove(&mut self, key: &[u8])
        requires
            old(self).wf(),
        ensures
            final(self).wf(),
            final(self)@ == old(self)@.remove(key@),
    {
        match self.find(key) {
            None => {
                assert(self.contents@.remove(key@) =~= self.contents@);
            },
            Some(i) => {
                let ghost old_entries = self.entries@;
                let _ = self.entries.remove(i);
                self.contents = Ghost(self.contents@.remove(key@));
                proof {
                    assert(self.entries@ =~= old_entries.remove(i as int));
                    assert forall|j: int| 0 <= j < self.entries@.len() implies
                        #[trigger] self.contents@.contains_key(self.entries@[j].0@)
                        && self.contents@[self.entries@[j].0@] == self.entries@[j].1@ by {
                        let oj = if j < i { j } else { j + 1 };
                        assert(self.entries@[j] == old_entries[oj]);
                        assert(old_entries[oj].0@ != old_entries[i as int].0@);
                        assert(old(self).contents@.contains_key(old_entries[oj].0@));
                    }
                    assert forall|a: int, b: int| 0 <= a < b < self.entries@.len() implies
                        self.entries@[a].0@ != self.entries@[b].0@ by {
                        let oa = if a < i { a } else { a + 1 };
                        let ob = if b < i { b } else { b + 1 };
                        assert(self.entries@[a] == old_entries[oa]);
                        assert(self.entries@[b] == old_entries[ob]);
                        assert(old_entries[oa].0@ != old_entries[ob].0@);
                    }
                    assert forall|k: Seq<u8>| #[trigger] self.contents@.contains_key(k) implies exists|j: int|
                        0 <= j < self.entries@.len() && self.entries@[j].0@ == k by {
                        assert(old(self).contents@.contains_key(k));
                        let oj = choose|oj: int| 0 <= oj < old_entries.len() && old_entries[oj].0@ == k;
                        assert(oj != i);
                        let j = if oj < i { oj } else { oj - 1 };
                        assert(self.entries@[j] == old_entries[oj]);
                    }
                }
            },
        }
    }
}

} // verus!
