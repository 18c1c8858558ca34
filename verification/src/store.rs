use vstd::prelude::*;

verus! {

/// What is stored under one key: the payload text and, if set, the absolute
/// time (in milliseconds) at which the record expires.
pub struct Record {
    pub value: String,
    pub expire_at: Option<u64>,
}

/// Mathematical image of a `Record`: the payload as a sequence of characters,
/// the expiry unchanged.
pub ghost struct RecordModel {
    pub value: Seq<char>,
    pub expire_at: Option<u64>,
}

impl Record {
    pub open spec fn model(&self) -> RecordModel {
        RecordModel { value: self.value@, expire_at: self.expire_at }
    }
}

struct Entry {
    key: String,
    rec: Record,
}

spec fn entries_map(s: Seq<Entry>) -> Map<Seq<char>, RecordModel>
    decreases s.len(),
{
    if s.len() == 0 {
        Map::empty()
    } else {
        entries_map(s.drop_last()).insert(s.last().key@, s.last().rec.model())
    }
}

spec fn unique_keys(s: Seq<Entry>) -> bool {
    forall|i: int, j: int| 0 <= i < j < s.len() ==> s[i].key@ != s[j].key@
}

proof fn lemma_entries_map_contains(s: Seq<Entry>, k: Seq<char>)
    ensures
        entries_map(s).contains_key(k) <==> exists|i: int|
            0 <= i < s.len() && #[trigger] s[i].key@ == k,
    decreases s.len(),
{
    if s.len() > 0 {
        lemma_entries_map_contains(s.drop_last(), k);
        if s.last().key@ == k {
            assert(s[s.len() - 1].key@ == k);
        } else {
            if entries_map(s).contains_key(k) {
                let i = choose|i: int| 0 <= i < s.drop_last().len()
                    && #[trigger] s.drop_last()[i].key@ == k;
                assert(s[i].key@ == k);
            }
            if exists|i: int| 0 <= i < s.len() && #[trigger] s[i].key@ == k {
                let i = choose|i: int| 0 <= i < s.len() && #[trigger] s[i].key@ == k;
                assert(s.drop_last()[i].key@ == k);
            }
        }
    }
}

proof fn lemma_entries_map_index(s: Seq<Entry>, i: int)
    requires
        unique_keys(s),
        0 <= i < s.len(),
    ensures
        entries_map(s).contains_key(s[i].key@),
        entries_map(s)[s[i].key@] == s[i].rec.model(),
    decreases s.len(),
{
    if i < s.len() - 1 {
        assert(s[i].key@ != s.last().key@);
        lemma_entries_map_index(s.drop_last(), i);
        assert(s.drop_last()[i] == s[i]);
    }
}

proof fn lemma_entries_map_remove(s: Seq<Entry>, i: int)
    requires
        unique_keys(s),
        0 <= i < s.len(),
    ensures
        entries_map(s.remove(i)) == entries_map(s).remove(s[i].key@),
    decreases s.len(),
{
    let k = s[i].key@;
    if i == s.len() - 1 {
        assert(s.remove(i) =~= s.drop_last());
        lemma_entries_map_contains(s.drop_last(), k);
        assert forall|j: int| 0 <= j < s.drop_last().len()
            implies #[trigger] s.drop_last()[j].key@ != k by {
            assert(s[j].key@ == s.drop_last()[j].key@);
        }
        assert(!entries_map(s.drop_last()).contains_key(k));
        assert(entries_map(s.drop_last()) =~= entries_map(s).remove(k));
    } else {
        lemma_entries_map_remove(s.drop_last(), i);
        assert(s.remove(i).drop_last() =~= s.drop_last().remove(i));
        assert(s.remove(i).last() == s.last());
        assert(s.last().key@ != k);
        assert(entries_map(s.remove(i)) =~= entries_map(s).remove(k));
    }
}

proof fn lemma_entries_map_push(s: Seq<Entry>, e: Entry)
    ensures
        entries_map(s.push(e)) == entries_map(s).insert(e.key@, e.rec.model()),
{
    assert(s.push(e).drop_last() =~= s);
    assert(s.push(e).last() == e);
}

/// Equality of two string slices, by contents.
pub fn str_eq(a: &str, b: &str) -> (r: bool)
    ensures
        r == (a@ == b@),
{
    let x: String = a.to_owned();
    let y: String = b.to_owned();
    x == y
}

/// The key-value store: a finite mapping from key to `Record`.
///
/// Its view is the corresponding mathematical `Map`; every operation's
/// contract is stated against that map.
pub struct Store {
    entries: Vec<Entry>,
}

impl Store {
    /// Internal well-formedness: no key occurs twice in the backing vector.
    /// Established by `new` and preserved by every operation.
    pub closed spec fn wf(&self) -> bool {
        unique_keys(self.entries@)
    }

    pub closed spec fn view(&self) -> Map<Seq<char>, RecordModel> {
        entries_map(self.entries@)
    }

    pub fn new() -> (s: Store)
        ensures
            s.wf(),
            s@ == Map::<Seq<char>, RecordModel>::empty(),
    {
        Store { entries: Vec::new() }
    }

    fn find(&self, key: &str) -> (r: Option<usize>)
        requires
            self.wf(),
        ensures
            match r {
                Some(i) => i < self.entries@.len() && self.entries@[i as int].key@ == key@
                    && self@.contains_key(key@)
                    && self@[key@] == self.entries@[i as int].rec.model(),
                None => !self@.contains_key(key@),
            },
    {
        let n = self.entries.len();
        for i in 0..n
            invariant
                n == self.entries@.len(),
                unique_keys(self.entries@),
                forall|j: int| 0 <= j < i ==> #[trigger] self.entries@[j].key@ != key@,
        {
            if str_eq(self.entries[i].key.as_str(), key) {
                proof {
                    lemma_entries_map_index(self.entries@, i as int);
                }
                return Some(i);
            }
        }
        proof {
            lemma_entries_map_contains(self.entries@, key@);
        }
        None
    }

    /// Look a key up; the store is not changed.
    pub fn get(&self, key: &str) -> (r: Option<&Record>)
        requires
            self.wf(),
        ensures
            match r {
                Some(rec) => self@.contains_key(key@) && self@[key@] == rec.model(),
                None => !self@.contains_key(key@),
            },
    {
        match self.find(key) {
            Some(i) => Some(&self.entries[i].rec),
            None => None,
        }
    }

    /// Is the key present? No expiry check is made.
    pub fn contains(&self, key: &str) -> (r: bool)
        requires
            self.wf(),
        ensures
            r == self@.contains_key(key@),
    {
        self.find(key).is_some()
    }

    /// Insert a record under the key, replacing any record already there.
    pub fn upsert(&mut self, key: &str, rec: Record)
        requires
            old(self).wf(),
        ensures
            final(self).wf(),
            final(self)@ == old(self)@.insert(key@, rec.model()),
    {
        let ghost m0 = self@;
        let k: String = key.to_owned();
        match self.find(key) {
            Some(i) => {
                proof {
                    lemma_entries_map_remove(self.entries@, i as int);
                }
                let _ = self.entries.remove(i);
                proof {
                    lemma_entries_map_contains(self.entries@, key@);
                    lemma_entries_map_push(self.entries@, Entry { key: k, rec });
                }
                let ghost s1 = self.entries@;
                self.entries.push(Entry { key: k, rec });
                proof {
                    assert(forall|j: int| 0 <= j < s1.len()
                        ==> #[trigger] s1[j].key@ != key@) by {
                        if exists|j: int| 0 <= j < s1.len() && #[trigger] s1[j].key@ == key@ {
                            lemma_entries_map_contains(s1, key@);
                            assert(m0.remove(key@).contains_key(key@));
                        }
                    }
                    assert(self@ =~= m0.insert(key@, rec.model()));
                }
            }
            None => {
                proof {
                    lemma_entries_map_contains(self.entries@, key@);
                    lemma_entries_map_push(self.entries@, Entry { key: k, rec });
                }
                self.entries.push(Entry { key: k, rec });
                proof {
                    assert(self@ =~= m0.insert(key@, rec.model()));
                }
            }
        }
    }

    /// Remove the key's record if present; report whether one was removed.
    pub fn remove(&mut self, key: &str) -> (r: bool)
        requires
            old(self).wf(),
        ensures
            final(self).wf(),
            r == old(self)@.contains_key(key@),
            final(self)@ == old(self)@.remove(key@),
    {
        let ghost m0 = self@;
        match self.find(key) {
            Some(i) => {
                proof {
                    lemma_entries_map_remove(self.entries@, i as int);
                }
                let _ = self.entries.remove(i);
                true
            }
            None => {
                proof {
                    assert(self@ =~= m0.remove(key@));
                }
                false
            }
        }
    }
}

} // verus!
