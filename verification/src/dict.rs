use vstd::prelude::*;

verus! {

/// One key/value pair of a [`StrDict`].
#[derive(Debug)]
pub struct DictEntry {
    pub key: String,
    pub value: String,
}

impl Clone for DictEntry {
    fn clone(&self) -> (r: Self)
        ensures
            r.key@ == self.key@,
            r.value@ == self.value@,
    {
        DictEntry { key: self.key.clone(), value: self.value.clone() }
    }
}

/// A string-to-string mapping with unique keys, stored as an association
/// list and viewed as a `Map<Seq<char>, Seq<char>>`.
#[derive(Debug)]
pub struct StrDict {
    entries: Vec<DictEntry>,
}

/// The map described by a sequence of entries; later entries win.
pub open spec fn entries_map(s: Seq<DictEntry>) -> Map<Seq<char>, Seq<char>>
    decreases s.len(),
{
    if s.len() == 0 {
        Map::empty()
    } else {
        entries_map(s.drop_last()).insert(s.last().key@, s.last().value@)
    }
}

/// No two entries share a key.
pub open spec fn keys_unique(s: Seq<DictEntry>) -> bool {
    forall|i: int, j: int| 0 <= i < j < s.len() ==> s[i].key@ != s[j].key@
}

/// The domain of the entry map is exactly the keys of the entries, and under
/// unique keys each entry's value is the mapped value.
proof fn lemma_entries_map(s: Seq<DictEntry>)
    ensures
        forall|k: Seq<char>|
            entries_map(s).contains_key(k) <==> (exists|i: int|
                0 <= i < s.len() && s[i].key@ == k),
        keys_unique(s) ==> forall|i: int|
            0 <= i < s.len() ==> #[trigger] entries_map(s)[s[i].key@] == s[i].value@,
    decreases s.len(),
{
    if s.len() > 0 {
        let d = s.drop_last();
        lemma_entries_map(d);
        assert forall|k: Seq<char>|
            entries_map(s).contains_key(k) <==> (exists|i: int|
                0 <= i < s.len() && s[i].key@ == k) by {
            if entries_map(s).contains_key(k) {
                if k == s.last().key@ {
                    assert(s[s.len() - 1].key@ == k);
                } else {
                    assert(entries_map(d).contains_key(k));
                    let i = choose|i: int| 0 <= i < d.len() && d[i].key@ == k;
                    assert(d[i] == s[i]);
                    assert(s[i].key@ == k);
                }
            }
            if exists|i: int| 0 <= i < s.len() && s[i].key@ == k {
                let i = choose|i: int| 0 <= i < s.len() && s[i].key@ == k;
                if i < s.len() - 1 {
                    assert(d[i] == s[i]);
                    assert(entries_map(d).contains_key(k));
                    assert(entries_map(s).contains_key(k));
                } else {
                    assert(k == s.last().key@);
                    assert(entries_map(s).contains_key(k));
                }
            }
        }
        if keys_unique(s) {
            assert(keys_unique(d));
            assert forall|i: int| 0 <= i < s.len() implies #[trigger] entries_map(s)[s[i].key@]
                == s[i].value@ by {
                if i < s.len() - 1 {
                    assert(d[i] == s[i]);
                    assert(s[i].key@ != s.last().key@);
                    assert(entries_map(d)[d[i].key@] == d[i].value@);
                }
            }
        }
    }
}

/// Removing the entry at `i` removes exactly its key from the map.
proof fn lemma_entries_map_remove(s: Seq<DictEntry>, i: int)
    requires
        keys_unique(s),
        0 <= i < s.len(),
    ensures
        entries_map(s.remove(i)) =~= entries_map(s).remove(s[i].key@),
    decreases s.len(),
{
    let d = s.drop_last();
    lemma_entries_map(s);
    lemma_entries_map(d);
    if i == s.len() - 1 {
        assert(s.remove(i) =~= d);
        assert(!entries_map(d).contains_key(s[i].key@));
        assert(entries_map(d) =~= entries_map(d).insert(s.last().key@, s.last().value@).remove(
            s[i].key@,
        ));
    } else {
        assert(keys_unique(d));
        lemma_entries_map_remove(d, i);
        assert(s.remove(i).drop_last() =~= d.remove(i));
        assert(s.remove(i).last() == s.last());
        assert(s.remove(i).len() > 0);
        assert(entries_map(s.remove(i)) == entries_map(d.remove(i)).insert(
            s.last().key@,
            s.last().value@,
        ));
        assert(d[i].key@ != s.last().key@);
        assert(entries_map(d.remove(i)).insert(s.last().key@, s.last().value@) =~= entries_map(
            d,
        ).insert(s.last().key@, s.last().value@).remove(d[i].key@));
    }
}

impl View for StrDict {
    type V = Map<Seq<char>, Seq<char>>;

    closed spec fn view(&self) -> Map<Seq<char>, Seq<char>> {
        entries_map(self.entries@)
    }
}

impl Clone for StrDict {
    fn clone(&self) -> (r: Self)
        ensures
            r@ == self@,
            r.wf() == self.wf(),
    {
        let mut entries: Vec<DictEntry> = Vec::new();
        let mut i: usize = 0;
        while i < self.entries.len()
            invariant
                0 <= i <= self.entries@.len(),
                entries@.len() == i,
                forall|j: int|
                    0 <= j < i ==> #[trigger] entries@[j].key@ == self.entries@[j].key@
                        && entries@[j].value@ == self.entries@[j].value@,
            decreases self.entries@.len() - i,
        {
            let ghost before = entries@;
            let c = self.entries[i].clone();
            entries.push(c);
            proof {
                assert(entries@ == before.push(c));
                assert forall|j: int|
                    0 <= j < i + 1 implies #[trigger] entries@[j].key@ == self.entries@[j].key@
                        && entries@[j].value@ == self.entries@[j].value@ by {
                    if j < i {
                        assert(entries@[j] == before[j]);
                    } else {
                        assert(entries@[j] == c);
                    }
                }
            }
            i += 1;
        }
        proof {
            lemma_view_congruence(entries@, self.entries@);
        }
        StrDict { entries }
    }
}

/// Removing an entry keeps the remaining keys pairwise distinct.
proof fn lemma_keys_unique_remove(s: Seq<DictEntry>, i: int)
    requires
        keys_unique(s),
        0 <= i < s.len(),
    ensures
        keys_unique(s.remove(i)),
{
    let t = s.remove(i);
    assert forall|a: int, b: int| 0 <= a < b < t.len() implies t[a].key@ != t[b].key@ by {
        let x: int = if a < i { a } else { a + 1 };
        let y: int = if b < i { b } else { b + 1 };
        assert(t[a] == s[x]);
        assert(t[b] == s[y]);
        assert(s[x].key@ != s[y].key@);
    }
}

/// Entry sequences equal key-for-key and value-for-value describe the same
/// map and the same uniqueness.
proof fn lemma_view_congruence(a: Seq<DictEntry>, b: Seq<DictEntry>)
    requires
        a.len() == b.len(),
        forall|j: int|
            0 <= j < a.len() ==> #[trigger] a[j].key@ == b[j].key@ && a[j].value@ == b[j].value@,
    ensures
        entries_map(a) =~= entries_map(b),
        keys_unique(a) == keys_unique(b),
    decreases a.len(),
{
    if a.len() > 0 {
        assert forall|j: int|
            0 <= j < a.drop_last().len() implies #[trigger] a.drop_last()[j].key@
                == b.drop_last()[j].key@ && a.drop_last()[j].value@ == b.drop_last()[j].value@ by {
            assert(a.drop_last()[j] == a[j]);
            assert(b.drop_last()[j] == b[j]);
            assert(a[j].key@ == b[j].key@ && a[j].value@ == b[j].value@);
        }
        lemma_view_congruence(a.drop_last(), b.drop_last());
        assert(a.last().key@ == b.last().key@ && a.last().value@ == b.last().value@);
    }
    if keys_unique(a) != keys_unique(b) {
        if keys_unique(a) {
            let (i, j) = choose|i: int, j: int| 0 <= i < j < b.len() && b[i].key@ == b[j].key@;
            assert(a[i].key@ != a[j].key@);
        } else {
            let (i, j) = choose|i: int, j: int| 0 <= i < j < a.len() && a[i].key@ == a[j].key@;
            assert(b[i].key@ != b[j].key@);
        }
    }
}

impl StrDict {
    /// Keys are pairwise distinct.
    pub closed spec fn wf(&self) -> bool {
        keys_unique(self.entries@)
    }

    /// An empty mapping.
    pub fn new() -> (r: StrDict)
        ensures
            r@ == Map::<Seq<char>, Seq<char>>::empty(),
            r.wf(),
    {
        StrDict { entries: Vec::new() }
    }

    fn position_of(&self, key: &String) -> (r: Option<usize>)
        ensures
            match r {
                Some(i) => i < self.entries@.len() && self.entries@[i as int].key@ == key@,
                None => forall|j: int| 0 <= j < self.entries@.len() ==> self.entries@[j].key@
                    != key@,
            },
    {
        let mut i: usize = 0;
        while i < self.entries.len()
            invariant
                0 <= i <= self.entries@.len(),
                forall|j: int| 0 <= j < i ==> self.entries@[j].key@ != key@,
            decreases self.entries@.len() - i,
        {
            if crate::text::string_eq(&self.entries[i].key, key) {
                return Some(i);
            }
            i += 1;
        }
        None
    }

    /// Whether `key` is present.
    pub fn contains_key(&self, key: &String) -> (r: bool)
        ensures
            r == self@.contains_key(key@),
    {
        proof {
            lemma_entries_map(self.entries@);
        }
        self.position_of(key).is_some()
    }

    /// The value stored under `key`, if any.
    pub fn get(&self, key: &String) -> (r: Option<&String>)
        requires
            self.wf(),
        ensures
            match r {
                Some(v) => self@.contains_key(key@) && v@ == self@[key@],
                None => !self@.contains_key(key@),
            },
    {
        proof {
            lemma_entries_map(self.entries@);
        }
        match self.position_of(key) {
            Some(i) => Some(&self.entries[i].value),
            None => None,
        }
    }

    /// Stores `value` under `key`, replacing any previous value.
    pub fn insert(&mut self, key: String, value: String)
        requires
            old(self).wf(),
        ensures
            final(self).wf(),
            final(self)@ == old(self)@.insert(key@, value@),
    {
        proof {
            lemma_entries_map(self.entries@);
        }
        match self.position_of(&key) {
            Some(i) => {
                let ghost s = self.entries@;
                self.entries.remove(i);
                proof {
                    lemma_entries_map_remove(s, i as int);
                    lemma_keys_unique_remove(s, i as int);
                    lemma_entries_map(self.entries@);
                    assert(!entries_map(self.entries@).contains_key(key@));
                }
                let ghost t = self.entries@;
                self.entries.push(DictEntry { key, value });
                proof {
                    assert(self.entries@.drop_last() =~= t);
                    assert(final(self)@ =~= old(self)@.insert(key@, value@));
                }
            },
            None => {
                let ghost t = self.entries@;
                self.entries.push(DictEntry { key, value });
                proof {
                    assert(self.entries@.drop_last() =~= t);
                }
            },
        }
    }

    /// Removes `key`; absent keys are a no-op.
    pub fn remove(&mut self, key: &String)
        requires
            old(self).wf(),
        ensures
            final(self).wf(),
            final(self)@ == old(self)@.remove(key@),
    {
        proof {
            lemma_entries_map(self.entries@);
        }
        match self.position_of(key) {
            Some(i) => {
                let ghost s = self.entries@;
                self.entries.remove(i);
                proof {
                    lemma_entries_map_remove(s, i as int);
                    lemma_keys_unique_remove(s, i as int);
                }
            },
            None => {
                proof {
                    assert(final(self)@ =~= old(self)@.remove(key@));
                }
            },
        }
    }

    /// All pairs of the mapping, each key exactly once.
    pub fn items(&self) -> (r: Vec<(String, String)>)
        requires
            self.wf(),
        ensures
            forall|i: int|
                0 <= i < r@.len() ==> self@.contains_key(#[trigger] r@[i].0@) && self@[r@[i].0@]
                    == r@[i].1@,
            forall|k: Seq<char>|
                self@.contains_key(k) ==> exists|i: int| 0 <= i < r@.len() && r@[i].0@ == k,
    {
        proof {
            lemma_entries_map(self.entries@);
        }
        let mut r: Vec<(String, String)> = Vec::new();
        let mut i: usize = 0;
        while i < self.entries.len()
            invariant
                self.wf(),
                0 <= i <= self.entries@.len(),
                r@.len() == i,
                forall|j: int|
                    0 <= j < i ==> #[trigger] r@[j].0@ == self.entries@[j].key@ && r@[j].1@
                        == self.entries@[j].value@,
            decreases self.entries@.len() - i,
        {
            r.push((self.entries[i].key.clone(), self.entries[i].value.clone()));
            i += 1;
        }
        proof {
            lemma_entries_map(self.entries@);
            assert forall|k: Seq<char>| self@.contains_key(k) implies exists|i: int|
                0 <= i < r@.len() && r@[i].0@ == k by {
                let i = choose|i: int| 0 <= i < self.entries@.len() && self.entries@[i].key@ == k;
                assert(r@[i].0@ == k);
            }
        }
        r
    }
}

} // verus!
