//! An insertion-ordered map from strings to strings whose keys never repeat.
use vstd::prelude::*;
use crate::text::str_eq;

verus! {

/// The entries of a map, in order, as character sequences.
pub type KvSeq = Seq<(Seq<char>, Seq<char>)>;

/// No key occurs twice.
pub open spec fn kv_keys_distinct(s: KvSeq) -> bool {
    forall|i: int, j: int| 0 <= i < j < s.len() ==> #[trigger] s[i].0 != #[trigger] s[j].0
}

/// `k` is one of the keys.
pub open spec fn kv_has_key(s: KvSeq, k: Seq<char>) -> bool {
    exists|i: int| 0 <= i < s.len() && #[trigger] s[i].0 == k
}

/// The value stored under `k`, if any.
pub open spec fn kv_lookup(s: KvSeq, k: Seq<char>) -> Option<Seq<char>>
    decreases s.len(),
{
    if s.len() == 0 {
        None
    } else if s.last().0 == k {
        Some(s.last().1)
    } else {
        kv_lookup(s.drop_last(), k)
    }
}

/// The entries after storing `v` under `k`: an existing entry keeps its
/// place and takes the new value, a new key goes to the end.
pub open spec fn kv_insert(s: KvSeq, k: Seq<char>, v: Seq<char>) -> KvSeq {
    if kv_has_key(s, k) {
        s.update(choose|i: int| 0 <= i < s.len() && #[trigger] s[i].0 == k, (k, v))
    } else {
        s.push((k, v))
    }
}

/// Storing keeps the keys distinct.
pub proof fn lemma_kv_insert_distinct(s: KvSeq, k: Seq<char>, v: Seq<char>)
    requires
        kv_keys_distinct(s),
    ensures
        kv_keys_distinct(kv_insert(s, k, v)),
        kv_has_key(kv_insert(s, k, v), k),
        forall|q: Seq<char>| kv_has_key(kv_insert(s, k, v), q) <==> (q == k || kv_has_key(s, q)),
{
    let r = kv_insert(s, k, v);
    if kv_has_key(s, k) {
        let i = choose|i: int| 0 <= i < s.len() && #[trigger] s[i].0 == k;
        assert(r[i].0 == k);
        assert forall|q: Seq<char>| kv_has_key(r, q) <==> (q == k || kv_has_key(s, q)) by {
            if kv_has_key(s, q) {
                let j = choose|j: int| 0 <= j < s.len() && #[trigger] s[j].0 == q;
                assert(r[j].0 == q);
            }
            if kv_has_key(r, q) {
                let j = choose|j: int| 0 <= j < r.len() && #[trigger] r[j].0 == q;
                if j != i {
                    assert(s[j].0 == q);
                }
            }
        }
    } else {
        assert(r[s.len() as int].0 == k);
        assert forall|q: Seq<char>| kv_has_key(r, q) <==> (q == k || kv_has_key(s, q)) by {
            if kv_has_key(s, q) {
                let j = choose|j: int| 0 <= j < s.len() && #[trigger] s[j].0 == q;
                assert(r[j].0 == q);
            }
            if kv_has_key(r, q) {
                let j = choose|j: int| 0 <= j < r.len() && #[trigger] r[j].0 == q;
                if j < s.len() {
                    assert(s[j].0 == q);
                }
            }
        }
    }
}

/// With distinct keys, looking up a key finds the entry that holds it.
pub proof fn lemma_kv_lookup_at(s: KvSeq, i: int)
    requires
        kv_keys_distinct(s),
        0 <= i < s.len(),
    ensures
        kv_lookup(s, s[i].0) == Some(s[i].1),
    decreases s.len(),
{
    if i < s.len() - 1 {
        let t = s.drop_last();
        assert(s.last().0 != s[i].0);
        assert(t[i] == s[i]);
        assert(kv_keys_distinct(t)) by {
            assert forall|a: int, b: int| 0 <= a < b < t.len() implies #[trigger] t[a].0
                != #[trigger] t[b].0 by {
                assert(t[a] == s[a] && t[b] == s[b]);
            }
        }
        lemma_kv_lookup_at(t, i);
    }
}

/// A key that is not stored is not found.
pub proof fn lemma_kv_lookup_absent(s: KvSeq, k: Seq<char>)
    requires
        !kv_has_key(s, k),
    ensures
        kv_lookup(s, k) is None,
    decreases s.len(),
{
    if s.len() > 0 {
        let t = s.drop_last();
        assert(s[s.len() - 1].0 != k);
        assert forall|j: int| 0 <= j < t.len() implies #[trigger] t[j].0 != k by {
            assert(t[j] == s[j]);
        }
        lemma_kv_lookup_absent(t, k);
    }
}

/// The characters of each stored pair.
pub open spec fn entry_views(s: Seq<(String, String)>) -> KvSeq {
    s.map_values(|e: (String, String)| (e.0@, e.1@))
}

/// A string-to-string map that remembers the order in which keys were first stored.
pub struct StringMap {
    entries: Vec<(String, String)>,
}

impl View for StringMap {
    type V = KvSeq;

    closed spec fn view(&self) -> KvSeq {
        entry_views(self.entries@)
    }
}

impl StringMap {
    #[verifier::type_invariant]
    pub closed spec fn keys_unique(self) -> bool {
        kv_keys_distinct(self@)
    }

    /// An empty map.
    pub fn new() -> (m: Self)
        ensures
            m@ == Seq::<(Seq<char>, Seq<char>)>::empty(),
    {
        let m = StringMap { entries: Vec::new() };
        assert(m@ =~= Seq::<(Seq<char>, Seq<char>)>::empty());
        m
    }

    /// Number of entries.
    pub fn len(&self) -> (n: usize)
        ensures
            n == self@.len(),
    {
        self.entries.len()
    }

    /// Whether the map has no entries.
    pub fn is_empty(&self) -> (b: bool)
        ensures
            b == (self@.len() == 0),
    {
        self.entries.len() == 0
    }

    /// The key of the `i`-th entry.
    pub fn key(&self, i: usize) -> (k: &String)
        requires
            i < self@.len(),
        ensures
            k@ == self@[i as int].0,
    {
        &self.entries[i].0
    }

    /// The value of the `i`-th entry.
    pub fn value(&self, i: usize) -> (v: &String)
        requires
            i < self@.len(),
        ensures
            v@ == self@[i as int].1,
    {
        &self.entries[i].1
    }

    /// Position of `key`, if stored.
    fn position(&self, key: &str) -> (r: Option<usize>)
        ensures
            match r {
                Some(i) => i < self@.len() && self@[i as int].0 == key@,
                None => !kv_has_key(self@, key@),
            },
    {
        let mut i: usize = 0;
        while i < self.entries.len()
            invariant
                i <= self.entries.len() == self@.len(),
                forall|j: int| 0 <= j < i ==> #[trigger] self@[j].0 != key@,
            decreases self.entries.len() - i,
        {
            if str_eq(self.entries[i].0.as_str(), key) {
                return Some(i);
            }
            i = i + 1;
        }
        None
    }

    /// The value stored under `key`.
    pub fn get(&self, key: &str) -> (r: Option<&String>)
        ensures
            match r {
                Some(v) => kv_lookup(self@, key@) == Some(v@),
                None => kv_lookup(self@, key@) is None && !kv_has_key(self@, key@),
            },
    {
        proof {
            use_type_invariant(self);
        }
        match self.position(key) {
            Some(i) => {
                proof {
                    lemma_kv_lookup_at(self@, i as int);
                }
                Some(&self.entries[i].1)
            },
            None => {
                proof {
                    lemma_kv_lookup_absent(self@, key@);
                }
                None
            },
        }
    }

    /// A copy of the map.
    pub fn copy(&self) -> (r: Self)
        ensures
            r@ == self@,
    {
        proof {
            use_type_invariant(self);
        }
        let mut entries: Vec<(String, String)> = Vec::new();
        let mut i: usize = 0;
        while i < self.entries.len()
            invariant
                i <= self.entries.len(),
                entry_views(entries@) == self@.subrange(0, i as int),
            decreases self.entries.len() - i,
        {
            let k = self.entries[i].0.clone();
            let v = self.entries[i].1.clone();
            let ghost before = entries@;
            entries.push((k, v));
            assert(entry_views(entries@) =~= entry_views(before).push(self@[i as int]));
            i = i + 1;
            assert(entry_views(entries@) =~= self@.subrange(
                0,
                i as int,
            ));
        }
        assert(self@.subrange(0, i as int) =~= self@);
        StringMap { entries }
    }

    /// Stores `value` under `key`, replacing the value of an existing entry.
    pub fn insert(&mut self, key: String, value: String)
        ensures
            final(self)@ == kv_insert(old(self)@, key@, value@),
    {
        proof {
            use_type_invariant(&*self);
        }
        let ghost old_view = self@;
        let pos = self.position(key.as_str());
        proof {
            lemma_kv_insert_distinct(old_view, key@, value@);
        }
        let mut entries: Vec<(String, String)> = Vec::new();
        std::mem::swap(&mut entries, &mut self.entries);
        assert(entry_views(entries@) == old_view);
        match pos {
            Some(i) => {
                proof {
                    let j = choose|j: int| 0 <= j < old_view.len() && #[trigger] old_view[j].0
                        == key@;
                    if j != i {
                        if j < i {
                            assert(old_view[j].0 != old_view[i as int].0);
                        } else {
                            assert(old_view[i as int].0 != old_view[j].0);
                        }
                    }
                }
                entries.set(i, (key, value));
            },
            None => {
                entries.push((key, value));
            },
        }
        assert(entry_views(entries@) =~= kv_insert(
            old_view,
            key@,
            value@,
        ));
        self.entries = entries;
    }
}

} // verus!

verus! {

/// Reading a key right after storing it gives the stored value; every other
/// key reads as before.
pub proof fn law_lookup_after_insert(s: KvSeq, k: Seq<char>, v: Seq<char>, q: Seq<char>)
    requires
        kv_keys_distinct(s),
    ensures
        kv_lookup(kv_insert(s, k, v), k) == Some(v),
        q != k ==> kv_lookup(kv_insert(s, k, v), q) == kv_lookup(s, q),
{
    lemma_kv_insert_distinct(s, k, v);
    let r = kv_insert(s, k, v);
    let i = choose|i: int| 0 <= i < r.len() && #[trigger] r[i].0 == k;
    if kv_has_key(s, k) {
        let j = choose|j: int| 0 <= j < s.len() && #[trigger] s[j].0 == k;
        assert(r[j] == (k, v));
        lemma_kv_lookup_at(r, j);
    } else {
        assert(r[s.len() as int] == (k, v));
        lemma_kv_lookup_at(r, s.len() as int);
    }
    if q != k {
        if kv_has_key(s, q) {
            let a = choose|a: int| 0 <= a < s.len() && #[trigger] s[a].0 == q;
            lemma_kv_lookup_at(s, a);
            assert(r[a] == s[a]);
            lemma_kv_lookup_at(r, a);
        } else {
            lemma_kv_lookup_absent(s, q);
            assert(!kv_has_key(r, q));
            lemma_kv_lookup_absent(r, q);
        }
    }
}

} // verus!
