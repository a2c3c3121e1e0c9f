//! Storage maps of the runtime: association lists with unique keys whose
//! abstract view is a `Map`.
use vstd::prelude::*;

verus! {

/// A storage key that can be compared for equality in executable code.
pub trait StorageKey: Sized {
    fn key_eq(&self, other: &Self) -> (b: bool)
        ensures
            b == (*self == *other),
    ;

    /// Where a new key is put among the entries of a map: after every entry
    /// whose rank is not greater.
    spec fn rank(&self) -> u64;

    /// The rank of the key. Integers rank by their value and eight-byte
    /// arrays by their big-endian value, so maps keyed by them list their
    /// entries in key order as ordered maps do; other keys all rank alike
    /// and keep the order of insertion.
    fn order_rank(&self) -> (r: u64)
        ensures
            r == self.rank(),
    ;
}

impl StorageKey for u64 {
    fn key_eq(&self, other: &Self) -> (b: bool) {
        *self == *other
    }

    open spec fn rank(&self) -> u64 {
        *self
    }

    fn order_rank(&self) -> (r: u64) {
        *self
    }
}

impl StorageKey for u32 {
    fn key_eq(&self, other: &Self) -> (b: bool) {
        *self == *other
    }

    open spec fn rank(&self) -> u64 {
        *self as u64
    }

    fn order_rank(&self) -> (r: u64) {
        *self as u64
    }
}

impl<const N: usize> StorageKey for [u8; N] {
    fn key_eq(&self, other: &Self) -> (b: bool) {
        bytes_eq(self, other)
    }

    open spec fn rank(&self) -> u64 {
        if N == 8 {
            ((self@[0] as u64) << 56u64) | ((self@[1] as u64) << 48u64) | ((self@[2] as u64) << 40u64)
                | ((self@[3] as u64) << 32u64) | ((self@[4] as u64) << 24u64) | ((self@[5] as u64)
                << 16u64) | ((self@[6] as u64) << 8u64) | (self@[7] as u64)
        } else {
            0
        }
    }

    fn order_rank(&self) -> (r: u64) {
        if N != 8 {
            return 0;
        }
        ((self[0] as u64) << 56u64) | ((self[1] as u64) << 48u64) | ((self[2] as u64) << 40u64)
            | ((self[3] as u64) << 32u64) | ((self[4] as u64) << 24u64) | ((self[5] as u64) << 16u64)
            | ((self[6] as u64) << 8u64) | (self[7] as u64)
    }
}

impl<A: StorageKey, B: StorageKey> StorageKey for (A, B) {
    fn key_eq(&self, other: &Self) -> (b: bool) {
        let first = self.0.key_eq(&other.0);
        let second = self.1.key_eq(&other.1);
        first && second
    }

    open spec fn rank(&self) -> u64 {
        0
    }

    fn order_rank(&self) -> (r: u64) {
        0
    }
}

/// Byte-wise equality of two arrays of the same length.
pub fn bytes_eq<const N: usize>(a: &[u8; N], b: &[u8; N]) -> (r: bool)
    ensures
        r == (*a == *b),
{
    let mut i: usize = 0;
    while i < N
        invariant
            i <= N,
            a@.len() == N,
            b@.len() == N,
            forall|j: int| 0 <= j < i ==> a@[j] == b@[j],
        decreases N - i,
    {
        if a[i] != b[i] {
            assert(a@[i as int] != b@[i as int]);
            return false;
        }
        i = i + 1;
    }
    assert(a@ =~= b@);
    assert(*a =~= *b);
    true
}

/// Byte-wise equality of two slices.
pub fn slice_eq(a: &[u8], b: &[u8]) -> (r: bool)
    ensures
        r == (a@ == b@),
{
    if a.len() != b.len() {
        return false;
    }
    let mut i: usize = 0;
    while i < a.len()
        invariant
            i <= a@.len(),
            a@.len() == b@.len(),
            forall|j: int| 0 <= j < i ==> a@[j] == b@[j],
        decreases a@.len() - i,
    {
        if a[i] != b[i] {
            return false;
        }
        i = i + 1;
    }
    assert(a@ =~= b@);
    true
}

/// The map that a list of entries stands for: later entries take precedence.
pub open spec fn entries_map<K, V>(s: Seq<(K, V)>) -> Map<K, V>
    decreases s.len(),
{
    if s.len() == 0 {
        Map::empty()
    } else {
        entries_map(s.drop_last()).insert(s.last().0, s.last().1)
    }
}

/// No key occurs twice in the list.
pub open spec fn unique_keys<K, V>(s: Seq<(K, V)>) -> bool {
    forall|i: int, j: int| 0 <= i < s.len() && 0 <= j < s.len() && i != j ==> s[i].0 != s[j].0
}

pub proof fn lemma_entries_map<K, V>(s: Seq<(K, V)>)
    requires
        unique_keys(s),
    ensures
        forall|k: K| #[trigger]
            entries_map(s).dom().contains(k) <==> exists|i: int| 0 <= i < s.len() && s[i].0 == k,
        forall|i: int| 0 <= i < s.len() ==> #[trigger] entries_map(s)[s[i].0] == s[i].1,
        entries_map(s).dom().finite(),
        entries_map(s).dom().len() == s.len(),
    decreases s.len(),
{
    if s.len() > 0 {
        let p = s.drop_last();
        assert(unique_keys(p));
        lemma_entries_map(p);
        assert forall|k: K| #[trigger]
            entries_map(s).dom().contains(k) <==> exists|i: int|
                0 <= i < s.len() && s[i].0 == k by {
            if entries_map(s).dom().contains(k) {
                if k != s.last().0 {
                    let i = choose|i: int| 0 <= i < p.len() && p[i].0 == k;
                    assert(s[i].0 == k);
                } else {
                    assert(s[s.len() - 1].0 == k);
                }
            }
            if exists|i: int| 0 <= i < s.len() && s[i].0 == k {
                let i = choose|i: int| 0 <= i < s.len() && s[i].0 == k;
                if i < s.len() - 1 {
                    assert(p[i].0 == k);
                }
            }
        }
        assert forall|i: int| 0 <= i < s.len() implies #[trigger] entries_map(s)[s[i].0]
            == s[i].1 by {
            if i < s.len() - 1 {
                assert(p[i] == s[i]);
                assert(s[i].0 != s[s.len() - 1].0);
            }
        }
        assert(!entries_map(p).dom().contains(s.last().0)) by {
            if entries_map(p).dom().contains(s.last().0) {
                let i = choose|i: int| 0 <= i < p.len() && p[i].0 == s.last().0;
                assert(s[i].0 == s[s.len() - 1].0);
            }
        }
    }
}

proof fn lemma_set_entry<K: StorageKey, V>(old_entries: Seq<(K, V)>, s: Seq<(K, V)>, i: int, k: K, v: V)
    requires
        unique_keys(old_entries),
        ranked(old_entries),
        0 <= i < old_entries.len(),
        old_entries[i].0 == k,
        s == old_entries.update(i, (k, v)),
    ensures
        unique_keys(s),
        ranked(s),
        entries_map(s) == entries_map(old_entries).insert(k, v),
{
    assert(ranked(s)) by {
        assert forall|a: int, b: int| 0 <= a < b < s.len() implies s[a].0.rank()
            <= s[b].0.rank() by {
            assert(s[a].0 == old_entries[a].0);
            assert(s[b].0 == old_entries[b].0);
        }
    }
    assert(unique_keys(s)) by {
        assert forall|a: int, b: int|
            0 <= a < s.len() && 0 <= b < s.len() && a != b implies s[a].0
            != s[b].0 by {
            assert(s[a].0 == old_entries[a].0);
            assert(s[b].0 == old_entries[b].0);
        }
    }
    lemma_entries_map(s);
    lemma_entries_map(old_entries);
    assert(entries_map(s) =~= entries_map(old_entries).insert(k, v)) by {
        assert forall|key: K|
            #[trigger] entries_map(s).dom().contains(key) <==> entries_map(
                old_entries,
            ).insert(k, v).dom().contains(key) by {
            if entries_map(s).dom().contains(key) {
                let j = choose|j: int| 0 <= j < s.len() && s[j].0 == key;
                assert(old_entries[j].0 == key);
            }
            if entries_map(old_entries).dom().contains(key) {
                let j = choose|j: int|
                    0 <= j < old_entries.len() && old_entries[j].0 == key;
                assert(s[j].0 == key);
            }
        }
        assert forall|key: K| #[trigger]
            entries_map(s).dom().contains(key) implies entries_map(s)[key]
            == entries_map(old_entries).insert(k, v)[key] by {
            let j = choose|j: int| 0 <= j < s.len() && s[j].0 == key;
            assert(entries_map(s)[s[j].0] == s[j].1);
            if j != i {
                assert(entries_map(old_entries)[old_entries[j].0]
                    == old_entries[j].1);
            }
        }
    }
}

proof fn lemma_insert_entry<K: StorageKey, V>(old_entries: Seq<(K, V)>, s: Seq<(K, V)>, pos: int, k: K, v: V)
    requires
        unique_keys(old_entries),
        ranked(old_entries),
        !entries_map(old_entries).dom().contains(k),
        0 <= pos <= old_entries.len(),
        pos == 0 || old_entries[pos - 1].0.rank() <= k.rank(),
        forall|j: int| pos <= j < old_entries.len() ==> old_entries[j].0.rank() > k.rank(),
        s == old_entries.insert(pos, (k, v)),
    ensures
        unique_keys(s),
        ranked(s),
        entries_map(s) == entries_map(old_entries).insert(k, v),
{
    lemma_entries_map(old_entries);
    assert(ranked(s)) by {
        assert forall|a: int, b: int| 0 <= a < b < s.len() implies s[a].0.rank()
            <= s[b].0.rank() by {
            let oa = if a < pos { a } else { a - 1 };
            let ob = if b < pos { b } else { b - 1 };
            if a != pos && b != pos {
                assert(s[a] == old_entries[oa]);
                assert(s[b] == old_entries[ob]);
            } else if a == pos {
                assert(s[b] == old_entries[ob]);
            } else {
                assert(s[a] == old_entries[oa]);
                assert(old_entries[pos - 1].0.rank() <= k.rank());
                assert(old_entries[oa].0.rank() <= old_entries[pos - 1].0.rank());
            }
        }
    }
    assert(unique_keys(s)) by {
        assert forall|a: int, b: int|
            0 <= a < s.len() && 0 <= b < s.len() && a != b implies s[a].0
            != s[b].0 by {
            if a != pos && b != pos {
                let oa = if a < pos { a } else { a - 1 };
                let ob = if b < pos { b } else { b - 1 };
                assert(s[a] == old_entries[oa]);
                assert(s[b] == old_entries[ob]);
            } else if a == pos {
                let ob = if b < pos { b } else { b - 1 };
                assert(s[b] == old_entries[ob]);
            } else {
                let oa = if a < pos { a } else { a - 1 };
                assert(s[a] == old_entries[oa]);
            }
        }
    }
    lemma_entries_map(s);
    lemma_entries_map(old_entries);
    assert(entries_map(s) =~= entries_map(old_entries).insert(k, v)) by {
        assert forall|key: K|
            #[trigger] entries_map(s).dom().contains(key) <==> entries_map(
                old_entries,
            ).insert(k, v).dom().contains(key) by {
            if entries_map(s).dom().contains(key) && key != k {
                let j = choose|j: int| 0 <= j < s.len() && s[j].0 == key;
                let oj = if j < pos { j } else { j - 1 };
                assert(s[j] == old_entries[oj]);
            }
            if entries_map(old_entries).dom().contains(key) {
                let j = choose|j: int|
                    0 <= j < old_entries.len() && old_entries[j].0 == key;
                let sj = if j < pos { j } else { j + 1 };
                assert(s[sj] == old_entries[j]);
            }
            if key == k {
                assert(s[pos as int].0 == k);
            }
        }
        assert forall|key: K| #[trigger]
            entries_map(s).dom().contains(key) implies entries_map(s)[key]
            == entries_map(old_entries).insert(k, v)[key] by {
            let j = choose|j: int| 0 <= j < s.len() && s[j].0 == key;
            assert(entries_map(s)[s[j].0] == s[j].1);
            if j != pos {
                let oj = if j < pos { j } else { j - 1 };
                assert(s[j] == old_entries[oj]);
                assert(entries_map(old_entries)[old_entries[oj].0]
                    == old_entries[oj].1);
            }
        }
    }
}

/// The entries are listed by non-decreasing rank of their keys.
pub open spec fn ranked<K: StorageKey, V>(s: Seq<(K, V)>) -> bool {
    forall|i: int, j: int| 0 <= i < j < s.len() ==> s[i].0.rank() <= s[j].0.rank()
}

/// A map from keys to values kept as a list of entries with distinct keys,
/// by the rank of their keys and, among keys of the same rank, in the order
/// in which they were first inserted.
pub struct StorageMap<K, V> {
    entries: Vec<(K, V)>,
}

impl<K: StorageKey, V> StorageMap<K, V> {
    pub closed spec fn view(&self) -> Map<K, V> {
        entries_map(self.entries@)
    }

    /// The entries in the order in which their keys were first inserted.
    pub closed spec fn entry_seq(&self) -> Seq<(K, V)> {
        self.entries@
    }

    pub closed spec fn wf(&self) -> bool {
        unique_keys(self.entries@) && ranked(self.entries@)
    }

    pub proof fn lemma_view(&self)
        requires
            self.wf(),
        ensures
            forall|k: K| #[trigger]
                self.view().dom().contains(k) <==> exists|i: int|
                    0 <= i < self.entry_seq().len() && self.entry_seq()[i].0 == k,
            forall|i: int|
                0 <= i < self.entry_seq().len() ==> #[trigger] self.view()[self.entry_seq()[i].0]
                    == self.entry_seq()[i].1,
            self.view().dom().finite(),
            self.view().dom().len() == self.entry_seq().len(),
            unique_keys(self.entry_seq()),
            ranked(self.entry_seq()),
    {
        lemma_entries_map(self.entries@);
        assert forall|k: K| #[trigger]
            self.view().dom().contains(k) <==> exists|i: int|
                0 <= i < self.entry_seq().len() && self.entry_seq()[i].0 == k by {
            if self.view().dom().contains(k) {
                let i = choose|i: int| 0 <= i < self.entries@.len() && self.entries@[i].0 == k;
                assert(self.entry_seq()[i].0 == k);
            }
        }
    }

    pub fn new() -> (m: Self)
        ensures
            m.wf(),
            m.view() == Map::<K, V>::empty(),
            m.entry_seq() == Seq::<(K, V)>::empty(),
    {
        StorageMap { entries: Vec::new() }
    }

    fn index_of(&self, k: &K) -> (r: Option<usize>)
        requires
            self.wf(),
        ensures
            match r {
                Some(i) => i < self.entries@.len() && self.entries@[i as int].0 == *k,
                None => !self.view().contains_key(*k),
            },
    {
        proof {
            lemma_entries_map(self.entries@);
        }
        let mut i: usize = 0;
        while i < self.entries.len()
            invariant
                i <= self.entries@.len(),
                forall|j: int| 0 <= j < i ==> self.entries@[j].0 != *k,
            decreases self.entries@.len() - i,
        {
            if self.entries[i].0.key_eq(k) {
                return Some(i);
            }
            i = i + 1;
        }
        None
    }

    pub fn contains_key(&self, k: &K) -> (b: bool)
        requires
            self.wf(),
        ensures
            b == self.view().contains_key(*k),
    {
        proof {
            lemma_entries_map(self.entries@);
        }
        self.index_of(k).is_some()
    }

    pub fn get(&self, k: &K) -> (r: Option<&V>)
        requires
            self.wf(),
        ensures
            match r {
                Some(v) => self.view().contains_key(*k) && self.view()[*k] == *v,
                None => !self.view().contains_key(*k),
            },
    {
        proof {
            lemma_entries_map(self.entries@);
        }
        match self.index_of(k) {
            Some(i) => Some(&self.entries[i].1),
            None => None,
        }
    }

    pub fn len(&self) -> (n: usize)
        requires
            self.wf(),
        ensures
            n == self.view().len(),
    {
        proof {
            lemma_entries_map(self.entries@);
        }
        self.entries.len()
    }

    /// The keys in entry order.
    pub fn keys(&self) -> (ks: Vec<K>)
        where
            K: Copy,
        requires
            self.wf(),
        ensures
            ks@.to_set() == self.view().dom(),
            ks@.no_duplicates(),
            ks@ == self.entry_seq().map_values(|e: (K, V)| e.0),
    {
        let mut ks: Vec<K> = Vec::new();
        let mut i: usize = 0;
        while i < self.entries.len()
            invariant
                i <= self.entries@.len(),
                ks@ == self.entries@.subrange(0, i as int).map_values(|e: (K, V)| e.0),
            decreases self.entries@.len() - i,
        {
            ks.push(self.entries[i].0);
            i = i + 1;
            assert(ks@ =~= self.entries@.subrange(0, i as int).map_values(|e: (K, V)| e.0));
        }
        proof {
            assert(self.entries@.subrange(0, i as int) =~= self.entries@);
            lemma_entries_map(self.entries@);
            assert(ks@.to_set() =~= self.view().dom()) by {
                assert forall|k: K| ks@.to_set().contains(k) <==> self.view().dom().contains(k) by {
                    if self.view().dom().contains(k) {
                        let j = choose|j: int| 0 <= j < self.entries@.len() && self.entries@[j].0 == k;
                        assert(ks@[j] == k);
                    }
                    if ks@.to_set().contains(k) {
                        let j = choose|j: int| 0 <= j < ks@.len() && ks@[j] == k;
                        assert(self.entries@[j].0 == k);
                    }
                }
            }
        }
        ks
    }

    /// The values in entry order.
    pub fn values(&self) -> (vs: Vec<V>)
        where
            V: Copy,
        requires
            self.wf(),
        ensures
            vs@ == self.entry_seq().map_values(|e: (K, V)| e.1),
    {
        let mut vs: Vec<V> = Vec::new();
        let mut i: usize = 0;
        while i < self.entries.len()
            invariant
                i <= self.entries@.len(),
                vs@ == self.entries@.subrange(0, i as int).map_values(|e: (K, V)| e.1),
            decreases self.entries@.len() - i,
        {
            vs.push(self.entries[i].1);
            i = i + 1;
            assert(vs@ =~= self.entries@.subrange(0, i as int).map_values(|e: (K, V)| e.1));
        }
        assert(self.entries@.subrange(0, i as int) =~= self.entries@);
        vs
    }

    /// Sets the value of `k`; a new key is placed by its rank.
    pub fn insert(&mut self, k: K, v: V)
        requires
            old(self).wf(),
        ensures
            final(self).wf(),
            final(self).view() == old(self).view().insert(k, v),
            old(self).view().contains_key(k) ==> final(self).entry_seq().len()
                == old(self).entry_seq().len(),
            !old(self).view().contains_key(k) ==> final(self).entry_seq().len()
                == old(self).entry_seq().len() + 1,
    {
        proof {
            lemma_entries_map(self.entries@);
        }
        match self.index_of(&k) {
            Some(i) => {
                let ghost old_entries = self.entries@;
                self.entries.set(i, (k, v));
                proof {
                    lemma_set_entry(old_entries, self.entries@, i as int, k, v);
                }
            },
            None => {
                let ghost old_entries = self.entries@;
                let rank = k.order_rank();
                let mut pos: usize = self.entries.len();
                while pos > 0 && self.entries[pos - 1].0.order_rank() > rank
                    invariant
                        pos <= self.entries@.len(),
                        self.entries@ == old_entries,
                        rank == k.rank(),
                        forall|j: int| pos <= j < old_entries.len() ==> old_entries[j].0.rank() > rank,
                    decreases pos,
                {
                    pos = pos - 1;
                }
                self.entries.insert(pos, (k, v));
                proof {
                    lemma_insert_entry(old_entries, self.entries@, pos as int, k, v);
                }
            },
        }
    }

    /// Removes `k` and returns its value, if it was present.
    pub fn remove(&mut self, k: &K) -> (r: Option<V>)
        requires
            old(self).wf(),
        ensures
            final(self).wf(),
            final(self).view() == old(self).view().remove(*k),
            match r {
                Some(v) => old(self).view().contains_key(*k) && old(self).view()[*k] == v,
                None => !old(self).view().contains_key(*k) && *final(self) == *old(self),
            },
    {
        proof {
            lemma_entries_map(self.entries@);
        }
        match self.index_of(k) {
            Some(i) => {
                let ghost old_entries = self.entries@;
                let (_, v) = self.entries.remove(i);
                proof {
                    let s = self.entries@;
                    assert(unique_keys(s)) by {
                        assert forall|a: int, b: int|
                            0 <= a < s.len() && 0 <= b < s.len() && a != b implies s[a].0
                            != s[b].0 by {
                            let oa = if a < i { a } else { a + 1 };
                            let ob = if b < i { b } else { b + 1 };
                            assert(s[a] == old_entries[oa]);
                            assert(s[b] == old_entries[ob]);
                        }
                    }
                    lemma_entries_map(s);
                    assert(entries_map(s) =~= entries_map(old_entries).remove(*k)) by {
                        assert forall|key: K|
                            #[trigger] entries_map(s).dom().contains(key) <==> entries_map(
                                old_entries,
                            ).remove(*k).dom().contains(key) by {
                            if entries_map(s).dom().contains(key) {
                                let j = choose|j: int| 0 <= j < s.len() && s[j].0 == key;
                                let oj = if j < i { j } else { j + 1 };
                                assert(s[j] == old_entries[oj]);
                            }
                            if entries_map(old_entries).remove(*k).dom().contains(key) {
                                let j = choose|j: int|
                                    0 <= j < old_entries.len() && old_entries[j].0 == key;
                                let sj = if j < i { j } else { j - 1 };
                                assert(s[sj] == old_entries[j]);
                            }
                        }
                        assert forall|key: K| #[trigger]
                            entries_map(s).dom().contains(key) implies entries_map(s)[key]
                            == entries_map(old_entries).remove(*k)[key] by {
                            let j = choose|j: int| 0 <= j < s.len() && s[j].0 == key;
                            let oj = if j < i { j } else { j + 1 };
                            assert(s[j] == old_entries[oj]);
                            assert(entries_map(s)[s[j].0] == s[j].1);
                            assert(entries_map(old_entries)[old_entries[oj].0]
                                == old_entries[oj].1);
                        }
                    }
                }
                Some(v)
            },
            None => {
                assert(self.view().remove(*k) =~= self.view());
                None
            },
        }
    }
}

} // verus!
