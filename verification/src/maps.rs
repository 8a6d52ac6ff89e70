//! The two kinds of keyed storage the contracts keep: maps keyed by a numeric
//! id, walked in ascending id order, and maps keyed by an owner address.
use crate::address::Address;
use vstd::prelude::*;

verus! {

/// Entries keyed by `u32`, kept in strictly ascending key order.
pub struct IdMap<V> {
    pub entries: Vec<(u32, V)>,
}

/// Keys strictly increase along `s`.
pub open spec fn ids_sorted<V>(s: Seq<(u32, V)>) -> bool {
    forall|i: int, j: int| 0 <= i < j < s.len() ==> s[i].0 < s[j].0
}

/// Some entry of `s` has key `k`.
pub open spec fn id_present<V>(s: Seq<(u32, V)>, k: u32) -> bool {
    exists|i: int| 0 <= i < s.len() && s[i].0 == k
}

/// The position of an entry with key `k`.
pub open spec fn id_pos<V>(s: Seq<(u32, V)>, k: u32) -> int {
    choose|i: int| 0 <= i < s.len() && s[i].0 == k
}

/// The map that an entry sequence stands for.
pub open spec fn id_map_of<V>(s: Seq<(u32, V)>) -> Map<u32, V> {
    Map::new(|k: u32| id_present(s, k), |k: u32| s[id_pos(s, k)].1)
}

pub proof fn lemma_id_map_at<V>(s: Seq<(u32, V)>, i: int)
    requires
        ids_sorted(s),
        0 <= i < s.len(),
    ensures
        id_map_of(s).contains_key(s[i].0),
        id_map_of(s)[s[i].0] == s[i].1,
{
    let k = s[i].0;
    assert(id_present(s, k));
    let j = id_pos(s, k);
    assert(s[j].0 == k);
    if j < i {
        assert(s[j].0 < s[i].0);
    } else if i < j {
        assert(s[i].0 < s[j].0);
    }
}

pub proof fn lemma_id_map_absent<V>(s: Seq<(u32, V)>, k: u32)
    requires
        forall|i: int| 0 <= i < s.len() ==> s[i].0 != k,
    ensures
        !id_map_of(s).contains_key(k),
{
}

pub proof fn lemma_id_map_has<V>(s: Seq<(u32, V)>, k: u32)
    requires
        ids_sorted(s),
        id_map_of(s).contains_key(k),
    ensures
        0 <= id_pos(s, k) < s.len(),
        s[id_pos(s, k)].0 == k,
{
}

impl<V> View for IdMap<V> {
    type V = Map<u32, V>;

    open spec fn view(&self) -> Map<u32, V> {
        id_map_of(self.entries@)
    }
}

impl<V> IdMap<V> {
    pub open spec fn wf(&self) -> bool {
        ids_sorted(self.entries@)
    }

    /// An empty map.
    pub fn new() -> (r: Self)
        ensures
            r.wf(),
            r@ == Map::<u32, V>::empty(),
            r.entries@.len() == 0,
    {
        let r = IdMap { entries: Vec::new() };
        assert(r@ =~= Map::<u32, V>::empty());
        r
    }

    /// The position of key `k`, if present.
    pub fn find(&self, k: u32) -> (r: Option<usize>)
        requires
            self.wf(),
        ensures
            match r {
                Some(i) => i < self.entries@.len() && self.entries@[i as int].0 == k
                    && self@.contains_key(k) && self@[k] == self.entries@[i as int].1,
                None => !self@.contains_key(k),
            },
    {
        let mut i: usize = 0;
        while i < self.entries.len()
            invariant
                self.wf(),
                i <= self.entries@.len(),
                forall|j: int| 0 <= j < i ==> self.entries@[j].0 != k,
            decreases self.entries@.len() - i,
        {
            if self.entries[i].0 == k {
                proof {
                    lemma_id_map_at(self.entries@, i as int);
                }
                return Some(i);
            }
            i = i + 1;
        }
        proof {
            lemma_id_map_absent(self.entries@, k);
        }
        None
    }

    /// The value stored under `k`, if any.
    pub fn get(&self, k: u32) -> (r: Option<&V>)
        requires
            self.wf(),
        ensures
            match r {
                Some(v) => self@.contains_key(k) && *v == self@[k],
                None => !self@.contains_key(k),
            },
    {
        match self.find(k) {
            Some(i) => Some(&self.entries[i].1),
            None => None,
        }
    }

    /// Whether `k` is present.
    pub fn contains(&self, k: u32) -> (r: bool)
        requires
            self.wf(),
        ensures
            r == self@.contains_key(k),
    {
        self.find(k).is_some()
    }

    /// Store `v` under `k`, replacing any earlier value.
    pub fn set(&mut self, k: u32, v: V)
        requires
            old(self).wf(),
        ensures
            final(self).wf(),
            final(self)@ == old(self)@.insert(k, v),
            final(self).entries@.len() == old(self).entries@.len() + if old(self)@.contains_key(k) {
                0int
            } else {
                1int
            },
    {
        let ghost s0 = self.entries@;
        let mut p: usize = 0;
        while p < self.entries.len() && self.entries[p].0 < k
            invariant
                self.entries@ == s0,
                ids_sorted(s0),
                p <= s0.len(),
                forall|j: int| 0 <= j < p ==> s0[j].0 < k,
            decreases s0.len() - p,
        {
            p = p + 1;
        }
        if p < self.entries.len() && self.entries[p].0 == k {
            proof {
                lemma_id_map_at(s0, p as int);
            }
            self.entries.set(p, (k, v));
            let ghost s1 = self.entries@;
            assert(s1 == s0.update(p as int, (k, v)));
            assert(ids_sorted(s1)) by {
                assert forall|i: int, j: int| 0 <= i < j < s1.len() implies s1[i].0 < s1[j].0 by {
                    assert(s0[i].0 < s0[j].0);
                }
            }
            assert(self@ =~= id_map_of(s0).insert(k, v)) by {
                assert forall|x: u32| #[trigger] self@.contains_key(x) == id_map_of(s0).insert(k, v).contains_key(x)
                    by {
                    if id_map_of(s0).contains_key(x) {
                        lemma_id_map_has(s0, x);
                        let q = id_pos(s0, x);
                        assert(s1[q].0 == x);
                        lemma_id_map_at(s1, q);
                    }
                    if self@.contains_key(x) {
                        lemma_id_map_has(s1, x);
                        let q = id_pos(s1, x);
                        assert(s0[q].0 == x);
                        lemma_id_map_at(s0, q);
                    }
                }
                assert forall|x: u32| #[trigger] self@.contains_key(x) implies self@[x]
                    == id_map_of(s0).insert(k, v)[x] by {
                    lemma_id_map_has(s1, x);
                    let q = id_pos(s1, x);
                    lemma_id_map_at(s1, q);
                    if q != p {
                        lemma_id_map_at(s0, q);
                    }
                }
            }
        } else {
            assert(!id_map_of(s0).contains_key(k)) by {
                if id_map_of(s0).contains_key(k) {
                    lemma_id_map_has(s0, k);
                    let q = id_pos(s0, k);
                    if q < p {
                    } else if q > p {
                        assert(s0[p as int].0 < s0[q].0);
                    }
                }
            }
            self.entries.insert(p, (k, v));
            let ghost s1 = self.entries@;
            assert(s1 == s0.insert(p as int, (k, v)));
            assert forall|j: int| p <= j < s0.len() implies k < s0[j].0 by {
                if j > p {
                    assert(s0[p as int].0 < s0[j].0);
                }
            }
            assert(ids_sorted(s1)) by {
                assert forall|i: int, j: int| 0 <= i < j < s1.len() implies s1[i].0 < s1[j].0 by {
                    if j < p {
                        assert(s0[i].0 < s0[j].0);
                    } else if j == p {
                    } else if i < p {
                        assert(s1[j] == s0[j - 1]);
                    } else if i == p {
                        assert(s1[j] == s0[j - 1]);
                    } else {
                        assert(s0[i - 1].0 < s0[j - 1].0);
                    }
                }
            }
            assert(self@ =~= id_map_of(s0).insert(k, v)) by {
                assert forall|x: u32| #[trigger] self@.contains_key(x) == id_map_of(s0).insert(k, v).contains_key(x)
                    by {
                    if id_map_of(s0).contains_key(x) {
                        lemma_id_map_has(s0, x);
                        let q = id_pos(s0, x);
                        if q < p {
                            assert(s1[q].0 == x);
                            lemma_id_map_at(s1, q);
                        } else {
                            assert(s1[q + 1].0 == x);
                            lemma_id_map_at(s1, q + 1);
                        }
                    }
                    if x == k {
                        lemma_id_map_at(s1, p as int);
                    }
                    if self@.contains_key(x) && x != k {
                        lemma_id_map_has(s1, x);
                        let q = id_pos(s1, x);
                        if q < p {
                            assert(s0[q].0 == x);
                            lemma_id_map_at(s0, q);
                        } else {
                            assert(s0[q - 1].0 == x);
                            lemma_id_map_at(s0, q - 1);
                        }
                    }
                }
                assert forall|x: u32| #[trigger] self@.contains_key(x) implies self@[x]
                    == id_map_of(s0).insert(k, v)[x] by {
                    lemma_id_map_has(s1, x);
                    let q = id_pos(s1, x);
                    lemma_id_map_at(s1, q);
                    if q < p {
                        lemma_id_map_at(s0, q);
                    } else if q > p {
                        lemma_id_map_at(s0, q - 1);
                    }
                }
            }
        }
    }

    /// Drop the entry under `k`, if any.
    pub fn remove(&mut self, k: u32)
        requires
            old(self).wf(),
        ensures
            final(self).wf(),
            final(self)@ == old(self)@.remove(k),
            final(self).entries@.len() == old(self).entries@.len() - if old(self)@.contains_key(k) {
                1int
            } else {
                0int
            },
    {
        let ghost s0 = self.entries@;
        match self.find(k) {
            None => {
                assert(self@ =~= id_map_of(s0).remove(k));
            },
            Some(p) => {
                self.entries.remove(p);
                let ghost s1 = self.entries@;
                assert(s1 == s0.remove(p as int));
                assert(ids_sorted(s1)) by {
                    assert forall|i: int, j: int| 0 <= i < j < s1.len() implies s1[i].0 < s1[j].0 by {
                        if j < p {
                            assert(s0[i].0 < s0[j].0);
                        } else if i < p {
                            assert(s0[i].0 < s0[j + 1].0);
                        } else {
                            assert(s0[i + 1].0 < s0[j + 1].0);
                        }
                    }
                }
                assert(self@ =~= id_map_of(s0).remove(k)) by {
                    assert forall|x: u32| #[trigger] self@.contains_key(x) == id_map_of(s0).remove(k).contains_key(x)
                        by {
                        if id_map_of(s0).contains_key(x) && x != k {
                            lemma_id_map_has(s0, x);
                            let q = id_pos(s0, x);
                            if q < p {
                                assert(s1[q].0 == x);
                                lemma_id_map_at(s1, q);
                            } else {
                                assert(q != p);
                                assert(s1[q - 1].0 == x);
                                lemma_id_map_at(s1, q - 1);
                            }
                        }
                        if self@.contains_key(x) {
                            lemma_id_map_has(s1, x);
                            let q = id_pos(s1, x);
                            if q < p {
                                assert(s0[q].0 == x);
                                lemma_id_map_at(s0, q);
                                assert(s0[q].0 < s0[p as int].0);
                            } else {
                                assert(s0[q + 1].0 == x);
                                lemma_id_map_at(s0, q + 1);
                                assert(s0[p as int].0 < s0[q + 1].0);
                            }
                        }
                    }
                    assert forall|x: u32| #[trigger] self@.contains_key(x) implies self@[x]
                        == id_map_of(s0).remove(k)[x] by {
                        lemma_id_map_has(s1, x);
                        let q = id_pos(s1, x);
                        lemma_id_map_at(s1, q);
                        if q < p {
                            lemma_id_map_at(s0, q);
                        } else {
                            lemma_id_map_at(s0, q + 1);
                        }
                    }
                }
            },
        }
    }
}

/// Keys that can be compared in executable code by what they stand for.
pub trait MapKey: Sized {
    /// What the key stands for.
    spec fn key_view(&self) -> Self::KeyView;

    type KeyView;

    /// Whether two keys stand for the same thing.
    fn key_eq(&self, other: &Self) -> (r: bool)
        ensures
            r == (self.key_view() == other.key_view()),
    ;

    /// A copy of the key.
    fn key_clone(&self) -> (r: Self)
        ensures
            r.key_view() == self.key_view(),
    ;
}

impl MapKey for Address {
    type KeyView = Address;

    open spec fn key_view(&self) -> Address {
        *self
    }

    fn key_eq(&self, other: &Self) -> (r: bool) {
        *self == *other
    }

    fn key_clone(&self) -> (r: Self) {
        *self
    }
}

/// Whether two byte strings are equal.
pub fn bytes_eq(a: &Vec<u8>, b: &Vec<u8>) -> (r: bool)
    ensures
        r == (a@ == b@),
{
    if a.len() != b.len() {
        return false;
    }
    let mut i: usize = 0;
    while i < a.len()
        invariant
            a@.len() == b@.len(),
            i <= a@.len(),
            forall|k: int| 0 <= k < i ==> a@[k] == b@[k],
        decreases a@.len() - i,
    {
        if a[i] != b[i] {
            return false;
        }
        i = i + 1;
    }
    assert(a@ =~= b@);
    true
}

impl MapKey for (Address, Vec<u8>) {
    type KeyView = (Address, Seq<u8>);

    open spec fn key_view(&self) -> (Address, Seq<u8>) {
        (self.0, self.1@)
    }

    fn key_eq(&self, other: &Self) -> (r: bool) {
        self.0 == other.0 && bytes_eq(&self.1, &other.1)
    }

    fn key_clone(&self) -> (r: Self) {
        let c = self.1.clone();
        assert(c@ =~= self.1@);
        (self.0, c)
    }
}

/// The ids a list-valued map holds under `k`; none when `k` is absent.
pub open spec fn list_of<K>(m: Map<K, Vec<u32>>, k: K) -> Seq<u32> {
    if m.contains_key(k) {
        m[k]@
    } else {
        Seq::empty()
    }
}

/// Entries keyed by `K`, each key at most once, in no particular order.
pub struct KeyMap<K, V> {
    pub entries: Vec<(K, V)>,
}

/// Entries keyed by an owner address.
pub type AddrMap<V> = KeyMap<Address, V>;

/// No key occurs twice in `s`.
pub open spec fn keys_unique<K: MapKey, V>(s: Seq<(K, V)>) -> bool {
    forall|i: int, j: int| 0 <= i < s.len() && 0 <= j < s.len() && i != j ==> s[i].0.key_view() != s[j].0.key_view()
}

pub open spec fn key_present<K: MapKey, V>(s: Seq<(K, V)>, k: K::KeyView) -> bool {
    exists|i: int| 0 <= i < s.len() && s[i].0.key_view() == k
}

pub open spec fn key_pos<K: MapKey, V>(s: Seq<(K, V)>, k: K::KeyView) -> int {
    choose|i: int| 0 <= i < s.len() && s[i].0.key_view() == k
}

/// The map that an entry sequence stands for.
pub open spec fn key_map_of<K: MapKey, V>(s: Seq<(K, V)>) -> Map<K::KeyView, V> {
    Map::new(|k: K::KeyView| key_present(s, k), |k: K::KeyView| s[key_pos(s, k)].1)
}

pub proof fn lemma_key_map_at<K: MapKey, V>(s: Seq<(K, V)>, i: int)
    requires
        keys_unique(s),
        0 <= i < s.len(),
    ensures
        key_map_of(s).contains_key(s[i].0.key_view()),
        key_map_of(s)[s[i].0.key_view()] == s[i].1,
{
    let k = s[i].0.key_view();
    assert(key_present(s, k));
    let j = key_pos(s, k);
    assert(s[j].0.key_view() == k);
}

impl<K: MapKey, V> View for KeyMap<K, V> {
    type V = Map<K::KeyView, V>;

    open spec fn view(&self) -> Map<K::KeyView, V> {
        key_map_of(self.entries@)
    }
}

impl<K: MapKey, V> KeyMap<K, V> {
    pub open spec fn wf(&self) -> bool {
        keys_unique(self.entries@)
    }

    /// An empty map.
    pub fn new() -> (r: Self)
        ensures
            r.wf(),
            r@ == Map::<K::KeyView, V>::empty(),
    {
        let r = KeyMap { entries: Vec::new() };
        assert(r@ =~= Map::<K::KeyView, V>::empty());
        r
    }

    /// The position of key `k`, if present.
    pub fn find(&self, k: &K) -> (r: Option<usize>)
        requires
            self.wf(),
        ensures
            match r {
                Some(i) => i < self.entries@.len() && self.entries@[i as int].0.key_view() == k.key_view()
                    && self@.contains_key(k.key_view()) && self@[k.key_view()] == self.entries@[i as int].1,
                None => !self@.contains_key(k.key_view()),
            },
    {
        let mut i: usize = 0;
        while i < self.entries.len()
            invariant
                self.wf(),
                i <= self.entries@.len(),
                forall|j: int| 0 <= j < i ==> self.entries@[j].0.key_view() != k.key_view(),
            decreases self.entries@.len() - i,
        {
            if self.entries[i].0.key_eq(k) {
                proof {
                    lemma_key_map_at(self.entries@, i as int);
                }
                return Some(i);
            }
            i = i + 1;
        }
        None
    }

    /// The value stored under `k`, if any.
    pub fn get(&self, k: &K) -> (r: Option<&V>)
        requires
            self.wf(),
        ensures
            match r {
                Some(v) => self@.contains_key(k.key_view()) && *v == self@[k.key_view()],
                None => !self@.contains_key(k.key_view()),
            },
    {
        match self.find(k) {
            Some(i) => Some(&self.entries[i].1),
            None => None,
        }
    }

    /// Store `v` under `k`, replacing any earlier value.
    pub fn set(&mut self, k: K, v: V)
        requires
            old(self).wf(),
        ensures
            final(self).wf(),
            final(self)@ == old(self)@.insert(k.key_view(), v),
    {
        let ghost s0 = self.entries@;
        let ghost kv = k.key_view();
        match self.find(&k) {
            Some(p) => {
                self.entries.set(p, (k, v));
                let ghost s1 = self.entries@;
                assert(s1 == s0.update(p as int, (k, v)));
                assert(keys_unique(s1)) by {
                    assert forall|i: int, j: int|
                        0 <= i < s1.len() && 0 <= j < s1.len() && i != j implies s1[i].0.key_view() != s1[j].0.key_view() by {
                        assert(s0[i].0.key_view() != s0[j].0.key_view());
                    }
                }
                assert(self@ =~= key_map_of(s0).insert(kv, v)) by {
                    assert forall|x: K::KeyView| #[trigger] self@.contains_key(x)
                        == key_map_of(s0).insert(kv, v).contains_key(x) by {
                        if key_map_of(s0).contains_key(x) {
                            let q = key_pos(s0, x);
                            assert(s1[q].0.key_view() == x);
                        }
                        if self@.contains_key(x) {
                            let q = key_pos(s1, x);
                            assert(s0[q].0.key_view() == x);
                        }
                    }
                    assert forall|x: K::KeyView| #[trigger] self@.contains_key(x) implies self@[x]
                        == key_map_of(s0).insert(kv, v)[x] by {
                        let q = key_pos(s1, x);
                        lemma_key_map_at(s1, q);
                        if q != p {
                            lemma_key_map_at(s0, q);
                        }
                    }
                }
            },
            None => {
                self.entries.push((k, v));
                let ghost s1 = self.entries@;
                assert(s1 == s0.push((k, v)));
                assert(keys_unique(s1)) by {
                    assert forall|i: int, j: int|
                        0 <= i < s1.len() && 0 <= j < s1.len() && i != j implies s1[i].0 != s1[j].0 by {
                        if i < s0.len() && j < s0.len() {
                            assert(s0[i].0.key_view() != s0[j].0.key_view());
                        } else if i < s0.len() {
                            assert(s0[i].0.key_view() != kv) by {
                                if s0[i].0.key_view() == kv {
                                    lemma_key_map_at(s0, i);
                                }
                            }
                        } else {
                            assert(s0[j].0.key_view() != kv) by {
                                if s0[j].0.key_view() == kv {
                                    lemma_key_map_at(s0, j);
                                }
                            }
                        }
                    }
                }
                assert(self@ =~= key_map_of(s0).insert(kv, v)) by {
                    assert forall|x: K::KeyView| #[trigger] self@.contains_key(x)
                        == key_map_of(s0).insert(kv, v).contains_key(x) by {
                        if key_map_of(s0).contains_key(x) {
                            let q = key_pos(s0, x);
                            assert(s1[q].0.key_view() == x);
                        }
                        if x == kv {
                            assert(s1[s0.len() as int].0.key_view() == x);
                        }
                        if self@.contains_key(x) && x != kv {
                            let q = key_pos(s1, x);
                            assert(s0[q].0.key_view() == x);
                        }
                    }
                    assert forall|x: K::KeyView| #[trigger] self@.contains_key(x) implies self@[x]
                        == key_map_of(s0).insert(kv, v)[x] by {
                        let q = key_pos(s1, x);
                        lemma_key_map_at(s1, q);
                        if q < s0.len() {
                            lemma_key_map_at(s0, q);
                        }
                    }
                }
            },
        }
    }

    /// Drop the entry under `k`, if any.
    pub fn remove(&mut self, k: &K)
        requires
            old(self).wf(),
        ensures
            final(self).wf(),
            final(self)@ == old(self)@.remove(k.key_view()),
    {
        let ghost s0 = self.entries@;
        match self.find(k) {
            None => {
                assert(self@ =~= key_map_of(s0).remove(k.key_view()));
            },
            Some(p) => {
                self.entries.remove(p);
                let ghost s1 = self.entries@;
                assert(s1 == s0.remove(p as int));
                assert(keys_unique(s1)) by {
                    assert forall|i: int, j: int|
                        0 <= i < s1.len() && 0 <= j < s1.len() && i != j implies s1[i].0 != s1[j].0 by {
                        let i0 = if i < p { i } else { i + 1 };
                        let j0 = if j < p { j } else { j + 1 };
                        assert(s0[i0].0.key_view() != s0[j0].0.key_view());
                    }
                }
                assert(self@ =~= key_map_of(s0).remove(k.key_view())) by {
                    assert forall|x: K::KeyView| #[trigger] self@.contains_key(x)
                        == key_map_of(s0).remove(k.key_view()).contains_key(x) by {
                        if key_map_of(s0).contains_key(x) && x != k.key_view() {
                            let q = key_pos(s0, x);
                            if q < p {
                                assert(s1[q].0.key_view() == x);
                            } else {
                                assert(q != p);
                                assert(s1[q - 1].0.key_view() == x);
                            }
                        }
                        if self@.contains_key(x) {
                            let q = key_pos(s1, x);
                            let q0 = if q < p { q } else { q + 1 };
                            assert(s0[q0].0.key_view() == x);
                            assert(q0 != p as int);
                            assert(s0[q0].0.key_view() != s0[p as int].0.key_view());
                        }
                    }
                    assert forall|x: K::KeyView| #[trigger] self@.contains_key(x) implies self@[x]
                        == key_map_of(s0).remove(k.key_view())[x] by {
                        let q = key_pos(s1, x);
                        lemma_key_map_at(s1, q);
                        let q0 = if q < p { q } else { q + 1 };
                        lemma_key_map_at(s0, q0);
                    }
                }
            },
        }
    }
}

} // verus!
