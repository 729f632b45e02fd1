use vstd::prelude::*;

verus! {

/// Values that can be copied with the same deep value.
pub trait DeepCopy: DeepView + Sized {
    fn deep_copy(&self) -> (r: Self)
        ensures
            r.deep_view() == self.deep_view(),
    ;
}

impl DeepCopy for String {
    fn deep_copy(&self) -> (r: String) {
        self.clone()
    }
}

impl DeepCopy for bool {
    fn deep_copy(&self) -> (r: bool) {
        *self
    }
}

impl<T: DeepCopy> DeepCopy for Option<T> {
    fn deep_copy(&self) -> (r: Option<T>) {
        match self {
            Some(x) => Some(x.deep_copy()),
            None => None,
        }
    }
}

impl<A: DeepCopy, B: DeepCopy> DeepCopy for (A, B) {
    fn deep_copy(&self) -> (r: (A, B)) {
        (self.0.deep_copy(), self.1.deep_copy())
    }
}

impl<T: DeepCopy> DeepCopy for Vec<T> {
    fn deep_copy(&self) -> (r: Vec<T>) {
        let mut out: Vec<T> = Vec::new();
        let mut i: usize = 0;
        while i < self.len()
            invariant
                i <= self.len(),
                out@.len() == i,
                forall|j: int| 0 <= j < i ==> #[trigger] out@[j].deep_view() == self@[j].deep_view(),
            decreases self.len() - i,
        {
            out.push(self[i].deep_copy());
            i += 1;
        }
        proof {
            assert(out.deep_view() =~= self.deep_view());
        }
        out
    }
}

/// A map keyed by strings, kept as a list of entries in insertion order with
/// no key twice.
pub struct StrMap<V> {
    entries: Vec<(String, V)>,
}

impl<V: DeepView> StrMap<V> {
    /// The keys, in order.
    pub closed spec fn key_seq(&self) -> Seq<Seq<char>> {
        Seq::new(self.entries@.len(), |i: int| self.entries@[i].0@)
    }

    /// No key occurs twice.
    pub closed spec fn wf(&self) -> bool {
        self.key_seq().no_duplicates()
    }

    /// The value of each key.
    pub closed spec fn view(&self) -> Map<Seq<char>, V::V> {
        Map::new(
            |k: Seq<char>| self.key_seq().contains(k),
            |k: Seq<char>| self.entries@[self.key_seq().index_of(k)].1.deep_view(),
        )
    }

    /// The keys form the domain of the map, each once.
    pub proof fn lemma_keys(&self)
        requires
            self.wf(),
        ensures
            self.key_seq().no_duplicates(),
            forall|i: int|
                0 <= i < self.key_seq().len() ==> #[trigger] self.view().contains_key(
                    self.key_seq()[i],
                ),
            forall|k: Seq<char>| #[trigger]
                self.view().contains_key(k) ==> self.key_seq().contains(k),
            self.view().dom().finite(),
            self.view().dom().len() == self.key_seq().len(),
    {
        self.key_seq().unique_seq_to_set();
        assert(self.view().dom() =~= self.key_seq().to_set());
    }

    /// An empty map.
    pub fn new() -> (m: Self)
        ensures
            m.wf(),
            m.view() == Map::<Seq<char>, V::V>::empty(),
            m.key_seq() == Seq::<Seq<char>>::empty(),
    {
        let m = StrMap { entries: Vec::new() };
        proof {
            assert(m.view() =~= Map::<Seq<char>, V::V>::empty());
            assert(m.key_seq() =~= Seq::<Seq<char>>::empty());
        }
        m
    }

    /// The number of entries.
    pub fn len(&self) -> (n: usize)
        ensures
            n == self.key_seq().len(),
    {
        self.entries.len()
    }

    /// The key of the `i`-th entry.
    pub fn key_at(&self, i: usize) -> (k: &String)
        requires
            i < self.key_seq().len(),
        ensures
            k@ == self.key_seq()[i as int],
    {
        &self.entries[i].0
    }

    /// The value of the `i`-th entry.
    pub fn value_at(&self, i: usize) -> (v: &V)
        requires
            self.wf(),
            i < self.key_seq().len(),
        ensures
            self.view().contains_key(self.key_seq()[i as int]),
            v.deep_view() == self.view()[self.key_seq()[i as int]],
    {
        proof {
            self.lemma_index_of(i as int);
        }
        &self.entries[i].1
    }

    proof fn lemma_index_of(&self, i: int)
        requires
            self.wf(),
            0 <= i < self.key_seq().len(),
        ensures
            self.key_seq().index_of(self.key_seq()[i]) == i,
            self.key_seq().contains(self.key_seq()[i]),
    {
        let k = self.key_seq()[i];
        assert(self.key_seq()[i] == k);
        assert(self.key_seq().contains(k));
        let j = self.key_seq().index_of(k);
        assert(0 <= j < self.key_seq().len() && self.key_seq()[j] == k);
    }

    /// The index of `k`, if present.
    pub fn find(&self, k: &str) -> (r: Option<usize>)
        requires
            self.wf(),
        ensures
            match r {
                Some(i) => i < self.key_seq().len() && self.key_seq()[i as int] == k@,
                None => !self.view().contains_key(k@),
            },
            r is Some <==> self.view().contains_key(k@),
    {
        let key = crate::text::string_of(k);
        let mut i: usize = 0;
        while i < self.entries.len()
            invariant
                i <= self.entries.len(),
                forall|j: int| 0 <= j < i ==> self.key_seq()[j] != k@,
                key@ == k@,
            decreases self.entries.len() - i,
        {
            if self.entries[i].0.eq(&key) {
                proof {
                    assert(self.key_seq()[i as int] == k@);
                    assert(self.key_seq().contains(k@));
                }
                return Some(i);
            }
            i += 1;
        }
        proof {
            if self.key_seq().contains(k@) {
                let j = choose|j: int| 0 <= j < self.key_seq().len() && self.key_seq()[j] == k@;
                assert(false);
            }
        }
        None
    }

    /// Whether `k` has a value.
    pub fn contains_key(&self, k: &str) -> (r: bool)
        requires
            self.wf(),
        ensures
            r == self.view().contains_key(k@),
    {
        self.find(k).is_some()
    }

    /// The value of `k`, if any.
    pub fn get(&self, k: &str) -> (r: Option<&V>)
        requires
            self.wf(),
        ensures
            match r {
                Some(v) => self.view().contains_key(k@) && v.deep_view() == self.view()[k@],
                None => !self.view().contains_key(k@),
            },
    {
        match self.find(k) {
            Some(i) => Some(self.value_at(i)),
            None => None,
        }
    }

    /// Gives `k` the value `v`; a new key goes last.
    pub fn insert(&mut self, k: String, v: V)
        requires
            old(self).wf(),
        ensures
            final(self).wf(),
            final(self).view() == old(self).view().insert(k@, v.deep_view()),
            old(self).view().contains_key(k@) ==> final(self).key_seq() == old(self).key_seq(),
            !old(self).view().contains_key(k@) ==> final(self).key_seq() == old(self).key_seq().push(k@),
    {
        let ghost kv = k@;
        let ghost vv = v.deep_view();
        match self.find(k.as_str()) {
            Some(i) => {
                let ghost old_keys = self.key_seq();
                self.entries.set(i, (k, v));
                proof {
                    assert(self.key_seq() =~= old_keys);
                    self.lemma_index_of(i as int);
                    assert forall|key: Seq<char>| #[trigger] self.view().contains_key(key) implies
                        old(self).view().contains_key(key) || key == kv by {}
                    assert forall|key: Seq<char>|
                        old(self).view().contains_key(key) && key != kv implies
                        #[trigger] self.view()[key] == old(self).view()[key] by {
                        let j = old_keys.index_of(key);
                        assert(0 <= j < old_keys.len() && old_keys[j] == key);
                        assert(j != i);
                        assert(self.key_seq().index_of(key) == j);
                    }
                    assert(self.view() =~= old(self).view().insert(kv, vv));
                }
            },
            None => {
                let ghost old_keys = self.key_seq();
                self.entries.push((k, v));
                proof {
                    assert(self.key_seq() =~= old_keys.push(kv));
                    let n = old_keys.len() as int;
                    assert(self.key_seq()[n] == kv);
                    assert forall|a: int, b: int|
                        0 <= a < self.key_seq().len() && 0 <= b < self.key_seq().len() && a != b
                        implies self.key_seq()[a] != self.key_seq()[b] by {
                        if a == n {
                            assert(!old_keys.contains(kv));
                            assert(old_keys[b] == self.key_seq()[b]);
                        } else if b == n {
                            assert(!old_keys.contains(kv));
                            assert(old_keys[a] == self.key_seq()[a]);
                        }
                    }
                    self.lemma_index_of(n);
                    assert forall|key: Seq<char>|
                        old(self).view().contains_key(key) implies #[trigger] self.view()[key]
                        == old(self).view()[key] by {
                        let j = old_keys.index_of(key);
                        assert(0 <= j < old_keys.len() && old_keys[j] == key);
                        assert(self.key_seq()[j] == key);
                        self.lemma_index_of(j);
                    }
                    assert forall|key: Seq<char>|
                        #[trigger] self.view().contains_key(key) == (old(self).view().contains_key(key)
                            || key == kv) by {
                        if self.key_seq().contains(key) {
                            let j = choose|j: int|
                                0 <= j < self.key_seq().len() && self.key_seq()[j] == key;
                            if j < n {
                                assert(old_keys[j] == key);
                                assert(old_keys.contains(key));
                            }
                        }
                        if old_keys.contains(key) {
                            let j = choose|j: int| 0 <= j < old_keys.len() && old_keys[j] == key;
                            assert(self.key_seq()[j] == key);
                            assert(self.key_seq().contains(key));
                        }
                        if key == kv {
                            assert(self.key_seq().contains(key));
                        }
                    }
                    assert(self.view()[kv] == vv);
                    assert(self.view() =~= old(self).view().insert(kv, vv));
                }
            },
        }
    }

    /// Removes `k` and its value; the other entries keep their order.
    pub fn remove(&mut self, k: &str)
        requires
            old(self).wf(),
        ensures
            final(self).wf(),
            final(self).view() == old(self).view().remove(k@),
    {
        match self.find(k) {
            Some(i) => {
                let ghost old_keys = self.key_seq();
                self.entries.remove(i);
                proof {
                    assert(self.key_seq() =~= old_keys.remove(i as int));
                    assert forall|a: int, b: int|
                        0 <= a < self.key_seq().len() && 0 <= b < self.key_seq().len() && a != b
                        implies self.key_seq()[a] != self.key_seq()[b] by {
                        let a2 = if a < i { a } else { a + 1 };
                        let b2 = if b < i { b } else { b + 1 };
                        assert(self.key_seq()[a] == old_keys[a2]);
                        assert(self.key_seq()[b] == old_keys[b2]);
                    }
                    assert forall|key: Seq<char>|
                        #[trigger] old(self).view().remove(k@).contains_key(key) implies
                        self.view().contains_key(key) && self.view()[key] == old(self).view()[key] by {
                        let j = old_keys.index_of(key);
                        assert(0 <= j < old_keys.len() && old_keys[j] == key);
                        assert(j != i);
                        let j2 = if j < i { j } else { j - 1 };
                        assert(self.key_seq()[j2] == key);
                        self.lemma_index_of(j2);
                    }
                    assert forall|key: Seq<char>| #[trigger]
                        self.view().contains_key(key) implies old(self).view().remove(
                        k@,
                    ).contains_key(key) by {
                        let j = self.key_seq().index_of(key);
                        assert(0 <= j < self.key_seq().len() && self.key_seq()[j] == key);
                        let j2 = if j < i { j } else { j + 1 };
                        assert(old_keys[j2] == key);
                        assert(key != k@);
                    }
                    assert(self.view() =~= old(self).view().remove(k@));
                }
            },
            None => {
                proof {
                    assert(self.view() =~= old(self).view().remove(k@));
                }
            },
        }
    }

    /// Removes all entries.
    pub fn clear(&mut self)
        ensures
            final(self).wf(),
            final(self).view() == Map::<Seq<char>, V::V>::empty(),
    {
        self.entries = Vec::new();
        proof {
            assert(self.view() =~= Map::<Seq<char>, V::V>::empty());
        }
    }

    /// Whether the map has no entries.
    pub fn is_empty(&self) -> (r: bool)
        requires
            self.wf(),
        ensures
            r == (self.view() == Map::<Seq<char>, V::V>::empty()),
            r == (self.key_seq().len() == 0),
    {
        proof {
            self.lemma_keys();
            if self.key_seq().len() > 0 {
                assert(self.view().contains_key(self.key_seq()[0]));
            } else {
                assert(self.view() =~= Map::<Seq<char>, V::V>::empty());
            }
        }
        self.entries.len() == 0
    }

    /// Moves the contents out, leaving an empty map behind.
    pub fn take(&mut self) -> (r: StrMap<V>)
        requires
            old(self).wf(),
        ensures
            r.wf(),
            r.view() == old(self).view(),
            r.key_seq() == old(self).key_seq(),
            final(self).wf(),
            final(self).view() == Map::<Seq<char>, V::V>::empty(),
    {
        let mut entries: Vec<(String, V)> = Vec::new();
        std::mem::swap(&mut entries, &mut self.entries);
        proof {
            assert(self.view() =~= Map::<Seq<char>, V::V>::empty());
        }
        StrMap { entries }
    }
}

impl<V: DeepCopy> StrMap<V> {
    /// A copy with the same keys and values.
    pub fn deep_copy(&self) -> (r: StrMap<V>)
        requires
            self.wf(),
        ensures
            r.wf(),
            r.view() == self.view(),
            r.key_seq() == self.key_seq(),
    {
        let mut out: Vec<(String, V)> = Vec::new();
        let mut i: usize = 0;
        while i < self.entries.len()
            invariant
                i <= self.entries.len(),
                out@.len() == i,
                forall|j: int|
                    0 <= j < i ==> #[trigger] out@[j].0@ == self.entries@[j].0@ && out@[j].1.deep_view()
                        == self.entries@[j].1.deep_view(),
            decreases self.entries.len() - i,
        {
            out.push((self.entries[i].0.clone(), self.entries[i].1.deep_copy()));
            i += 1;
        }
        let r = StrMap { entries: out };
        proof {
            assert(r.key_seq() =~= self.key_seq());
            assert(r.view() =~= self.view());
        }
        r
    }
}

/// A set of strings, kept as a list in insertion order with no element twice.
pub struct StrSet {
    items: Vec<String>,
}

impl StrSet {
    /// The elements, in order.
    pub closed spec fn item_seq(&self) -> Seq<Seq<char>> {
        Seq::new(self.items@.len(), |i: int| self.items@[i]@)
    }

    /// No element occurs twice.
    pub closed spec fn wf(&self) -> bool {
        self.item_seq().no_duplicates()
    }

    /// The elements.
    pub closed spec fn view(&self) -> Set<Seq<char>> {
        self.item_seq().to_set()
    }

    /// The elements are those of the list, each once.
    pub proof fn lemma_len(&self)
        requires
            self.wf(),
        ensures
            self.view().finite(),
            self.view().len() == self.item_seq().len(),
    {
        self.item_seq().unique_seq_to_set();
    }

    /// An empty set.
    pub fn new() -> (s: Self)
        ensures
            s.wf(),
            s.view() == Set::<Seq<char>>::empty(),
    {
        let s = StrSet { items: Vec::new() };
        proof {
            assert(s.view() =~= Set::<Seq<char>>::empty());
        }
        s
    }

    /// The number of elements.
    pub fn len(&self) -> (n: usize)
        ensures
            n == self.item_seq().len(),
    {
        self.items.len()
    }

    /// The `i`-th element.
    pub fn item_at(&self, i: usize) -> (k: &String)
        requires
            i < self.item_seq().len(),
        ensures
            k@ == self.item_seq()[i as int],
            self.view().contains(k@),
    {
        proof {
            assert(self.item_seq().contains(self.item_seq()[i as int]));
        }
        &self.items[i]
    }

    fn find(&self, k: &str) -> (r: Option<usize>)
        ensures
            match r {
                Some(i) => i < self.item_seq().len() && self.item_seq()[i as int] == k@,
                None => !self.view().contains(k@),
            },
    {
        let key = crate::text::string_of(k);
        let mut i: usize = 0;
        while i < self.items.len()
            invariant
                i <= self.items.len(),
                forall|j: int| 0 <= j < i ==> self.item_seq()[j] != k@,
                key@ == k@,
            decreases self.items.len() - i,
        {
            if self.items[i].eq(&key) {
                return Some(i);
            }
            i += 1;
        }
        proof {
            if self.item_seq().contains(k@) {
                let j = choose|j: int| 0 <= j < self.item_seq().len() && self.item_seq()[j] == k@;
                assert(false);
            }
        }
        None
    }

    /// Whether `k` is an element.
    pub fn contains(&self, k: &str) -> (r: bool)
        ensures
            r == self.view().contains(k@),
    {
        match self.find(k) {
            Some(i) => {
                proof {
                    assert(self.item_seq().contains(k@));
                }
                true
            },
            None => false,
        }
    }

    /// Adds `k`.
    pub fn insert(&mut self, k: String)
        requires
            old(self).wf(),
        ensures
            final(self).wf(),
            final(self).view() == old(self).view().insert(k@),
    {
        if self.find(k.as_str()).is_none() {
            let ghost old_items = self.item_seq();
            let ghost kv = k@;
            self.items.push(k);
            proof {
                assert(self.item_seq() =~= old_items.push(kv));
                let n = old_items.len() as int;
                assert forall|a: int, b: int|
                    0 <= a < self.item_seq().len() && 0 <= b < self.item_seq().len() && a != b
                    implies self.item_seq()[a] != self.item_seq()[b] by {
                    if a == n {
                        assert(!old_items.contains(kv));
                        assert(old_items[b] == self.item_seq()[b]);
                    } else if b == n {
                        assert(!old_items.contains(kv));
                        assert(old_items[a] == self.item_seq()[a]);
                    }
                }
                assert(self.view() =~= old(self).view().insert(kv)) by {
                    assert forall|x: Seq<char>| #[trigger] self.view().contains(x) implies old(
                        self,
                    ).view().insert(kv).contains(x) by {
                        let j = choose|j: int| 0 <= j < self.item_seq().len() && self.item_seq()[j] == x;
                        if j < n {
                            assert(old_items[j] == x);
                        }
                    }
                    assert forall|x: Seq<char>| #[trigger] old(self).view().insert(kv).contains(
                        x,
                    ) implies self.view().contains(x) by {
                        if x == kv {
                            assert(self.item_seq()[n] == x);
                        } else {
                            let j = choose|j: int| 0 <= j < old_items.len() && old_items[j] == x;
                            assert(self.item_seq()[j] == x);
                        }
                    }
                }
            }
        } else {
            proof {
                assert(self.view() =~= old(self).view().insert(k@));
            }
        }
    }

    /// Removes `k`.
    pub fn remove(&mut self, k: &str)
        requires
            old(self).wf(),
        ensures
            final(self).wf(),
            final(self).view() == old(self).view().remove(k@),
    {
        match self.find(k) {
            Some(i) => {
                let ghost old_items = self.item_seq();
                self.items.remove(i);
                proof {
                    assert(self.item_seq() =~= old_items.remove(i as int));
                    assert forall|a: int, b: int|
                        0 <= a < self.item_seq().len() && 0 <= b < self.item_seq().len() && a != b
                        implies self.item_seq()[a] != self.item_seq()[b] by {
                        let a2 = if a < i { a } else { a + 1 };
                        let b2 = if b < i { b } else { b + 1 };
                        assert(self.item_seq()[a] == old_items[a2]);
                        assert(self.item_seq()[b] == old_items[b2]);
                    }
                    assert forall|x: Seq<char>| #[trigger] self.view().contains(x) implies old(
                        self,
                    ).view().remove(k@).contains(x) by {
                        let j = choose|j: int| 0 <= j < self.item_seq().len() && self.item_seq()[j] == x;
                        let j2 = if j < i { j } else { j + 1 };
                        assert(old_items[j2] == x);
                        assert(j2 != i);
                    }
                    assert forall|x: Seq<char>| #[trigger] old(self).view().remove(k@).contains(
                        x,
                    ) implies self.view().contains(x) by {
                        let j = choose|j: int| 0 <= j < old_items.len() && old_items[j] == x;
                        assert(j != i);
                        let j2 = if j < i { j } else { j - 1 };
                        assert(self.item_seq()[j2] == x);
                    }
                    assert(self.view() =~= old(self).view().remove(k@));
                }
            },
            None => {
                proof {
                    assert(self.view() =~= old(self).view().remove(k@));
                }
            },
        }
    }

    /// Whether the set has no elements.
    pub fn is_empty(&self) -> (r: bool)
        ensures
            r == (self.view() == Set::<Seq<char>>::empty()),
    {
        proof {
            if self.item_seq().len() > 0 {
                assert(self.view().contains(self.item_seq()[0]));
            } else {
                assert(self.view() =~= Set::<Seq<char>>::empty());
            }
        }
        self.items.len() == 0
    }

    /// A copy with the same elements.
    pub fn copy(&self) -> (r: StrSet)
        ensures
            r.item_seq() == self.item_seq(),
            self.wf() ==> r.wf(),
            r.view() == self.view(),
    {
        let mut items: Vec<String> = Vec::new();
        let mut i: usize = 0;
        while i < self.items.len()
            invariant
                i <= self.items.len(),
                items@.len() == i,
                forall|j: int| 0 <= j < i ==> #[trigger] items@[j]@ == self.items@[j]@,
            decreases self.items.len() - i,
        {
            items.push(self.items[i].clone());
            i += 1;
        }
        let r = StrSet { items };
        proof {
            assert(r.item_seq() =~= self.item_seq());
        }
        r
    }

    /// Moves the contents out, leaving an empty set behind.
    pub fn take(&mut self) -> (r: StrSet)
        requires
            old(self).wf(),
        ensures
            r.wf(),
            r.view() == old(self).view(),
            r.item_seq() == old(self).item_seq(),
            final(self).wf(),
            final(self).view() == Set::<Seq<char>>::empty(),
    {
        let mut items: Vec<String> = Vec::new();
        std::mem::swap(&mut items, &mut self.items);
        proof {
            assert(self.view() =~= Set::<Seq<char>>::empty());
        }
        StrSet { items }
    }
}

} // verus!
