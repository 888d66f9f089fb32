use vstd::prelude::*;

verus! {

/// A map from names to values, kept as two parallel vectors whose names are
/// distinct.
pub struct NameMap<V> {
    names: Vec<Vec<u8>>,
    values: Vec<V>,
}

impl<V> NameMap<V> {
    pub closed spec fn wf(&self) -> bool {
        &&& self.names@.len() == self.values@.len()
        &&& forall|i: int, j: int|
            0 <= i < j < self.names@.len() ==> #[trigger] self.names@[i]@ != #[trigger] self.names@[j]@
    }

    /// The index that holds `k`.
    pub closed spec fn index_of(&self, k: Seq<u8>) -> int {
        choose|i: int| 0 <= i < self.names@.len() && self.names@[i]@ == k
    }

    pub closed spec fn view(&self) -> Map<Seq<u8>, V> {
        Map::new(
            |k: Seq<u8>| exists|i: int| 0 <= i < self.names@.len() && self.names@[i]@ == k,
            |k: Seq<u8>| self.values@[self.index_of(k)],
        )
    }

    pub fn new() -> (r: Self)
        ensures
            r.wf(),
            r.view() == Map::<Seq<u8>, V>::empty(),
    {
        let r = NameMap { names: Vec::new(), values: Vec::new() };
        assert(r.view() =~= Map::<Seq<u8>, V>::empty());
        r
    }

    fn find(&self, k: &Vec<u8>) -> (r: Option<usize>)
        requires
            self.wf(),
        ensures
            match r {
                Some(i) => i < self.names@.len() && self.names@[i as int]@ == k@,
                None => !self.view().contains_key(k@),
            },
    {
        let mut i: usize = 0;
        while i < self.names.len()
            invariant
                0 <= i <= self.names@.len(),
                forall|j: int| 0 <= j < i ==> self.names@[j]@ != k@,
            decreases self.names@.len() - i,
        {
            if bytes_equal(&self.names[i], k) {
                return Some(i);
            }
            i = i + 1;
        }
        None
    }

    proof fn lemma_index_of(&self, i: int)
        requires
            self.wf(),
            0 <= i < self.names@.len(),
        ensures
            self.index_of(self.names@[i]@) == i,
            self.view().contains_key(self.names@[i]@),
            self.view()[self.names@[i]@] == self.values@[i],
    {
        let k = self.names@[i]@;
        let j = self.index_of(k);
        assert(0 <= j < self.names@.len() && self.names@[j]@ == k);
        if j < i {
            assert(self.names@[j]@ != self.names@[i]@);
        } else if i < j {
            assert(self.names@[i]@ != self.names@[j]@);
        }
    }

    /// The value bound to `k`.
    pub fn get(&self, k: &Vec<u8>) -> (r: Option<&V>)
        requires
            self.wf(),
        ensures
            match r {
                Some(v) => self.view().contains_key(k@) && self.view()[k@] == *v,
                None => !self.view().contains_key(k@),
            },
    {
        match self.find(k) {
            Some(i) => {
                proof {
                    self.lemma_index_of(i as int);
                }
                Some(&self.values[i])
            },
            None => None,
        }
    }

    /// Binds `k` to `v`, replacing any earlier binding of `k`.
    pub fn insert(&mut self, k: Vec<u8>, v: V)
        requires
            old(self).wf(),
        ensures
            final(self).wf(),
            final(self).view() == old(self).view().insert(k@, v),
    {
        let ghost pre = *self;
        match self.find(&k) {
            Some(i) => {
                self.values.set(i, v);
                proof {
                    assert forall|key: Seq<u8>| #[trigger] self.view().contains_key(key) == pre.view().insert(k@, v).contains_key(key) by {
                        if pre.view().insert(k@, v).contains_key(key) && key != k@ {
                            let j = pre.index_of(key);
                            assert(self.names@[j]@ == key);
                        }
                    }
                    assert forall|key: Seq<u8>| self.view().contains_key(key) implies #[trigger] self.view()[key] == pre.view().insert(k@, v)[key] by {
                        let j = self.index_of(key);
                        assert(0 <= j < self.names@.len() && self.names@[j]@ == key);
                        self.lemma_index_of(j);
                        if key != k@ {
                            pre.lemma_index_of(j);
                            assert(j != i);
                        }
                    }
                    assert(self.view() =~= pre.view().insert(k@, v));
                }
            },
            None => {
                self.names.push(k);
                self.values.push(v);
                proof {
                    let n = pre.names@.len() as int;
                    assert forall|key: Seq<u8>| #[trigger] self.view().contains_key(key) == pre.view().insert(self.names@[n]@, v).contains_key(key) by {
                        if pre.view().contains_key(key) {
                            let j = pre.index_of(key);
                            assert(self.names@[j]@ == key);
                        }
                        if self.view().contains_key(key) && key != self.names@[n]@ {
                            let j = self.index_of(key);
                            assert(pre.names@[j]@ == key);
                        }
                    }
                    assert forall|key: Seq<u8>| self.view().contains_key(key) implies #[trigger] self.view()[key] == pre.view().insert(self.names@[n]@, v)[key] by {
                        let j = self.index_of(key);
                        assert(0 <= j < self.names@.len() && self.names@[j]@ == key);
                        self.lemma_index_of(j);
                        if j < n {
                            pre.lemma_index_of(j);
                        }
                    }
                    assert(self.view() =~= pre.view().insert(k@, v));
                }
            },
        }
    }
}

/// Whether two byte strings are equal.
pub fn bytes_equal(a: &Vec<u8>, b: &Vec<u8>) -> (r: bool)
    ensures
        r == (a@ == b@),
{
    if a.len() != b.len() {
        return false;
    }
    let mut i: usize = 0;
    while i < a.len()
        invariant
            0 <= i <= a@.len() == b@.len(),
            forall|j: int| 0 <= j < i ==> a@[j] == b@[j],
        decreases a@.len() - i,
    {
        if a[i] != b[i] {
            return false;
        }
        i = i + 1;
    }
    assert(a@ =~= b@);
    true
}

} // verus!
