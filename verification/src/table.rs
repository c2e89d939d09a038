//! A keyed table: the contracts' persistent entries whose keys are not
//! plain integers (32-byte ids, symbols, project/year pairs).

use vstd::prelude::*;

use crate::common::{bytes32_eq, Bytes32, Symbol};

verus! {

/// A key that can be compared and copied in executable code.
pub trait TableKey: Sized {
    fn same(&self, other: &Self) -> (r: bool)
        ensures
            r == (*self == *other),
    ;

    fn dup(&self) -> (r: Self)
        ensures
            r == *self,
    ;
}

impl TableKey for Bytes32 {
    fn same(&self, other: &Self) -> (r: bool) {
        bytes32_eq(self, other)
    }

    fn dup(&self) -> (r: Self) {
        *self
    }
}

impl TableKey for (Bytes32, u32) {
    fn same(&self, other: &Self) -> (r: bool) {
        bytes32_eq(&self.0, &other.0) && self.1 == other.1
    }

    fn dup(&self) -> (r: Self) {
        (self.0, self.1)
    }
}

impl TableKey for Symbol {
    fn same(&self, other: &Self) -> (r: bool) {
        Symbol::same(self, other)
    }

    fn dup(&self) -> (r: Self) {
        *self
    }
}

/// A finite map from keys to values, with no key stored twice.
pub struct Table<K, V> {
    keys: Vec<K>,
    vals: Vec<V>,
}

impl<K, V> Table<K, V> {
    #[verifier::type_invariant]
    spec fn inv(self) -> bool {
        &&& self.keys@.len() == self.vals@.len()
        &&& forall|i: int, j: int|
            0 <= i < j < self.keys@.len() ==> #[trigger] self.keys@[i] != #[trigger] self.keys@[j]
    }
}

impl<K, V> View for Table<K, V> {
    type V = Map<K, V>;

    closed spec fn view(&self) -> Map<K, V> {
        Map::new(
            |k: K| self.keys@.contains(k),
            |k: K| self.vals@[self.keys@.index_of(k)],
        )
    }
}

impl<K: TableKey, V> Table<K, V> {
    /// An empty table.
    pub fn new() -> (r: Self)
        ensures
            r@ == Map::<K, V>::empty(),
    {
        let r = Table { keys: Vec::new(), vals: Vec::new() };
        assert(r@ =~= Map::<K, V>::empty());
        r
    }

    /// The position of `k`, when stored.
    fn position(&self, k: &K) -> (r: Option<usize>)
        ensures
            match r {
                Some(i) => i < self.keys@.len() && self.keys@[i as int] == *k,
                None => !self.keys@.contains(*k),
            },
    {
        let n = self.keys.len();
        for i in 0..n
            invariant
                n == self.keys@.len(),
                forall|j: int| 0 <= j < i ==> self.keys@[j] != *k,
        {
            if self.keys[i].same(k) {
                return Some(i);
            }
        }
        None
    }

    proof fn lemma_index_of(&self, i: int)
        requires
            self.inv(),
            0 <= i < self.keys@.len(),
        ensures
            self.keys@.index_of(self.keys@[i]) == i,
            self@.contains_key(self.keys@[i]),
            self@[self.keys@[i]] == self.vals@[i],
    {
        let k = self.keys@[i];
        assert(self.keys@.contains(k));
        let j = self.keys@.index_of(k);
        assert(0 <= j < self.keys@.len() && self.keys@[j] == k);
        if j < i {
            assert(self.keys@[j] != self.keys@[i]);
        } else if i < j {
            assert(self.keys@[i] != self.keys@[j]);
        }
    }

    /// Whether `k` is stored.
    pub fn contains_key(&self, k: &K) -> (r: bool)
        ensures
            r == self@.contains_key(*k),
    {
        self.position(k).is_some()
    }

    /// The value stored under `k`.
    pub fn get(&self, k: &K) -> (r: Option<&V>)
        ensures
            match r {
                Some(v) => self@.contains_key(*k) && *v == self@[*k],
                None => !self@.contains_key(*k),
            },
    {
        proof {
            use_type_invariant(self);
        }
        match self.position(k) {
            Some(i) => {
                proof {
                    self.lemma_index_of(i as int);
                }
                Some(&self.vals[i])
            },
            None => None,
        }
    }

    /// Store `v` under `k`, replacing what was stored there.
    pub fn insert(&mut self, k: K, v: V)
        ensures
            final(self)@ == old(self)@.insert(k, v),
    {
        proof {
            use_type_invariant(&*self);
        }
        match self.position(&k) {
            Some(i) => {
                let ghost old_self = *self;
                let mut taken = Table { keys: Vec::new(), vals: Vec::new() };
                std::mem::swap(self, &mut taken);
                let Table { keys, mut vals } = taken;
                vals.set(i, v);
                *self = Table { keys, vals };
                proof {
                    use_type_invariant(&*self);
                    assert forall|x: K| #[trigger] self@.contains_key(x) == old_self@.insert(
                        k,
                        v,
                    ).contains_key(x) by {
                        if x == k {
                            assert(self.keys@[i as int] == k);
                        }
                    }
                    assert forall|x: K| self@.contains_key(x) implies #[trigger] self@[x]
                        == old_self@.insert(k, v)[x] by {
                        let j = self.keys@.index_of(x);
                        assert(self.keys@.contains(x));
                        self.lemma_index_of(j);
                        old_self.lemma_index_of(j);
                    }
                    assert(self@ =~= old_self@.insert(k, v));
                }
            },
            None => {
                let ghost old_self = *self;
                let mut taken = Table { keys: Vec::new(), vals: Vec::new() };
                std::mem::swap(self, &mut taken);
                let Table { mut keys, mut vals } = taken;
                proof {
                    assert forall|a: int, b: int| 0 <= a < b < keys@.len() + 1 implies #[trigger] keys@.push(k)[a] != #[trigger] keys@.push(k)[b] by {
                        if b == keys@.len() {
                            assert(keys@.contains(keys@[a]));
                        }
                    }
                }
                keys.push(k);
                vals.push(v);
                *self = Table { keys, vals };
                proof {
                    use_type_invariant(&*self);
                    let n = old_self.keys@.len();
                    assert forall|x: K| #[trigger] self@.contains_key(x) == old_self@.insert(
                        k,
                        v,
                    ).contains_key(x) by {
                        if x == k {
                            assert(self.keys@[n as int] == k);
                        }
                        if old_self.keys@.contains(x) {
                            let j = choose|j: int| 0 <= j < n && old_self.keys@[j] == x;
                            assert(self.keys@[j] == x);
                        }
                        if self.keys@.contains(x) && x != k {
                            let j = choose|j: int| 0 <= j < n + 1 && self.keys@[j] == x;
                            assert(old_self.keys@[j] == x);
                        }
                    }
                    assert forall|x: K| self@.contains_key(x) implies #[trigger] self@[x]
                        == old_self@.insert(k, v)[x] by {
                        let j = self.keys@.index_of(x);
                        assert(self.keys@.contains(x));
                        self.lemma_index_of(j);
                        if x != k {
                            assert(j < n);
                            old_self.lemma_index_of(j);
                        } else {
                            self.lemma_index_of(n as int);
                        }
                    }
                    assert(self@ =~= old_self@.insert(k, v));
                }
            },
        }
    }

    /// Remove what is stored under `k`, returning it.
    pub fn remove(&mut self, k: &K) -> (r: Option<V>)
        ensures
            final(self)@ == old(self)@.remove(*k),
            match r {
                Some(v) => old(self)@.contains_key(*k) && v == old(self)@[*k],
                None => !old(self)@.contains_key(*k),
            },
    {
        proof {
            use_type_invariant(&*self);
        }
        match self.position(k) {
            Some(i) => {
                let ghost old_self = *self;
                proof {
                    old_self.lemma_index_of(i as int);
                }
                let mut taken = Table { keys: Vec::new(), vals: Vec::new() };
                std::mem::swap(self, &mut taken);
                let Table { mut keys, mut vals } = taken;
                let ghost ok = keys@;
                keys.remove(i);
                let v = vals.remove(i);
                proof {
                    assert forall|a: int, b: int| 0 <= a < b < keys@.len() implies #[trigger] keys@[a] != #[trigger] keys@[b] by {
                        let oa = if a < i { a } else { a + 1 };
                        let ob = if b < i { b } else { b + 1 };
                        assert(keys@[a] == ok[oa]);
                        assert(keys@[b] == ok[ob]);
                    }
                }
                *self = Table { keys, vals };
                proof {
                    use_type_invariant(&*self);
                    let n = old_self.keys@.len();
                    assert forall|x: K| #[trigger] self@.contains_key(x) == old_self@.remove(
                        *k,
                    ).contains_key(x) by {
                        if self.keys@.contains(x) {
                            let j = choose|j: int| 0 <= j < n - 1 && self.keys@[j] == x;
                            if j < i {
                                assert(old_self.keys@[j] == x);
                            } else {
                                assert(old_self.keys@[j + 1] == x);
                            }
                        }
                        if old_self.keys@.contains(x) && x != *k {
                            let j = choose|j: int| 0 <= j < n && old_self.keys@[j] == x;
                            assert(j != i);
                            if j < i {
                                assert(self.keys@[j] == x);
                            } else {
                                assert(self.keys@[j - 1] == x);
                            }
                        }
                    }
                    assert forall|x: K| self@.contains_key(x) implies #[trigger] self@[x]
                        == old_self@.remove(*k)[x] by {
                        let j = self.keys@.index_of(x);
                        assert(self.keys@.contains(x));
                        self.lemma_index_of(j);
                        if j < i {
                            old_self.lemma_index_of(j);
                        } else {
                            old_self.lemma_index_of(j + 1);
                        }
                    }
                    assert(self@ =~= old_self@.remove(*k));
                }
                Some(v)
            },
            None => {
                proof {
                    assert(self@ =~= old(self)@.remove(*k));
                }
                None
            },
        }
    }
}


impl<K: TableKey + Copy, V: Copy> Table<K, V> {
    /// A copy of the table.
    pub fn duplicate(&self) -> (r: Self)
        ensures
            r@ == self@,
    {
        proof {
            use_type_invariant(self);
        }
        let n = self.keys.len();
        let mut keys: Vec<K> = Vec::new();
        let mut vals: Vec<V> = Vec::new();
        for i in 0..n
            invariant
                n == self.keys@.len(),
                n == self.vals@.len(),
                keys@ == self.keys@.subrange(0, i as int),
                vals@ == self.vals@.subrange(0, i as int),
        {
            keys.push(self.keys[i]);
            vals.push(self.vals[i]);
            assert(keys@ =~= self.keys@.subrange(0, i + 1));
            assert(vals@ =~= self.vals@.subrange(0, i + 1));
        }
        assert(keys@ =~= self.keys@);
        assert(vals@ =~= self.vals@);
        Table { keys, vals }
    }
}

} // verus!
