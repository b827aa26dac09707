//! Tables whose keys are names.
use vstd::prelude::*;

verus! {

/// A name, as the bytes of its UTF-8 form.
pub type Name = Vec<u8>;

/// What a table of names holds, in the order in which the names came.
pub type Entries<V> = Seq<(Seq<u8>, V)>;

/// The value under `name`.
pub open spec fn find<V>(e: Entries<V>, name: Seq<u8>) -> Option<V>
    decreases e.len(),
{
    if e.len() == 0 {
        None
    } else if e.last().0 == name {
        Some(e.last().1)
    } else {
        find(e.drop_last(), name)
    }
}

/// The table with `v` as the value of every entry of this name.
pub open spec fn replaced<V>(e: Entries<V>, name: Seq<u8>, v: V) -> Entries<V> {
    Seq::new(
        e.len(),
        |i: int|
            if e[i].0 == name {
                (name, v)
            } else {
                e[i]
            },
    )
}

/// The table after `v` was put under `name`, in the place of the value that
/// was there, or else at the end.
pub open spec fn put<V>(e: Entries<V>, name: Seq<u8>, v: V) -> Entries<V> {
    if find(e, name) is Some {
        replaced(e, name, v)
    } else {
        e.push((name, v))
    }
}

/// Whether no name occurs twice.
pub open spec fn unique<V>(e: Entries<V>) -> bool {
    forall|i: int, j: int| 0 <= i < j < e.len() ==> (#[trigger] e[i]).0 != (#[trigger] e[j]).0
}

/// A name is found exactly where an entry has it.
pub proof fn lemma_find<V>(e: Entries<V>, name: Seq<u8>)
    ensures
        find(e, name) is Some <==> exists|i: int| 0 <= i < e.len() && (#[trigger] e[i]).0 == name,
        find(e, name) matches Some(v) ==> exists|i: int|
            0 <= i < e.len() && #[trigger] e[i] == (name, v),
    decreases e.len(),
{
    if e.len() > 0 {
        lemma_find(e.drop_last(), name);
        if e.last().0 == name {
            assert(e[e.len() - 1] == (name, e.last().1));
        } else {
            if find(e, name) is Some {
                let i = choose|i: int|
                    0 <= i < e.drop_last().len() && #[trigger] e.drop_last()[i] == (
                        name,
                        find(e, name).unwrap(),
                    );
                assert(e[i] == (name, find(e, name).unwrap()));
            } else {
                assert forall|i: int| 0 <= i < e.len() implies (#[trigger] e[i]).0 != name by {
                    if i < e.len() - 1 {
                        assert(e.drop_last()[i].0 == e[i].0);
                    }
                }
            }
        }
    }
}

/// In a table of unique names, an entry is found under its name.
pub proof fn lemma_find_entry<V>(e: Entries<V>, i: int)
    requires
        unique(e),
        0 <= i < e.len(),
    ensures
        find(e, e[i].0) == Some(e[i].1),
{
    lemma_find(e, e[i].0);
    assert(e[i].0 == e[i].0);
    let v = find(e, e[i].0).unwrap();
    let j = choose|j: int| 0 <= j < e.len() && #[trigger] e[j] == (e[i].0, v);
    if i < j {
        assert(e[i].0 != e[j].0);
    } else if j < i {
        assert(e[j].0 != e[i].0);
    }
}

/// What was put under a name is found there, and nothing changes under other
/// names.
pub proof fn lemma_find_put<V>(e: Entries<V>, name: Seq<u8>, v: V, other: Seq<u8>)
    ensures
        find(put(e, name, v), other) == (if other == name {
            Some(v)
        } else {
            find(e, other)
        }),
    decreases e.len(),
{
    if find(e, name) is Some {
        lemma_find_replace(e, name, v, other);
    } else {
        assert(put(e, name, v).drop_last() =~= e);
    }
}

proof fn lemma_find_replace<V>(e: Entries<V>, name: Seq<u8>, v: V, other: Seq<u8>)
    ensures
        find(replaced(e, name, v), other) == (if other == name && find(e, name) is Some {
            Some(v)
        } else {
            find(e, other)
        }),
    decreases e.len(),
{
    if e.len() > 0 {
        lemma_find_replace(e.drop_last(), name, v, other);
        assert(replaced(e, name, v).drop_last() =~= replaced(e.drop_last(), name, v));
    }
}

/// Names stay unique.
pub proof fn lemma_put_unique<V>(e: Entries<V>, name: Seq<u8>, v: V)
    requires
        unique(e),
    ensures
        unique(put(e, name, v)),
{
    lemma_find(e, name);
    let p = put(e, name, v);
    assert forall|i: int, j: int| 0 <= i < j < p.len() implies (#[trigger] p[i]).0 != (
    #[trigger] p[j]).0 by {
        if j < e.len() {
            assert(e[i].0 != e[j].0);
        } else {
            assert(e[i].0 != name);
        }
    }
}

/// A table whose keys are names.
pub struct NameMap<V> {
    entries: Vec<(Name, V)>,
}

impl<V> View for NameMap<V> {
    type V = Entries<V>;

    closed spec fn view(&self) -> Entries<V> {
        self.entries@.map_values(|x: (Name, V)| (x.0@, x.1))
    }
}

impl<V> NameMap<V> {
    #[verifier::type_invariant]
    closed spec fn inv(&self) -> bool {
        unique(self.view())
    }
}

/// Whether two names are the same.
pub fn same(a: &[u8], b: &[u8]) -> (r: bool)
    ensures
        r == (a@ == b@),
{
    let n: usize = a.len();
    if n != b.len() {
        return false;
    }
    let mut i: usize = 0;
    while i < n
        invariant
            i <= n,
            n == a@.len(),
            n == b@.len(),
            forall|j: int| 0 <= j < i ==> a@[j] == b@[j],
        decreases n - i,
    {
        if a[i] != b[i] {
            return false;
        }
        i += 1;
    }
    proof {
        assert(a@ =~= b@);
    }
    true
}

impl<V: Copy> NameMap<V> {
    pub fn new() -> (map: NameMap<V>)
        ensures
            map@ == Seq::<(Seq<u8>, V)>::empty(),
    {
        let map = NameMap { entries: Vec::new() };
        proof {
            assert(map@ =~= Seq::<(Seq<u8>, V)>::empty());
        }
        map
    }

    /// The number of entries.
    pub fn len(&self) -> (n: usize)
        ensures
            n == self@.len(),
            unique(self@),
    {
        proof {
            use_type_invariant(self);
        }
        self.entries.len()
    }

    /// The name of an entry.
    pub fn name(&self, i: usize) -> (name: &Name)
        requires
            i < self@.len(),
        ensures
            name@ == self@[i as int].0,
    {
        &self.entries[i].0
    }

    /// The value of an entry.
    pub fn value(&self, i: usize) -> (v: V)
        requires
            i < self@.len(),
        ensures
            v == self@[i as int].1,
    {
        self.entries[i].1
    }

    /// The index of the entry with this name.
    fn index_of(&self, name: &[u8]) -> (r: Option<usize>)
        ensures
            match r {
                Some(i) => i < self@.len() && self@[i as int].0 == name@ && find(self@, name@)
                    == Some(self@[i as int].1),
                None => find(self@, name@) is None,
            },
    {
        proof {
            use_type_invariant(self);
            lemma_find(self@, name@);
        }
        let n: usize = self.entries.len();
        let mut i: usize = 0;
        while i < n
            invariant
                i <= n,
                n == self@.len(),
                unique(self@),
                forall|j: int| 0 <= j < i ==> (#[trigger] self@[j]).0 != name@,
            decreases n - i,
        {
            if same(self.name(i).as_slice(), name) {
                proof {
                    lemma_find_entry(self@, i as int);
                }
                return Some(i);
            }
            i += 1;
        }
        None
    }

    /// The value under `name`.
    pub fn get(&self, name: &[u8]) -> (r: Option<V>)
        ensures
            r == find(self@, name@),
    {
        match self.index_of(name) {
            Some(i) => Some(self.value(i)),
            None => None,
        }
    }

    /// Replaces the value of an entry.
    pub fn set_value(&mut self, i: usize, v: V)
        requires
            i < old(self)@.len(),
        ensures
            final(self)@ == old(self)@.update(i as int, (old(self)@[i as int].0, v)),
    {
        proof {
            use_type_invariant(&*self);
        }
        let ghost before = self@;
        let mut entries: Vec<(Name, V)> = Vec::new();
        std::mem::swap(&mut entries, &mut self.entries);
        let name: Name = vstd::slice::slice_to_vec(entries[i].0.as_slice());
        entries.set(i, (name, v));
        proof {
            let after = entries@.map_values(|x: (Name, V)| (x.0@, x.1));
            assert(after =~= before.update(i as int, (before[i as int].0, v)));
            assert forall|j: int, k: int| 0 <= j < k < after.len() implies (#[trigger] after[j]).0
                != (#[trigger] after[k]).0 by {
                assert(before[j].0 != before[k].0);
            }
        }
        self.entries = entries;
    }

    /// Puts `v` under `name`.
    pub fn insert(&mut self, name: Name, v: V)
        ensures
            final(self)@ == put(old(self)@, name@, v),
    {
        proof {
            use_type_invariant(&*self);
            lemma_put_unique(self@, name@, v);
            lemma_find(self@, name@);
        }
        let found: Option<usize> = self.index_of(name.as_slice());
        let mut entries: Vec<(Name, V)> = Vec::new();
        std::mem::swap(&mut entries, &mut self.entries);
        let ghost before = old(self)@;
        match found {
            Some(i) => {
                entries.set(i, (name, v));
                proof {
                    let after = entries@.map_values(|x: (Name, V)| (x.0@, x.1));
                    assert forall|j: int| 0 <= j < before.len() implies after[j] == put(
                        before,
                        name@,
                        v,
                    )[j] by {
                        if j < i {
                            assert(before[j].0 != before[i as int].0);
                        } else if i < j {
                            assert(before[i as int].0 != before[j].0);
                        }
                    }
                    assert(after =~= put(before, name@, v));
                }
            },
            None => {
                entries.push((name, v));
                proof {
                    let after = entries@.map_values(|x: (Name, V)| (x.0@, x.1));
                    assert(after =~= put(before, name@, v));
                }
            },
        }
        self.entries = entries;
    }
}

} // verus!
