//! A small map from names to directory paths, kept in insertion order.
use vstd::prelude::*;

verus! {

/// A map from names (crate names, Go module paths) to directories relative
/// to the repository root. Each name occurs once; entries keep the order in
/// which they were first inserted.
pub struct PathMap {
    entries: Vec<(String, String)>,
}

/// The first entry of `m` whose name is `k`.
pub open spec fn lookup(m: Seq<(Seq<char>, Seq<char>)>, k: Seq<char>) -> Option<Seq<char>>
    decreases m.len(),
{
    if m.len() == 0 {
        None
    } else if m[0].0 == k {
        Some(m[0].1)
    } else {
        lookup(m.drop_first(), k)
    }
}

/// The names of `m` are pairwise distinct.
pub open spec fn distinct_names(m: Seq<(Seq<char>, Seq<char>)>) -> bool {
    forall|i: int, j: int| 0 <= i < j < m.len() ==> m[i].0 != m[j].0
}

impl View for PathMap {
    type V = Seq<(Seq<char>, Seq<char>)>;

    closed spec fn view(&self) -> Seq<(Seq<char>, Seq<char>)> {
        self.entries@.map_values(|e: (String, String)| (e.0@, e.1@))
    }
}

impl PathMap {
    #[verifier::type_invariant]
    closed spec fn names_distinct(self) -> bool {
        distinct_names(self@)
    }

    /// An empty map.
    pub fn new() -> (m: PathMap)
        ensures
            m@ == Seq::<(Seq<char>, Seq<char>)>::empty(),
    {
        let m = PathMap { entries: Vec::new() };
        assert(m@ =~= Seq::<(Seq<char>, Seq<char>)>::empty());
        m
    }

    /// The number of entries.
    pub fn len(&self) -> (n: usize)
        ensures
            n == self@.len(),
    {
        self.entries.len()
    }

    /// Whether the map has no entry.
    pub fn is_empty(&self) -> (b: bool)
        ensures
            b == (self@.len() == 0),
    {
        self.entries.len() == 0
    }

    /// The name of entry `i`.
    pub fn name_at(&self, i: usize) -> (r: &String)
        requires
            i < self@.len(),
        ensures
            r@ == self@[i as int].0,
    {
        &self.entries[i].0
    }

    /// The directory of entry `i`.
    pub fn dir_at(&self, i: usize) -> (r: &String)
        requires
            i < self@.len(),
        ensures
            r@ == self@[i as int].1,
    {
        &self.entries[i].1
    }

    /// The position of the entry named `k`.
    fn position(&self, k: &String) -> (r: Option<usize>)
        ensures
            match r {
                Some(i) => i < self@.len() && self@[i as int].0 == k@ && forall|j: int|
                    0 <= j < i ==> self@[j].0 != k@,
                None => forall|j: int| 0 <= j < self@.len() ==> self@[j].0 != k@,
            },
    {
        let mut i: usize = 0;
        while i < self.entries.len()
            invariant
                i <= self.entries@.len(),
                self@.len() == self.entries@.len(),
                forall|j: int| 0 <= j < i ==> self@[j].0 != k@,
            decreases self.entries.len() - i,
        {
            assert(self@[i as int].0 == self.entries@[i as int].0@);
            if self.entries[i].0 == *k {
                return Some(i);
            }
            i += 1;
        }
        None
    }

    proof fn lemma_lookup_at(m: Seq<(Seq<char>, Seq<char>)>, k: Seq<char>, i: int)
        requires
            0 <= i <= m.len(),
            forall|j: int| 0 <= j < i ==> m[j].0 != k,
        ensures
            lookup(m, k) == lookup(m.skip(i), k),
        decreases i,
    {
        if i > 0 {
            Self::lemma_lookup_at(m.drop_first(), k, i - 1);
            assert(m.drop_first().skip(i - 1) =~= m.skip(i));
        } else {
            assert(m.skip(0) =~= m);
        }
    }

    /// The directory of the entry named `k` (`HashMap::get`).
    pub fn get(&self, k: &str) -> (r: Option<&String>)
        ensures
            match r {
                Some(d) => lookup(self@, k@) == Some(d@),
                None => lookup(self@, k@) is None,
            },
    {
        let key = String::from_str(k);
        let p = self.position(&key);
        proof {
            match p {
                Some(i) => {
                    Self::lemma_lookup_at(self@, k@, i as int);
                    assert(self@.skip(i as int)[0] == self@[i as int]);
                },
                None => {
                    Self::lemma_lookup_at(self@, k@, self@.len() as int);
                },
            }
        }
        match p {
            Some(i) => Some(&self.entries[i].1),
            None => None,
        }
    }

    /// Whether some entry is named `k`.
    pub fn contains_key(&self, k: &str) -> (b: bool)
        ensures
            b == (lookup(self@, k@) is Some),
    {
        match self.get(k) {
            Some(_) => true,
            None => false,
        }
    }

    /// Sets the directory of `k` (`HashMap::insert`): an entry named `k`
    /// keeps its place, a new name goes last.
    pub fn insert(&mut self, k: String, v: String)
        ensures
            match lookup(old(self)@, k@) {
                Some(_) => exists|i: int|
                    0 <= i < old(self)@.len() && old(self)@[i].0 == k@ && final(self)@ == old(
                        self,
                    )@.update(i, (k@, v@)),
                None => final(self)@ == old(self)@.push((k@, v@)),
            },
    {
        proof {
            use_type_invariant(&*self);
        }
        let p = self.position(&k);
        let ghost kv = k@;
        let ghost vv = v@;
        match p {
            Some(i) => {
                proof {
                    Self::lemma_lookup_at(self@, kv, i as int);
                }
                let ghost before = self@;
                let mut entries: Vec<(String, String)> = Vec::new();
                std::mem::swap(&mut entries, &mut self.entries);
                entries.set(i, (k, v));
                assert(entries@.map_values(|e: (String, String)| (e.0@, e.1@)) =~= before.update(
                    i as int,
                    (kv, vv),
                ));
                assert(distinct_names(before.update(i as int, (kv, vv))));
                self.entries = entries;
            },
            None => {
                proof {
                    Self::lemma_lookup_at(self@, kv, self@.len() as int);
                }
                let ghost before = self@;
                let mut entries: Vec<(String, String)> = Vec::new();
                std::mem::swap(&mut entries, &mut self.entries);
                entries.push((k, v));
                assert(entries@.map_values(|e: (String, String)| (e.0@, e.1@)) =~= before.push(
                    (kv, vv),
                ));
                assert(distinct_names(before.push((kv, vv))));
                self.entries = entries;
            },
        }
    }
}

} // verus!
