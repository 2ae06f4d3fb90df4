//! The files of the import graph, each with its imports, kept in insertion order.
use vstd::prelude::*;

use crate::deps::FileImports;

verus! {

/// A map from files (relative paths) to their imports. Each file occurs
/// once; entries keep the order in which they were first inserted.
pub struct FileMap {
    entries: Vec<(String, FileImports)>,
}

/// The first entry of `m` whose file is `k`.
pub open spec fn lookup_file(m: Seq<(Seq<char>, FileImports)>, k: Seq<char>) -> Option<FileImports>
    decreases m.len(),
{
    if m.len() == 0 {
        None
    } else if m[0].0 == k {
        Some(m[0].1)
    } else {
        lookup_file(m.drop_first(), k)
    }
}

/// The position of the first entry of `m` from `i` on whose file is `k`.
pub open spec fn first_key<V>(m: Seq<(Seq<char>, V)>, k: Seq<char>, i: int) -> Option<int>
    decreases m.len() - i,
{
    if i < 0 || i >= m.len() {
        None
    } else if m[i].0 == k {
        Some(i)
    } else {
        first_key(m, k, i + 1)
    }
}

/// `m` with the value of `k` set to `v`: in place of the first entry for
/// `k`, or as a new last entry.
pub open spec fn put_file<V>(m: Seq<(Seq<char>, V)>, k: Seq<char>, v: V) -> Seq<(Seq<char>, V)> {
    match first_key(m, k, 0) {
        Some(i) => m.update(i, (k, v)),
        None => m.push((k, v)),
    }
}

pub proof fn lemma_first_key<V>(m: Seq<(Seq<char>, V)>, k: Seq<char>, i: int, j: int)
    requires
        0 <= j <= i < m.len(),
        m[i].0 == k,
        forall|l: int| 0 <= l < i ==> m[l].0 != k,
    ensures
        first_key(m, k, j) == Some(i),
    decreases i - j,
{
    if j < i {
        lemma_first_key(m, k, i, j + 1);
    }
}

pub proof fn lemma_no_key<V>(m: Seq<(Seq<char>, V)>, k: Seq<char>, j: int)
    requires
        0 <= j <= m.len(),
        forall|l: int| 0 <= l < m.len() ==> m[l].0 != k,
    ensures
        first_key(m, k, j) is None,
    decreases m.len() - j,
{
    if j < m.len() {
        lemma_no_key(m, k, j + 1);
    }
}

/// The files of `m` are pairwise distinct.
pub open spec fn distinct_files(m: Seq<(Seq<char>, FileImports)>) -> bool {
    forall|i: int, j: int| 0 <= i < j < m.len() ==> m[i].0 != m[j].0
}

impl View for FileMap {
    type V = Seq<(Seq<char>, FileImports)>;

    closed spec fn view(&self) -> Seq<(Seq<char>, FileImports)> {
        self.entries@.map_values(|e: (String, FileImports)| (e.0@, e.1))
    }
}

impl FileMap {
    #[verifier::type_invariant]
    closed spec fn names_distinct(self) -> bool {
        distinct_files(self@)
    }

    /// An empty map.
    pub fn new() -> (m: FileMap)
        ensures
            m@ == Seq::<(Seq<char>, FileImports)>::empty(),
    {
        let m = FileMap { entries: Vec::new() };
        assert(m@ =~= Seq::<(Seq<char>, FileImports)>::empty());
        m
    }

    /// The number of entries.
    pub fn len(&self) -> (n: usize)
        ensures
            n == self@.len(),
    {
        self.entries.len()
    }

    /// Whether the map has no entry.
    pub fn is_empty(&self) -> (b: bool)
        ensures
            b == (self@.len() == 0),
    {
        self.entries.len() == 0
    }

    /// The file of entry `i`.
    pub fn name_at(&self, i: usize) -> (r: &String)
        requires
            i < self@.len(),
        ensures
            r@ == self@[i as int].0,
    {
        &self.entries[i].0
    }

    /// The imports of entry `i`.
    pub fn imports_at(&self, i: usize) -> (r: &FileImports)
        requires
            i < self@.len(),
        ensures
            *r == self@[i as int].1,
    {
        &self.entries[i].1
    }

    /// The position of the entry named `k`.
    fn position(&self, k: &String) -> (r: Option<usize>)
        ensures
            match r {
                Some(i) => i < self@.len() && self@[i as int].0 == k@ && forall|j: int|
                    0 <= j < i ==> self@[j].0 != k@,
                None => forall|j: int| 0 <= j < self@.len() ==> self@[j].0 != k@,
            },
    {
        let mut i: usize = 0;
        while i < self.entries.len()
            invariant
                i <= self.entries@.len(),
                self@.len() == self.entries@.len(),
                forall|j: int| 0 <= j < i ==> self@[j].0 != k@,
            decreases self.entries.len() - i,
        {
            assert(self@[i as int].0 == self.entries@[i as int].0@);
            if self.entries[i].0 == *k {
                return Some(i);
            }
            i += 1;
        }
        None
    }

    proof fn lemma_lookup_at(m: Seq<(Seq<char>, FileImports)>, k: Seq<char>, i: int)
        requires
            0 <= i <= m.len(),
            forall|j: int| 0 <= j < i ==> m[j].0 != k,
        ensures
            lookup_file(m, k) == lookup_file(m.skip(i), k),
        decreases i,
    {
        if i > 0 {
            Self::lemma_lookup_at(m.drop_first(), k, i - 1);
            assert(m.drop_first().skip(i - 1) =~= m.skip(i));
        } else {
            assert(m.skip(0) =~= m);
        }
    }

    /// The imports of the file `k` (`HashMap::get`).
    pub fn get(&self, k: &str) -> (r: Option<&FileImports>)
        ensures
            match r {
                Some(d) => lookup_file(self@, k@) == Some(*d),
                None => lookup_file(self@, k@) is None,
            },
    {
        let key = String::from_str(k);
        let p = self.position(&key);
        proof {
            match p {
                Some(i) => {
                    Self::lemma_lookup_at(self@, k@, i as int);
                    assert(self@.skip(i as int)[0] == self@[i as int]);
                },
                None => {
                    Self::lemma_lookup_at(self@, k@, self@.len() as int);
                },
            }
        }
        match p {
            Some(i) => Some(&self.entries[i].1),
            None => None,
        }
    }

    /// Whether the map has an entry for the file `k`.
    pub fn contains_key(&self, k: &str) -> (b: bool)
        ensures
            b == (lookup_file(self@, k@) is Some),
    {
        match self.get(k) {
            Some(_) => true,
            None => false,
        }
    }

    /// Sets the imports of `k` (`HashMap::insert`): an entry for `k`
    /// keeps its place, a new file goes last.
    pub fn insert(&mut self, k: String, v: FileImports)
        ensures
            final(self)@ == put_file(old(self)@, k@, v),
    {
        proof {
            use_type_invariant(&*self);
        }
        let p = self.position(&k);
        let ghost kv = k@;
        let ghost vv = v;
        match p {
            Some(i) => {
                proof {
                    Self::lemma_lookup_at(self@, kv, i as int);
                    lemma_first_key(self@, kv, i as int, 0);
                }
                let ghost before = self@;
                let mut entries: Vec<(String, FileImports)> = Vec::new();
                std::mem::swap(&mut entries, &mut self.entries);
                entries.set(i, (k, v));
                assert(entries@.map_values(|e: (String, FileImports)| (e.0@, e.1)) =~= before.update(
                    i as int,
                    (kv, vv),
                ));
                assert(distinct_files(before.update(i as int, (kv, vv))));
                self.entries = entries;
            },
            None => {
                proof {
                    Self::lemma_lookup_at(self@, kv, self@.len() as int);
                    lemma_no_key(self@, kv, 0);
                }
                let ghost before = self@;
                let mut entries: Vec<(String, FileImports)> = Vec::new();
                std::mem::swap(&mut entries, &mut self.entries);
                entries.push((k, v));
                assert(entries@.map_values(|e: (String, FileImports)| (e.0@, e.1)) =~= before.push(
                    (kv, vv),
                ));
                assert(distinct_files(before.push((kv, vv))));
                self.entries = entries;
            },
        }
    }
}

} // verus!
