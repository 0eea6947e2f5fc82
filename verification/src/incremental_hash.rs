//! Incremental file hashing and change detection: snapshots of file
//! hashes keyed by path, the changes between two snapshots, and a cache of
//! file hashes that is only trusted while a file's size and modification
//! time stay the same.
//!
//! Paths are compared as `std::path::Path` compares them: component by
//! component, so `a/b` and `a//b` are the same key. Reading files and
//! their metadata is left to the caller.
use vstd::prelude::*;
use std::hash::Hasher;
use std::collections::hash_map::DefaultHasher;
use vstd::std_specs::hash::DefaultHasherAdditionalSpecFns;
use crate::auto_mode::{components_of, path_components};
use crate::text::{
    chars_eq, concat_str, chars_lt, chars_of, lemma_name_lt_asymmetric, lemma_name_lt_irreflexive,
    lemma_name_lt_total, lemma_name_lt_transitive, name_lt,
};

verus! {

// ── Order of paths ──────────────────────────────────────────────────────

/// The order of paths: component lists compared lexicographically, each
/// component by its text.
pub open spec fn comps_lt(a: Seq<Seq<char>>, b: Seq<Seq<char>>) -> bool
    decreases a.len(),
{
    if a.len() == 0 {
        b.len() > 0
    } else if b.len() == 0 {
        false
    } else if a[0] != b[0] {
        name_lt(a[0], b[0])
    } else {
        comps_lt(a.drop_first(), b.drop_first())
    }
}

pub proof fn lemma_comps_lt_irreflexive(a: Seq<Seq<char>>)
    ensures
        !comps_lt(a, a),
    decreases a.len(),
{
    if a.len() > 0 {
        lemma_comps_lt_irreflexive(a.drop_first());
    }
}

pub proof fn lemma_comps_lt_asymmetric(a: Seq<Seq<char>>, b: Seq<Seq<char>>)
    requires
        comps_lt(a, b),
    ensures
        !comps_lt(b, a),
    decreases a.len(),
{
    if a.len() > 0 && b.len() > 0 {
        if a[0] != b[0] {
            lemma_name_lt_asymmetric(a[0], b[0]);
        } else {
            lemma_comps_lt_asymmetric(a.drop_first(), b.drop_first());
        }
    }
}

pub proof fn lemma_comps_lt_total(a: Seq<Seq<char>>, b: Seq<Seq<char>>)
    ensures
        a == b || comps_lt(a, b) || comps_lt(b, a),
    decreases a.len(),
{
    if a.len() > 0 && b.len() > 0 {
        if a[0] != b[0] {
            lemma_name_lt_total(a[0], b[0]);
        } else {
            lemma_comps_lt_total(a.drop_first(), b.drop_first());
            if a.drop_first() == b.drop_first() {
                assert(a =~= seq![a[0]] + a.drop_first());
                assert(b =~= seq![b[0]] + b.drop_first());
            }
        }
    } else if a.len() == 0 && b.len() == 0 {
        assert(a =~= b);
    }
}

pub proof fn lemma_comps_lt_transitive(a: Seq<Seq<char>>, b: Seq<Seq<char>>, c: Seq<Seq<char>>)
    requires
        comps_lt(a, b),
        comps_lt(b, c),
    ensures
        comps_lt(a, c),
    decreases a.len(),
{
    if a.len() > 0 && b.len() > 0 && c.len() > 0 {
        if a[0] != b[0] && b[0] != c[0] {
            lemma_name_lt_transitive(a[0], b[0], c[0]);
            if a[0] == c[0] {
                lemma_name_lt_asymmetric(a[0], b[0]);
            }
        } else if a[0] != b[0] {
        } else if b[0] != c[0] {
        } else {
            lemma_comps_lt_transitive(a.drop_first(), b.drop_first(), c.drop_first());
        }
    }
}

/// Whether `a` comes before `b` in the order of paths.
fn comps_less(a: &Vec<Vec<char>>, b: &Vec<Vec<char>>) -> (r: bool)
    ensures
        r == comps_lt(a@.map_values(|p: Vec<char>| p@), b@.map_values(|p: Vec<char>| p@)),
{
    let ghost av = a@.map_values(|p: Vec<char>| p@);
    let ghost bv = b@.map_values(|p: Vec<char>| p@);
    let mut i: usize = 0;
    proof {
        assert(av.skip(0) =~= av);
        assert(bv.skip(0) =~= bv);
    }
    while i < a.len() && i < b.len()
        invariant
            i <= a.len(),
            i <= b.len(),
            av == a@.map_values(|p: Vec<char>| p@),
            bv == b@.map_values(|p: Vec<char>| p@),
            comps_lt(av, bv) == comps_lt(av.skip(i as int), bv.skip(i as int)),
        decreases a.len() - i,
    {
        let ghost x = av.skip(i as int);
        let ghost y = bv.skip(i as int);
        assert(x[0] == a@[i as int]@ && y[0] == b@[i as int]@);
        if !chars_eq(a[i].as_slice(), b[i].as_slice()) {
            return chars_lt(a[i].as_slice(), b[i].as_slice());
        }
        proof {
            assert(x.drop_first() =~= av.skip(i + 1));
            assert(y.drop_first() =~= bv.skip(i + 1));
        }
        i += 1;
    }
    proof {
        assert(av.skip(i as int).len() == 0 || bv.skip(i as int).len() == 0);
    }
    i == a.len() && i < b.len()
}

/// Whether two component lists are equal.
fn comps_equal(a: &Vec<Vec<char>>, b: &Vec<Vec<char>>) -> (r: bool)
    ensures
        r == (a@.map_values(|p: Vec<char>| p@) == b@.map_values(|p: Vec<char>| p@)),
{
    let ghost av = a@.map_values(|p: Vec<char>| p@);
    let ghost bv = b@.map_values(|p: Vec<char>| p@);
    if a.len() != b.len() {
        proof {
            assert(av.len() != bv.len());
        }
        return false;
    }
    let mut i: usize = 0;
    while i < a.len()
        invariant
            i <= a.len() == b.len(),
            av == a@.map_values(|p: Vec<char>| p@),
            bv == b@.map_values(|p: Vec<char>| p@),
            forall|k: int| 0 <= k < i ==> av[k] == bv[k],
        decreases a.len() - i,
    {
        assert(av[i as int] == a@[i as int]@ && bv[i as int] == b@[i as int]@);
        if !chars_eq(a[i].as_slice(), b[i].as_slice()) {
            return false;
        }
        i += 1;
    }
    proof {
        assert(av =~= bv);
    }
    true
}

// ── Maps keyed by path ──────────────────────────────────────────────────

/// An entry of a map keyed by path: the path as given, its components, and
/// the value.
#[derive(Debug)]
pub struct PathEntry<V> {
    path: String,
    comps: Vec<Vec<char>>,
    value: V,
}

/// The components of an entry's path.
pub closed spec fn entry_key<V>(e: PathEntry<V>) -> Seq<Seq<char>> {
    e.comps@.map_values(|p: Vec<char>| p@)
}

/// Keys strictly increasing in the order of paths.
pub open spec fn sorted_keys(s: Seq<Seq<Seq<char>>>) -> bool {
    forall|i: int, j: int| 0 <= i < j < s.len() ==> comps_lt(#[trigger] s[i], #[trigger] s[j])
}

/// A map from paths to values, ordered by path.
#[derive(Debug)]
pub struct PathMap<V> {
    entries: Vec<PathEntry<V>>,
}

/// What an entry holds as plain values: the path text, its key, its value.
pub closed spec fn entry_view<V>(e: PathEntry<V>) -> (Seq<char>, Seq<Seq<char>>, V) {
    (e.path@, entry_key(e), e.value)
}

impl<V> PathMap<V> {
    /// The entries, in the order of their paths.
    pub closed spec fn entry_seq(&self) -> Seq<(Seq<char>, Seq<Seq<char>>, V)> {
        self.entries@.map_values(|e: PathEntry<V>| entry_view(e))
    }

    /// Each entry's key is the components of its path, and the keys
    /// increase.
    pub closed spec fn wf(&self) -> bool {
        &&& forall|i: int| 0 <= i < self.entries@.len() ==> entry_key(#[trigger] self.entries@[i])
            == path_components(self.entries@[i].path@)
        &&& sorted_keys(self.entries@.map_values(|e: PathEntry<V>| entry_key(e)))
    }

    /// An empty map.
    pub fn new() -> (r: Self)
        ensures
            r.wf(),
            r.entry_seq() == Seq::<(Seq<char>, Seq<Seq<char>>, V)>::empty(),
    {
        let r = PathMap { entries: Vec::new() };
        proof {
            assert(r.entry_seq() =~= Seq::<(Seq<char>, Seq<Seq<char>>, V)>::empty());
        }
        r
    }

    /// Number of entries.
    pub fn len(&self) -> (r: usize)
        ensures
            r == self.entry_seq().len(),
    {
        self.entries.len()
    }

    /// Whether the map is empty.
    pub fn is_empty(&self) -> (r: bool)
        ensures
            r == (self.entry_seq().len() == 0),
    {
        self.entries.len() == 0
    }
}


/// The keys of the entries of a map view.
pub open spec fn keys_of<V>(s: Seq<(Seq<char>, Seq<Seq<char>>, V)>) -> Seq<Seq<Seq<char>>> {
    s.map_values(|e: (Seq<char>, Seq<Seq<char>>, V)| e.1)
}

/// The number of keys of `s` before `k`; in a sorted list, the position
/// at which `k` belongs.
pub open spec fn key_lower_bound(s: Seq<Seq<Seq<char>>>, k: Seq<Seq<char>>) -> int
    decreases s.len(),
{
    if s.len() == 0 {
        0
    } else if comps_lt(s.last(), k) {
        s.len() as int
    } else {
        key_lower_bound(s.drop_last(), k)
    }
}

pub proof fn lemma_key_lower_bound(s: Seq<Seq<Seq<char>>>, k: Seq<Seq<char>>)
    requires
        sorted_keys(s),
    ensures
        0 <= key_lower_bound(s, k) <= s.len(),
        forall|i: int| 0 <= i < key_lower_bound(s, k) ==> comps_lt(#[trigger] s[i], k),
        forall|i: int| key_lower_bound(s, k) <= i < s.len() ==> !comps_lt(#[trigger] s[i], k),
    decreases s.len(),
{
    if s.len() > 0 {
        let last = s.last();
        if comps_lt(last, k) {
            assert forall|i: int| 0 <= i < s.len() implies comps_lt(#[trigger] s[i], k) by {
                if i < s.len() - 1 {
                    lemma_comps_lt_transitive(s[i], last, k);
                }
            }
        } else {
            let t = s.drop_last();
            assert(sorted_keys(t)) by {
                assert forall|i: int, j: int| 0 <= i < j < t.len() implies comps_lt(#[trigger] t[i], #[trigger] t[j]) by {
                    assert(t[i] == s[i] && t[j] == s[j]);
                }
            }
            lemma_key_lower_bound(t, k);
            assert forall|i: int| 0 <= i < key_lower_bound(s, k) implies comps_lt(#[trigger] s[i], k) by {
                assert(t[i] == s[i]);
            }
            assert forall|i: int| key_lower_bound(s, k) <= i < s.len() implies !comps_lt(#[trigger] s[i], k) by {
                if i < s.len() - 1 {
                    assert(t[i] == s[i]);
                }
            }
        }
    }
}

/// The position of key `k` in `s`, or `-1`.
pub open spec fn key_index(s: Seq<Seq<Seq<char>>>, k: Seq<Seq<char>>) -> int {
    if s.contains(k) {
        choose|i: int| 0 <= i < s.len() && s[i] == k
    } else {
        -1
    }
}

/// In a sorted list, `key_index` is the one position of the key.
pub proof fn lemma_key_index(s: Seq<Seq<Seq<char>>>, k: Seq<Seq<char>>, i: int)
    requires
        sorted_keys(s),
        0 <= i < s.len(),
        s[i] == k,
    ensures
        key_index(s, k) == i,
{
    let j = key_index(s, k);
    assert(s.contains(k));
    if j != i {
        if j < i {
            assert(comps_lt(s[j], s[i]));
        } else {
            assert(comps_lt(s[i], s[j]));
        }
        lemma_comps_lt_irreflexive(k);
    }
}

/// Sortedness is kept by inserting a new key at its place.
proof fn lemma_insert_sorted(s: Seq<Seq<Seq<char>>>, k: Seq<Seq<char>>)
    requires
        sorted_keys(s),
        !s.contains(k),
    ensures
        sorted_keys(s.insert(key_lower_bound(s, k), k)),
{
    lemma_key_lower_bound(s, k);
    let p = key_lower_bound(s, k);
    let t = s.insert(p, k);
    assert forall|i: int, j: int| 0 <= i < j < t.len() implies comps_lt(#[trigger] t[i], #[trigger] t[j]) by {
        if j < p {
            assert(t[i] == s[i] && t[j] == s[j]);
        } else if j == p {
            assert(t[i] == s[i]);
        } else if i == p {
            assert(t[j] == s[j - 1]);
            lemma_comps_lt_total(k, s[j - 1]);
        } else if i < p {
            assert(t[i] == s[i] && t[j] == s[j - 1]);
        } else {
            assert(t[i] == s[i - 1] && t[j] == s[j - 1]);
        }
    }
}

/// Removing an entry keeps the keys sorted.
proof fn lemma_remove_sorted(s: Seq<Seq<Seq<char>>>, i: int)
    requires
        sorted_keys(s),
        0 <= i < s.len(),
    ensures
        sorted_keys(s.remove(i)),
{
    let t = s.remove(i);
    assert forall|a: int, b: int| 0 <= a < b < t.len() implies comps_lt(#[trigger] t[a], #[trigger] t[b]) by {
        if b < i {
            assert(t[a] == s[a] && t[b] == s[b]);
        } else if a < i {
            assert(t[a] == s[a] && t[b] == s[b + 1]);
        } else {
            assert(t[a] == s[a + 1] && t[b] == s[b + 1]);
        }
    }
}

impl<V> PathMap<V> {
    /// The keys of the entries, in order.
    proof fn lemma_keys(&self)
        requires
            self.wf(),
        ensures
            keys_of(self.entry_seq()) == self.entries@.map_values(|e: PathEntry<V>| entry_key(e)),
            sorted_keys(keys_of(self.entry_seq())),
            self.entry_seq().len() == self.entries@.len(),
    {
        assert(keys_of(self.entry_seq()) =~= self.entries@.map_values(|e: PathEntry<V>| entry_key(e)));
    }

    /// The position of the entry whose key is `comps`, or where it belongs.
    fn locate(&self, comps: &Vec<Vec<char>>) -> (r: (usize, bool))
        requires
            self.wf(),
        ensures
            r.1 ==> (r.0 as int) < self.entry_seq().len() && keys_of(self.entry_seq())[r.0 as int]
                == comps@.map_values(|p: Vec<char>| p@),
            r.1 ==> key_index(keys_of(self.entry_seq()), comps@.map_values(|p: Vec<char>| p@)) == r.0,
            !r.1 ==> !keys_of(self.entry_seq()).contains(comps@.map_values(|p: Vec<char>| p@))
                && r.0 as int == key_lower_bound(keys_of(self.entry_seq()), comps@.map_values(|p: Vec<char>| p@)),
    {
        let ghost ks = keys_of(self.entry_seq());
        let ghost k = comps@.map_values(|p: Vec<char>| p@);
        proof {
            self.lemma_keys();
            lemma_key_lower_bound(ks, k);
        }
        let mut i: usize = 0;
        while i < self.entries.len()
            invariant
                i <= self.entries.len(),
                ks == self.entries@.map_values(|e: PathEntry<V>| entry_key(e)),
                ks.len() == self.entries.len(),
                k == comps@.map_values(|p: Vec<char>| p@),
                sorted_keys(ks),
                0 <= key_lower_bound(ks, k) <= ks.len(),
                forall|j: int| 0 <= j < key_lower_bound(ks, k) ==> comps_lt(#[trigger] ks[j], k),
                forall|j: int| key_lower_bound(ks, k) <= j < ks.len() ==> !comps_lt(#[trigger] ks[j], k),
                i <= key_lower_bound(ks, k),
            ensures
                i as int == key_lower_bound(ks, k),
            decreases self.entries.len() - i,
        {
            assert(ks[i as int] == entry_key(self.entries@[i as int]));
            if !comps_less(&self.entries[i].comps, comps) {
                break;
            }
            i += 1;
        }
        if i < self.entries.len() && comps_equal(&self.entries[i].comps, comps) {
            proof {
                assert(ks[i as int] == k);
                lemma_key_index(ks, k, i as int);
            }
            return (i, true);
        }
        proof {
            if ks.contains(k) {
                let j = choose|j: int| 0 <= j < ks.len() && ks[j] == k;
                lemma_comps_lt_irreflexive(k);
                if j > i {
                    assert(comps_lt(ks[i as int], ks[j]));
                    lemma_comps_lt_total(ks[i as int], k);
                    lemma_comps_lt_asymmetric(ks[i as int], k);
                }
            }
        }
        (i, false)
    }

    /// The value stored under `path`, if any.
    pub fn get(&self, path: &str) -> (r: Option<&V>)
        requires
            self.wf(),
        ensures
            match r {
                Some(v) => {
                    let i = key_index(keys_of(self.entry_seq()), path_components(path@));
                    0 <= i < self.entry_seq().len() && *v == self.entry_seq()[i].2
                },
                None => !keys_of(self.entry_seq()).contains(path_components(path@)),
            },
    {
        let c = chars_of(path);
        let comps = components_of(c.as_slice());
        let (i, found) = self.locate(&comps);
        if found {
            proof {
                assert(self.entry_seq()[i as int].2 == self.entries@[i as int].value);
            }
            Some(&self.entries[i].value)
        } else {
            None
        }
    }

    /// Store `value` under `path`. When an entry with the same key exists,
    /// its value is replaced and its path text kept; otherwise a new entry
    /// is placed in order.
    pub fn insert(&mut self, path: &str, value: V)
        requires
            old(self).wf(),
        ensures
            final(self).wf(),
            ({
                let s = old(self).entry_seq();
                let k = path_components(path@);
                if keys_of(s).contains(k) {
                    let i = key_index(keys_of(s), k);
                    final(self).entry_seq() == s.update(i, (s[i].0, k, value))
                } else {
                    final(self).entry_seq() == s.insert(key_lower_bound(keys_of(s), k), (path@, k, value))
                }
            }),
    {
        let ghost s = self.entry_seq();
        let c = chars_of(path);
        let comps = components_of(c.as_slice());
        let ghost k = comps@.map_values(|p: Vec<char>| p@);
        proof {
            self.lemma_keys();
        }
        let (i, found) = self.locate(&comps);
        if found {
            let ghost e0 = self.entries@[i as int];
            self.entries[i].value = value;
            proof {
                assert(self.entries@.map_values(|e: PathEntry<V>| entry_key(e)) =~= old(self).entries@.map_values(|e: PathEntry<V>| entry_key(e)));
                assert(self.entry_seq() =~= s.update(i as int, (s[i as int].0, k, value)));
            }
        } else {
            let entry = PathEntry { path: path.to_owned(), comps, value };
            let ghost ks = old(self).entries@.map_values(|e: PathEntry<V>| entry_key(e));
            proof {
                lemma_insert_sorted(ks, k);
                lemma_key_lower_bound(ks, k);
                assert(ks == keys_of(s));
                assert(entry_key(entry) == k);
            }
            self.entries.insert(i, entry);
            proof {
                assert(self.entries@.map_values(|e: PathEntry<V>| entry_key(e)) =~= ks.insert(i as int, k));
                assert(self.entry_seq() =~= s.insert(i as int, (path@, k, value)));
                assert forall|j: int| 0 <= j < self.entries@.len() implies entry_key(#[trigger] self.entries@[j])
                    == path_components(self.entries@[j].path@) by {
                    if j < i {
                        assert(self.entries@[j] == old(self).entries@[j]);
                    } else if j > i {
                        assert(self.entries@[j] == old(self).entries@[j - 1]);
                    }
                }
            }
        }
    }

    /// Remove the entry stored under `path`, returning its value.
    pub fn remove(&mut self, path: &str) -> (r: Option<V>)
        requires
            old(self).wf(),
        ensures
            final(self).wf(),
            ({
                let s = old(self).entry_seq();
                let k = path_components(path@);
                match r {
                    Some(v) => {
                        let i = key_index(keys_of(s), k);
                        &&& 0 <= i < s.len()
                        &&& v == s[i].2
                        &&& final(self).entry_seq() == s.remove(i)
                    },
                    None => !keys_of(s).contains(k) && final(self).entry_seq() == s,
                }
            }),
    {
        let ghost s = self.entry_seq();
        let c = chars_of(path);
        let comps = components_of(c.as_slice());
        proof {
            self.lemma_keys();
        }
        let (i, found) = self.locate(&comps);
        if !found {
            return None;
        }
        let ghost ks = old(self).entries@.map_values(|e: PathEntry<V>| entry_key(e));
        proof {
            lemma_remove_sorted(ks, i as int);
        }
        let e = self.entries.remove(i);
        proof {
            assert(self.entries@.map_values(|e: PathEntry<V>| entry_key(e)) =~= ks.remove(i as int));
            assert(self.entry_seq() =~= s.remove(i as int));
            assert forall|j: int| 0 <= j < self.entries@.len() implies entry_key(#[trigger] self.entries@[j])
                == path_components(self.entries@[j].path@) by {
                if j < i {
                    assert(self.entries@[j] == old(self).entries@[j]);
                } else {
                    assert(self.entries@[j] == old(self).entries@[j + 1]);
                }
            }
        }
        Some(e.value)
    }

    /// Remove every entry.
    pub fn clear(&mut self)
        ensures
            final(self).wf(),
            final(self).entry_seq() == Seq::<(Seq<char>, Seq<Seq<char>>, V)>::empty(),
    {
        self.entries.clear();
        proof {
            assert(self.entry_seq() =~= Seq::<(Seq<char>, Seq<Seq<char>>, V)>::empty());
            assert(self.entries@.map_values(|e: PathEntry<V>| entry_key(e)) =~= Seq::<Seq<Seq<char>>>::empty());
        }
    }
}


// ── Snapshots and change detection ─────────────────────────────────────

/// A snapshot of file hashes, keyed by path.
pub type HashSnapshot = PathMap<u64>;

/// Kind of file change between two snapshots.
#[derive(Debug, Clone, Copy, PartialEq, Eq, Structural)]
pub enum ChangeKind {
    /// The file is new (not in the old snapshot).
    Added,
    /// The file is gone (not in the new snapshot).
    Removed,
    /// The file's content changed (its hash differs).
    Modified,
}

/// A detected file change.
#[derive(Debug, Clone, PartialEq, Eq)]
pub struct FileChange {
    /// Path of the changed file.
    pub path: String,
    /// Kind of change.
    pub kind: ChangeKind,
}

/// The label of a change kind.
pub open spec fn kind_label(k: ChangeKind) -> Seq<char> {
    match k {
        ChangeKind::Added => "added"@,
        ChangeKind::Removed => "removed"@,
        ChangeKind::Modified => "modified"@,
    }
}

impl FileChange {
    /// `label: path`, such as `added: src/main.rs`.
    pub fn to_string(&self) -> (r: String)
        ensures
            r@ == kind_label(self.kind) + ": "@ + self.path@,
    {
        let label = match self.kind {
            ChangeKind::Added => "added",
            ChangeKind::Removed => "removed",
            ChangeKind::Modified => "modified",
        };
        let a = concat_str(label, ": ");
        concat_str(a.as_str(), self.path.as_str())
    }
}

/// The changes from the snapshot entries `o` to `n`, both in path order:
/// walking both in order, a path only in `o` is removed, a path only in
/// `n` is added, and a path in both with different hashes is modified.
/// Removed and modified files are reported under their path in `o`, added
/// ones under their path in `n`.
pub open spec fn changes(o: Seq<(Seq<char>, Seq<Seq<char>>, u64)>, n: Seq<(Seq<char>, Seq<Seq<char>>, u64)>) -> Seq<(Seq<char>, ChangeKind)>
    decreases o.len() + n.len(),
{
    if o.len() == 0 && n.len() == 0 {
        Seq::empty()
    } else if o.len() == 0 {
        seq![(n[0].0, ChangeKind::Added)] + changes(o, n.drop_first())
    } else if n.len() == 0 {
        seq![(o[0].0, ChangeKind::Removed)] + changes(o.drop_first(), n)
    } else if o[0].1 == n[0].1 {
        if o[0].2 != n[0].2 {
            seq![(o[0].0, ChangeKind::Modified)] + changes(o.drop_first(), n.drop_first())
        } else {
            changes(o.drop_first(), n.drop_first())
        }
    } else if comps_lt(o[0].1, n[0].1) {
        seq![(o[0].0, ChangeKind::Removed)] + changes(o.drop_first(), n)
    } else {
        seq![(n[0].0, ChangeKind::Added)] + changes(o, n.drop_first())
    }
}

/// The changes as plain values.
pub open spec fn changes_view(s: Seq<FileChange>) -> Seq<(Seq<char>, ChangeKind)> {
    s.map_values(|c: FileChange| (c.path@, c.kind))
}

/// Compare two snapshots and return all changes, in path order.
pub fn detect_changes(old: &HashSnapshot, new: &HashSnapshot) -> (r: Vec<FileChange>)
    requires
        old.wf(),
        new.wf(),
    ensures
        changes_view(r@) == changes(old.entry_seq(), new.entry_seq()),
{
    let ghost o = old.entry_seq();
    let ghost n = new.entry_seq();
    let mut out: Vec<FileChange> = Vec::new();
    let mut i: usize = 0;
    let mut j: usize = 0;
    proof {
        assert(o.skip(0) =~= o);
        assert(n.skip(0) =~= n);
    }
    while i < old.entries.len() || j < new.entries.len()
        invariant
            i <= old.entries.len(),
            j <= new.entries.len(),
            o == old.entry_seq(),
            n == new.entry_seq(),
            o.len() == old.entries.len(),
            n.len() == new.entries.len(),
            changes_view(out@) + changes(o.skip(i as int), n.skip(j as int)) == changes(o, n),
        decreases old.entries.len() + new.entries.len() - i - j,
    {
        let ghost os = o.skip(i as int);
        let ghost ns = n.skip(j as int);
        let ghost before = out@;
        if i < old.entries.len() {
            assert(os[0] == o[i as int]);
            assert(o[i as int] == entry_view(old.entries@[i as int]));
            assert(os.drop_first() =~= o.skip(i + 1));
        }
        if j < new.entries.len() {
            assert(ns[0] == n[j as int]);
            assert(n[j as int] == entry_view(new.entries@[j as int]));
            assert(ns.drop_first() =~= n.skip(j + 1));
        }
        if i == old.entries.len() {
            out.push(FileChange { path: new.entries[j].path.clone(), kind: ChangeKind::Added });
            j += 1;
        } else if j == new.entries.len() {
            out.push(FileChange { path: old.entries[i].path.clone(), kind: ChangeKind::Removed });
            i += 1;
        } else if comps_equal(&old.entries[i].comps, &new.entries[j].comps) {
            if old.entries[i].value != new.entries[j].value {
                out.push(FileChange { path: old.entries[i].path.clone(), kind: ChangeKind::Modified });
            }
            i += 1;
            j += 1;
        } else if comps_less(&old.entries[i].comps, &new.entries[j].comps) {
            out.push(FileChange { path: old.entries[i].path.clone(), kind: ChangeKind::Removed });
            i += 1;
        } else {
            out.push(FileChange { path: new.entries[j].path.clone(), kind: ChangeKind::Added });
            j += 1;
        }
        proof {
            if out@.len() > before.len() {
                assert(changes_view(out@) =~= changes_view(before).push(changes_view(out@).last()));
            } else {
                assert(out@ == before);
            }
            assert(os.len() == 0 || ns.len() == 0 || true);
            let rest = changes(o.skip(i as int), n.skip(j as int));
            if out@.len() > before.len() {
                assert(changes(os, ns) == seq![changes_view(out@).last()] + rest);
                assert(changes_view(out@) + rest =~= changes_view(before) + (seq![changes_view(out@).last()] + rest));
            } else {
                assert(changes(os, ns) == rest);
            }
        }
    }
    proof {
        assert(o.skip(i as int) =~= Seq::<(Seq<char>, Seq<Seq<char>>, u64)>::empty());
        assert(n.skip(j as int) =~= Seq::<(Seq<char>, Seq<Seq<char>>, u64)>::empty());
        assert(changes_view(out@) + Seq::<(Seq<char>, ChangeKind)>::empty() =~= changes_view(out@));
    }
    out
}


impl<V> PathMap<V> {
    /// Remove every entry whose path lies under `prefix` (its components
    /// start with those of `prefix`).
    pub fn remove_under(&mut self, prefix: &str)
        requires
            old(self).wf(),
        ensures
            final(self).wf(),
            final(self).entry_seq() == old(self).entry_seq().filter(outside(path_components(prefix@))),
    {
        let c = chars_of(prefix);
        let pc = components_of(c.as_slice());
        let ghost pk = pc@.map_values(|p: Vec<char>| p@);
        let ghost s = old(self).entry_seq();
        let ghost ks = old(self).entries@.map_values(|e: PathEntry<V>| entry_key(e));
        proof {
            self.lemma_keys();
        }
        broadcast use vstd::std_specs::vec::group_vec_axioms;
        let mut entries: Vec<PathEntry<V>> = Vec::new();
        std::mem::swap(&mut entries, &mut self.entries);
        let ghost all = entries@;
        let mut kept: Vec<PathEntry<V>> = Vec::new();
        let ghost mut last: int = -1;
        let ghost mut i: int = 0;
        for e in it: entries
            invariant
                it.seq() == all,
                all == old(self).entries@,
                i == it.index(),
                0 <= i <= all.len(),
                ks.len() == all.len(),
                ks == old(self).entries@.map_values(|e: PathEntry<V>| entry_key(e)),
                s == old(self).entry_seq(),
                s.len() == all.len(),
                sorted_keys(ks),
                forall|m: int| 0 <= m < old(self).entries@.len() ==> entry_key(#[trigger] old(self).entries@[m])
                    == path_components(old(self).entries@[m].path@),
                pk == path_components(prefix@),
                pk == pc@.map_values(|p: Vec<char>| p@),
                kept@.map_values(|e: PathEntry<V>| entry_view(e)) == s.take(i as int).filter(outside(pk)),
                sorted_keys(kept@.map_values(|e: PathEntry<V>| entry_key(e))),
                forall|m: int| 0 <= m < kept@.len() ==> entry_key(#[trigger] kept@[m]) == path_components(kept@[m].path@),
                -1 <= last < i,
                kept@.len() > 0 ==> last >= 0 && entry_key(kept@.last()) == ks[last],
        {
            proof {
                assert(e == all[i as int]);
                assert(s[i as int] == entry_view(e));
                assert(s.take(i + 1) =~= s.take(i as int).push(s[i as int]));
                s.take(i as int).lemma_filter_push(s[i as int], outside(pk));
            }
            let under = is_prefix_comps(&pc, &e.comps);
            if !under {
                let ghost before = kept@;
                proof {
                    assert(ks[i as int] == entry_key(e));
                    if before.len() > 0 {
                        assert(comps_lt(ks[last], ks[i as int]));
                    }
                }
                kept.push(e);
                proof {
                    assert(kept@.map_values(|x: PathEntry<V>| entry_view(x)) =~= before.map_values(|x: PathEntry<V>| entry_view(x)).push(entry_view(e)));
                    let kk = kept@.map_values(|x: PathEntry<V>| entry_key(x));
                    let bk = before.map_values(|x: PathEntry<V>| entry_key(x));
                    assert(kk =~= bk.push(entry_key(e)));
                    assert forall|a: int, b: int| 0 <= a < b < kk.len() implies comps_lt(#[trigger] kk[a], #[trigger] kk[b]) by {
                        if b == kk.len() - 1 && a < b {
                            if a < bk.len() - 1 {
                                assert(comps_lt(bk[a], bk[bk.len() - 1]));
                                lemma_comps_lt_transitive(bk[a], bk[bk.len() - 1], entry_key(e));
                            }
                        }
                    }
                    last = i as int;
                }
            }
            proof {
                i = i + 1;
            }
        }
        proof {
            assert(s.take(i as int) =~= s);
        }
        self.entries = kept;
    }
}

/// The test for an entry whose path does not lie under the prefix `pk`.
pub open spec fn outside<V>(pk: Seq<Seq<char>>) -> spec_fn((Seq<char>, Seq<Seq<char>>, V)) -> bool {
    |e: (Seq<char>, Seq<Seq<char>>, V)| !pk.is_prefix_of(e.1)
}

/// Whether the component list `a` starts the component list `b`.
fn is_prefix_comps(a: &Vec<Vec<char>>, b: &Vec<Vec<char>>) -> (r: bool)
    ensures
        r == a@.map_values(|p: Vec<char>| p@).is_prefix_of(b@.map_values(|p: Vec<char>| p@)),
{
    let ghost av = a@.map_values(|p: Vec<char>| p@);
    let ghost bv = b@.map_values(|p: Vec<char>| p@);
    if a.len() > b.len() {
        return false;
    }
    let mut k: usize = 0;
    while k < a.len()
        invariant
            k <= a.len() <= b.len(),
            av == a@.map_values(|p: Vec<char>| p@),
            bv == b@.map_values(|p: Vec<char>| p@),
            forall|j: int| 0 <= j < k ==> av[j] == bv[j],
        decreases a.len() - k,
    {
        assert(av[k as int] == a@[k as int]@ && bv[k as int] == b@[k as int]@);
        if !chars_eq(a[k].as_slice(), b[k].as_slice()) {
            proof {
                if av.is_prefix_of(bv) {
                    assert(bv.subrange(0, av.len() as int)[k as int] == bv[k as int]);
                }
            }
            return false;
        }
        k += 1;
    }
    proof {
        assert(av =~= bv.subrange(0, av.len() as int));
    }
    true
}


// ── Hashing ─────────────────────────────────────────────────────────────

/// The 64-bit hash of a byte string: what `std`'s `DefaultHasher` gives
/// after one write of the bytes.
pub open spec fn content_hash(data: Seq<u8>) -> u64 {
    DefaultHasher::spec_finish(seq![data])
}

/// Hash a byte slice with `DefaultHasher` (SipHash).
pub fn hash_bytes(data: &[u8]) -> (r: u64)
    ensures
        r == content_hash(data@),
{
    let mut hasher = DefaultHasher::new();
    hasher.write(data);
    proof {
        assert(hasher@ =~= seq![data@]);
    }
    hasher.finish()
}

// ── Hash cache ──────────────────────────────────────────────────────────

/// A cached hash, with the size and modification time of the file when it
/// was hashed (the time as seconds and nanoseconds since the Unix epoch).
#[derive(Debug, Clone, Copy, PartialEq, Eq, Structural)]
pub struct CacheEntry {
    pub hash: u64,
    pub mtime_secs: u64,
    pub mtime_nanos: u32,
    pub size: u64,
}

/// Caches file hashes; a cached hash is trusted only while the file's
/// size and modification time are those it was hashed with.
#[derive(Debug)]
pub struct FileHashCache {
    entries: PathMap<CacheEntry>,
}

impl FileHashCache {
    /// The cached entries, in path order.
    pub closed spec fn cache_seq(&self) -> Seq<(Seq<char>, Seq<Seq<char>>, CacheEntry)> {
        self.entries.entry_seq()
    }

    /// The cache is in order.
    pub closed spec fn wf(&self) -> bool {
        self.entries.wf()
    }

    /// An empty cache.
    pub fn new() -> (r: Self)
        ensures
            r.wf(),
            r.cache_seq().len() == 0,
    {
        FileHashCache { entries: PathMap::new() }
    }

    /// The cached hash of `path`, when the file still has the size and
    /// modification time it was hashed with.
    pub fn lookup(&self, path: &str, mtime_secs: u64, mtime_nanos: u32, size: u64) -> (r: Option<u64>)
        requires
            self.wf(),
        ensures
            ({
                let s = self.cache_seq();
                let k = path_components(path@);
                let i = key_index(keys_of(s), k);
                match r {
                    Some(h) => keys_of(s).contains(k) && s[i].2.hash == h && s[i].2.mtime_secs == mtime_secs
                        && s[i].2.mtime_nanos == mtime_nanos && s[i].2.size == size,
                    None => !keys_of(s).contains(k) || s[i].2.mtime_secs != mtime_secs || s[i].2.mtime_nanos
                        != mtime_nanos || s[i].2.size != size,
                }
            }),
    {
        match self.entries.get(path) {
            Some(e) => {
                if e.mtime_secs == mtime_secs && e.mtime_nanos == mtime_nanos && e.size == size {
                    Some(e.hash)
                } else {
                    None
                }
            },
            None => None,
        }
    }

    /// Remember the hash of `path` with the size and modification time it
    /// was computed for.
    pub fn store(&mut self, path: &str, hash: u64, mtime_secs: u64, mtime_nanos: u32, size: u64)
        requires
            old(self).wf(),
        ensures
            final(self).wf(),
            ({
                let s = old(self).cache_seq();
                let k = path_components(path@);
                let e = CacheEntry { hash, mtime_secs, mtime_nanos, size };
                if keys_of(s).contains(k) {
                    final(self).cache_seq() == s.update(key_index(keys_of(s), k), (s[key_index(keys_of(s), k)].0, k, e))
                } else {
                    final(self).cache_seq() == s.insert(key_lower_bound(keys_of(s), k), (path@, k, e))
                }
            }),
    {
        self.entries.insert(path, CacheEntry { hash, mtime_secs, mtime_nanos, size });
    }

    /// Invalidate the cached hash of one file.
    pub fn invalidate(&mut self, path: &str)
        requires
            old(self).wf(),
        ensures
            final(self).wf(),
            ({
                let s = old(self).cache_seq();
                let k = path_components(path@);
                if keys_of(s).contains(k) {
                    final(self).cache_seq() == s.remove(key_index(keys_of(s), k))
                } else {
                    final(self).cache_seq() == s
                }
            }),
    {
        let _ = self.entries.remove(path);
    }

    /// Invalidate every cached file under `prefix`.
    pub fn invalidate_prefix(&mut self, prefix: &str)
        requires
            old(self).wf(),
        ensures
            final(self).wf(),
            final(self).cache_seq() == old(self).cache_seq().filter(outside(path_components(prefix@))),
    {
        self.entries.remove_under(prefix);
    }

    /// Clear the entire cache.
    pub fn clear(&mut self)
        ensures
            final(self).wf(),
            final(self).cache_seq().len() == 0,
    {
        self.entries.clear();
    }

    /// Number of cached entries.
    pub fn len(&self) -> (r: usize)
        ensures
            r == self.cache_seq().len(),
    {
        self.entries.len()
    }

    /// Whether the cache is empty.
    pub fn is_empty(&self) -> (r: bool)
        ensures
            r == (self.cache_seq().len() == 0),
    {
        self.entries.is_empty()
    }
}

impl Default for FileHashCache {
    fn default() -> (r: Self)
        ensures
            r.wf(),
            r.cache_seq().len() == 0,
    {
        FileHashCache::new()
    }
}


// ── What counts as a change ────────────────────────────────────────────

/// A snapshot entry as plain values: path, path key, hash.
pub type SnapshotEntry = (Seq<char>, Seq<Seq<char>>, u64);

/// Whether an entry of `s` has the key `key`.
pub open spec fn has_key(s: Seq<SnapshotEntry>, key: Seq<Seq<char>>) -> bool {
    exists|k: int| 0 <= k < s.len() && (#[trigger] s[k]).1 == key
}

/// The keys of `s` increase strictly.
pub open spec fn keys_increase(s: Seq<SnapshotEntry>) -> bool {
    forall|i: int, j: int| 0 <= i < j < s.len() ==> comps_lt((#[trigger] s[i]).1, (#[trigger] s[j]).1)
}

/// The entries of a well-formed snapshot come in increasing key order.
pub proof fn lemma_snapshot_keys_increase(snap: &HashSnapshot)
    requires
        snap.wf(),
    ensures
        keys_increase(snap.entry_seq()),
{
    let s = snap.entry_seq();
    assert forall|i: int, j: int| 0 <= i < j < s.len() implies comps_lt((#[trigger] s[i]).1, (#[trigger] s[j]).1) by {
        let ks = snap.entries@.map_values(|e: PathEntry<u64>| entry_key(e));
        assert(ks[i] == s[i].1 && ks[j] == s[j].1);
    }
}

/// Whether `x` is one of the changes the law allows: an added path whose
/// key `o` lacks, a removed path whose key `n` lacks, or a modified path
/// whose key both have with different hashes.
pub open spec fn change_justified(o: Seq<SnapshotEntry>, n: Seq<SnapshotEntry>, x: (Seq<char>, ChangeKind)) -> bool {
    match x.1 {
        ChangeKind::Added => exists|k: int| 0 <= k < n.len() && (#[trigger] n[k]).0 == x.0 && !has_key(o, n[k].1),
        ChangeKind::Removed => exists|k: int| 0 <= k < o.len() && (#[trigger] o[k]).0 == x.0 && !has_key(n, o[k].1),
        ChangeKind::Modified => exists|k: int, m: int|
            0 <= k < o.len() && 0 <= m < n.len() && (#[trigger] o[k]).0 == x.0 && o[k].1 == (#[trigger] n[m]).1
                && o[k].2 != n[m].2,
    }
}

proof fn lemma_tail_increases(s: Seq<SnapshotEntry>)
    requires
        s.len() > 0,
        keys_increase(s),
    ensures
        keys_increase(s.drop_first()),
        !has_key(s.drop_first(), s[0].1),
        forall|key: Seq<Seq<char>>| comps_lt(key, s[0].1) ==> !has_key(s, key),
{
    let t = s.drop_first();
    assert forall|i: int, j: int| 0 <= i < j < t.len() implies comps_lt((#[trigger] t[i]).1, (#[trigger] t[j]).1) by {
        assert(t[i] == s[i + 1] && t[j] == s[j + 1]);
    }
    if has_key(t, s[0].1) {
        let k = choose|k: int| 0 <= k < t.len() && (#[trigger] t[k]).1 == s[0].1;
        assert(t[k] == s[k + 1]);
        lemma_comps_lt_irreflexive(s[0].1);
    }
    assert forall|key: Seq<Seq<char>>| comps_lt(key, s[0].1) implies !has_key(s, key) by {
        if has_key(s, key) {
            let k = choose|k: int| 0 <= k < s.len() && (#[trigger] s[k]).1 == key;
            if k == 0 {
                lemma_comps_lt_irreflexive(key);
            } else {
                lemma_comps_lt_asymmetric(key, s[0].1);
            }
        }
    }
}

/// Law: comparing two snapshots reports exactly the changes: every path
/// whose key is only in the new snapshot as added, every path whose key is
/// only in the old one as removed, every path whose key is in both with
/// different hashes as modified, and nothing else.
pub proof fn law_changes_are_exact(o: Seq<SnapshotEntry>, n: Seq<SnapshotEntry>)
    requires
        keys_increase(o),
        keys_increase(n),
    ensures
        forall|k: int| 0 <= k < n.len() && !has_key(o, (#[trigger] n[k]).1) ==> changes(o, n).contains(
            (n[k].0, ChangeKind::Added),
        ),
        forall|k: int| 0 <= k < o.len() && !has_key(n, (#[trigger] o[k]).1) ==> changes(o, n).contains(
            (o[k].0, ChangeKind::Removed),
        ),
        forall|k: int, m: int|
            0 <= k < o.len() && 0 <= m < n.len() && (#[trigger] o[k]).1 == (#[trigger] n[m]).1 && o[k].2 != n[m].2
                ==> changes(o, n).contains((o[k].0, ChangeKind::Modified)),
        forall|x: (Seq<char>, ChangeKind)| #[trigger] changes(o, n).contains(x) ==> change_justified(o, n, x),
    decreases o.len() + n.len(),
{
    let c = changes(o, n);
    if o.len() == 0 && n.len() == 0 {
        return;
    }
    if o.len() == 0 {
        let t = n.drop_first();
        lemma_tail_increases(n);
        law_changes_are_exact(o, t);
        let r = changes(o, t);
        let x0 = (n[0].0, ChangeKind::Added);
        assert(c == seq![x0] + r);
        assert(c[0] == x0);
        assert forall|k: int| 0 <= k < n.len() && !has_key(o, (#[trigger] n[k]).1) implies c.contains((n[k].0, ChangeKind::Added)) by {
            if k > 0 {
                assert(t[k - 1] == n[k]);
                let w = choose|w: int| 0 <= w < r.len() && r[w] == (t[k - 1].0, ChangeKind::Added);
                assert(c[w + 1] == r[w]);
            }
        }
        assert forall|x: (Seq<char>, ChangeKind)| #[trigger] c.contains(x) implies change_justified(o, n, x) by {
            let w = choose|w: int| 0 <= w < c.len() && c[w] == x;
            if w == 0 {
                assert(n[0].0 == x.0);
            } else {
                assert(r[w - 1] == x);
                assert(r.contains(x));
                if x.1 == ChangeKind::Added {
                    let k = choose|k: int| 0 <= k < t.len() && (#[trigger] t[k]).0 == x.0 && !has_key(o, t[k].1);
                    assert(n[k + 1] == t[k]);
                }
            }
        }
        return;
    }
    if n.len() == 0 {
        let t = o.drop_first();
        lemma_tail_increases(o);
        law_changes_are_exact(t, n);
        let r = changes(t, n);
        let x0 = (o[0].0, ChangeKind::Removed);
        assert(c == seq![x0] + r);
        assert(c[0] == x0);
        assert forall|k: int| 0 <= k < o.len() && !has_key(n, (#[trigger] o[k]).1) implies c.contains((o[k].0, ChangeKind::Removed)) by {
            if k > 0 {
                assert(t[k - 1] == o[k]);
                let w = choose|w: int| 0 <= w < r.len() && r[w] == (t[k - 1].0, ChangeKind::Removed);
                assert(c[w + 1] == r[w]);
            }
        }
        assert forall|x: (Seq<char>, ChangeKind)| #[trigger] c.contains(x) implies change_justified(o, n, x) by {
            let w = choose|w: int| 0 <= w < c.len() && c[w] == x;
            if w == 0 {
                assert(o[0].0 == x.0);
            } else {
                assert(r[w - 1] == x);
                assert(r.contains(x));
                if x.1 == ChangeKind::Removed {
                    let k = choose|k: int| 0 <= k < t.len() && (#[trigger] t[k]).0 == x.0 && !has_key(n, t[k].1);
                    assert(o[k + 1] == t[k]);
                }
            }
        }
        return;
    }
    lemma_tail_increases(o);
    lemma_tail_increases(n);
    let ot = o.drop_first();
    let nt = n.drop_first();
    assert forall|key: Seq<Seq<char>>| has_key(ot, key) implies has_key(o, key) by {
        let k = choose|k: int| 0 <= k < ot.len() && (#[trigger] ot[k]).1 == key;
        assert(o[k + 1] == ot[k]);
    }
    assert forall|key: Seq<Seq<char>>| has_key(nt, key) implies has_key(n, key) by {
        let k = choose|k: int| 0 <= k < nt.len() && (#[trigger] nt[k]).1 == key;
        assert(n[k + 1] == nt[k]);
    }
    assert forall|key: Seq<Seq<char>>| has_key(o, key) && key != o[0].1 implies has_key(ot, key) by {
        let k = choose|k: int| 0 <= k < o.len() && (#[trigger] o[k]).1 == key;
        assert(ot[k - 1] == o[k]);
    }
    assert forall|key: Seq<Seq<char>>| has_key(n, key) && key != n[0].1 implies has_key(nt, key) by {
        let k = choose|k: int| 0 <= k < n.len() && (#[trigger] n[k]).1 == key;
        assert(nt[k - 1] == n[k]);
    }
    if o[0].1 == n[0].1 {
        law_changes_are_exact(ot, nt);
        let r = changes(ot, nt);
        let modified = o[0].2 != n[0].2;
        let head: Seq<(Seq<char>, ChangeKind)> = if modified {
            seq![(o[0].0, ChangeKind::Modified)]
        } else {
            Seq::empty()
        };
        assert(c =~= head + r);
        assert forall|x: (Seq<char>, ChangeKind)| r.contains(x) implies c.contains(x) by {
            let w = choose|w: int| 0 <= w < r.len() && r[w] == x;
            assert(c[w + head.len()] == r[w]);
        }
        assert forall|k: int| 0 <= k < n.len() && !has_key(o, (#[trigger] n[k]).1) implies c.contains((n[k].0, ChangeKind::Added)) by {
            if k == 0 {
                assert(o[0].1 == n[0].1);
            } else {
                assert(nt[k - 1] == n[k]);
                assert(r.contains((nt[k - 1].0, ChangeKind::Added)));
            }
        }
        assert forall|k: int| 0 <= k < o.len() && !has_key(n, (#[trigger] o[k]).1) implies c.contains((o[k].0, ChangeKind::Removed)) by {
            if k == 0 {
                assert(n[0].1 == o[0].1);
            } else {
                assert(ot[k - 1] == o[k]);
                assert(r.contains((ot[k - 1].0, ChangeKind::Removed)));
            }
        }
        assert forall|k: int, m: int|
            0 <= k < o.len() && 0 <= m < n.len() && (#[trigger] o[k]).1 == (#[trigger] n[m]).1 && o[k].2 != n[m].2
            implies c.contains((o[k].0, ChangeKind::Modified)) by {
            if k == 0 {
                if m > 0 {
                    assert(nt[m - 1] == n[m]);
                    assert(has_key(nt, n[0].1));
                }
                assert(c[0] == (o[0].0, ChangeKind::Modified));
            } else {
                if m == 0 {
                    assert(ot[k - 1] == o[k]);
                    assert(has_key(ot, o[0].1));
                }
                assert(ot[k - 1] == o[k] && nt[m - 1] == n[m]);
                assert(r.contains((ot[k - 1].0, ChangeKind::Modified)));
            }
        }
        assert forall|x: (Seq<char>, ChangeKind)| #[trigger] c.contains(x) implies change_justified(o, n, x) by {
            let w = choose|w: int| 0 <= w < c.len() && c[w] == x;
            if w < head.len() {
                assert(x == (o[0].0, ChangeKind::Modified));
                assert(o[0].1 == n[0].1 && o[0].2 != n[0].2);
            } else {
                assert(r[w - head.len()] == x);
                assert(r.contains(x));
                match x.1 {
                    ChangeKind::Added => {
                        let k = choose|k: int| 0 <= k < nt.len() && (#[trigger] nt[k]).0 == x.0 && !has_key(ot, nt[k].1);
                        assert(n[k + 1] == nt[k]);
                        assert(nt[k].1 != o[0].1);
                    },
                    ChangeKind::Removed => {
                        let k = choose|k: int| 0 <= k < ot.len() && (#[trigger] ot[k]).0 == x.0 && !has_key(nt, ot[k].1);
                        assert(o[k + 1] == ot[k]);
                        assert(ot[k].1 != n[0].1);
                    },
                    ChangeKind::Modified => {
                        let (k, m) = choose|k: int, m: int|
                            0 <= k < ot.len() && 0 <= m < nt.len() && (#[trigger] ot[k]).0 == x.0 && ot[k].1
                                == (#[trigger] nt[m]).1 && ot[k].2 != nt[m].2;
                        assert(o[k + 1] == ot[k] && n[m + 1] == nt[m]);
                    },
                }
            }
        }
    } else if comps_lt(o[0].1, n[0].1) {
        law_changes_are_exact(ot, n);
        let r = changes(ot, n);
        assert(!has_key(n, o[0].1));
        assert(c =~= seq![(o[0].0, ChangeKind::Removed)] + r);
        assert forall|x: (Seq<char>, ChangeKind)| r.contains(x) implies c.contains(x) by {
            let w = choose|w: int| 0 <= w < r.len() && r[w] == x;
            assert(c[w + 1] == r[w]);
        }
        assert forall|k: int| 0 <= k < n.len() && !has_key(o, (#[trigger] n[k]).1) implies c.contains((n[k].0, ChangeKind::Added)) by {
            assert(r.contains((n[k].0, ChangeKind::Added)));
        }
        assert forall|k: int| 0 <= k < o.len() && !has_key(n, (#[trigger] o[k]).1) implies c.contains((o[k].0, ChangeKind::Removed)) by {
            if k == 0 {
                assert(c[0] == (o[0].0, ChangeKind::Removed));
            } else {
                assert(ot[k - 1] == o[k]);
                assert(r.contains((ot[k - 1].0, ChangeKind::Removed)));
            }
        }
        assert forall|k: int, m: int|
            0 <= k < o.len() && 0 <= m < n.len() && (#[trigger] o[k]).1 == (#[trigger] n[m]).1 && o[k].2 != n[m].2
            implies c.contains((o[k].0, ChangeKind::Modified)) by {
            if k == 0 {
                assert(has_key(n, o[0].1));
            } else {
                assert(ot[k - 1] == o[k]);
                assert(r.contains((ot[k - 1].0, ChangeKind::Modified)));
            }
        }
        assert forall|x: (Seq<char>, ChangeKind)| #[trigger] c.contains(x) implies change_justified(o, n, x) by {
            let w = choose|w: int| 0 <= w < c.len() && c[w] == x;
            if w == 0 {
                assert(x == (o[0].0, ChangeKind::Removed));
            } else {
                assert(r[w - 1] == x);
                assert(r.contains(x));
                match x.1 {
                    ChangeKind::Added => {
                        let k = choose|k: int| 0 <= k < n.len() && (#[trigger] n[k]).0 == x.0 && !has_key(ot, n[k].1);
                        assert(n[k].1 != o[0].1);
                    },
                    ChangeKind::Removed => {
                        let k = choose|k: int| 0 <= k < ot.len() && (#[trigger] ot[k]).0 == x.0 && !has_key(n, ot[k].1);
                        assert(o[k + 1] == ot[k]);
                    },
                    ChangeKind::Modified => {
                        let (k, m) = choose|k: int, m: int|
                            0 <= k < ot.len() && 0 <= m < n.len() && (#[trigger] ot[k]).0 == x.0 && ot[k].1
                                == (#[trigger] n[m]).1 && ot[k].2 != n[m].2;
                        assert(o[k + 1] == ot[k]);
                    },
                }
            }
        }
    } else {
        lemma_comps_lt_total(o[0].1, n[0].1);
        law_changes_are_exact(o, nt);
        let r = changes(o, nt);
        assert(!has_key(o, n[0].1));
        assert(c =~= seq![(n[0].0, ChangeKind::Added)] + r);
        assert forall|x: (Seq<char>, ChangeKind)| r.contains(x) implies c.contains(x) by {
            let w = choose|w: int| 0 <= w < r.len() && r[w] == x;
            assert(c[w + 1] == r[w]);
        }
        assert forall|k: int| 0 <= k < n.len() && !has_key(o, (#[trigger] n[k]).1) implies c.contains((n[k].0, ChangeKind::Added)) by {
            if k == 0 {
                assert(c[0] == (n[0].0, ChangeKind::Added));
            } else {
                assert(nt[k - 1] == n[k]);
                assert(r.contains((nt[k - 1].0, ChangeKind::Added)));
            }
        }
        assert forall|k: int| 0 <= k < o.len() && !has_key(n, (#[trigger] o[k]).1) implies c.contains((o[k].0, ChangeKind::Removed)) by {
            assert(r.contains((o[k].0, ChangeKind::Removed)));
        }
        assert forall|k: int, m: int|
            0 <= k < o.len() && 0 <= m < n.len() && (#[trigger] o[k]).1 == (#[trigger] n[m]).1 && o[k].2 != n[m].2
            implies c.contains((o[k].0, ChangeKind::Modified)) by {
            if m == 0 {
                assert(has_key(o, n[0].1));
            } else {
                assert(nt[m - 1] == n[m]);
                assert(r.contains((o[k].0, ChangeKind::Modified)));
            }
        }
        assert forall|x: (Seq<char>, ChangeKind)| #[trigger] c.contains(x) implies change_justified(o, n, x) by {
            let w = choose|w: int| 0 <= w < c.len() && c[w] == x;
            if w == 0 {
                assert(x == (n[0].0, ChangeKind::Added));
            } else {
                assert(r[w - 1] == x);
                assert(r.contains(x));
                match x.1 {
                    ChangeKind::Added => {
                        let k = choose|k: int| 0 <= k < nt.len() && (#[trigger] nt[k]).0 == x.0 && !has_key(o, nt[k].1);
                        assert(n[k + 1] == nt[k]);
                    },
                    ChangeKind::Removed => {
                        let k = choose|k: int| 0 <= k < o.len() && (#[trigger] o[k]).0 == x.0 && !has_key(nt, o[k].1);
                        assert(o[k].1 != n[0].1);
                    },
                    ChangeKind::Modified => {
                        let (k, m) = choose|k: int, m: int|
                            0 <= k < o.len() && 0 <= m < nt.len() && (#[trigger] o[k]).0 == x.0 && o[k].1
                                == (#[trigger] nt[m]).1 && o[k].2 != nt[m].2;
                        assert(n[m + 1] == nt[m]);
                    },
                }
            }
        }
    }
}

} // verus!
