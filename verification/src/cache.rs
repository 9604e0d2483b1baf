//! A keyed cache of computed results.
//!
//! Once a value is stored under a key it is never replaced: repeated
//! lookups for the same key return the stored value and the computation
//! is not run again.  The store itself is sequential; callers that
//! serve concurrent requests put it behind an exclusive lock, so each
//! insertion is atomic per key.

use vstd::prelude::*;
use vstd::string::*;

use crate::strutil::str_eq;

verus! {

/// The map written by a list of key/value entries, later entries
/// winning.
pub open spec fn entries_map<T>(ks: Seq<Seq<char>>, vs: Seq<T>) -> Map<Seq<char>, T>
    decreases ks.len(),
{
    if ks.len() == 0 || ks.len() != vs.len() {
        Map::empty()
    } else {
        entries_map(ks.drop_last(), vs.drop_last()).insert(ks.last(), vs.last())
    }
}

/// A key is in the entries map exactly when some entry holds it.
proof fn lemma_entries_map_contains<T>(ks: Seq<Seq<char>>, vs: Seq<T>, k: Seq<char>)
    requires
        ks.len() == vs.len(),
    ensures
        entries_map(ks, vs).contains_key(k) <==> exists|i: int| 0 <= i < ks.len() && ks[i] == k,
    decreases ks.len(),
{
    if ks.len() > 0 {
        lemma_entries_map_contains(ks.drop_last(), vs.drop_last(), k);
        if ks.last() == k {
        } else if entries_map(ks, vs).contains_key(k) {
            let i = choose|i: int| 0 <= i < ks.drop_last().len() && ks.drop_last()[i] == k;
            assert(ks[i] == k);
        } else {
            if exists|i: int| 0 <= i < ks.len() && ks[i] == k {
                let i = choose|i: int| 0 <= i < ks.len() && ks[i] == k;
                assert(ks.drop_last()[i] == k);
            }
        }
    }
}

/// An entry whose key occurs nowhere later gives the map's value at its
/// key.
proof fn lemma_entries_map_index<T>(ks: Seq<Seq<char>>, vs: Seq<T>, i: int)
    requires
        ks.len() == vs.len(),
        0 <= i < ks.len(),
        forall|j: int| i < j < ks.len() ==> ks[j] != ks[i],
    ensures
        entries_map(ks, vs).contains_key(ks[i]),
        entries_map(ks, vs)[ks[i]] == vs[i],
    decreases ks.len(),
{
    if i == ks.len() - 1 {
    } else {
        assert(ks.last() == ks[ks.len() - 1]);
        assert forall|j: int| i < j < ks.drop_last().len() implies ks.drop_last()[j] != ks
            .drop_last()[i] by {
            assert(ks.drop_last()[j] == ks[j]);
        }
        lemma_entries_map_index(ks.drop_last(), vs.drop_last(), i);
        assert(ks.drop_last()[i] == ks[i]);
    }
}

/// A process-wide cache mapping composite string keys to previously
/// computed values; entries are created once and read-only thereafter.
pub struct RepoCache<T> {
    keys: Vec<String>,
    vals: Vec<T>,
}

impl<T> View for RepoCache<T> {
    type V = Map<Seq<char>, T>;

    closed spec fn view(&self) -> Map<Seq<char>, T> {
        entries_map(self.keys@.map_values(|s: String| s@), self.vals@)
    }
}

impl<T> RepoCache<T> {
    /// The cache's internal shape: one value per key, keys distinct.
    /// Established by `new` and preserved by every operation.
    pub closed spec fn wf(self) -> bool {
        &&& self.keys@.len() == self.vals@.len()
        &&& forall|i: int, j: int|
            0 <= i < j < self.keys@.len() ==> (#[trigger] self.keys@[i])@ != (
            #[trigger] self.keys@[j])@
    }

    /// An empty cache.
    pub fn new() -> (r: RepoCache<T>)
        ensures
            r@ == Map::<Seq<char>, T>::empty(),
            r.wf(),
    {
        RepoCache { keys: Vec::new(), vals: Vec::new() }
    }

    /// The position of a key's entry, if it has one.
    fn find(&self, key: &str) -> (r: Option<usize>)
        requires
            self.wf(),
        ensures
            r is Some <==> self@.contains_key(key@),
            r matches Some(i) ==> i < self.vals@.len() && self.vals@[i as int] == self@[key@],
    {
        let ghost ks = self.keys@.map_values(|s: String| s@);
        let mut i: usize = 0;
        while i < self.keys.len()
            invariant
                0 <= i <= ks.len(),
                ks == self.keys@.map_values(|s: String| s@),
                ks.len() == self.vals@.len(),
                forall|a: int, b: int| 0 <= a < b < ks.len() ==> ks[a] != ks[b],
                forall|k: int| 0 <= k < i ==> ks[k] != key@,
            decreases ks.len() - i,
        {
            if str_eq(self.keys[i].as_str(), key) {
                proof {
                    assert forall|j: int| i < j < ks.len() implies ks[j] != ks[i as int] by {}
                    lemma_entries_map_index(ks, self.vals@, i as int);
                }
                return Some(i);
            }
            i += 1;
        }
        proof {
            lemma_entries_map_contains(ks, self.vals@, key@);
        }
        None
    }

    /// The value stored for a key, if any.
    pub fn get(&self, key: &str) -> (r: Option<&T>)
        requires
            self.wf(),
        ensures
            r is Some <==> self@.contains_key(key@),
            r matches Some(v) ==> *v == self@[key@],
    {
        match self.find(key) {
            Some(i) => Some(&self.vals[i]),
            None => None,
        }
    }

    /// Look up `key`; on a hit return the stored value, on a miss run
    /// `compute` once, store its result under `key`, and return it.
    ///
    /// A key already present keeps its stored value untouched: the
    /// computation does not run again and the cache does not change.
    pub fn get_or_compute<F: FnOnce() -> T>(&mut self, key: &str, compute: F) -> (r: &T)
        requires
            old(self).wf(),
            call_requires(compute, ()),
        ensures
            final(self).wf(),
            old(self)@.contains_key(key@) ==> final(self)@ == old(self)@ && *r == old(self)@[key@],
            !old(self)@.contains_key(key@) ==> call_ensures(compute, (), *r) && final(self)@ == old(
                self,
            )@.insert(key@, *r),
            final(self)@.contains_key(key@) && *r == final(self)@[key@],
    {
        let idx: usize = match self.find(key) {
            Some(i) => i,
            None => {
                let ghost ks = self.keys@.map_values(|s: String| s@);
                let v = compute();
                self.keys.push(String::from_str(key));
                self.vals.push(v);
                proof {
                    let nks = self.keys@.map_values(|s: String| s@);
                    assert(nks =~= ks.push(key@));
                    assert(nks.drop_last() =~= ks);
                    assert(self.vals@.drop_last() =~= old(self).vals@);
                    lemma_entries_map_contains(ks, old(self).vals@, key@);
                    assert forall|a: int, b: int|
                        0 <= a < b < self.keys@.len() implies (#[trigger] self.keys@[a])@ != (
                    #[trigger] self.keys@[b])@ by {
                        if b == self.keys@.len() - 1 {
                            assert(ks[a] == self.keys@[a]@);
                        }
                    }
                    lemma_entries_map_index(nks, self.vals@, self.keys@.len() - 1);
                }
                self.vals.len() - 1
            },
        };
        &self.vals[idx]
    }
}

/// The composite cache key for a repository-scoped lookup: the
/// repository name with the branch or object id appended.
pub fn cache_key(repo: &str, id: &str) -> (r: String)
    ensures
        r@ == repo@ + id@,
{
    let mut out = String::new();
    out.append(repo);
    out.append(id);
    proof {
        assert(out@ =~= repo@ + id@);
    }
    out
}

} // verus!
