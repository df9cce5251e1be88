//! The store model: validate, resolve, store, look up.
//!
//! [`Store`] models the flat directory under the store root as the
//! sequence of files it holds, viewed as `(name, bytes)` pairs. Uploads
//! go through the name grammar and collision renaming before anything is
//! written; an existing file is never overwritten; downloads answer only
//! to names the grammar accepts, so nothing outside the store can ever be
//! addressed. The unverified server around this crate performs the same
//! steps against the real directory, taking every decision — validity,
//! candidate names — from the functions proved here.

use vstd::prelude::*;
use vstd::slice::slice_to_vec;
use crate::name::{is_valid_name, safe_name, valid_name};
use crate::resolve::{candidate_name, candidate_of, lemma_candidate_safe};

verus! {

/// One stored file: its name under the store root, and its bytes.
struct StoredFile {
    name: String,
    bytes: Vec<u8>,
}

/// The flat store directory, modelled in memory.
pub struct Store {
    files: Vec<StoredFile>,
}

/// `entries` holds a file of this name.
pub open spec fn store_has(entries: Seq<(Seq<char>, Seq<u8>)>, name: Seq<char>) -> bool {
    exists|k: int| 0 <= k < entries.len() && (#[trigger] entries[k]).0 == name
}

/// Position of the file of this name (meaningful under `store_wf` when
/// `store_has` holds).
pub open spec fn store_index_of(entries: Seq<(Seq<char>, Seq<u8>)>, name: Seq<char>) -> int {
    choose|k: int| 0 <= k < entries.len() && (#[trigger] entries[k]).0 == name
}

/// The bytes stored under this name.
pub open spec fn store_lookup(entries: Seq<(Seq<char>, Seq<u8>)>, name: Seq<char>) -> Seq<u8> {
    entries[store_index_of(entries, name)].1
}

/// The store's invariant: every stored name is a safe path segment, and
/// no two files share a name.
pub open spec fn store_wf(entries: Seq<(Seq<char>, Seq<u8>)>) -> bool {
    &&& (forall|k: int| 0 <= k < entries.len() ==> safe_name((#[trigger] entries[k]).0))
    &&& (forall|k1: int, k2: int|
        0 <= k1 < entries.len() && 0 <= k2 < entries.len() && k1 != k2 ==> (
        #[trigger] entries[k1]).0 != (#[trigger] entries[k2]).0)
}

/// How collision resolution relates the desired name to the one actually
/// used: the desired name itself when it is free, otherwise the first
/// alternate in the `_copy0`, `_copy1`, … sequence that is free. The
/// taken/free pattern of the existing entries fixes the answer completely.
pub open spec fn resolves_to(
    entries: Seq<(Seq<char>, Seq<u8>)>,
    desired: Seq<char>,
    actual: Seq<char>,
) -> bool {
    if !store_has(entries, desired) {
        actual == desired
    } else {
        exists|n: u32|
            actual == #[trigger] candidate_of(desired, n) && !store_has(entries, actual) && (
            forall|m: u32| m < n ==> store_has(entries, candidate_of(desired, m)))
    }
}

/// Why collision resolution can fail.
#[derive(Debug, PartialEq, Eq)]
pub enum ResolveError {
    /// The desired name and every `_copyN` alternate are taken.
    Exhausted,
}

/// The outcome of handling one upload request.
#[derive(Debug, PartialEq, Eq)]
pub enum UploadOutcome {
    /// The request carried no file name, or the name failed the grammar;
    /// nothing was written. Answered as a client error.
    Rejected,
    /// The bytes were stored under `name` — the declared name, or its
    /// first free alternate — and `size` bytes were written.
    Stored { name: String, size: usize },
    /// The declared name and every alternate are taken; nothing was
    /// written. Answered as a server error.
    Exhausted,
}

/// At a position whose name matches, the lookup yields that position's
/// bytes: under `store_wf` the matching position is unique.
pub proof fn lemma_store_lookup_at(entries: Seq<(Seq<char>, Seq<u8>)>, name: Seq<char>, k: int)
    requires
        store_wf(entries),
        0 <= k < entries.len(),
        entries[k].0 == name,
    ensures
        store_has(entries, name),
        store_index_of(entries, name) == k,
        store_lookup(entries, name) == entries[k].1,
{
    assert(store_has(entries, name));
    let kk = store_index_of(entries, name);
    assert(0 <= kk < entries.len() && entries[kk].0 == name);
    if kk != k {
        assert(entries[kk].0 != entries[k].0);
    }
}

/// Determinism of collision resolution: two names that both resolve a
/// desired name against the same entries are the same name.
pub proof fn lemma_resolution_deterministic(
    entries: Seq<(Seq<char>, Seq<u8>)>,
    desired: Seq<char>,
    actual1: Seq<char>,
    actual2: Seq<char>,
)
    requires
        resolves_to(entries, desired, actual1),
        resolves_to(entries, desired, actual2),
    ensures
        actual1 == actual2,
{
    if store_has(entries, desired) {
        let n1 = choose|n: u32|
            actual1 == #[trigger] candidate_of(desired, n) && !store_has(entries, actual1) && (
            forall|m: u32| m < n ==> store_has(entries, candidate_of(desired, m)));
        let n2 = choose|n: u32|
            actual2 == #[trigger] candidate_of(desired, n) && !store_has(entries, actual2) && (
            forall|m: u32| m < n ==> store_has(entries, candidate_of(desired, m)));
        if n1 < n2 {
            assert(store_has(entries, candidate_of(desired, n1)));
        }
        if n2 < n1 {
            assert(store_has(entries, candidate_of(desired, n2)));
        }
    }
}

impl View for Store {
    type V = Seq<(Seq<char>, Seq<u8>)>;

    closed spec fn view(&self) -> Seq<(Seq<char>, Seq<u8>)> {
        Seq::new(self.files@.len(), |k: int| (self.files@[k].name@, self.files@[k].bytes@))
    }
}

impl Store {
    /// The store's invariant, over its view.
    pub open spec fn wf(&self) -> bool {
        store_wf(self@)
    }

    /// An empty store.
    pub fn new() -> (s: Store)
        ensures
            s@.len() == 0,
            s.wf(),
    {
        Store { files: Vec::new() }
    }

    /// How many files the store holds.
    pub fn file_count(&self) -> (n: usize)
        ensures
            n == self@.len(),
    {
        self.files.len()
    }

    /// Whether a file of this exact name is present.
    pub fn contains_name(&self, name: &str) -> (b: bool)
        ensures
            b == store_has(self@, name@),
    {
        let target = name.to_owned();
        let mut k: usize = 0;
        while k < self.files.len()
            invariant
                0 <= k <= self.files.len() == self@.len(),
                target@ == name@,
                forall|j: int| 0 <= j < k ==> (#[trigger] self@[j]).0 != name@,
            decreases self.files.len() - k,
        {
            if self.files[k].name == target {
                assert((self@[k as int]).0 == name@);
                return true;
            }
            k = k + 1;
        }
        false
    }

    /// Collision resolution against this store, as the original desired
    /// name sees it: nothing to do when the name is free; otherwise the
    /// first free `_copyN` alternate; an error when every alternate is
    /// taken, rather than probing forever.
    pub fn make_dst_name(&self, desired: &str) -> (r: Result<Option<String>, ResolveError>)
        ensures
            match r {
                Result::Ok(alt) => match alt {
                    Option::None => !store_has(self@, desired@),
                    Option::Some(nm) => store_has(self@, desired@) && !store_has(self@, nm@)
                        && resolves_to(self@, desired@, nm@),
                },
                Result::Err(_) => store_has(self@, desired@) && (forall|m: u32|
                    store_has(self@, candidate_of(desired@, m))),
            },
    {
        if !self.contains_name(desired) {
            return Result::Ok(Option::None);
        }
        let mut n: u32 = 0;
        loop
            invariant
                store_has(self@, desired@),
                forall|m: u32| m < n ==> store_has(self@, candidate_of(desired@, m)),
            decreases u32::MAX - n,
        {
            let cand = candidate_name(desired, n);
            if !self.contains_name(cand.as_str()) {
                return Result::Ok(Option::Some(cand));
            }
            if n == u32::MAX {
                assert forall|m: u32| store_has(self@, candidate_of(desired@, m)) by {
                    if m < u32::MAX {
                    } else {
                        assert(store_has(self@, candidate_of(desired@, u32::MAX)));
                    }
                }
                return Result::Err(ResolveError::Exhausted);
            }
            n = n + 1;
        }
    }

    /// Handles one upload: reject a missing or invalid name with no
    /// change; otherwise store the bytes under the resolved name, as a new
    /// file beside the untouched existing ones. The declared name is the
    /// one the client sent, when it sent one.
    pub fn upload(&mut self, declared: Option<&str>, bytes: Vec<u8>) -> (out: UploadOutcome)
        requires
            old(self).wf(),
        ensures
            final(self).wf(),
            match out {
                UploadOutcome::Rejected => {
                    &&& final(self)@ == old(self)@
                    &&& match declared {
                        Option::None => true,
                        Option::Some(d) => !valid_name(d@),
                    }
                },
                UploadOutcome::Stored { name, size } => {
                    &&& declared matches Option::Some(d) && valid_name(d@) && resolves_to(
                        old(self)@,
                        d@,
                        name@,
                    )
                    &&& !store_has(old(self)@, name@)
                    &&& safe_name(name@)
                    &&& final(self)@ == old(self)@.push((name@, bytes@))
                    &&& size == bytes@.len()
                },
                UploadOutcome::Exhausted => {
                    &&& final(self)@ == old(self)@
                    &&& declared matches Option::Some(d) && valid_name(d@) && store_has(
                        old(self)@,
                        d@,
                    ) && (forall|m: u32| store_has(old(self)@, candidate_of(d@, m)))
                },
            },
    {
        let d = match declared {
            Option::Some(d) => d,
            Option::None => {
                return UploadOutcome::Rejected;
            },
        };
        if !is_valid_name(d) {
            return UploadOutcome::Rejected;
        }
        let name = match self.make_dst_name(d) {
            Result::Err(_) => {
                return UploadOutcome::Exhausted;
            },
            Result::Ok(Option::None) => d.to_owned(),
            Result::Ok(Option::Some(alt)) => alt,
        };
        proof {
            if store_has(old(self)@, d@) {
                let n = choose|n: u32|
                    name@ == #[trigger] candidate_of(d@, n) && !store_has(old(self)@, name@) && (
                    forall|m: u32| m < n ==> store_has(old(self)@, candidate_of(d@, m)));
                lemma_candidate_safe(d@, n);
            }
            assert(safe_name(name@));
            assert(!store_has(old(self)@, name@));
        }
        let size = bytes.len();
        let stored_name = name.clone();
        let ghost entry = (name@, bytes@);
        self.files.push(StoredFile { name, bytes });
        proof {
            assert(self@ =~= old(self)@.push(entry));
            assert forall|k1: int, k2: int|
                0 <= k1 < self@.len() && 0 <= k2 < self@.len() && k1 != k2 implies (
            #[trigger] self@[k1]).0 != (#[trigger] self@[k2]).0 by {
                if k2 == self@.len() - 1 {
                    assert((self@[k1]).0 != entry.0);
                } else if k1 == self@.len() - 1 {
                    assert((self@[k2]).0 != entry.0);
                }
            }
        }
        UploadOutcome::Stored { name: stored_name, size }
    }

    /// Serves one download: a copy of the stored bytes, for a present name
    /// that the grammar accepts; nothing otherwise. A name the grammar
    /// rejects never reaches the lookup, which is what keeps traversal
    /// attempts away from the filesystem in the real server.
    pub fn download(&self, name: &str) -> (r: Option<Vec<u8>>)
        requires
            self.wf(),
        ensures
            match r {
                Option::Some(bytes) => valid_name(name@) && store_has(self@, name@) && bytes@
                    == store_lookup(self@, name@),
                Option::None => !valid_name(name@) || !store_has(self@, name@),
            },
    {
        if !is_valid_name(name) {
            return Option::None;
        }
        let target = name.to_owned();
        let mut k: usize = 0;
        while k < self.files.len()
            invariant
                0 <= k <= self.files.len() == self@.len(),
                target@ == name@,
                valid_name(name@),
                self.wf(),
                forall|j: int| 0 <= j < k ==> (#[trigger] self@[j]).0 != name@,
            decreases self.files.len() - k,
        {
            if self.files[k].name == target {
                let file = &self.files[k];
                let out = slice_to_vec(file.bytes.as_slice());
                proof {
                    assert(file.bytes@ == self.files@[k as int].bytes@);
                    assert((self@[k as int]).1 == self.files@[k as int].bytes@);
                    lemma_store_lookup_at(self@, name@, k as int);
                }
                return Option::Some(out);
            }
            k = k + 1;
        }
        Option::None
    }
}

} // verus!
