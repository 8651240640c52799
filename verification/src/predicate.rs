//! The exclusion predicate.
//!
//! A selection call carries one predicate: a boolean test over candidate
//! paths. Its one concrete use is "do not pick the image that is currently
//! displayed", so the predicate is a plain exclusion set: a path passes iff
//! it equals none of the excluded paths. The same predicate value is used
//! for weighing buckets, testing non-emptiness and filtering candidates, so
//! those three views of a bucket always agree.

use vstd::prelude::*;

use crate::paths::{bytes_eq, clone_bytes};

verus! {

/// A test over candidate paths: a path is allowed iff it is not one of the
/// excluded paths.
pub struct Predicate {
    excluded: Vec<Vec<u8>>,
}

/// True iff `p` equals none of `paths`.
pub open spec fn spec_none_matches(paths: Seq<Vec<u8>>, p: Seq<u8>) -> bool {
    forall|i: int| 0 <= i < paths.len() ==> (#[trigger] paths[i])@ != p
}

impl Predicate {
    /// Whether the predicate lets `p` through.
    pub closed spec fn spec_allows(self, p: Seq<u8>) -> bool {
        spec_none_matches(self.excluded@, p)
    }

    /// The predicate that allows every path.
    pub fn always() -> (r: Predicate)
        ensures
            forall|p: Seq<u8>| r.spec_allows(p),
    {
        Predicate { excluded: Vec::new() }
    }

    /// The predicate that excludes exactly the given paths.
    pub fn excluding(paths: Vec<Vec<u8>>) -> (r: Predicate)
        ensures
            forall|p: Seq<u8>| r.spec_allows(p) == spec_none_matches(paths@, p),
    {
        Predicate { excluded: paths }
    }

    /// True iff `path` is none of the excluded paths.
    pub fn allows(&self, path: &Vec<u8>) -> (r: bool)
        ensures
            r == self.spec_allows(path@),
    {
        let mut i: usize = 0;
        while i < self.excluded.len()
            invariant
                i <= self.excluded@.len(),
                forall|j: int| 0 <= j < i ==> (#[trigger] self.excluded@[j])@ != path@,
            decreases self.excluded@.len() - i,
        {
            if bytes_eq(&self.excluded[i], path) {
                return false;
            }
            i += 1;
        }
        true
    }
}

/// The subsequence of `files` that the predicate allows, in order.
pub open spec fn spec_allowed_files(files: Seq<Vec<u8>>, predicate: Predicate) -> Seq<Vec<u8>>
    decreases files.len(),
{
    if files.len() == 0 {
        Seq::empty()
    } else {
        let rest = spec_allowed_files(files.drop_last(), predicate);
        if predicate.spec_allows(files.last()@) {
            rest.push(files.last())
        } else {
            rest
        }
    }
}

/// Every file the filter keeps is allowed and comes from the input.
pub proof fn lemma_allowed_files_members(files: Seq<Vec<u8>>, predicate: Predicate)
    ensures
        forall|k: int|
            0 <= k < spec_allowed_files(files, predicate).len() ==> {
                let f = #[trigger] spec_allowed_files(files, predicate)[k];
                &&& predicate.spec_allows(f@)
                &&& exists|j: int| 0 <= j < files.len() && files[j] == f
            },
    decreases files.len(),
{
    if files.len() > 0 {
        lemma_allowed_files_members(files.drop_last(), predicate);
        assert forall|k: int|
            0 <= k < spec_allowed_files(files, predicate).len() implies {
            let f = #[trigger] spec_allowed_files(files, predicate)[k];
            &&& predicate.spec_allows(f@)
            &&& exists|j: int| 0 <= j < files.len() && files[j] == f
        } by {
            let sub = spec_allowed_files(files.drop_last(), predicate);
            let f = spec_allowed_files(files, predicate)[k];
            if k < sub.len() {
                let j = choose|j: int| 0 <= j < files.drop_last().len() && files.drop_last()[j] == f;
                assert(files[j] == f);
            } else {
                assert(f == files.last());
                assert(files[files.len() - 1] == f);
            }
        }
    }
}

/// True iff at least one of `files` is allowed by the predicate;
/// short-circuits on the first match.
pub fn any_allowed(files: &Vec<Vec<u8>>, predicate: &Predicate) -> (r: bool)
    ensures
        r == exists|j: int| 0 <= j < files@.len() && predicate.spec_allows((#[trigger] files@[j])@),
{
    let mut i: usize = 0;
    while i < files.len()
        invariant
            i <= files@.len(),
            forall|j: int| 0 <= j < i ==> !predicate.spec_allows((#[trigger] files@[j])@),
        decreases files@.len() - i,
    {
        if predicate.allows(&files[i]) {
            return true;
        }
        i += 1;
    }
    false
}

/// The files that the predicate allows, in the order given.
pub fn filter_allowed(files: Vec<Vec<u8>>, predicate: &Predicate) -> (r: Vec<Vec<u8>>)
    ensures
        r@ == spec_allowed_files(files@, *predicate),
{
    let mut files = files;
    let ghost all = files@;
    let mut r: Vec<Vec<u8>> = Vec::new();
    let ghost done: int = 0;
    while files.len() > 0
        invariant
            0 <= done <= all.len(),
            done + files@.len() == all.len(),
            files@ =~= all.skip(done),
            r@ == spec_allowed_files(all.take(done), *predicate),
        decreases files@.len(),
    {
        let f = files.remove(0);
        proof {
            assert(f == all[done]);
            assert(all.take(done + 1).drop_last() =~= all.take(done));
            assert(all.take(done + 1).last() == all[done]);
        }
        if predicate.allows(&f) {
            r.push(f);
        }
        proof {
            done = done + 1;
        }
    }
    proof {
        assert(all.take(done) =~= all);
    }
    r
}

/// The allowed files copied out of a borrowed list: every copy is allowed
/// and holds the bytes of some input file, and something is copied iff some
/// input file is allowed.
pub fn filter_allowed_from(files: &Vec<Vec<u8>>, predicate: &Predicate) -> (r: Vec<Vec<u8>>)
    ensures
        forall|k: int| 0 <= k < r@.len() ==> predicate.spec_allows((#[trigger] r@[k])@),
        forall|k: int|
            0 <= k < r@.len() ==> exists|j: int|
                0 <= j < files@.len() && (#[trigger] r@[k])@ == (files@[j])@,
        (r@.len() > 0) <==> (exists|j: int|
            0 <= j < files@.len() && predicate.spec_allows((#[trigger] files@[j])@)),
{
    let mut r: Vec<Vec<u8>> = Vec::new();
    let mut i: usize = 0;
    while i < files.len()
        invariant
            i <= files@.len(),
            forall|k: int| 0 <= k < r@.len() ==> predicate.spec_allows((#[trigger] r@[k])@),
            forall|k: int|
                0 <= k < r@.len() ==> exists|j: int|
                    0 <= j < files@.len() && (#[trigger] r@[k])@ == (files@[j])@,
            (r@.len() > 0) <==> (exists|j: int|
                0 <= j < i && predicate.spec_allows((#[trigger] files@[j])@)),
        decreases files@.len() - i,
    {
        if predicate.allows(&files[i]) {
            let c = clone_bytes(&files[i]);
            r.push(c);
        }
        i += 1;
    }
    r
}

} // verus!
