//! Buckets: weighted source directories of candidate images.
//!
//! A bucket pairs a directory path with a positive weight. Its contents are
//! never cached: every query walks the directory tree afresh, so a bucket
//! reflects the directory's state at the moment of the call, and two queries
//! may see different files.

use vstd::prelude::*;
use vstd::utf8::encode_utf8;

use crate::display::utf8_display;
use crate::paths::{has_image_ext, spec_has_image_ext, spec_starts_with};
use crate::predicate::{any_allowed, filter_allowed, lemma_allowed_files_members};
use crate::predicate::Predicate;
use crate::select::{random_below, SelectError};

verus! {

/// One weighted source directory.
#[derive(Debug)]
pub struct Bucket {
    /// Absolute, canonicalized directory path, established at load time.
    pub path: Vec<u8>,
    /// Relative probability mass assigned to this bucket.
    pub weight: i64,
}

/// Relies on walkdir::WalkDir: walks the tree under `root` recursively,
/// skips entries that error (unreadable directories, broken links), and
/// yields each remaining entry's path and whether that entry is a file.
/// Every yielded path is the root joined with the entry's components, so its
/// bytes begin with the root's — with the UTF-8 bytes of the root's decoded
/// text, since paths cross this boundary as decoded text.
#[verifier::external_body]
fn walk_dir(root: &Vec<u8>) -> (r: Vec<(Vec<u8>, bool)>)
    ensures
        forall|i: int|
            0 <= i < r@.len() ==> spec_starts_with(
                (#[trigger] r@[i]).0@,
                encode_utf8(utf8_display(root@)),
            ),
{
    let root = String::from_utf8_lossy(root).into_owned();
    walkdir::WalkDir::new(root)
        .into_iter()
        .filter_map(|e| e.ok())
        .map(|e| (e.path().to_string_lossy().into_owned().into_bytes(), e.file_type().is_file()))
        .collect()
}

/// The paths of the walked entries that are files with an image extension,
/// in walk order.
pub open spec fn spec_image_files(entries: Seq<(Vec<u8>, bool)>) -> Seq<Vec<u8>>
    decreases entries.len(),
{
    if entries.len() == 0 {
        Seq::empty()
    } else {
        let rest = spec_image_files(entries.drop_last());
        let e = entries.last();
        if e.1 && spec_has_image_ext(e.0@) {
            rest.push(e.0)
        } else {
            rest
        }
    }
}

/// Everything `spec_image_files` keeps has an image extension.
pub proof fn lemma_image_files_have_image_ext(entries: Seq<(Vec<u8>, bool)>)
    ensures
        forall|k: int|
            0 <= k < spec_image_files(entries).len() ==> spec_has_image_ext(
                (#[trigger] spec_image_files(entries)[k])@,
            ),
    decreases entries.len(),
{
    if entries.len() > 0 {
        lemma_image_files_have_image_ext(entries.drop_last());
        let rest = spec_image_files(entries.drop_last());
        assert forall|k: int|
            0 <= k < spec_image_files(entries).len() implies spec_has_image_ext(
            (#[trigger] spec_image_files(entries)[k])@,
        ) by {
            if k < rest.len() {
                assert(spec_image_files(entries)[k] == rest[k]);
            }
        }
    }
}

/// Everything `spec_image_files` keeps is the path of some walked entry.
pub proof fn lemma_image_files_members(entries: Seq<(Vec<u8>, bool)>)
    ensures
        forall|k: int|
            0 <= k < spec_image_files(entries).len() ==> exists|j: int|
                0 <= j < entries.len() && (#[trigger] spec_image_files(entries)[k]) == entries[j].0,
    decreases entries.len(),
{
    if entries.len() > 0 {
        lemma_image_files_members(entries.drop_last());
        let rest = spec_image_files(entries.drop_last());
        assert forall|k: int|
            0 <= k < spec_image_files(entries).len() implies exists|j: int|
            0 <= j < entries.len() && (#[trigger] spec_image_files(entries)[k]) == entries[j].0 by {
            if k < rest.len() {
                assert(spec_image_files(entries)[k] == rest[k]);
                let j = choose|j: int|
                    0 <= j < entries.drop_last().len() && rest[k] == entries.drop_last()[j].0;
                assert(entries[j].0 == rest[k]);
            } else {
                assert(spec_image_files(entries)[k] == entries.last().0);
                assert(entries[entries.len() - 1].0 == entries.last().0);
            }
        }
    }
}

/// Keeps the walked entries that are files with an image extension.
pub fn image_files(entries: Vec<(Vec<u8>, bool)>) -> (r: Vec<Vec<u8>>)
    ensures
        r@ == spec_image_files(entries@),
{
    let mut entries = entries;
    let ghost all = entries@;
    let mut r: Vec<Vec<u8>> = Vec::new();
    let ghost done: int = 0;
    while entries.len() > 0
        invariant
            0 <= done <= all.len(),
            done + entries@.len() == all.len(),
            entries@ =~= all.skip(done),
            r@ == spec_image_files(all.take(done)),
        decreases entries@.len(),
    {
        let (path, is_file) = entries.remove(0);
        proof {
            assert(all[done] == (path, is_file));
            assert(all.take(done + 1).drop_last() =~= all.take(done));
            assert(all.take(done + 1).last() == all[done]);
        }
        if is_file && has_image_ext(&path) {
            r.push(path);
        }
        proof {
            done = done + 1;
        }
    }
    proof {
        assert(all.take(done) =~= all);
    }
    r
}

impl Bucket {
    /// The bucket invariant: the configured weight is positive. The loader
    /// never constructs a bucket that breaks it.
    pub open spec fn wf(self) -> bool {
        self.weight > 0
    }

    /// What a scan of this bucket can yield: a path under the bucket's
    /// directory (its bytes begin with the UTF-8 bytes of the directory's
    /// decoded text) that carries an image extension.
    pub open spec fn spec_yields(self, p: Seq<u8>) -> bool {
        &&& spec_starts_with(p, encode_utf8(utf8_display(self.path@)))
        &&& spec_has_image_ext(p)
    }

    /// Walks the bucket's directory afresh and returns the image files found
    /// under it, recursively, skipping entries that error. Every returned
    /// path lies under the bucket's directory and carries one of the image
    /// extensions; which paths come back depends on the directory's current
    /// contents.
    pub fn get_contents(&self) -> (r: Vec<Vec<u8>>)
        ensures
            forall|i: int| 0 <= i < r@.len() ==> self.spec_yields((#[trigger] r@[i])@),
    {
        let entries = walk_dir(&self.path);
        let r = image_files(entries);
        proof {
            lemma_image_files_have_image_ext(entries@);
            lemma_image_files_members(entries@);
            assert forall|i: int| 0 <= i < r@.len() implies self.spec_yields(
                (#[trigger] r@[i])@,
            ) by {
                let j = choose|j: int| 0 <= j < entries@.len() && r@[i] == entries@[j].0;
                assert(spec_starts_with(entries@[j].0@, encode_utf8(utf8_display(self.path@))));
            }
        }
        r
    }

    /// True iff the directory currently holds at least one image file that
    /// the predicate allows. Short-circuits on the first match.
    pub fn has_contents(&self, predicate: &Predicate) -> (r: bool)
    {
        let contents = self.get_contents();
        any_allowed(&contents, predicate)
    }

    /// The bucket's effective weight: its configured weight if the predicate
    /// lets some current file through, else zero. An empty-after-filtering
    /// bucket thereby drops out of the weighted draw.
    pub fn get_weight(&self, predicate: &Predicate) -> (r: i64)
        requires
            self.wf(),
        ensures
            r == self.weight || r == 0,
            0 <= r <= self.weight,
    {
        if self.has_contents(predicate) {
            self.weight
        } else {
            0
        }
    }

    /// Draws one file uniformly at random among the bucket's current allowed
    /// image files; `NotFound` when there is none. Whatever the directory
    /// held, a returned path lies under this bucket's directory, has an
    /// image extension, and passes the predicate.
    pub fn get_random(&self, predicate: &Predicate) -> (r: Result<Vec<u8>, SelectError>)
        ensures
            (r matches Ok(p) ==> self.spec_yields(p@) && predicate.spec_allows(p@)),
            (r matches Err(e) ==> e == SelectError::NotFound),
    {
        let contents = self.get_contents();
        let ghost cs = contents@;
        let mut cands = filter_allowed(contents, predicate);
        let length = cands.len();
        if length == 0 {
            return Err(SelectError::NotFound);
        }
        proof {
            lemma_allowed_files_members(cs, *predicate);
        }
        let index = random_below(length as u64) as usize;
        let p = cands.remove(index);
        proof {
            let j = choose|j: int| 0 <= j < cs.len() && cs[j] == p;
            assert(self.spec_yields((cs[j])@));
        }
        Ok(p)
    }
}

} // verus!
