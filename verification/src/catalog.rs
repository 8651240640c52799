//! The catalog loader.
//!
//! A configuration document maps directory names to weights, under a
//! `backgrounds` table. Each entry is resolved against a base directory and
//! validated: a name whose directory cannot be resolved, a weight that is
//! not an integer, and a weight that is not positive are each skipped with a
//! diagnostic, never aborting the rest of the load. An empty catalog is a
//! valid load result; failing on it is the selection engine's business.

use vstd::prelude::*;
use vstd::string::StrSliceExecFns;

use crate::bucket::Bucket;
use crate::paths::join_path;

verus! {

/// Why a configuration entry was skipped.
#[derive(Debug, PartialEq, Eq, Structural, Clone, Copy)]
pub enum SkipReason {
    /// The named directory did not resolve to an existing path.
    Unresolvable,
    /// The configured weight is not an integer.
    NonIntegerWeight,
    /// The configured weight is zero or negative.
    NonPositiveWeight,
}

/// A diagnostic for one skipped configuration entry.
#[derive(Debug)]
pub struct Skipped {
    /// The directory name as configured.
    pub name: String,
    /// Why the entry produced no bucket.
    pub reason: SkipReason,
}

/// A failure of the whole load: the document is not a TOML table holding a
/// `backgrounds` table.
#[derive(Debug)]
pub enum CatalogError {
    Malformed(String),
}

/// One configuration entry with the facts the validation rules read: the
/// resolved directory (where resolution succeeded) and the integer weight
/// (where the configured value was an integer).
#[derive(Debug)]
pub struct ConfigEntry {
    /// The directory name as configured.
    pub name: String,
    /// The canonicalized, existing directory, where resolution succeeded.
    pub resolved: Option<Vec<u8>>,
    /// The configured weight, where it was an integer.
    pub weight: Option<i64>,
}

/// The validation rule for one entry: a bucket when the directory resolved
/// and the weight is a positive integer, otherwise the diagnostic saying
/// which check failed first (resolution, then integrality, then sign).
pub open spec fn spec_classify(e: ConfigEntry) -> Result<Bucket, Skipped> {
    match e.resolved {
        None => Err(Skipped { name: e.name, reason: SkipReason::Unresolvable }),
        Some(path) => match e.weight {
            None => Err(Skipped { name: e.name, reason: SkipReason::NonIntegerWeight }),
            Some(w) => if w <= 0 {
                Err(Skipped { name: e.name, reason: SkipReason::NonPositiveWeight })
            } else {
                Ok(Bucket { path, weight: w })
            },
        },
    }
}

/// Applies the validation rule to one entry.
pub fn classify_entry(e: ConfigEntry) -> (r: Result<Bucket, Skipped>)
    ensures
        r == spec_classify(e),
{
    match e.resolved {
        None => Err(Skipped { name: e.name, reason: SkipReason::Unresolvable }),
        Some(path) => match e.weight {
            None => Err(Skipped { name: e.name, reason: SkipReason::NonIntegerWeight }),
            Some(w) => if w <= 0 {
                Err(Skipped { name: e.name, reason: SkipReason::NonPositiveWeight })
            } else {
                Ok(Bucket { path, weight: w })
            },
        },
    }
}

/// The buckets of the entries the validation rule keeps, in order.
pub open spec fn spec_kept(es: Seq<ConfigEntry>) -> Seq<Bucket>
    decreases es.len(),
{
    if es.len() == 0 {
        Seq::empty()
    } else {
        let rest = spec_kept(es.drop_last());
        match spec_classify(es.last()) {
            Ok(b) => rest.push(b),
            Err(_) => rest,
        }
    }
}

/// The diagnostics of the entries the validation rule skips, in order.
pub open spec fn spec_skipped(es: Seq<ConfigEntry>) -> Seq<Skipped>
    decreases es.len(),
{
    if es.len() == 0 {
        Seq::empty()
    } else {
        let rest = spec_skipped(es.drop_last());
        match spec_classify(es.last()) {
            Ok(_) => rest,
            Err(s) => rest.push(s),
        }
    }
}

/// Every kept bucket satisfies the bucket invariant: a non-positive or
/// non-integer weight never produces a bucket.
pub proof fn lemma_kept_positive(es: Seq<ConfigEntry>)
    ensures
        forall|k: int| 0 <= k < spec_kept(es).len() ==> (#[trigger] spec_kept(es)[k]).wf(),
    decreases es.len(),
{
    if es.len() > 0 {
        lemma_kept_positive(es.drop_last());
        let rest = spec_kept(es.drop_last());
        assert forall|k: int| 0 <= k < spec_kept(es).len() implies (
        #[trigger] spec_kept(es)[k]).wf() by {
            if k < rest.len() {
                assert(spec_kept(es)[k] == rest[k]);
            }
        }
    }
}

/// Each entry yields exactly one of a bucket or a diagnostic: loading never
/// aborts on a bad entry, and never skips one silently.
pub proof fn lemma_entry_accounting(es: Seq<ConfigEntry>)
    ensures
        spec_kept(es).len() + spec_skipped(es).len() == es.len(),
    decreases es.len(),
{
    if es.len() > 0 {
        lemma_entry_accounting(es.drop_last());
    }
}

/// Runs the validation rule over a list of entries, producing the kept
/// buckets and one diagnostic per skipped entry.
pub fn load_entries(entries: Vec<ConfigEntry>) -> (r: (Vec<Bucket>, Vec<Skipped>))
    ensures
        r.0@ == spec_kept(entries@),
        r.1@ == spec_skipped(entries@),
        r.0@.len() + r.1@.len() == entries@.len(),
        forall|k: int| 0 <= k < r.0@.len() ==> (#[trigger] r.0@[k]).wf(),
{
    let mut entries = entries;
    let ghost all = entries@;
    let mut kept: Vec<Bucket> = Vec::new();
    let mut skipped: Vec<Skipped> = Vec::new();
    let ghost done: int = 0;
    while entries.len() > 0
        invariant
            0 <= done <= all.len(),
            done + entries@.len() == all.len(),
            entries@ =~= all.skip(done),
            kept@ == spec_kept(all.take(done)),
            skipped@ == spec_skipped(all.take(done)),
        decreases entries@.len(),
    {
        let e = entries.remove(0);
        proof {
            assert(e == all[done]);
            assert(all.take(done + 1).drop_last() =~= all.take(done));
            assert(all.take(done + 1).last() == all[done]);
        }
        match classify_entry(e) {
            Ok(b) => kept.push(b),
            Err(s) => skipped.push(s),
        }
        proof {
            done = done + 1;
        }
    }
    proof {
        assert(all.take(done) =~= all);
        lemma_kept_positive(all);
        lemma_entry_accounting(all);
    }
    (kept, skipped)
}

/// Whether the text is a well-formed configuration: a valid TOML document
/// whose top level holds a `backgrounds` table. A function of the text
/// alone.
pub uninterp spec fn spec_config_wellformed(s: Seq<char>) -> bool;

/// The entries of the text's `backgrounds` table, in table order: each
/// configured name, with its weight where that weight is a TOML integer.
/// A function of the text alone.
pub uninterp spec fn spec_config_entries(s: Seq<char>) -> Seq<(Seq<char>, Option<i64>)>;

/// Relies on toml::from_str, toml::map::Map::get and iter, and
/// toml::Value::as_table and as_integer: parses the text as a TOML document,
/// finds its top-level `backgrounds` table — the configuration format's one
/// fixed key — and hands that table's entries out as (name, integer weight)
/// pairs in table order. It
/// errs, with the parser's message, exactly when the document is not valid
/// TOML or holds no `backgrounds` table. All of it depends on the text
/// alone, which is what lets its outcome carry the two names above.
#[verifier::external_body]
fn parse_config(contents: &str) -> (r: Result<Vec<(String, Option<i64>)>, String>)
    ensures
        (r is Ok) == spec_config_wellformed(contents@),
        (r matches Ok(es) ==> {
            &&& es@.len() == spec_config_entries(contents@).len()
            &&& forall|i: int|
                0 <= i < es@.len() ==> (#[trigger] es@[i]).0@ == spec_config_entries(contents@)[i].0
                    && es@[i].1 == spec_config_entries(contents@)[i].1
        }),
{
    let table: toml::Table = match toml::from_str(contents) {
        Ok(t) => t,
        Err(e) => return Err(e.to_string()),
    };
    match table.get("backgrounds").and_then(|v| v.as_table()) {
        Some(bgs) => Ok(bgs.iter().map(|(k, v)| (k.clone(), v.as_integer())).collect()),
        None => Err("no backgrounds table".to_owned()),
    }
}

/// Relies on dunce::canonicalize: resolves a path to an absolute,
/// canonicalized form, verifying that it exists; `None` where resolution
/// fails. What comes back depends on the filesystem's current state.
#[verifier::external_body]
fn canonicalize_dir(path: &Vec<u8>) -> (r: Option<Vec<u8>>) {
    let s = String::from_utf8_lossy(path).into_owned();
    dunce::canonicalize(std::path::PathBuf::from(s))
        .ok()
        .map(|p| p.to_string_lossy().into_owned().into_bytes())
}

/// Loads a catalog from configuration text: parses the document, finds its
/// `backgrounds` table, resolves each entry's directory against `bgdir` and
/// validates its weight. The load fails exactly when the document is
/// malformed (not valid TOML, or no `backgrounds` table); bad entries are
/// skipped with a diagnostic, one each, never aborting the rest. The result
/// is exactly the validation rule run over the text's entries — their names
/// and weights pinned to the text, only the filesystem-dependent resolution
/// left open — so every loaded bucket has a positive weight, and buckets and
/// diagnostics together account for every entry.
pub fn load_catalog_from_str(contents: &str, bgdir: &Vec<u8>) -> (r: Result<
    (Vec<Bucket>, Vec<Skipped>),
    CatalogError,
>)
    ensures
        (r is Err) == !spec_config_wellformed(contents@),
        (r matches Ok(loaded) ==> exists|es: Seq<ConfigEntry>|
            {
                &&& #[trigger] spec_kept(es) == loaded.0@
                &&& spec_skipped(es) == loaded.1@
                &&& es.len() == spec_config_entries(contents@).len()
                &&& forall|i: int|
                    0 <= i < es.len() ==> (#[trigger] es[i]).name@ == spec_config_entries(
                        contents@,
                    )[i].0 && es[i].weight == spec_config_entries(contents@)[i].1
            }),
        (r matches Ok(loaded) ==> loaded.0@.len() + loaded.1@.len() == spec_config_entries(
            contents@,
        ).len()),
        (r matches Ok(loaded) ==> forall|k: int|
            0 <= k < loaded.0@.len() ==> (#[trigger] loaded.0@[k]).wf()),
{
    let mut pairs = match parse_config(contents) {
        Ok(p) => p,
        Err(msg) => {
            return Err(CatalogError::Malformed(msg));
        },
    };
    let ghost all = pairs@;
    let ghost centries = spec_config_entries(contents@);
    let mut entries: Vec<ConfigEntry> = Vec::new();
    let ghost done: int = 0;
    while pairs.len() > 0
        invariant
            0 <= done <= all.len(),
            done + pairs@.len() == all.len(),
            pairs@ =~= all.skip(done),
            all.len() == centries.len(),
            forall|i: int|
                0 <= i < all.len() ==> (#[trigger] all[i]).0@ == centries[i].0 && all[i].1
                    == centries[i].1,
            entries@.len() == done,
            forall|i: int|
                0 <= i < done ==> (#[trigger] entries@[i]).name@ == centries[i].0
                    && entries@[i].weight == centries[i].1,
        decreases pairs@.len(),
    {
        let (name, weight) = pairs.remove(0);
        proof {
            assert(all.skip(done)[0] == all[done]);
            assert(name == all[done].0 && weight == all[done].1);
        }
        let name_bytes = name.as_str().as_bytes_vec();
        let joined = join_path(bgdir, &name_bytes);
        let resolved = canonicalize_dir(&joined);
        entries.push(ConfigEntry { name, resolved, weight });
        proof {
            done = done + 1;
        }
    }
    let ghost es = entries@;
    let (buckets, skipped) = load_entries(entries);
    proof {
        assert(spec_kept(es) == buckets@ && spec_skipped(es) == skipped@ && es.len()
            == spec_config_entries(contents@).len() && forall|i: int|
            0 <= i < es.len() ==> (#[trigger] es[i]).name@ == spec_config_entries(contents@)[i].0
                && es[i].weight == spec_config_entries(contents@)[i].1);
    }
    Ok((buckets, skipped))
}

} // verus!
