//! The two-stage weighted random draw.
//!
//! Stage one chooses a bucket: each bucket contributes its effective weight
//! (its configured weight if the predicate lets at least one of its files
//! through, else zero), and a bucket is chosen with probability proportional
//! to that weight by the standard cumulative-weight walk. Stage two chooses
//! uniformly among the chosen bucket's allowed files. Failure is
//! `NoEligibleBucket`: after filtering, no bucket/file pair remains.

use vstd::prelude::*;

use crate::bucket::Bucket;
use crate::paths::spec_has_image_ext;
use crate::predicate::{any_allowed, filter_allowed_from, Predicate};

verus! {

/// Why a selection call returned no path.
#[derive(Debug, PartialEq, Eq, Structural, Clone, Copy)]
pub enum SelectError {
    /// No bucket has an allowed file: the whole draw fails.
    NoEligibleBucket,
    /// A single bucket turned out to hold no allowed file.
    NotFound,
}

/// Relies on rand::random_range: returns a uniformly distributed value of
/// the given range, and panics only when the range is empty.
#[verifier::external_body]
pub(crate) fn random_below(n: u64) -> (r: u64)
    requires
        n > 0,
    ensures
        r < n,
{
    rand::random_range(0..n)
}

/// The sum of a sequence of weights.
pub open spec fn spec_sum(ws: Seq<i64>) -> int
    decreases ws.len(),
{
    if ws.len() == 0 {
        0
    } else {
        spec_sum(ws.drop_last()) + ws.last()
    }
}

/// With non-negative weights, a prefix sum never exceeds the whole sum.
pub proof fn lemma_sum_take_le(ws: Seq<i64>, i: int)
    requires
        forall|j: int| 0 <= j < ws.len() ==> ws[j] >= 0,
        0 <= i <= ws.len(),
    ensures
        spec_sum(ws.take(i)) <= spec_sum(ws),
    decreases ws.len(),
{
    if i == ws.len() {
        assert(ws.take(i) =~= ws);
    } else {
        assert(ws.drop_last().take(i) =~= ws.take(i));
        lemma_sum_take_le(ws.drop_last(), i);
    }
}

/// Sums the weights, which must be non-negative and must not overflow.
pub fn sum_weights(ws: &Vec<i64>) -> (t: i64)
    requires
        forall|j: int| 0 <= j < ws@.len() ==> ws@[j] >= 0,
        spec_sum(ws@) <= i64::MAX,
    ensures
        t == spec_sum(ws@),
        t >= 0,
{
    let mut t: i64 = 0;
    let mut i: usize = 0;
    while i < ws.len()
        invariant
            i <= ws@.len(),
            forall|j: int| 0 <= j < ws@.len() ==> ws@[j] >= 0,
            spec_sum(ws@) <= i64::MAX,
            t == spec_sum(ws@.take(i as int)),
            t >= 0,
        decreases ws@.len() - i,
    {
        proof {
            assert(ws@.take(i + 1).drop_last() =~= ws@.take(i as int));
            assert(ws@.take(i + 1).last() == ws@[i as int]);
            lemma_sum_take_le(ws@, i + 1);
        }
        t = t + ws[i];
        i += 1;
    }
    proof {
        assert(ws@.take(ws@.len() as int) =~= ws@);
    }
    t
}

/// The cumulative-weight walk: subtracts each weight from `r` in turn and
/// picks the first index at which the running value would go negative. The
/// chosen index always carries a strictly positive weight, so an index with
/// weight zero is never chosen.
pub fn pick_index(weights: &Vec<i64>, r: i64) -> (i: usize)
    requires
        forall|j: int| 0 <= j < weights@.len() ==> weights@[j] >= 0,
        0 <= r < spec_sum(weights@),
    ensures
        i < weights@.len(),
        weights@[i as int] > 0,
        spec_sum(weights@.take(i as int)) <= r < spec_sum(weights@.take(i as int + 1)),
{
    let mut rest = r;
    let mut i: usize = 0;
    while i < weights.len()
        invariant
            i <= weights@.len(),
            forall|j: int| 0 <= j < weights@.len() ==> weights@[j] >= 0,
            0 <= r < spec_sum(weights@),
            rest == r - spec_sum(weights@.take(i as int)),
            rest >= 0,
        decreases weights@.len() - i,
    {
        let w = weights[i];
        proof {
            assert(weights@.take(i + 1).drop_last() =~= weights@.take(i as int));
            assert(weights@.take(i + 1).last() == weights@[i as int]);
        }
        if rest < w {
            return i;
        }
        rest = rest - w;
        i += 1;
    }
    proof {
        assert(weights@.take(weights@.len() as int) =~= weights@);
        assert(false);
    }
    vstd::pervasive::unreached()
}

/// With elementwise `a[j] <= b[j]`, the sums compare the same way.
pub proof fn lemma_sum_le(a: Seq<i64>, b: Seq<i64>)
    requires
        a.len() == b.len(),
        forall|j: int| 0 <= j < a.len() ==> a[j] <= b[j],
    ensures
        spec_sum(a) <= spec_sum(b),
    decreases a.len(),
{
    if a.len() > 0 {
        lemma_sum_le(a.drop_last(), b.drop_last());
    }
}

/// The configured weights of a catalog, in order.
pub open spec fn spec_bucket_weights(buckets: Seq<Bucket>) -> Seq<i64> {
    Seq::new(buckets.len(), |i: int| buckets[i].weight)
}

/// Computes every bucket's effective weight against the predicate (each a
/// fresh directory scan) and their total: the parallel weight list of stage
/// one of the draw.
pub fn effective_weights(buckets: &Vec<Bucket>, predicate: &Predicate) -> (r: (Vec<i64>, i64))
    requires
        forall|i: int| 0 <= i < buckets@.len() ==> (#[trigger] buckets@[i]).wf(),
        spec_sum(spec_bucket_weights(buckets@)) <= i64::MAX,
    ensures
        r.0@.len() == buckets@.len(),
        forall|j: int|
            0 <= j < buckets@.len() ==> #[trigger] r.0@[j] == 0 || r.0@[j] == buckets@[j].weight,
        forall|j: int| 0 <= j < buckets@.len() ==> 0 <= #[trigger] r.0@[j] <= buckets@[j].weight,
        r.1 == spec_sum(r.0@),
        r.1 >= 0,
{
    let mut weights: Vec<i64> = Vec::new();
    let mut i: usize = 0;
    while i < buckets.len()
        invariant
            i <= buckets@.len(),
            forall|j: int| 0 <= j < buckets@.len() ==> (#[trigger] buckets@[j]).wf(),
            weights@.len() == i,
            forall|j: int|
                0 <= j < i ==> #[trigger] weights@[j] == 0 || weights@[j] == buckets@[j].weight,
            forall|j: int| 0 <= j < i ==> 0 <= #[trigger] weights@[j] <= buckets@[j].weight,
        decreases buckets@.len() - i,
    {
        let w = buckets[i].get_weight(predicate);
        weights.push(w);
        i += 1;
    }
    proof {
        lemma_sum_le(weights@, spec_bucket_weights(buckets@));
    }
    let total = sum_weights(&weights);
    (weights, total)
}

/// Stage one of the draw over a catalog of buckets: computes every bucket's
/// effective weight against the predicate, then picks an index with
/// probability proportional to that weight; `NoEligibleBucket` when every
/// effective weight is zero. A chosen index always had a positive effective
/// weight at its scan.
pub fn weighted_random(buckets: &Vec<Bucket>, predicate: &Predicate) -> (r: Result<
    usize,
    SelectError,
>)
    requires
        forall|i: int| 0 <= i < buckets@.len() ==> (#[trigger] buckets@[i]).wf(),
        spec_sum(spec_bucket_weights(buckets@)) <= i64::MAX,
    ensures
        (r matches Ok(i) ==> i < buckets@.len() && buckets@[i as int].wf()),
        (r matches Err(e) ==> e == SelectError::NoEligibleBucket),
        buckets@.len() == 0 ==> r is Err,
{
    let (weights, total) = effective_weights(buckets, predicate);
    if total <= 0 {
        return Err(SelectError::NoEligibleBucket);
    }
    let rv = random_below(total as u64) as i64;
    let index = pick_index(&weights, rv);
    Ok(index)
}

/// One full two-stage draw over a catalog of buckets: a weighted bucket
/// choice, then a uniform file choice within it. A returned path always lies
/// under the chosen bucket's directory, has an image extension and passes
/// the predicate; an empty catalog fails, and a failed second stage (the
/// directory changed between the two scans) propagates as `NoEligibleBucket`.
pub fn bucket_random(buckets: &Vec<Bucket>, predicate: &Predicate) -> (r: Result<
    Vec<u8>,
    SelectError,
>)
    requires
        forall|i: int| 0 <= i < buckets@.len() ==> (#[trigger] buckets@[i]).wf(),
        spec_sum(spec_bucket_weights(buckets@)) <= i64::MAX,
    ensures
        (r matches Ok(p) ==> spec_has_image_ext(p@) && predicate.spec_allows(p@)),
        (r matches Ok(p) ==> exists|i: int|
            0 <= i < buckets@.len() && (#[trigger] buckets@[i]).spec_yields(p@)),
        (r matches Err(e) ==> e == SelectError::NoEligibleBucket),
        buckets@.len() == 0 ==> r is Err,
{
    match weighted_random(buckets, predicate) {
        Ok(index) => match buckets[index].get_random(predicate) {
            Ok(p) => Ok(p),
            Err(_) => Err(SelectError::NoEligibleBucket),
        },
        Err(e) => Err(e),
    }
}

/// A snapshot of one bucket: its weight and the files its directory held
/// when it was scanned. The selection logic over snapshots is exact, since
/// nothing changes under it between the two stages.
#[derive(Debug)]
pub struct Pool {
    /// Relative probability mass; always positive.
    pub weight: i64,
    /// The candidate files of this pool.
    pub files: Vec<Vec<u8>>,
}

impl Pool {
    /// The pool invariant: the weight is positive.
    pub open spec fn wf(self) -> bool {
        self.weight > 0
    }

    /// Whether the predicate lets some file of this pool through.
    pub open spec fn spec_has_allowed(self, predicate: Predicate) -> bool {
        exists|j: int| 0 <= j < self.files@.len() && predicate.spec_allows(
            (#[trigger] self.files@[j])@,
        )
    }

    /// The pool's effective weight: its weight if some file is allowed,
    /// else zero.
    pub open spec fn spec_eff_weight(self, predicate: Predicate) -> int {
        if self.spec_has_allowed(predicate) {
            self.weight as int
        } else {
            0
        }
    }

    /// Computes the effective weight.
    pub fn eff_weight(&self, predicate: &Predicate) -> (w: i64)
        requires
            self.wf(),
        ensures
            w == self.spec_eff_weight(*predicate),
    {
        if any_allowed(&self.files, predicate) {
            self.weight
        } else {
            0
        }
    }
}

/// The total effective weight of a catalog of pools.
pub open spec fn spec_total_eff(pools: Seq<Pool>, predicate: Predicate) -> int
    decreases pools.len(),
{
    if pools.len() == 0 {
        0
    } else {
        spec_total_eff(pools.drop_last(), predicate) + pools.last().spec_eff_weight(predicate)
    }
}

/// The configured weights of a catalog of pools, in order.
pub open spec fn spec_pool_weights(pools: Seq<Pool>) -> Seq<i64> {
    Seq::new(pools.len(), |i: int| pools[i].weight)
}

/// A sequence holding every pool's effective weight sums to the total
/// effective weight.
pub proof fn lemma_total_eff_as_sum(pools: Seq<Pool>, predicate: Predicate, ws: Seq<i64>)
    requires
        ws.len() == pools.len(),
        forall|j: int| 0 <= j < ws.len() ==> ws[j] == (#[trigger] pools[j]).spec_eff_weight(
            predicate,
        ),
    ensures
        spec_sum(ws) == spec_total_eff(pools, predicate),
    decreases pools.len(),
{
    if pools.len() > 0 {
        lemma_total_eff_as_sum(pools.drop_last(), predicate, ws.drop_last());
    }
}

/// A predicate that excludes every file of every pool forces the total
/// effective weight to zero — so selection over those pools must fail with
/// `NoEligibleBucket` (see `select_from_pools`), and a bucket with effective
/// weight zero is never drawn.
pub proof fn lemma_all_excluded_no_weight(pools: Seq<Pool>, predicate: Predicate)
    requires
        forall|i: int, j: int|
            0 <= i < pools.len() && 0 <= j < pools[i].files@.len() ==> !predicate.spec_allows(
                (#[trigger] pools[i].files@[j])@,
            ),
    ensures
        spec_total_eff(pools, predicate) == 0,
    decreases pools.len(),
{
    if pools.len() > 0 {
        assert forall|i: int, j: int|
            0 <= i < pools.drop_last().len() && 0 <= j
                < pools.drop_last()[i].files@.len() implies !predicate.spec_allows(
            (#[trigger] pools.drop_last()[i].files@[j])@,
        ) by {
            assert(pools.drop_last()[i] == pools[i]);
        }
        lemma_all_excluded_no_weight(pools.drop_last(), predicate);
        let last = pools.last();
        assert(!last.spec_has_allowed(predicate)) by {
            assert forall|j: int| 0 <= j < last.files@.len() implies !predicate.spec_allows(
                (#[trigger] last.files@[j])@,
            ) by {
                assert(pools[pools.len() - 1].files@[j] == last.files@[j]);
            }
        }
    }
}

/// The two-stage draw over a fixed snapshot: fails with `NoEligibleBucket`
/// exactly when the total effective weight is zero, and otherwise returns a
/// file of a pool whose effective weight is positive, allowed by the
/// predicate.
pub fn select_from_pools(pools: &Vec<Pool>, predicate: &Predicate) -> (r: Result<
    Vec<u8>,
    SelectError,
>)
    requires
        forall|i: int| 0 <= i < pools@.len() ==> (#[trigger] pools@[i]).wf(),
        spec_sum(spec_pool_weights(pools@)) <= i64::MAX,
    ensures
        (r is Err) <==> spec_total_eff(pools@, *predicate) == 0,
        (r matches Err(e) ==> e == SelectError::NoEligibleBucket),
        (r matches Ok(p) ==> predicate.spec_allows(p@) && exists|i: int, j: int|
            0 <= i < pools@.len() && 0 <= j < pools@[i].files@.len() && (#[trigger] pools@[i].files@[j])@
                == p@ && pools@[i].spec_eff_weight(*predicate) > 0),
{
    let mut weights: Vec<i64> = Vec::new();
    let mut i: usize = 0;
    while i < pools.len()
        invariant
            i <= pools@.len(),
            forall|j: int| 0 <= j < pools@.len() ==> (#[trigger] pools@[j]).wf(),
            weights@.len() == i,
            forall|j: int| 0 <= j < i ==> weights@[j] == (#[trigger] pools@[j]).spec_eff_weight(
                *predicate,
            ),
        decreases pools@.len() - i,
    {
        let w = pools[i].eff_weight(predicate);
        weights.push(w);
        i += 1;
    }
    proof {
        assert forall|j: int| 0 <= j < weights@.len() implies 0 <= #[trigger] weights@[j]
            <= spec_pool_weights(pools@)[j] by {
            assert(weights@[j] == pools@[j].spec_eff_weight(*predicate));
        }
        lemma_sum_le(weights@, spec_pool_weights(pools@));
        lemma_total_eff_as_sum(pools@, *predicate, weights@);
    }
    let total = sum_weights(&weights);
    if total <= 0 {
        return Err(SelectError::NoEligibleBucket);
    }
    let rv = random_below(total as u64) as i64;
    let index = pick_index(&weights, rv);
    let chosen = &pools[index];
    assert(chosen.spec_eff_weight(*predicate) > 0);
    assert(chosen.spec_has_allowed(*predicate));
    let mut cands = filter_allowed_from(&chosen.files, predicate);
    let k = random_below(cands.len() as u64) as usize;
    let p = cands.remove(k);
    proof {
        let j = choose|j: int|
            0 <= j < chosen.files@.len() && (#[trigger] chosen.files@[j])@ == p@;
        assert(0 <= index < pools@.len() && 0 <= j < pools@[index as int].files@.len() && (
        pools@[index as int].files@[j])@ == p@ && pools@[index as int].spec_eff_weight(*predicate)
            > 0);
    }
    Ok(p)
}

} // verus!
