//! Buckets of time, and what it is for a series to hold one close per bucket.
//!
//! Buckets of a given length are laid out from the Unix epoch, before it as well as after it.

use crate::data::Sample;
use crate::time::representable_secs;
use vstd::prelude::*;

verus! {

/// The start of the bucket that a second lies in: the last multiple of the bucket's length that
/// is not after it.
pub open spec fn bucket_start(secs: int, step: int) -> int {
    secs / step * step
}

/// The start of the bucket that a sample lies in.
pub open spec fn bucket_of(sample: Sample, step: int) -> int {
    bucket_start(sample.ts.secs as int, step)
}

/// Whether a sample is the close of its bucket: none in the bucket is later, and of those at
/// the same instant it stands first in the series.
pub open spec fn is_close(samples: Seq<Sample>, step: int, k: int) -> bool {
    &&& 0 <= k < samples.len()
    &&& forall|j: int|
        0 <= j < samples.len() && bucket_of(#[trigger] samples[j], step) == bucket_of(
            samples[k],
            step,
        ) ==> if j < k {
            samples[j].ts.before(samples[k].ts)
        } else {
            !samples[k].ts.before(samples[j].ts)
        }
}

/// Whether a sample is the close of one of a series' buckets.
pub open spec fn is_a_close(samples: Seq<Sample>, step: int, sample: Sample) -> bool {
    exists|k: int| #[trigger] is_close(samples, step, k) && samples[k] == sample
}

/// Whether a series has a sample in a bucket.
pub open spec fn has_bucket(samples: Seq<Sample>, step: int, start: int) -> bool {
    exists|k: int| 0 <= k < samples.len() && bucket_of(#[trigger] samples[k], step) == start
}

/// Whether the samples of a series stand in strictly ascending buckets.
pub open spec fn ascending_buckets(samples: Seq<Sample>, step: int) -> bool {
    forall|i: int, j: int|
        0 <= i < j < samples.len() ==> bucket_of(#[trigger] samples[i], step) < bucket_of(
            #[trigger] samples[j],
            step,
        )
}

/// Whether `out` is `samples` resampled: the closes of all buckets that have a sample, in the
/// order of the buckets.
pub open spec fn is_resampled(samples: Seq<Sample>, step: int, out: Seq<Sample>) -> bool {
    &&& ascending_buckets(out, step)
    &&& forall|i: int| 0 <= i < out.len() ==> is_a_close(samples, step, #[trigger] out[i])
    &&& forall|k: int|
        0 <= k < samples.len() ==> has_bucket(out, step, bucket_of(#[trigger] samples[k], step))
}

/// Whether every sample lies in a bucket that starts at an instant.
pub open spec fn buckets_representable(samples: Seq<Sample>, step: int) -> bool {
    forall|k: int|
        0 <= k < samples.len() ==> representable_secs(bucket_of(#[trigger] samples[k], step))
}

/// A bucket starts at a multiple of its length, no later than any second in it, and less than its
/// length before it.
pub proof fn bucket_holds_second(secs: int, step: int)
    requires
        step > 0,
    ensures
        bucket_start(secs, step) <= secs < bucket_start(secs, step) + step,
        bucket_start(secs, step) % step == 0,
{
    vstd::arithmetic::div_mod::lemma_fundamental_div_mod(secs, step);
    vstd::arithmetic::div_mod::lemma_mod_bound(secs, step);
    vstd::arithmetic::mul::lemma_mul_is_commutative(step, secs / step);
    vstd::arithmetic::div_mod::lemma_mod_multiples_basic(secs / step, step);
}

/// A close stays one when a sample is added that lies in another bucket or is not later.
pub proof fn close_survives(samples: Seq<Sample>, step: int, k: int, added: Sample)
    requires
        is_close(samples, step, k),
        bucket_of(added, step) != bucket_of(samples[k], step) || !samples[k].ts.before(added.ts),
    ensures
        is_close(samples.push(added), step, k),
{
    let grown = samples.push(added);
    assert forall|j: int|
        0 <= j < grown.len() && bucket_of(#[trigger] grown[j], step) == bucket_of(
            grown[k],
            step,
        ) implies if j < k {
        grown[j].ts.before(grown[k].ts)
    } else {
        !grown[k].ts.before(grown[j].ts)
    } by {
        if j < samples.len() {
            assert(grown[j] == samples[j]);
        }
    }
}

/// A later sample of the same bucket takes the place of its close.
pub proof fn close_replaced(samples: Seq<Sample>, step: int, k: int, added: Sample)
    requires
        is_close(samples, step, k),
        bucket_of(added, step) == bucket_of(samples[k], step),
        samples[k].ts.before(added.ts),
    ensures
        is_close(samples.push(added), step, samples.len() as int),
{
    let grown = samples.push(added);
    assert forall|j: int|
        0 <= j < samples.len() && bucket_of(#[trigger] grown[j], step) == bucket_of(
            added,
            step,
        ) implies grown[j].ts.before(added.ts) by {
        assert(grown[j] == samples[j]);
    }
}

/// The first sample of a bucket is its close.
pub proof fn close_of_new_bucket(samples: Seq<Sample>, step: int, added: Sample)
    requires
        !has_bucket(samples, step, bucket_of(added, step)),
    ensures
        is_close(samples.push(added), step, samples.len() as int),
{
    let grown = samples.push(added);
    assert forall|j: int| 0 <= j < samples.len() implies bucket_of(#[trigger] grown[j], step)
        != bucket_of(added, step) by {
        assert(grown[j] == samples[j]);
    }
}

} // verus!
