//! What holds of every resampled series.

use crate::buckets::{
    bucket_holds_second, bucket_of, bucket_start, buckets_representable, has_bucket, is_a_close,
    is_close, is_resampled,
};
use crate::data::{valid_samples, Sample};
use crate::time::{representable_secs, MIN_SECS};
use vstd::arithmetic::div_mod::{
    lemma_div_is_ordered, lemma_div_multiples_vanish_fancy, lemma_fundamental_div_mod,
    lemma_mod_bound,
};
use vstd::arithmetic::mul::{lemma_mul_equality_converse, lemma_mul_inequality};
use vstd::prelude::*;

verus! {

/// A later bucket holds later seconds.
pub proof fn later_bucket_is_later(a: int, b: int, step: int)
    requires
        step > 0,
        bucket_start(a, step) < bucket_start(b, step),
    ensures
        a < b,
{
    if b <= a {
        lemma_div_is_ordered(b, a, step);
        lemma_mul_inequality(b / step, a / step, step);
    }
}

/// Seconds that share a bucket share every bucket that is a whole number of times as long.
pub proof fn coarser_bucket_is_shared(a: int, b: int, step: int, times: int)
    requires
        step > 0,
        times > 0,
        bucket_start(a, step) == bucket_start(b, step),
    ensures
        bucket_start(a, step * times) == bucket_start(b, step * times),
{
    vstd::arithmetic::mul::lemma_mul_is_commutative(a / step, step);
    vstd::arithmetic::mul::lemma_mul_is_commutative(b / step, step);
    lemma_mul_equality_converse(step, a / step, b / step);
    quotient_in_steps(a, step, times);
    quotient_in_steps(b, step, times);
}

/// Dividing in two steps gives what dividing at once gives, for negative integers too.
proof fn quotient_in_steps(a: int, step: int, times: int)
    requires
        step > 0,
        times > 0,
    ensures
        a / (step * times) == (a / step) / times,
{
    let q = a / step;
    lemma_fundamental_div_mod(a, step);
    lemma_fundamental_div_mod(q, times);
    lemma_mod_bound(a, step);
    lemma_mod_bound(q, times);
    let rest = step * (q % times) + a % step;
    assert(0 <= rest < step * times && a == (step * times) * (q / times) + rest && step * times > 0)
        by (nonlinear_arith)
        requires
            step > 0,
            times > 0,
            a == step * q + a % step,
            q == times * (q / times) + q % times,
            0 <= a % step < step,
            0 <= q % times < times,
            rest == step * (q % times) + a % step,
    ;
    lemma_div_multiples_vanish_fancy(q / times, rest, step * times);
}

/// A bucket has one close.
proof fn one_close_per_bucket(samples: Seq<Sample>, step: int, x: Sample, y: Sample)
    requires
        is_a_close(samples, step, x),
        is_a_close(samples, step, y),
        bucket_of(x, step) == bucket_of(y, step),
    ensures
        x == y,
{
    let k = choose|k: int| #[trigger] is_close(samples, step, k) && samples[k] == x;
    let l = choose|l: int| #[trigger] is_close(samples, step, l) && samples[l] == y;
    assert(samples[k].ts.before(samples[l].ts) || !samples[k].ts.before(samples[l].ts));
}

proof fn resampled_agree_at(samples: Seq<Sample>, step: int, a: Seq<Sample>, b: Seq<Sample>, i: int)
    requires
        is_resampled(samples, step, a),
        is_resampled(samples, step, b),
        0 <= i < a.len(),
    ensures
        i < b.len(),
        a[i] == b[i],
    decreases i,
{
    assert forall|j: int| 0 <= j < i implies j < b.len() && a[j] == #[trigger] b[j] by {
        resampled_agree_at(samples, step, a, b, j);
    }
    let k = choose|k: int| #[trigger] is_close(samples, step, k) && samples[k] == a[i];
    assert(is_a_close(samples, step, a[i]));
    assert(has_bucket(b, step, bucket_of(samples[k], step)));
    let j = choose|j: int|
        0 <= j < b.len() && bucket_of(#[trigger] b[j], step) == bucket_of(a[i], step);
    if j < i {
        assert(a[j] == b[j]);
    } else {
        let l = choose|l: int| #[trigger] is_close(samples, step, l) && samples[l] == b[i];
        assert(is_a_close(samples, step, b[i]));
        assert(has_bucket(a, step, bucket_of(samples[l], step)));
        let m = choose|m: int|
            0 <= m < a.len() && bucket_of(#[trigger] a[m], step) == bucket_of(b[i], step);
        if m < i {
            assert(a[m] == b[m]);
        }
        one_close_per_bucket(samples, step, a[i], b[i]);
    }
}

/// A series has one resampling: two that are both its resampling are the same.
pub proof fn resampled_is_unique(samples: Seq<Sample>, step: int, a: Seq<Sample>, b: Seq<Sample>)
    requires
        is_resampled(samples, step, a),
        is_resampled(samples, step, b),
    ensures
        a == b,
{
    if a.len() > 0 {
        resampled_agree_at(samples, step, a, b, a.len() - 1);
    }
    if b.len() > 0 {
        resampled_agree_at(samples, step, b, a, b.len() - 1);
    }
    assert forall|i: int| 0 <= i < a.len() implies a[i] == b[i] by {
        resampled_agree_at(samples, step, a, b, i);
    }
    assert(a =~= b);
}

/// The samples that come out stand at strictly ascending seconds.
pub proof fn resampled_times_ascend(samples: Seq<Sample>, step: int, out: Seq<Sample>)
    requires
        step > 0,
        is_resampled(samples, step, out),
    ensures
        forall|i: int, j: int|
            0 <= i < j < out.len() ==> (#[trigger] out[i]).ts.secs < (#[trigger] out[j]).ts.secs,
{
    assert forall|i: int, j: int| 0 <= i < j < out.len() implies (#[trigger] out[i]).ts.secs < (
    #[trigger] out[j]).ts.secs by {
        later_bucket_is_later(out[i].ts.secs as int, out[j].ts.secs as int, step);
    }
}

/// Every sample that comes out is one that went in, and it is the last of its bucket: no sample
/// of the series that lies in its bucket is later.
pub proof fn resampled_keeps_the_last(samples: Seq<Sample>, step: int, out: Seq<Sample>)
    requires
        is_resampled(samples, step, out),
    ensures
        forall|i: int| 0 <= i < out.len() ==> samples.contains(#[trigger] out[i]),
        forall|i: int, k: int|
            0 <= i < out.len() && 0 <= k < samples.len() && bucket_of(samples[k], step)
                == bucket_of(out[i], step) ==> !(#[trigger] out[i]).ts.before(
                (#[trigger] samples[k]).ts,
            ),
{
    assert forall|i: int| 0 <= i < out.len() implies samples.contains(#[trigger] out[i]) by {
        assert(is_a_close(samples, step, out[i]));
    }
    assert forall|i: int, k: int|
        0 <= i < out.len() && 0 <= k < samples.len() && bucket_of(samples[k], step) == bucket_of(
            out[i],
            step,
        ) implies !(#[trigger] out[i]).ts.before((#[trigger] samples[k]).ts) by {
        assert(is_a_close(samples, step, out[i]));
    }
}

/// A resampled series is never longer than the series it was made from.
pub proof fn resampled_is_no_longer(samples: Seq<Sample>, step: int, out: Seq<Sample>)
    requires
        is_resampled(samples, step, out),
    ensures
        out.len() <= samples.len(),
{
    resampled_keeps_the_last(samples, step, out);
    assert(out.no_duplicates());
    assert(out.to_set().subset_of(samples.to_set()));
    out.unique_seq_to_set();
    vstd::seq_lib::seq_to_set_is_finite(samples);
    vstd::set_lib::lemma_len_subset(out.to_set(), samples.to_set());
    samples.lemma_cardinality_of_set();
}

/// Resampling a resampled series with the same buckets changes nothing.
pub proof fn resampling_is_idempotent(
    samples: Seq<Sample>,
    step: int,
    out: Seq<Sample>,
    again: Seq<Sample>,
)
    requires
        is_resampled(samples, step, out),
        is_resampled(out, step, again),
    ensures
        again == out,
{
    assert forall|i: int| 0 <= i < out.len() implies is_a_close(out, step, #[trigger] out[i]) by {
        assert(is_close(out, step, i));
    }
    assert(is_resampled(out, step, out));
    resampled_is_unique(out, step, out, again);
}

proof fn close_of_closes(
    samples: Seq<Sample>,
    step: int,
    times: int,
    coarse: int,
    fine: Seq<Sample>,
    x: Sample,
)
    requires
        step > 0,
        times > 0,
        coarse == step * times,
        is_resampled(samples, step, fine),
        is_a_close(fine, coarse, x),
    ensures
        is_a_close(samples, coarse, x),
{
    let k = choose|k: int| #[trigger] is_close(fine, coarse, k) && fine[k] == x;
    assert(is_a_close(samples, step, fine[k]));
    let q = choose|q: int| #[trigger] is_close(samples, step, q) && samples[q] == fine[k];
    assert forall|j: int|
        0 <= j < samples.len() && bucket_of(#[trigger] samples[j], coarse) == bucket_of(
            samples[q],
            coarse,
        ) implies if j < q {
        samples[j].ts.before(samples[q].ts)
    } else {
        !samples[q].ts.before(samples[j].ts)
    } by {
        assert(has_bucket(fine, step, bucket_of(samples[j], step)));
        let p = choose|p: int|
            0 <= p < fine.len() && bucket_of(#[trigger] fine[p], step) == bucket_of(
                samples[j],
                step,
            );
        coarser_bucket_is_shared(
            fine[p].ts.secs as int,
            samples[j].ts.secs as int,
            step,
            times,
        );
        assert(is_a_close(samples, step, fine[p]));
        if p > k {
            later_bucket_is_later(fine[k].ts.secs as int, fine[p].ts.secs as int, step);
        }
    }
    assert(is_close(samples, coarse, q));
}

proof fn bucket_of_closes(
    samples: Seq<Sample>,
    step: int,
    times: int,
    coarse: int,
    fine: Seq<Sample>,
    out: Seq<Sample>,
    k: int,
)
    requires
        step > 0,
        times > 0,
        coarse == step * times,
        is_resampled(samples, step, fine),
        is_resampled(fine, coarse, out),
        0 <= k < samples.len(),
    ensures
        has_bucket(out, coarse, bucket_of(samples[k], coarse)),
{
    assert(has_bucket(fine, step, bucket_of(samples[k], step)));
    let p = choose|p: int|
        0 <= p < fine.len() && bucket_of(#[trigger] fine[p], step) == bucket_of(samples[k], step);
    coarser_bucket_is_shared(fine[p].ts.secs as int, samples[k].ts.secs as int, step, times);
    assert(has_bucket(out, coarse, bucket_of(fine[p], coarse)));
}

/// Coarser buckets may be reached in steps: resampling first to buckets and then to buckets a
/// whole number of times as long gives what resampling to the long ones at once gives.
pub proof fn resampling_in_steps(
    samples: Seq<Sample>,
    step: int,
    times: int,
    fine: Seq<Sample>,
    in_steps: Seq<Sample>,
    at_once: Seq<Sample>,
)
    requires
        step > 0,
        times > 0,
        is_resampled(samples, step, fine),
        is_resampled(fine, step * times, in_steps),
        is_resampled(samples, step * times, at_once),
    ensures
        in_steps == at_once,
{
    in_steps_is_resampled(samples, step, times, step * times, fine, in_steps);
    resampled_is_unique(samples, step * times, in_steps, at_once);
}

proof fn in_steps_is_resampled(
    samples: Seq<Sample>,
    step: int,
    times: int,
    coarse: int,
    fine: Seq<Sample>,
    in_steps: Seq<Sample>,
)
    requires
        step > 0,
        times > 0,
        coarse == step * times,
        is_resampled(samples, step, fine),
        is_resampled(fine, coarse, in_steps),
    ensures
        is_resampled(samples, coarse, in_steps),
{
    assert forall|i: int| 0 <= i < in_steps.len() implies is_a_close(
        samples,
        coarse,
        #[trigger] in_steps[i],
    ) by {
        assert(is_a_close(fine, coarse, in_steps[i]));
        close_of_closes(samples, step, times, coarse, fine, in_steps[i]);
    }
    assert forall|k: int| 0 <= k < samples.len() implies has_bucket(
        in_steps,
        coarse,
        bucket_of(#[trigger] samples[k], coarse),
    ) by {
        bucket_of_closes(samples, step, times, coarse, fine, in_steps, k);
    }
}

/// Whether no two samples of a series stand at the same instant.
pub open spec fn distinct_instants(samples: Seq<Sample>) -> bool {
    forall|i: int, j: int|
        0 <= i < j < samples.len() ==> (#[trigger] samples[i]).ts != (#[trigger] samples[j]).ts
}

proof fn close_in_any_order(a: Seq<Sample>, b: Seq<Sample>, step: int, x: Sample)
    requires
        distinct_instants(b),
        a.to_set() == b.to_set(),
        is_a_close(a, step, x),
    ensures
        is_a_close(b, step, x),
{
    let k = choose|k: int| #[trigger] is_close(a, step, k) && a[k] == x;
    assert(a.to_set().contains(x));
    let l = choose|l: int| 0 <= l < b.len() && b[l] == x;
    assert forall|j: int|
        0 <= j < b.len() && bucket_of(#[trigger] b[j], step) == bucket_of(b[l], step) implies if j
        < l {
        b[j].ts.before(b[l].ts)
    } else {
        !b[l].ts.before(b[j].ts)
    } by {
        assert(b.to_set().contains(b[j]));
        assert(a.to_set().contains(b[j]));
        let i = choose|i: int| 0 <= i < a.len() && a[i] == b[j];
        assert(bucket_of(a[i], step) == bucket_of(a[k], step));
        if i < k {
            assert(a[i].ts.before(a[k].ts));
        } else {
            assert(!a[k].ts.before(a[i].ts));
        }
    }
    assert(is_close(b, step, l));
}

/// Where no two samples stand at the same instant, the order of a series does not matter.
pub proof fn resampling_ignores_order(
    a: Seq<Sample>,
    b: Seq<Sample>,
    step: int,
    from_a: Seq<Sample>,
    from_b: Seq<Sample>,
)
    requires
        distinct_instants(a),
        distinct_instants(b),
        a.to_set() == b.to_set(),
        is_resampled(a, step, from_a),
        is_resampled(b, step, from_b),
    ensures
        from_a == from_b,
{
    assert forall|i: int| 0 <= i < from_a.len() implies is_a_close(b, step, #[trigger] from_a[i]) by {
        assert(is_a_close(a, step, from_a[i]));
        close_in_any_order(a, b, step, from_a[i]);
    }
    assert forall|k: int| 0 <= k < b.len() implies has_bucket(
        from_a,
        step,
        bucket_of(#[trigger] b[k], step),
    ) by {
        assert(b.to_set().contains(b[k]));
        assert(a.to_set().contains(b[k]));
        let i = choose|i: int| 0 <= i < a.len() && a[i] == b[k];
        assert(has_bucket(from_a, step, bucket_of(a[i], step)));
    }
    resampled_is_unique(b, step, from_a, from_b);
}

/// Buckets that divide the day start at an instant for every valid sample.
pub proof fn day_dividing_buckets_are_representable(samples: Seq<Sample>, step: int, per_day: int)
    requires
        valid_samples(samples),
        step > 0,
        step * per_day == 86_400,
    ensures
        buckets_representable(samples, step),
{
    assert forall|k: int| 0 <= k < samples.len() implies representable_secs(
        bucket_of(#[trigger] samples[k], step),
    ) by {
        let secs = samples[k].ts.secs as int;
        assert(samples[k].ts.valid());
        bucket_holds_second(secs, step);
        let first = -96_465_292 * per_day;
        assert(MIN_SECS == first * step) by (nonlinear_arith)
            requires
                first == -96_465_292 * per_day,
                step * per_day == 86_400,
                MIN_SECS == -96_465_292 * 86_400,
        ;
        lemma_div_is_ordered(first * step, secs, step);
        vstd::arithmetic::mul::lemma_mul_is_commutative(first, step);
        vstd::arithmetic::div_mod::lemma_div_multiples_vanish(first, step);
        lemma_mul_inequality(first, secs / step, step);
    }
}

} // verus!
