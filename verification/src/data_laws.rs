//! What the rows of price files come to, and what resampling keeps, in terms of rows, samples and
//! whole numbers.

use crate::buckets::{bucket_holds_second, bucket_of, has_bucket, is_a_close, is_close};
use crate::data::{
    can_resample_to_n_hours, dated_sample, get_samples, get_samples_from_input_file,
    get_samples_from_kraken_ohlcvt, kraken_row_sample, price_row_sample, resample_to_close,
    resample_to_hourly, resample_to_n_hours, row_outcomes, rows_come_to_one_thing, CsvRows, CsvType,
    DataError, DataErrorView, KrakenOhlcvtRow, PriceRow, Sample,
};
use crate::resample_laws::resampled_is_unique;
use crate::time::{rfc3339_instant, ParseFailure, Timestamp, MAX_HOURS, MAX_SECS, MIN_SECS};
use vstd::prelude::*;

verus! {

/// The samples of a Kraken file are the closes of its rows, at their seconds, in order; the other
/// columns do not matter. The first row that could not be read, or whose second no instant has,
/// makes the error, and without such a row there is none.
pub proof fn kraken_samples_are_closes(
    rows: &Vec<Result<KrakenOhlcvtRow, String>>,
    r: Result<Vec<Sample>, DataError>,
)
    requires
        call_ensures(get_samples_from_kraken_ohlcvt, (rows,), r),
    ensures
        match r {
            Ok(samples) => {
                &&& samples@.len() == rows@.len()
                &&& forall|k: int|
                    0 <= k < rows@.len() ==> ((#[trigger] rows@[k]) matches Ok(row) && {
                        &&& samples@[k].price == row.close
                        &&& samples@[k].ts.secs == row.timestamp
                        &&& samples@[k].ts.nanos == 0
                        &&& MIN_SECS <= row.timestamp <= MAX_SECS
                    })
            },
            Err(error) => exists|k: int|
                0 <= k < rows@.len() && (forall|j: int|
                    0 <= j < k ==> ((#[trigger] rows@[j]) matches Ok(row) && MIN_SECS
                        <= row.timestamp <= MAX_SECS)) && match (#[trigger] rows@[k], error) {
                    (Err(cause), DataError::KrakenRow(told)) => told@ == cause@,
                    (Ok(row), DataError::UnixTimestamp(secs)) => secs == row.timestamp && !(MIN_SECS
                        <= row.timestamp <= MAX_SECS),
                    _ => false,
                },
        },
{
    let outcomes = rows@.map_values(|row: Result<KrakenOhlcvtRow, String>| kraken_row_sample(row));
    match r {
        Ok(samples) => {
            assert forall|k: int| 0 <= k < rows@.len() implies ((#[trigger] rows@[k]) matches Ok(
                row,
            ) && {
                &&& samples@[k].price == row.close
                &&& samples@[k].ts.secs == row.timestamp
                &&& samples@[k].ts.nanos == 0
                &&& MIN_SECS <= row.timestamp <= MAX_SECS
            }) by {
                assert(outcomes[k] == kraken_row_sample(rows@[k]));
            }
        },
        Err(error) => {
            let k = choose|k: int|
                {
                    &&& 0 <= k < outcomes.len()
                    &&& #[trigger] outcomes[k] == Err::<Sample, DataErrorView>(error@)
                    &&& forall|j: int| 0 <= j < k ==> (#[trigger] outcomes[j]) is Ok
                };
            assert(outcomes[k] == kraken_row_sample(rows@[k]));
            assert forall|j: int| 0 <= j < k implies ((#[trigger] rows@[j]) matches Ok(row)
                && MIN_SECS <= row.timestamp <= MAX_SECS) by {
                assert(outcomes[j] == kraken_row_sample(rows@[j]));
            }
        },
    }
}

/// Two Kraken files whose rows agree in their seconds and closes come to the same samples.
pub proof fn only_seconds_and_closes_matter(
    a: &Vec<Result<KrakenOhlcvtRow, String>>,
    b: &Vec<Result<KrakenOhlcvtRow, String>>,
    from_a: Result<Vec<Sample>, DataError>,
    from_b: Result<Vec<Sample>, DataError>,
)
    requires
        call_ensures(get_samples_from_kraken_ohlcvt, (a,), from_a),
        call_ensures(get_samples_from_kraken_ohlcvt, (b,), from_b),
        a@.len() == b@.len(),
        forall|k: int|
            #![trigger a@[k]]
            #![trigger b@[k]]
            0 <= k < a@.len() ==> (a@[k] matches Ok(x) && b@[k] matches Ok(y) && x.timestamp
                == y.timestamp && x.close == y.close),
    ensures
        from_a is Ok <==> from_b is Ok,
        from_a is Ok ==> from_a->Ok_0@ == from_b->Ok_0@,
{
    kraken_samples_are_closes(a, from_a);
    kraken_samples_are_closes(b, from_b);
    if from_a is Ok && from_b is Ok {
        let (v, w) = (from_a->Ok_0@, from_b->Ok_0@);
        assert forall|k: int| 0 <= k < v.len() implies v[k] == w[k] by {
            assert(a@[k] is Ok && b@[k] is Ok);
        }
        assert(v =~= w);
    }
}

/// The samples of a price log are the prices of its rows, at the instants that chrono reads in
/// their texts, in order. The first row that could not be read, or whose text is no instant, makes
/// the error, and without such a row there is none.
pub proof fn logged_samples_are_prices(
    rows: &Vec<Result<PriceRow, String>>,
    r: Result<Vec<Sample>, DataError>,
)
    requires
        call_ensures(get_samples_from_input_file, (rows,), r),
    ensures
        match r {
            Ok(samples) => {
                &&& samples@.len() == rows@.len()
                &&& forall|k: int|
                    0 <= k < rows@.len() ==> ((#[trigger] rows@[k]) matches Ok(row) && {
                        &&& samples@[k].price == row.price
                        &&& rfc3339_instant(row.timestamp@) == Ok::<(i64, u32), ParseFailure>(
                            (samples@[k].ts.secs, samples@[k].ts.nanos),
                        )
                    })
            },
            Err(error) => exists|k: int|
                0 <= k < rows@.len() && (forall|j: int|
                    0 <= j < k ==> ((#[trigger] rows@[j]) matches Ok(row) && rfc3339_instant(
                        row.timestamp@,
                    ) is Ok)) && match (#[trigger] rows@[k], error) {
                    (Err(cause), DataError::PriceRow(told)) => told@ == cause@,
                    (Ok(row), DataError::Timestamp(text, failure)) => {
                        &&& text@ == row.timestamp@
                        &&& rfc3339_instant(row.timestamp@) == Err::<(i64, u32), ParseFailure>(
                            failure,
                        )
                    },
                    _ => false,
                },
        },
{
    let outcomes = rows@.map_values(|row: Result<PriceRow, String>| price_row_sample(row));
    match r {
        Ok(samples) => {
            assert forall|k: int| 0 <= k < rows@.len() implies ((#[trigger] rows@[k]) matches Ok(
                row,
            ) && {
                &&& samples@[k].price == row.price
                &&& rfc3339_instant(row.timestamp@) == Ok::<(i64, u32), ParseFailure>(
                    (samples@[k].ts.secs, samples@[k].ts.nanos),
                )
            }) by {
                assert(outcomes[k] == price_row_sample(rows@[k]));
            }
        },
        Err(error) => {
            let k = choose|k: int|
                {
                    &&& 0 <= k < outcomes.len()
                    &&& #[trigger] outcomes[k] == Err::<Sample, DataErrorView>(error@)
                    &&& forall|j: int| 0 <= j < k ==> (#[trigger] outcomes[j]) is Ok
                };
            assert(outcomes[k] == price_row_sample(rows@[k]));
            assert forall|j: int| 0 <= j < k implies ((#[trigger] rows@[j]) matches Ok(row)
                && rfc3339_instant(row.timestamp@) is Ok) by {
                assert(outcomes[j] == price_row_sample(rows@[j]));
            }
        },
    }
}

/// A file that is read by its format comes to what it comes to when it is read as that format.
pub proof fn formats_are_read_as_such(
    rows: &CsvRows,
    r: Result<Vec<Sample>, DataError>,
    as_such: Result<Vec<Sample>, DataError>,
)
    requires
        call_ensures(get_samples, (rows,), r),
        match rows {
            CsvRows::CryptoLogger(log) => call_ensures(
                get_samples_from_input_file,
                (log,),
                as_such,
            ),
            CsvRows::KrakenOhlcvt(kraken) => call_ensures(
                get_samples_from_kraken_ohlcvt,
                (kraken,),
                as_such,
            ),
        },
    ensures
        match (r, as_such) {
            (Ok(a), Ok(b)) => a@ == b@,
            (Err(DataError::PriceRow(a)), Err(DataError::PriceRow(b))) => a@ == b@,
            (Err(DataError::KrakenRow(a)), Err(DataError::KrakenRow(b))) => a@ == b@,
            (Err(DataError::Timestamp(a, x)), Err(DataError::Timestamp(b, y))) => a@ == b@ && x
                == y,
            (Err(DataError::UnixTimestamp(a)), Err(DataError::UnixTimestamp(b))) => a == b,
            _ => false,
        },
{
    rows_come_to_one_thing(row_outcomes(*rows), r, as_such);
}

/// A row with its instant is its price at that instant. Without one, the error tells its text and
/// why it is no instant.
pub proof fn dated_rows_are_prices(
    row: &PriceRow,
    instant: Result<Timestamp, ParseFailure>,
    r: Result<Sample, DataError>,
)
    requires
        call_ensures(dated_sample, (row, instant), r),
    ensures
        r is Ok <==> instant is Ok,
        instant matches Ok(ts) ==> r->Ok_0.ts == ts && r->Ok_0.price == row.price,
        instant matches Err(why) ==> (r->Err_0 matches DataError::Timestamp(text, told) && text@
            == row.timestamp@ && told == why),
{
}

/// Price logs have a row of column names, and Kraken files have none.
pub proof fn only_logs_have_headers(log: bool, kraken: bool)
    requires
        call_ensures(CsvType::has_headers, (CsvType::CryptoLogger,), log),
        call_ensures(CsvType::has_headers, (CsvType::KrakenOhlcvt,), kraken),
    ensures
        log,
        !kraken,
{
}

/// Instants are ordered by their seconds, and within a second by their nanoseconds.
pub proof fn instants_are_in_order(a: Timestamp, b: Timestamp, r: bool)
    requires
        call_ensures(Timestamp::before, (a, b), r),
    ensures
        a.secs < b.secs ==> r,
        a.secs > b.secs ==> !r,
        a.secs == b.secs ==> r == (a.nanos < b.nanos),
{
}

proof fn bucket_and_quotient(a: int, b: int, step: int)
    requires
        step > 0,
    ensures
        a / step == b / step <==> a / step * step == b / step * step,
        a / step < b / step <==> a / step * step < b / step * step,
{
    let (p, q) = (a / step, b / step);
    assert((p == q <==> p * step == q * step) && (p < q <==> p * step < q * step))
        by (nonlinear_arith)
        requires
            step > 0,
    ;
}

/// What comes of resampling stands in the order of the buckets, one sample to each. A bucket is
/// told by the seconds divided by the step, rounded down.
pub proof fn buckets_come_out_in_order(
    samples: &[Sample],
    step: i64,
    out: Vec<Sample>,
    i: int,
    j: int,
)
    requires
        step > 0,
        call_ensures(resample_to_close, (samples, step), out),
        0 <= i < j < out@.len(),
    ensures
        out@[i].ts.secs as int / (step as int) < out@[j].ts.secs as int / (step as int),
{
    assert(bucket_of(out@[i], step as int) < bucket_of(out@[j], step as int));
    bucket_and_quotient(out@[i].ts.secs as int, out@[j].ts.secs as int, step as int);
}

/// For every sample of a series, one that shares its bucket comes out.
pub proof fn every_bucket_comes_out(samples: &[Sample], step: i64, out: Vec<Sample>, k: int) -> (i:
    int)
    requires
        step > 0,
        call_ensures(resample_to_close, (samples, step), out),
        0 <= k < samples@.len(),
    ensures
        0 <= i < out@.len(),
        out@[i].ts.secs as int / (step as int) == samples@[k].ts.secs as int / (step as int),
{
    let n = step as int;
    assert(has_bucket(out@, n, bucket_of(samples@[k], n)));
    let i = choose|i: int|
        0 <= i < out@.len() && bucket_of(#[trigger] out@[i], n) == bucket_of(samples@[k], n);
    bucket_and_quotient(out@[i].ts.secs as int, samples@[k].ts.secs as int, n);
    i
}

/// What comes out is a sample of the series, as it is. None that shares its bucket stands at a
/// later instant, and of those at the same instant it is the first in the series.
pub proof fn last_of_each_bucket_is_kept(samples: &[Sample], step: i64, out: Vec<Sample>, i: int)
    -> (k: int)
    requires
        step > 0,
        call_ensures(resample_to_close, (samples, step), out),
        0 <= i < out@.len(),
    ensures
        0 <= k < samples@.len(),
        out@[i] == samples@[k],
        forall|j: int|
            0 <= j < samples@.len() && (#[trigger] samples@[j]).ts.secs as int / (step as int)
                == samples@[k].ts.secs as int / (step as int) ==> {
                ||| samples@[j].ts.secs < samples@[k].ts.secs
                ||| samples@[j].ts.secs == samples@[k].ts.secs && samples@[j].ts.nanos
                    < samples@[k].ts.nanos
                ||| samples@[j].ts.secs == samples@[k].ts.secs && samples@[j].ts.nanos
                    == samples@[k].ts.nanos && k <= j
            },
{
    let n = step as int;
    assert(is_a_close(samples@, n, out@[i]));
    let k = choose|k: int| #[trigger] is_close(samples@, n, k) && samples@[k] == out@[i];
    assert forall|j: int|
        0 <= j < samples@.len() && (#[trigger] samples@[j]).ts.secs as int / (step as int)
            == samples@[k].ts.secs as int / (step as int) implies {
        ||| samples@[j].ts.secs < samples@[k].ts.secs
        ||| samples@[j].ts.secs == samples@[k].ts.secs && samples@[j].ts.nanos
            < samples@[k].ts.nanos
        ||| samples@[j].ts.secs == samples@[k].ts.secs && samples@[j].ts.nanos
            == samples@[k].ts.nanos && k <= j
    } by {
        bucket_and_quotient(samples@[j].ts.secs as int, samples@[k].ts.secs as int, n);
        assert(bucket_of(samples@[j], n) == bucket_of(samples@[k], n));
    }
    k
}

/// Resampling to some hours is resampling to as many times three thousand six hundred seconds.
pub proof fn hours_are_seconds(
    samples: &[Sample],
    hours: i64,
    step: i64,
    by_hours: Vec<Sample>,
    by_seconds: Vec<Sample>,
)
    requires
        step == hours * 3600,
        call_ensures(resample_to_n_hours, (samples, hours), by_hours),
        call_ensures(resample_to_close, (samples, step), by_seconds),
    ensures
        by_hours@ == by_seconds@,
{
    resampled_is_unique(samples@, step as int, by_hours@, by_seconds@);
}

/// Resampling to one close per hour is resampling to one hour.
pub proof fn hourly_is_by_one_hour(samples: &[Sample], hourly: Vec<Sample>, by_one: Vec<Sample>)
    requires
        call_ensures(resample_to_hourly, (samples,), hourly),
        call_ensures(resample_to_n_hours, (samples, 1i64), by_one),
    ensures
        hourly@ == by_one@,
{
    resampled_is_unique(samples@, 3600, hourly@, by_one@);
}

/// A series that can be resampled to some hours has, for each sample, a start of a bucket: a
/// multiple of that many hours, within the seconds that instants have, that is not after the
/// sample and less than that many hours before it. There is at least one hour, and a span of time
/// can have that many.
pub proof fn resampling_has_starts(samples: &[Sample], hours: i64, k: int) -> (start: int)
    requires
        call_ensures(can_resample_to_n_hours, (samples, hours), true),
        0 <= k < samples@.len(),
    ensures
        0 < hours <= MAX_HOURS,
        start % (hours * 3600) == 0,
        MIN_SECS <= start <= MAX_SECS,
        start <= samples@[k].ts.secs < start + hours * 3600,
{
    bucket_holds_second(samples@[k].ts.secs as int, hours * 3600);
    bucket_of(samples@[k], hours * 3600)
}

/// Where there is at least one hour, a span of time can have that many, and each sample has such
/// a start, the series can be resampled.
pub proof fn starts_are_enough(samples: &[Sample], hours: i64, starts: Seq<int>, r: bool)
    requires
        call_ensures(can_resample_to_n_hours, (samples, hours), r),
    ensures
        r ==> 0 < hours <= MAX_HOURS,
        0 < hours <= MAX_HOURS && starts.len() == samples@.len() && (forall|k: int|
            #![trigger samples@[k]]
            #![trigger starts[k]]
            0 <= k < starts.len() ==> {
                &&& starts[k] % (hours * 3600) == 0
                &&& MIN_SECS <= starts[k] <= MAX_SECS
                &&& starts[k] <= samples@[k].ts.secs < starts[k] + hours * 3600
            }) ==> r,
{
    if 0 < hours <= MAX_HOURS && starts.len() == samples@.len() && (forall|k: int|
        #![trigger samples@[k]]
        #![trigger starts[k]]
        0 <= k < starts.len() ==> {
            &&& starts[k] % (hours * 3600) == 0
            &&& MIN_SECS <= starts[k] <= MAX_SECS
            &&& starts[k] <= samples@[k].ts.secs < starts[k] + hours * 3600
        }) {
        let step = hours * 3600;
        assert forall|k: int| 0 <= k < samples@.len() implies bucket_of(
            #[trigger] samples@[k],
            step,
        ) == starts[k] by {
            let (secs, start) = (samples@[k].ts.secs as int, starts[k]);
            bucket_holds_second(secs, step);
            vstd::arithmetic::div_mod::lemma_fundamental_div_mod(start, step);
            let (p, q) = (start / step, secs / step);
            assert(p == q) by (nonlinear_arith)
                requires
                    start == step * p,
                    start <= secs < start + step,
                    q * step <= secs < q * step + step,
                    step > 0,
            ;
            assert(start == q * step) by (nonlinear_arith)
                requires
                    start == step * p,
                    p == q,
            ;
        }
    }
}

} // verus!
