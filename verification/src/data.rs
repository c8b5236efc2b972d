//! Rows of price files, price samples, and resampling.

use crate::buckets::{
    bucket_holds_second, bucket_of, bucket_start, buckets_representable, close_of_new_bucket,
    close_replaced, close_survives, has_bucket, is_a_close, is_close, is_resampled,
};
use crate::number::Number;
use crate::resample_laws::day_dividing_buckets_are_representable;
use crate::time::{
    hours_in_seconds, parse_rfc3339, representable_secs, rfc3339_instant, unix_instant,
    ParseFailure, Timestamp, MAX_HOURS,
};
use std::collections::BTreeMap;
use vstd::prelude::*;

verus! {

/// A price at an instant.
#[derive(Clone, Copy, Debug, PartialEq, Eq, Structural)]
pub struct Sample {
    pub ts: Timestamp,
    pub price: Number,
}

/// The formats of price files.
#[derive(Clone, Copy, Debug, PartialEq, Eq, Structural)]
pub enum CsvType {
    CryptoLogger,
    KrakenOhlcvt,
}

/// A row of a price log: an instant in the form of RFC 3339, and a price.
#[derive(Debug)]
pub struct PriceRow {
    pub timestamp: String,
    pub price: Number,
}

/// Kraken OHLCVT row format: timestamp, open, high, low, close, volume, trades.
/// No header row in Kraken CSV files.
#[derive(Debug)]
pub struct KrakenOhlcvtRow {
    pub timestamp: i64,
    pub open: Number,
    pub high: Number,
    pub low: Number,
    pub close: Number,
    pub volume: Number,
    pub trades: u64,
}

/// The rows of a price file, in order; a row that could not be read is there with the cause.
#[derive(Debug)]
pub enum CsvRows {
    CryptoLogger(Vec<Result<PriceRow, String>>),
    KrakenOhlcvt(Vec<Result<KrakenOhlcvtRow, String>>),
}

/// Why a price file has no samples.
#[derive(Debug)]
pub enum DataError {
    /// A row of a price log could not be read, for this cause.
    PriceRow(String),
    /// A Kraken row could not be read, for this cause.
    KrakenRow(String),
    /// This text is not an instant, for this reason.
    Timestamp(String, ParseFailure),
    /// No instant has this second of Unix time.
    UnixTimestamp(i64),
}

/// A [`DataError`] with its texts as sequences of characters.
pub enum DataErrorView {
    PriceRow(Seq<char>),
    KrakenRow(Seq<char>),
    Timestamp(Seq<char>, ParseFailure),
    UnixTimestamp(i64),
}

impl View for DataError {
    type V = DataErrorView;

    open spec fn view(&self) -> DataErrorView {
        match *self {
            DataError::PriceRow(cause) => DataErrorView::PriceRow(cause@),
            DataError::KrakenRow(cause) => DataErrorView::KrakenRow(cause@),
            DataError::Timestamp(text, failure) => DataErrorView::Timestamp(text@, failure),
            DataError::UnixTimestamp(secs) => DataErrorView::UnixTimestamp(secs),
        }
    }
}

impl CsvType {
    /// Whether files of this format start with a row that names the columns.
    pub fn has_headers(self) -> (r: bool)
        ensures
            r == (self == CsvType::CryptoLogger),
    {
        match self {
            CsvType::CryptoLogger => true,
            CsvType::KrakenOhlcvt => false,
        }
    }
}

/// The sample, or the error, that a row of a price log comes to, given what its text comes to
/// as an instant.
pub open spec fn dated_row_sample(
    row: PriceRow,
    instant: Result<(i64, u32), ParseFailure>,
) -> Result<Sample, DataErrorView> {
    match instant {
        Ok((secs, nanos)) => Ok(Sample { ts: Timestamp { secs, nanos }, price: row.price }),
        Err(failure) => Err(DataErrorView::Timestamp(row.timestamp@, failure)),
    }
}

/// The sample, or the error, that a row of a price log comes to.
pub open spec fn price_row_sample(row: Result<PriceRow, String>) -> Result<Sample, DataErrorView> {
    match row {
        Ok(row) => dated_row_sample(row, rfc3339_instant(row.timestamp@)),
        Err(cause) => Err(DataErrorView::PriceRow(cause@)),
    }
}

/// The sample, or the error, that a Kraken row comes to: its close, at its second.
pub open spec fn kraken_row_sample(row: Result<KrakenOhlcvtRow, String>) -> Result<
    Sample,
    DataErrorView,
> {
    match row {
        Ok(row) => if representable_secs(row.timestamp as int) {
            Ok(Sample { ts: Timestamp { secs: row.timestamp, nanos: 0 }, price: row.close })
        } else {
            Err(DataErrorView::UnixTimestamp(row.timestamp))
        },
        Err(cause) => Err(DataErrorView::KrakenRow(cause@)),
    }
}

/// What each row of a file comes to.
pub open spec fn row_outcomes(rows: CsvRows) -> Seq<Result<Sample, DataErrorView>> {
    match rows {
        CsvRows::CryptoLogger(rows) => rows@.map_values(
            |row: Result<PriceRow, String>| price_row_sample(row),
        ),
        CsvRows::KrakenOhlcvt(rows) => rows@.map_values(
            |row: Result<KrakenOhlcvtRow, String>| kraken_row_sample(row),
        ),
    }
}

/// Whether a result is what rows come to together: all their samples, or the error of the first
/// row that has none.
pub open spec fn collects(
    outcomes: Seq<Result<Sample, DataErrorView>>,
    result: Result<Vec<Sample>, DataError>,
) -> bool {
    match result {
        Ok(samples) => {
            &&& samples@.len() == outcomes.len()
            &&& forall|k: int|
                0 <= k < outcomes.len() ==> #[trigger] outcomes[k] == Ok::<Sample, DataErrorView>(
                    samples@[k],
                )
        },
        Err(error) => exists|k: int|
            {
                &&& 0 <= k < outcomes.len()
                &&& #[trigger] outcomes[k] == Err::<Sample, DataErrorView>(error@)
                &&& forall|j: int| 0 <= j < k ==> (#[trigger] outcomes[j]) is Ok
            },
    }
}

/// Rows come to one thing together: to the same samples, or to the same error.
pub proof fn rows_come_to_one_thing(
    outcomes: Seq<Result<Sample, DataErrorView>>,
    a: Result<Vec<Sample>, DataError>,
    b: Result<Vec<Sample>, DataError>,
)
    requires
        collects(outcomes, a),
        collects(outcomes, b),
    ensures
        match (a, b) {
            (Ok(a), Ok(b)) => a@ == b@,
            (Err(a), Err(b)) => a@ == b@,
            _ => false,
        },
{
    match (a, b) {
        (Ok(a), Ok(b)) => {
            assert forall|k: int| 0 <= k < a@.len() implies a@[k] == b@[k] by {
                assert(outcomes[k] == Ok::<Sample, DataErrorView>(a@[k]));
            }
            assert(a@ =~= b@);
        },
        (Err(a), Err(b)) => {
            let i = choose|k: int|
                {
                    &&& 0 <= k < outcomes.len()
                    &&& #[trigger] outcomes[k] == Err::<Sample, DataErrorView>(a@)
                    &&& forall|j: int| 0 <= j < k ==> (#[trigger] outcomes[j]) is Ok
                };
            let k = choose|k: int|
                {
                    &&& 0 <= k < outcomes.len()
                    &&& #[trigger] outcomes[k] == Err::<Sample, DataErrorView>(b@)
                    &&& forall|j: int| 0 <= j < k ==> (#[trigger] outcomes[j]) is Ok
                };
            assert(i == k);
        },
        _ => {},
    }
}

/// Whether every sample of a series stands at a valid instant.
pub open spec fn valid_samples(samples: Seq<Sample>) -> bool {
    forall|k: int| 0 <= k < samples.len() ==> (#[trigger] samples[k]).ts.valid()
}

/// The instant at which the bucket that a second lies in starts, if there is one.
fn start_of_bucket(secs: i64, step_secs: i64) -> (start: Option<Timestamp>)
    requires
        step_secs > 0,
    ensures
        match start {
            Some(ts) => {
                &&& representable_secs(bucket_start(secs as int, step_secs as int))
                &&& ts.secs == bucket_start(secs as int, step_secs as int)
            },
            None => !representable_secs(bucket_start(secs as int, step_secs as int)),
        },
{
    proof {
        bucket_holds_second(secs as int, step_secs as int);
        assert(i64::MIN <= secs as int / step_secs as int <= i64::MAX) by (nonlinear_arith)
            requires
                step_secs > 0,
                i64::MIN <= secs <= i64::MAX,
        ;
    }
    let index: i64 = secs.checked_div_euclid(step_secs).unwrap();
    match index.checked_mul(step_secs) {
        Some(start) => unix_instant(start),
        None => None,
    }
}

/// What it is for a sequence of integers to be increasing.
proof fn increasing_starts(starts: Seq<i64>, i: int, j: int)
    requires
        vstd::std_specs::btree::increasing_seq(starts),
        0 <= i < j < starts.len(),
    ensures
        starts[i] < starts[j],
{
    assert(vstd::std_specs::cmp::OrdSpec::cmp_spec(&starts[i], &starts[j]) is Less);
}

/// Resample raw samples into buckets of a fixed number of seconds, keeping the *last* price
/// available in each bucket.
/// - Buckets are aligned to the Unix epoch (1970-01-01T00:00:00Z), so buckets of four hours
///   start at 00:00, 04:00, 08:00, ...
/// - The `ts` of a sample that comes out is the instant of the last observation in its bucket,
///   not the start of the bucket.
pub fn resample_to_close(samples: &[Sample], step_secs: i64) -> (out: Vec<Sample>)
    requires
        step_secs > 0,
        buckets_representable(samples@, step_secs as int),
    ensures
        is_resampled(samples@, step_secs as int, out@),
{
    let ghost step = step_secs as int;
    let mut buckets: BTreeMap<i64, Sample> = BTreeMap::new();

    for i in 0..samples.len()
        invariant
            step_secs > 0,
            step == step_secs,
            buckets_representable(samples@, step),
            forall|b: i64| #[trigger]
                buckets@.contains_key(b) ==> {
                    &&& is_a_close(samples@.take(i as int), step, buckets@[b])
                    &&& bucket_of(buckets@[b], step) == b
                },
            forall|k: int|
                0 <= k < i ==> buckets@.contains_key(bucket_of(#[trigger] samples@[k], step) as i64),
    {
        let sample = samples[i];
        let start: i64 = start_of_bucket(sample.ts.secs, step_secs).unwrap().secs;
        let ghost seen = samples@.take(i as int);
        let ghost before = buckets@;
        let keep = match buckets.get(&start) {
            Some(prev) => prev.ts.before(sample.ts),
            None => true,
        };
        if keep {
            buckets.insert(start, sample);
        }
        proof {
            assert(samples@.take(i + 1) =~= seen.push(sample));
            assert(start == bucket_of(sample, step));
            if before.contains_key(start) {
                let prev = before[start];
                let k = choose|k: int| #[trigger] is_close(seen, step, k) && seen[k] == prev;
                if keep {
                    close_replaced(seen, step, k, sample);
                } else {
                    close_survives(seen, step, k, sample);
                }
            } else {
                if has_bucket(seen, step, start as int) {
                    let k = choose|k: int|
                        0 <= k < seen.len() && bucket_of(#[trigger] seen[k], step) == start;
                    assert(seen[k] == samples@[k]);
                }
                close_of_new_bucket(seen, step, sample);
            }
            assert(seen.push(sample)[i as int] == sample);
            assert forall|b: i64| #[trigger] buckets@.contains_key(b) implies is_a_close(
                seen.push(sample),
                step,
                buckets@[b],
            ) && bucket_of(buckets@[b], step) == b by {
                if b != start {
                    let k = choose|k: int|
                        #[trigger] is_close(seen, step, k) && seen[k] == before[b];
                    close_survives(seen, step, k, sample);
                    assert(seen.push(sample)[k] == before[b]);
                }
            }
        }
    }

    assert(samples@.take(samples@.len() as int) =~= samples@);
    let ghost closes = buckets@;
    let values = buckets.values();
    let ghost starts = choose|starts: Seq<i64>|
        {
            &&& vstd::std_specs::btree::increasing_seq(starts)
            &&& starts.to_set() == closes.dom()
            &&& starts.no_duplicates()
            &&& vstd::std_specs::iter::IteratorSpec::remaining(&values) == starts.map(
                |i: int, b: i64| &closes[b],
            )
        };
    let ghost listed = vstd::std_specs::iter::IteratorSpec::remaining(&values);
    let mut out: Vec<Sample> = Vec::new();
    for sample in it: values
        invariant
            it.seq() == listed,
            out@.len() == it.index(),
            forall|i: int| 0 <= i < out@.len() ==> #[trigger] out@[i] == *listed[i],
    {
        out.push(*sample);
    }
    proof {
        assert forall|i: int| 0 <= i < out@.len() implies closes.contains_key(#[trigger] starts[i])
            && out@[i] == closes[starts[i]] by {
            assert(starts.to_set().contains(starts[i]));
        }
        assert forall|i: int, j: int| 0 <= i < j < out@.len() implies bucket_of(
            #[trigger] out@[i],
            step,
        ) < bucket_of(#[trigger] out@[j], step) by {
            increasing_starts(starts, i, j);
        }
        assert forall|k: int| 0 <= k < samples@.len() implies has_bucket(
            out@,
            step,
            bucket_of(#[trigger] samples@[k], step),
        ) by {
            let b = bucket_of(samples@[k], step) as i64;
            assert(representable_secs(bucket_of(samples@[k], step)));
            assert(starts.to_set().contains(b));
            let i = choose|i: int| 0 <= i < starts.len() && starts[i] == b;
            assert(out@[i] == closes[b]);
        }
    }
    out
}

/// Convenience wrapper for 1h / 2h / 4h / ...
pub fn resample_to_n_hours(samples: &[Sample], hours: i64) -> (out: Vec<Sample>)
    requires
        can_resample(samples@, hours as int),
    ensures
        is_resampled(samples@, hours * 3600, out@),
{
    resample_to_close(samples, hours_in_seconds(hours))
}

/// One close per hour.
pub fn resample_to_hourly(samples: &[Sample]) -> (out: Vec<Sample>)
    requires
        valid_samples(samples@),
    ensures
        is_resampled(samples@, 3600, out@),
{
    proof {
        day_dividing_buckets_are_representable(samples@, 3600, 24);
    }
    resample_to_n_hours(samples, 1)
}

/// Whether a series can be resampled to buckets of some hours: there is at least one hour, a
/// span of time can have that many, and every sample lies in a bucket that starts at an instant.
pub open spec fn can_resample(samples: Seq<Sample>, hours: int) -> bool {
    &&& 0 < hours <= MAX_HOURS
    &&& buckets_representable(samples, hours * 3600)
}

/// Whether a series can be resampled to buckets of some hours.
pub fn can_resample_to_n_hours(samples: &[Sample], hours: i64) -> (r: bool)
    ensures
        r == can_resample(samples@, hours as int),
{
    if hours <= 0 || hours > MAX_HOURS {
        return false;
    }
    let step: i64 = hours_in_seconds(hours);
    for i in 0..samples.len()
        invariant
            step == hours * 3600,
            0 < step,
            forall|k: int|
                0 <= k < i ==> representable_secs(bucket_of(#[trigger] samples@[k], step as int)),
    {
        if start_of_bucket(samples[i].ts.secs, step).is_none() {
            assert(!representable_secs(bucket_of(samples@[i as int], step as int)));
            return false;
        }
    }
    true
}

/// The sample that a row of a price log comes to, given what its text comes to as an instant.
pub fn dated_sample(row: &PriceRow, instant: Result<Timestamp, ParseFailure>) -> (r: Result<
    Sample,
    DataError,
>)
    ensures
        match (instant, r) {
            (Ok(ts), Ok(sample)) => sample == (Sample { ts, price: row.price }),
            (Err(failure), Err(error)) => error@ == DataErrorView::Timestamp(
                row.timestamp@,
                failure,
            ),
            _ => false,
        },
{
    match instant {
        Ok(ts) => Ok(Sample { ts, price: row.price }),
        Err(failure) => Err(DataError::Timestamp(row.timestamp.clone(), failure)),
    }
}

/// The samples of a price log.
pub fn get_samples_from_input_file(rows: &Vec<Result<PriceRow, String>>) -> (r: Result<
    Vec<Sample>,
    DataError,
>)
    ensures
        collects(rows@.map_values(|row: Result<PriceRow, String>| price_row_sample(row)), r),
        r matches Ok(samples) ==> valid_samples(samples@),
{
    let ghost outcomes = rows@.map_values(|row: Result<PriceRow, String>| price_row_sample(row));
    let mut samples: Vec<Sample> = Vec::new();
    for i in 0..rows.len()
        invariant
            outcomes == rows@.map_values(|row: Result<PriceRow, String>| price_row_sample(row)),
            samples@.len() == i,
            forall|k: int|
                0 <= k < i ==> #[trigger] outcomes[k] == Ok::<Sample, DataErrorView>(samples@[k]),
            valid_samples(samples@),
    {
        assert(outcomes[i as int] == price_row_sample(rows@[i as int]));
        match &rows[i] {
            Ok(row) => {
                match dated_sample(row, parse_rfc3339(row.timestamp.as_str())) {
                    Ok(sample) => samples.push(sample),
                    Err(error) => return Err(error),
                }
            },
            Err(cause) => return Err(DataError::PriceRow(cause.clone())),
        }
    }
    Ok(samples)
}

/// The samples of a Kraken file.
/// Kraken format: timestamp (unix), open, high, low, close, volume, trades.
/// Uses the close price as the sample price.
pub fn get_samples_from_kraken_ohlcvt(rows: &Vec<Result<KrakenOhlcvtRow, String>>) -> (r: Result<
    Vec<Sample>,
    DataError,
>)
    ensures
        collects(
            rows@.map_values(|row: Result<KrakenOhlcvtRow, String>| kraken_row_sample(row)),
            r,
        ),
        r matches Ok(samples) ==> valid_samples(samples@),
{
    let ghost outcomes = rows@.map_values(
        |row: Result<KrakenOhlcvtRow, String>| kraken_row_sample(row),
    );
    let mut samples: Vec<Sample> = Vec::new();
    for i in 0..rows.len()
        invariant
            outcomes == rows@.map_values(
                |row: Result<KrakenOhlcvtRow, String>| kraken_row_sample(row),
            ),
            samples@.len() == i,
            forall|k: int|
                0 <= k < i ==> #[trigger] outcomes[k] == Ok::<Sample, DataErrorView>(samples@[k]),
            valid_samples(samples@),
    {
        assert(outcomes[i as int] == kraken_row_sample(rows@[i as int]));
        match &rows[i] {
            Ok(row) => {
                match unix_instant(row.timestamp) {
                    Some(ts) => samples.push(Sample { ts, price: row.close }),
                    None => return Err(DataError::UnixTimestamp(row.timestamp)),
                }
            },
            Err(cause) => return Err(DataError::KrakenRow(cause.clone())),
        }
    }
    Ok(samples)
}

/// The samples of a price file: one for each of its rows, in order, or the error of the first
/// row that has none.
pub fn get_samples(rows: &CsvRows) -> (r: Result<Vec<Sample>, DataError>)
    ensures
        collects(row_outcomes(*rows), r),
        r matches Ok(samples) ==> valid_samples(samples@),
{
    match rows {
        CsvRows::CryptoLogger(rows) => get_samples_from_input_file(rows),
        CsvRows::KrakenOhlcvt(rows) => get_samples_from_kraken_ohlcvt(rows),
    }
}

} // verus!
