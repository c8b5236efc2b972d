use chrono::{DateTime, TimeZone, Utc};
use trade_signal::data::{
    can_resample_to_n_hours, dated_sample, get_samples, get_samples_from_input_file,
    get_samples_from_kraken_ohlcvt, resample_to_close, resample_to_hourly, resample_to_n_hours,
    CsvRows, CsvType, DataError, KrakenOhlcvtRow, PriceRow, Sample,
};
use trade_signal::number::Number;
use trade_signal::time::{ParseFailure, Timestamp, MAX_HOURS, MAX_SECS, MIN_SECS};

fn num(x: f64) -> Number {
    Number { bits: x.to_bits() }
}

fn val(n: Number) -> f64 {
    f64::from_bits(n.bits)
}

fn instant(t: DateTime<Utc>) -> Timestamp {
    Timestamp {
        secs: t.timestamp(),
        nanos: t.timestamp_subsec_nanos(),
    }
}

fn sample(y: i32, m: u32, d: u32, h: u32, min: u32, s: u32, price: f64) -> Sample {
    let ts = Utc
        .with_ymd_and_hms(y, m, d, h, min, s)
        .single()
        .expect("valid datetime");
    Sample {
        ts: instant(ts),
        price: num(price),
    }
}

#[test]
fn test_resample_to_hourly_empty_input_returns_empty_vec() {
    let out = resample_to_hourly(&[]);
    assert!(out.is_empty());
}

#[test]
fn test_resample_to_hourly_single_sample_is_preserved() {
    let s = sample(2025, 11, 28, 10, 15, 0, 100.0);
    let out = resample_to_hourly(&[s.clone()]);

    assert_eq!(out.len(), 1);
    assert_eq!(out[0].ts, s.ts);
    assert_eq!(out[0].price, s.price);
}

#[test]
fn test_resample_to_hourly_multiple_samples_in_same_hour_keep_last_price_and_timestamp() {
    // All in the 10:00-10:59 hour
    let s1 = sample(2025, 11, 28, 10, 05, 00, 100.0);
    let s2 = sample(2025, 11, 28, 10, 30, 00, 101.0);
    let s3 = sample(2025, 11, 28, 10, 59, 59, 102.0);

    let samples = vec![s1, s2, s3.clone()];
    let out = resample_to_hourly(&samples);

    assert_eq!(out.len(), 1);
    assert_eq!(out[0].ts, s3.ts); // the last tick of that hour keeps its timestamp
    assert_eq!(val(out[0].price), 102.0); // close price
}

#[test]
fn test_resample_to_hourly_multiple_hours_keep_last_sample_per_hour_and_order_by_hour() {
    // Hour 10
    let h10_early = sample(2025, 11, 28, 10, 05, 00, 100.0);
    let h10_last = sample(2025, 11, 28, 10, 55, 00, 101.0);

    // Hour 11
    let h11_early = sample(2025, 11, 28, 11, 00, 00, 200.0);
    let h11_last = sample(2025, 11, 28, 11, 45, 00, 201.0);

    let samples = vec![h10_early, h10_last.clone(), h11_early, h11_last.clone()];
    let out = resample_to_hourly(&samples);

    assert_eq!(out.len(), 2);

    // First bucket: 10:00-10:59, last tick in that hour
    assert_eq!(out[0].ts, h10_last.ts);
    assert_eq!(val(out[0].price), 101.0);

    // Second bucket: 11:00-11:59, last tick in that hour
    assert_eq!(out[1].ts, h11_last.ts);
    assert_eq!(val(out[1].price), 201.0);
}

#[test]
fn test_resample_to_hourly_amples_exactly_on_hour_boundary_form_separate_buckets() {
    // 10:00:00 and 10:30 in same hour
    let h10_start = sample(2025, 11, 28, 10, 00, 00, 100.0);
    let h10_mid = sample(2025, 11, 28, 10, 30, 00, 101.0);

    // 11:00:00 - new (exact) hour, its own bucket
    let h11_start = sample(2025, 11, 28, 11, 00, 00, 200.0);

    let samples = vec![h10_start, h10_mid.clone(), h11_start.clone()];
    let out = resample_to_hourly(&samples);

    assert_eq!(out.len(), 2);

    // Hour 10: we should keep the last sample in that hour (10:30)
    assert_eq!(out[0].ts, h10_mid.ts);
    assert_eq!(val(out[0].price), 101.0);

    // Hour 11: only one sample, kept as-is
    assert_eq!(out[1].ts, h11_start.ts);
    assert_eq!(val(out[1].price), 200.0);
}

#[test]
fn test_resample_to_n_hours() {
    let s1 = sample(2025, 11, 28, 10, 05, 00, 100.0);
    let s2 = sample(2025, 11, 28, 10, 30, 00, 101.0);
    let s3 = sample(2025, 11, 28, 10, 59, 59, 103.0);
    let s4 = sample(2025, 11, 28, 11, 59, 59, 104.0);
    let s5 = sample(2025, 11, 28, 13, 59, 59, 102.0);
    let s6 = sample(2025, 11, 28, 15, 59, 59, 102.0);

    let samples = vec![s1, s2, s3, s4.clone(), s5, s6];
    let out = resample_to_n_hours(&samples, 2);

    assert_eq!(out.len(), 3);
    assert_eq!(out[0].ts, s4.ts); // the last tick of that hour keeps its timestamp
    assert_eq!(val(out[0].price), 104.0); // close price
}

fn kraken_rows(csv_type: CsvType, text: &str) -> CsvRows {
    let mut reader = csv::ReaderBuilder::new()
        .has_headers(csv_type.has_headers())
        .from_reader(text.as_bytes());
    let rows = reader
        .deserialize::<(i64, f64, f64, f64, f64, f64, u64)>()
        .map(|row| match row {
            Ok((timestamp, open, high, low, close, volume, trades)) => Ok(KrakenOhlcvtRow {
                timestamp,
                open: num(open),
                high: num(high),
                low: num(low),
                close: num(close),
                volume: num(volume),
                trades,
            }),
            Err(e) => Err(e.to_string()),
        })
        .collect();
    CsvRows::KrakenOhlcvt(rows)
}

#[test]
fn test_get_samples_from_kraken_ohlcvt() {
    let text = "1623942000,42.0,42.0,33.7,33.95,3293.36201464,214\n\
                1623945600,33.9,33.92,33.3,33.37,2438.65345165,193\n\
                1623949200,33.44,33.44,32.2,32.22,1586.84243114,142\n";
    let samples = get_samples(&kraken_rows(CsvType::KrakenOhlcvt, text)).unwrap();

    assert_eq!(samples.len(), 3);

    // First sample: timestamp 1623942000 = 2021-06-17 13:00:00 UTC, close = 33.95
    assert_eq!(samples[0].ts.secs, 1623942000);
    assert!((val(samples[0].price) - 33.95).abs() < 0.001);

    // Second sample: timestamp 1623945600, close = 33.37
    assert_eq!(samples[1].ts.secs, 1623945600);
    assert!((val(samples[1].price) - 33.37).abs() < 0.001);

    // Third sample: timestamp 1623949200, close = 32.22
    assert_eq!(samples[2].ts.secs, 1623949200);
    assert!((val(samples[2].price) - 32.22).abs() < 0.001);
}

fn kraken(timestamp: i64) -> KrakenOhlcvtRow {
    KrakenOhlcvtRow {
        timestamp,
        open: num(1.0),
        high: num(2.0),
        low: num(3.0),
        close: num(4.0),
        volume: num(5.0),
        trades: 6,
    }
}

#[test]
fn kraken_rows_come_to_their_close() {
    let rows = CsvRows::KrakenOhlcvt(vec![Ok(kraken(7)), Ok(kraken(-7))]);
    let samples = get_samples(&rows).unwrap();
    assert_eq!(samples[0].ts, Timestamp { secs: 7, nanos: 0 });
    assert_eq!(samples[1].ts, Timestamp { secs: -7, nanos: 0 });
    assert_eq!(val(samples[0].price), 4.0);
}

#[test]
fn unix_seconds_have_a_first_and_a_last() {
    let read = |secs: i64| get_samples(&CsvRows::KrakenOhlcvt(vec![Ok(kraken(secs))]));
    assert_eq!(read(MIN_SECS).unwrap()[0].ts.secs, MIN_SECS);
    assert_eq!(read(MAX_SECS).unwrap()[0].ts.secs, MAX_SECS);
    for secs in [MIN_SECS - 1, MAX_SECS + 1, i64::MIN, i64::MAX] {
        match read(secs) {
            Err(DataError::UnixTimestamp(bad)) => assert_eq!(bad, secs),
            _ => panic!("{secs} is no instant"),
        }
    }
    assert_eq!(DateTime::<Utc>::MIN_UTC.timestamp(), MIN_SECS);
    assert_eq!(DateTime::<Utc>::MAX_UTC.timestamp(), MAX_SECS);
}

fn price(text: &str, price: f64) -> PriceRow {
    PriceRow {
        timestamp: text.to_string(),
        price: num(price),
    }
}

#[test]
fn price_rows_come_to_samples() {
    let rows = CsvRows::CryptoLogger(vec![
        Ok(price("2025-11-28T10:15:00Z", 1.5)),
        Ok(price("2025-11-28T12:15:00.250+02:00", 2.5)),
    ]);
    let samples = get_samples(&rows).unwrap();
    assert_eq!(samples.len(), 2);
    assert_eq!(samples[0], sample(2025, 11, 28, 10, 15, 0, 1.5));
    assert_eq!(samples[1].ts.secs, samples[0].ts.secs);
    assert_eq!(samples[1].ts.nanos, 250_000_000);
    assert_eq!(val(samples[1].price), 2.5);
}

#[test]
fn texts_that_are_no_instants() {
    let failure = |text: &str| match get_samples(&CsvRows::CryptoLogger(vec![Ok(price(text, 1.0))])) {
        Err(DataError::Timestamp(bad, failure)) => {
            assert_eq!(bad, text);
            failure
        }
        _ => panic!("{text} is no instant"),
    };
    assert_eq!(failure(""), ParseFailure::TooShort);
    assert_eq!(failure("2025-13-28T10:15:00Z"), ParseFailure::OutOfRange);
    assert_eq!(failure("2025/11/28T10:15:00Z"), ParseFailure::Invalid);
    assert_eq!(failure("2025-11-28T10:15:00Zx"), ParseFailure::TooLong);
}

#[test]
fn the_first_bad_row_is_reported() {
    let rows = CsvRows::CryptoLogger(vec![
        Ok(price("2025-11-28T10:15:00Z", 1.0)),
        Err("field count".to_string()),
        Ok(price("no", 1.0)),
    ]);
    match get_samples(&rows) {
        Err(DataError::PriceRow(cause)) => assert_eq!(cause, "field count"),
        _ => panic!("the second row is bad"),
    }
    let rows = CsvRows::CryptoLogger(vec![Ok(price("no", 1.0)), Err("field count".to_string())]);
    match get_samples(&rows) {
        Err(DataError::Timestamp(text, _)) => assert_eq!(text, "no"),
        _ => panic!("the first row is bad"),
    }
    let rows = kraken_rows(CsvType::KrakenOhlcvt, "12,1,1,1,1,1,1\nx,1,1,1,1,1,1\n");
    assert!(matches!(get_samples(&rows), Err(DataError::KrakenRow(_))));
}

#[test]
fn a_dated_row_is_a_sample() {
    let row = price("whenever", 3.0);
    let ts = Timestamp { secs: 5, nanos: 6 };
    assert_eq!(
        dated_sample(&row, Ok(ts)).unwrap(),
        Sample {
            ts,
            price: num(3.0)
        }
    );
    match dated_sample(&row, Err(ParseFailure::Impossible)) {
        Err(DataError::Timestamp(text, ParseFailure::Impossible)) => assert_eq!(text, "whenever"),
        _ => panic!("there is no instant"),
    }
}

#[test]
fn only_price_logs_have_headers() {
    assert!(CsvType::CryptoLogger.has_headers());
    assert!(!CsvType::KrakenOhlcvt.has_headers());
}

fn tick(secs: i64, nanos: u32, price: f64) -> Sample {
    Sample {
        ts: Timestamp { secs, nanos },
        price: num(price),
    }
}

#[test]
fn buckets_reach_back_before_the_epoch() {
    let samples = vec![tick(-1, 0, 1.0), tick(0, 0, 2.0), tick(-3600, 0, 3.0), tick(-3601, 0, 4.0)];
    let out = resample_to_hourly(&samples);
    let prices: Vec<f64> = out.iter().map(|s| val(s.price)).collect();
    assert_eq!(prices, vec![4.0, 1.0, 2.0]);
}

#[test]
fn the_first_of_equal_instants_is_kept() {
    let samples = vec![tick(10, 5, 1.0), tick(10, 5, 2.0), tick(10, 4, 3.0)];
    let out = resample_to_hourly(&samples);
    assert_eq!(out, vec![tick(10, 5, 1.0)]);
}

#[test]
fn nanoseconds_decide_within_a_second() {
    let samples = vec![tick(10, 5, 1.0), tick(10, 1_500_000_000, 2.0), tick(10, 4, 3.0)];
    assert_eq!(resample_to_hourly(&samples), vec![tick(10, 1_500_000_000, 2.0)]);
}

#[test]
fn order_does_not_matter_for_distinct_instants() {
    let mut samples: Vec<Sample> = (0..50).map(|i| tick(i * 977, 0, i as f64)).collect();
    let out = resample_to_n_hours(&samples, 3);
    samples.reverse();
    assert_eq!(resample_to_n_hours(&samples, 3), out);
    assert!(out.windows(2).all(|w| w[0].ts.secs < w[1].ts.secs));
    assert!(out.iter().all(|s| samples.contains(s)));
}

#[test]
fn resampling_twice_changes_nothing() {
    let samples: Vec<Sample> = (0..50).map(|i| tick((i * 7919) % 90_000, 0, i as f64)).collect();
    let out = resample_to_n_hours(&samples, 2);
    assert_eq!(resample_to_n_hours(&out, 2), out);
}

#[test]
fn coarser_buckets_may_be_reached_in_steps() {
    let samples: Vec<Sample> = (0..80)
        .map(|i| tick((i * 7919) % 200_000 - 100_000, 0, i as f64))
        .collect();
    let at_once = resample_to_n_hours(&samples, 12);
    let in_steps = resample_to_n_hours(&resample_to_n_hours(&resample_to_hourly(&samples), 4), 12);
    assert_eq!(in_steps, at_once);
}

#[test]
fn which_series_can_be_resampled() {
    let first = vec![tick(MIN_SECS, 0, 1.0)];
    assert!(can_resample_to_n_hours(&first, 1));
    assert!(can_resample_to_n_hours(&first, 24));
    assert!(!can_resample_to_n_hours(&first, 5));
    assert!(!can_resample_to_n_hours(&first, 0));
    assert!(!can_resample_to_n_hours(&[], -1));
    assert!(can_resample_to_n_hours(&[], 1));
    let recent = vec![tick(1_700_000_000, 0, 1.0)];
    assert!(can_resample_to_n_hours(&recent, MAX_HOURS));
    assert!(!can_resample_to_n_hours(&recent, MAX_HOURS + 1));
    let old = vec![tick(-1, 0, 1.0)];
    assert!(!can_resample_to_n_hours(&old, MAX_HOURS));
    assert_eq!(resample_to_n_hours(&recent, MAX_HOURS), recent);
    assert_eq!(resample_to_hourly(&first), first);
    let nowhere = vec![tick(i64::MIN, 0, 1.0)];
    assert!(!can_resample_to_n_hours(&nowhere, 7));
    assert_eq!(chrono::TimeDelta::try_hours(MAX_HOURS + 1), None);
    assert!(chrono::TimeDelta::try_hours(MAX_HOURS).is_some());
}

#[test]
fn instants_are_ordered_as_datetimes_are() {
    let texts = [
        "1969-12-31T23:59:59.999999999Z",
        "1970-01-01T00:00:00Z",
        "2016-12-31T23:59:59.999Z",
        "2016-12-31T23:59:60.5Z",
        "2017-01-01T00:00:00Z",
        "0000-01-01T00:00:00Z",
        "9999-12-31T23:59:59Z",
    ];
    let times: Vec<DateTime<Utc>> = texts
        .iter()
        .map(|t| DateTime::parse_from_rfc3339(t).unwrap().with_timezone(&Utc))
        .collect();
    for a in &times {
        for b in &times {
            assert_eq!(instant(*a).before(instant(*b)), a < b);
        }
    }
}

#[test]
fn each_format_is_read_as_such() {
    let log = || vec![Ok(price("2025-11-28T10:15:00Z", 7.0)), Ok(price("later", 8.0))];
    assert_eq!(
        format!("{:?}", get_samples(&CsvRows::CryptoLogger(log()))),
        format!("{:?}", get_samples_from_input_file(&log()))
    );
    let rows = || vec![Ok(kraken(1623942000)), Ok(kraken(1623945600))];
    assert_eq!(
        get_samples(&CsvRows::KrakenOhlcvt(rows())).unwrap(),
        get_samples_from_kraken_ohlcvt(&rows()).unwrap()
    );
}

#[test]
fn buckets_may_have_any_number_of_seconds() {
    let ticks = [tick(0, 0, 1.0), tick(6, 0, 2.0), tick(7, 0, 3.0), tick(20, 0, 4.0)];
    let turned = [ticks[3], ticks[1], ticks[0], ticks[2]];
    let expected = vec![ticks[1], ticks[2], ticks[3]];
    assert_eq!(resample_to_close(&ticks, 7), expected);
    assert_eq!(resample_to_close(&turned, 7), expected);
}
