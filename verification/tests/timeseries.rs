use timeseries::Duration;
use timeseries::Epoch;
use timeseries::TimeSeries;

const NANOS_PER_SECOND: i64 = 1_000_000_000;
const NANOS_PER_HOUR: i64 = 3_600 * NANOS_PER_SECOND;

// 2017-01-14T00:00:00 UTC, as nanoseconds from 1970-01-01T00:00:00 UTC.
const JAN_14_2017_MIDNIGHT: i64 = 1_484_352_000 * NANOS_PER_SECOND;

// 2022-07-14T02:56:11.228271007 UTC, as nanoseconds from 1970-01-01T00:00:00 UTC.
const JUL_14_2022_025611_228271007: i64 = 1_657_767_371_228_271_007;

#[test]
fn test_timeseries() {
    let start = Epoch::from_nanoseconds(JAN_14_2017_MIDNIGHT);
    let end = Epoch::from_nanoseconds(JAN_14_2017_MIDNIGHT + 12 * NANOS_PER_HOUR);
    let step = Duration::from_nanoseconds(2 * NANOS_PER_HOUR);

    let mut count: i64 = 0;
    let mut time_series = TimeSeries::exclusive(start, end, step);
    while let Some(epoch) = time_series.next() {
        if count == 0 {
            assert_eq!(
                epoch, start,
                "Starting epoch of exclusive time series is wrong"
            );
        } else if count == 5 {
            assert_ne!(epoch, end, "Ending epoch of exclusive time series is wrong");
        }
        count += 1;
    }

    assert_eq!(count, 6, "Should have five items in this iterator");

    count = 0;
    let mut time_series = TimeSeries::inclusive(start, end, step);
    while let Some(epoch) = time_series.next() {
        if count == 0 {
            assert_eq!(
                epoch, start,
                "Starting epoch of inclusive time series is wrong"
            );
        } else if count == 6 {
            assert_eq!(epoch, end, "Ending epoch of inclusive time series is wrong");
        }
        count += 1;
    }

    assert_eq!(count, 7, "Should have six items in this iterator");
}

#[test]
fn gh131_regression() {
    let start = Epoch::from_nanoseconds(JUL_14_2022_025611_228271007);
    // 0.5 microseconds
    let step = Duration::from_nanoseconds(500);
    let steps: i64 = 1_000_000_000;
    // This is 500 ms later
    let end = Epoch::from_nanoseconds(JUL_14_2022_025611_228271007 + steps * 500);
    let times = TimeSeries::exclusive(start, end, step);
    // For an _exclusive_ time series, we skip the last item, so it's steps minus one
    assert_eq!(times.len(), steps as usize - 1);
    assert_eq!(times.len(), times.size_hint().0);

    let times = TimeSeries::inclusive(start, end, step);
    // For an _inclusive_ time series, we keep the last item, so it's the steps count
    assert_eq!(times.len(), steps as usize);
    assert_eq!(times.len(), times.size_hint().0);
}

#[test]
fn exclusive_starts_at_start_and_skips_end() {
    let start = Epoch::from_nanoseconds(100);
    let end = Epoch::from_nanoseconds(130);
    let step = Duration::from_nanoseconds(10);
    let mut series = TimeSeries::exclusive(start, end, step);
    let mut produced: Vec<Epoch> = Vec::new();
    while let Some(epoch) = series.next() {
        produced.push(epoch);
    }
    assert_eq!(produced.len(), 3);
    assert_eq!(produced[0], start);
    for epoch in &produced {
        assert_ne!(*epoch, end);
        assert!(epoch.to_nanoseconds() < end.to_nanoseconds());
    }
}

#[test]
fn inclusive_reaches_exact_end() {
    let start = Epoch::from_nanoseconds(100);
    // end == start + 3 * step exactly
    let end = Epoch::from_nanoseconds(130);
    let step = Duration::from_nanoseconds(10);
    let mut series = TimeSeries::inclusive(start, end, step);
    let mut last: Option<Epoch> = None;
    let mut count: i64 = 0;
    while let Some(epoch) = series.next() {
        last = Some(epoch);
        count += 1;
    }
    assert_eq!(count, 4);
    assert_eq!(last, Some(end));
}

#[test]
fn consecutive_elements_differ_by_step() {
    let start = Epoch::from_nanoseconds(-50);
    let end = Epoch::from_nanoseconds(23);
    let step = Duration::from_nanoseconds(7);
    let mut series = TimeSeries::inclusive(start, end, step);
    let mut prev: Option<Epoch> = None;
    while let Some(epoch) = series.next() {
        if let Some(p) = prev {
            assert_eq!(
                epoch.to_nanoseconds() - p.to_nanoseconds(),
                step.to_nanoseconds()
            );
        }
        prev = Some(epoch);
    }
}

#[test]
fn len_agreement_inclusive_off_grid() {
    // end is not an exact step multiple beyond start: 23 = 3 * 7 + 2
    let start = Epoch::from_nanoseconds(0);
    let end = Epoch::from_nanoseconds(23);
    let step = Duration::from_nanoseconds(7);

    let series = TimeSeries::inclusive(start, end, step);
    let reported = series.len();
    let mut walked = series;
    let mut count: usize = 0;
    while let Some(_epoch) = walked.next() {
        count += 1;
    }
    // Off the grid, the inclusive report equals the traversal count.
    assert_eq!(count, 4);
    assert_eq!(reported, 4);

    let series = TimeSeries::exclusive(start, end, step);
    let reported = series.len();
    let mut walked = series;
    count = 0;
    while let Some(_epoch) = walked.next() {
        count += 1;
    }
    // The exclusive report is one below the traversal count on any
    // non-empty range.
    assert_eq!(count, 4);
    assert_eq!(reported, 3);
}

#[test]
fn size_hint_is_len_and_len_plus_one() {
    let start = Epoch::from_nanoseconds(0);
    let end = Epoch::from_nanoseconds(1_000);
    let step = Duration::from_nanoseconds(30);
    for incl in [false, true] {
        let series = if incl {
            TimeSeries::inclusive(start, end, step)
        } else {
            TimeSeries::exclusive(start, end, step)
        };
        let (lo, hi) = series.size_hint();
        assert_eq!(lo, series.len());
        assert_eq!(hi, Some(series.len() + 1));
    }
}

#[test]
fn backward_never_below_start() {
    let start = Epoch::from_nanoseconds(0);
    let end = Epoch::from_nanoseconds(10);
    let step = Duration::from_nanoseconds(2);
    let mut series = TimeSeries::exclusive(start, end, step);

    // A fresh cursor sits one step before start: nothing lies behind it.
    assert_eq!(series.next_back(), None);

    assert_eq!(series.next(), Some(Epoch::from_nanoseconds(0)));
    assert_eq!(series.next(), Some(Epoch::from_nanoseconds(2)));

    // One step below the cursor, and never below start.
    let behind = series.next_back();
    assert_eq!(behind, Some(Epoch::from_nanoseconds(0)));
    assert!(behind.unwrap().to_nanoseconds() >= start.to_nanoseconds());

    // The backward walk does not move the forward cursor.
    assert_eq!(series.next(), Some(Epoch::from_nanoseconds(4)));
}

#[test]
fn empty_and_degenerate_ranges() {
    let step = Duration::from_nanoseconds(5);

    // start == end: exclusive yields nothing, inclusive yields start itself.
    let at = Epoch::from_nanoseconds(40);
    let mut series = TimeSeries::exclusive(at, at, step);
    assert_eq!(series.next(), None);
    assert_eq!(series.len(), 0);
    let mut series = TimeSeries::inclusive(at, at, step);
    assert_eq!(series.next(), Some(at));
    assert_eq!(series.next(), None);
    assert_eq!(series.len(), 0);

    // end below start: the walk yields nothing, while the report mirrors the
    // distance as a magnitude.
    let start = Epoch::from_nanoseconds(40);
    let end = Epoch::from_nanoseconds(20);
    let mut series = TimeSeries::exclusive(start, end, step);
    assert_eq!(series.next(), None);
    assert_eq!(series.len(), 3);
    let mut series = TimeSeries::inclusive(start, end, step);
    assert_eq!(series.next(), None);
    assert_eq!(series.len(), 4);
}

#[test]
fn exhaustion_is_stable() {
    let start = Epoch::from_nanoseconds(0);
    let end = Epoch::from_nanoseconds(3);
    let step = Duration::from_nanoseconds(2);
    let mut series = TimeSeries::inclusive(start, end, step);
    assert_eq!(series.next(), Some(Epoch::from_nanoseconds(0)));
    assert_eq!(series.next(), Some(Epoch::from_nanoseconds(2)));
    assert_eq!(series.next(), None);
    assert_eq!(series.next(), None);
    assert_eq!(series.next(), None);
}

#[test]
fn len_on_exact_grid() {
    // end == start + 6 * step exactly
    let start = Epoch::from_nanoseconds(0);
    let end = Epoch::from_nanoseconds(12);
    let step = Duration::from_nanoseconds(2);

    // The reports count whole steps: six to reach end, one fewer claimed in
    // exclusive mode.
    assert_eq!(TimeSeries::inclusive(start, end, step).len(), 6);
    assert_eq!(TimeSeries::exclusive(start, end, step).len(), 5);

    // The walks themselves yield seven and six instants.
    let mut count: usize = 0;
    let mut series = TimeSeries::inclusive(start, end, step);
    while let Some(_epoch) = series.next() {
        count += 1;
    }
    assert_eq!(count, 7);
    count = 0;
    let mut series = TimeSeries::exclusive(start, end, step);
    while let Some(_epoch) = series.next() {
        count += 1;
    }
    assert_eq!(count, 6);
}

#[test]
fn nanosecond_roundtrip() {
    let epoch = Epoch::from_nanoseconds(-123_456_789);
    assert_eq!(epoch.to_nanoseconds(), -123_456_789);
    let span = Duration::from_nanoseconds(864_000_000_000_000);
    assert_eq!(span.to_nanoseconds(), 864_000_000_000_000);
}
