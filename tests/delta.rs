use tuxsplit::delta::{compute_row_values, previous_reference, RowValues, BEST_SEGMENTS, PERSONAL_BEST};
use tuxsplit::rows::compute_row;
use tuxsplit::codec::TimeFormat;
use tuxsplit::run::{Segment, TimingMethod};

fn segments_with_pb(times: &[Option<u64>]) -> Vec<Segment> {
    let mut v = Vec::new();
    for (i, t) in times.iter().enumerate() {
        let mut s = Segment::new(format!("S{}", i));
        s.set_comparison_time(PERSONAL_BEST, TimingMethod::RealTime, *t);
        v.push(s);
    }
    v
}

#[test]
fn pb_delta_three_segments() {
    let segs = segments_with_pb(&[Some(10_000), Some(25_000), Some(40_000)]);
    let v = compute_row_values(&segs, 1, PERSONAL_BEST, TimingMethod::RealTime);
    assert_eq!(v.split_time, Some(25_000));
    assert_eq!(v.segment_delta, Some(15_000));
    let row = compute_row(&TimeFormat::millis(), &segs, 1, PERSONAL_BEST, TimingMethod::RealTime);
    assert_eq!(row.split_time, "0:00:25.000");
    assert_eq!(row.segment_time, "0:00:15.000");
    assert_eq!(row.name, "S1");
    assert_eq!(row.index, 1);
}

#[test]
fn skipped_segment_is_passed_over() {
    let segs = segments_with_pb(&[Some(10_000), None, Some(40_000)]);
    assert_eq!(previous_reference(&segs, 2, PERSONAL_BEST, TimingMethod::RealTime), 10_000);
    let v = compute_row_values(&segs, 2, PERSONAL_BEST, TimingMethod::RealTime);
    assert_eq!(v.segment_delta, Some(30_000));
}

#[test]
fn zero_time_is_passed_over_like_absent() {
    let segs = segments_with_pb(&[Some(10_000), Some(0), Some(40_000)]);
    let v = compute_row_values(&segs, 2, PERSONAL_BEST, TimingMethod::RealTime);
    assert_eq!(v.segment_delta, Some(30_000));
}

#[test]
fn first_row_delta_is_its_split() {
    let segs = segments_with_pb(&[Some(10_000), Some(25_000)]);
    let v = compute_row_values(&segs, 0, PERSONAL_BEST, TimingMethod::RealTime);
    assert_eq!(v.segment_delta, Some(10_000));
}

#[test]
fn absent_split_shows_empty() {
    let segs = segments_with_pb(&[Some(10_000), None]);
    let v = compute_row_values(&segs, 1, PERSONAL_BEST, TimingMethod::RealTime);
    assert_eq!(v.split_time, None);
    assert_eq!(v.segment_delta, None);
    let row = compute_row(&TimeFormat::millis(), &segs, 1, PERSONAL_BEST, TimingMethod::RealTime);
    assert_eq!(row.split_time, "");
    assert_eq!(row.segment_time, "");
}

#[test]
fn negative_delta_is_clamped() {
    let segs = segments_with_pb(&[Some(30_000), Some(20_000)]);
    let v = compute_row_values(&segs, 1, PERSONAL_BEST, TimingMethod::RealTime);
    assert_eq!(v.segment_delta, Some(0));
}

#[test]
fn other_method_is_not_read() {
    let segs = segments_with_pb(&[Some(10_000), Some(25_000)]);
    let v = compute_row_values(&segs, 1, PERSONAL_BEST, TimingMethod::GameTime);
    assert_eq!(v, RowValues { split_time: None, segment_delta: None, best_delta: 0 });
}

#[test]
fn best_delta_against_previous_gold() {
    let mut segs = segments_with_pb(&[Some(10_000), Some(25_000), Some(40_000)]);
    segs[0].set_comparison_time(BEST_SEGMENTS, TimingMethod::RealTime, Some(9_000));
    segs[1].set_comparison_time(BEST_SEGMENTS, TimingMethod::RealTime, None);
    segs[2].best_segment_time = segs[2].best_segment_time.with_timing_method(TimingMethod::RealTime, Some(14_500));
    let v = compute_row_values(&segs, 2, PERSONAL_BEST, TimingMethod::RealTime);
    assert_eq!(v.best_delta, 5_500);
    let row = compute_row(&TimeFormat::millis(), &segs, 2, PERSONAL_BEST, TimingMethod::RealTime);
    assert_eq!(row.best, "0:00:05.500");
    let first = compute_row_values(&segs, 0, PERSONAL_BEST, TimingMethod::RealTime);
    assert_eq!(first.best_delta, 0);
}

#[test]
fn comparison_lookup_first_entry() {
    let mut s = Segment::new("A".to_string());
    s.set_comparison_time("Personal Best", TimingMethod::GameTime, Some(5));
    s.set_comparison_time("Personal Best", TimingMethod::RealTime, Some(7));
    assert_eq!(s.comparisons.len(), 1);
    assert_eq!(s.comparison_timing_method("Personal Best", TimingMethod::GameTime), Some(5));
    assert_eq!(s.comparison_timing_method("Personal Best", TimingMethod::RealTime), Some(7));
    assert_eq!(s.comparison_timing_method("Latest Run", TimingMethod::RealTime), None);
}
