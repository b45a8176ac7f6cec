use tuxsplit::codec::ParseError;
use tuxsplit::delta::{compute_row_values, PERSONAL_BEST};
use tuxsplit::editor::{commit, EditorContext};
use tuxsplit::run::{Run, Segment, TimingMethod};

fn three_segment_run() -> Run {
    let mut run = Run::new("Game".to_string(), "Any%".to_string());
    for (i, t) in [10_000u64, 25_000, 40_000].iter().enumerate() {
        let mut s = Segment::new(format!("S{}", i));
        s.set_comparison_time(PERSONAL_BEST, TimingMethod::RealTime, Some(*t));
        run.push_segment(s);
    }
    run
}

fn pb(run: &Run, i: usize, m: TimingMethod) -> Option<u64> {
    run.segments[i].comparison_timing_method(PERSONAL_BEST, m)
}

#[test]
fn out_of_range_edit_is_noop() {
    let ctx = EditorContext::new();
    let mut stored = three_segment_run();
    let edit = ctx.set_segment_time_ms(&stored, 5, 1_000);
    assert!(edit.is_none());
    assert!(!commit(&mut stored, true, edit));
    assert_eq!(stored.segments.len(), 3);
    assert_eq!(stored.segments[2].split_time.real_time, None);
    assert!(ctx.set_split_time_ms(&stored, 3, 1).is_none());
    assert!(ctx.set_best_time_ms(&stored, 9, 1).is_none());
    assert!(ctx.set_segment_name(&stored, 3, "X".to_string()).is_none());
}

#[test]
fn contended_commit_leaves_run() {
    let ctx = EditorContext::new();
    let mut stored = three_segment_run();
    let edit = ctx.set_split_time_ms(&stored, 1, 99_000);
    assert!(edit.is_some());
    assert!(!commit(&mut stored, false, edit));
    assert_eq!(pb(&stored, 1, TimingMethod::RealTime), Some(25_000));
}

#[test]
fn committed_edit_replaces_run() {
    let mut ctx = EditorContext::new();
    assert!(ctx.set_timing_method(TimingMethod::GameTime));
    let mut stored = three_segment_run();
    let edit = ctx.set_split_time_ms(&stored, 1, 99_000);
    assert!(commit(&mut stored, true, edit));
    assert_eq!(pb(&stored, 1, TimingMethod::GameTime), Some(99_000));
    assert_eq!(pb(&stored, 1, TimingMethod::RealTime), Some(25_000));
}

#[test]
fn negative_ms_is_rejected() {
    let ctx = EditorContext::new();
    let run = three_segment_run();
    assert!(ctx.set_split_time_ms(&run, 0, -1).is_none());
    assert!(ctx.set_segment_time_ms(&run, 0, -1).is_none());
    assert!(ctx.set_best_time_ms(&run, 0, -1).is_none());
}

#[test]
fn field_edits() {
    let ctx = EditorContext::new();
    let run = three_segment_run();
    let r = ctx.set_segment_name(&run, 0, "Intro".to_string()).unwrap();
    assert_eq!(r.segments[0].name, "Intro");
    let r = ctx.set_segment_time_ms(&r, 0, 9_000).unwrap();
    assert_eq!(pb(&r, 0, TimingMethod::RealTime), Some(9_000));
    assert_eq!(pb(&r, 1, TimingMethod::RealTime), Some(24_000));
    assert_eq!(pb(&r, 2, TimingMethod::RealTime), Some(39_000));
    assert_eq!(r.segments[0].split_time.real_time, None);
    let r = ctx.set_best_time_ms(&r, 2, 14_000).unwrap();
    assert_eq!(r.segments[2].best_segment_time.real_time, Some(14_000));
    assert_eq!(r.segments[0].name, "Intro");
}

#[test]
fn timing_method_change_reported() {
    let mut ctx = EditorContext::new();
    assert_eq!(ctx.timing_method(), TimingMethod::RealTime);
    assert!(!ctx.set_timing_method(TimingMethod::RealTime));
    assert!(ctx.set_timing_method(TimingMethod::GameTime));
    assert_eq!(ctx.method(), TimingMethod::GameTime);
    assert!(!ctx.set_timing_method(TimingMethod::GameTime));
    ctx.set_method(TimingMethod::RealTime);
    assert_eq!(ctx.timing_method(), TimingMethod::RealTime);
}

#[test]
fn text_edits() {
    let ctx = EditorContext::new();
    let run = three_segment_run();
    assert_eq!(ctx.edit_split_time_text(&run, 0, "-1:00.000").err(), Some(ParseError::Negative));
    assert_eq!(ctx.edit_split_time_text(&run, 0, "x").err(), Some(ParseError::Malformed));
    assert!(ctx.edit_split_time_text(&run, 4, "1:00").unwrap().is_none());
    let r = ctx.edit_split_time_text(&run, 0, "0:12.5").unwrap().unwrap();
    assert_eq!(pb(&r, 0, TimingMethod::RealTime), Some(12_500));
    let r = ctx.edit_segment_time_text(&r, 1, "30").unwrap().unwrap();
    assert_eq!(pb(&r, 1, TimingMethod::RealTime), Some(42_500));
    assert_eq!(pb(&r, 2, TimingMethod::RealTime), Some(57_500));
    assert_eq!(r.segments[1].split_time.real_time, None);
    let r = ctx.edit_best_time_text(&r, 2, "1:00:00").unwrap().unwrap();
    assert_eq!(r.segments[2].best_segment_time.real_time, Some(3_600_000));
    assert_eq!(pb(&run, 0, TimingMethod::RealTime), Some(10_000));
}

#[test]
fn segment_time_without_pb_sets_pb() {
    let ctx = EditorContext::new();
    let mut run = Run::new("Game".to_string(), "Any%".to_string());
    run.push_segment(Segment::new("Only".to_string()));
    let r = ctx.set_segment_time_ms(&run, 0, 1_000).unwrap();
    assert_eq!(pb(&r, 0, TimingMethod::RealTime), Some(1_000));
    assert_eq!(r.segments[0].split_time.real_time, None);
}

#[test]
fn segment_time_moves_later_splits() {
    let ctx = EditorContext::new();
    let run = three_segment_run();
    let r = ctx.set_segment_time_ms(&run, 1, 20_000).unwrap();
    assert_eq!(pb(&r, 0, TimingMethod::RealTime), Some(10_000));
    assert_eq!(pb(&r, 1, TimingMethod::RealTime), Some(30_000));
    assert_eq!(pb(&r, 2, TimingMethod::RealTime), Some(45_000));
    let v1 = compute_row_values(&r.segments, 1, PERSONAL_BEST, TimingMethod::RealTime);
    let v2 = compute_row_values(&r.segments, 2, PERSONAL_BEST, TimingMethod::RealTime);
    assert_eq!(v1.segment_delta, Some(20_000));
    assert_eq!(v2.segment_delta, Some(15_000));
}

#[test]
fn segment_time_after_skipped_split() {
    let ctx = EditorContext::new();
    let mut run = three_segment_run();
    run.segments[1].set_comparison_time(PERSONAL_BEST, TimingMethod::RealTime, None);
    let r = ctx.set_segment_time_ms(&run, 1, 5_000).unwrap();
    assert_eq!(pb(&r, 1, TimingMethod::RealTime), Some(15_000));
    assert_eq!(pb(&r, 2, TimingMethod::RealTime), Some(45_000));
    let v2 = compute_row_values(&r.segments, 2, PERSONAL_BEST, TimingMethod::RealTime);
    assert_eq!(v2.segment_delta, Some(30_000));
}

#[test]
fn segment_time_overflow_is_refused() {
    let ctx = EditorContext::new();
    let mut run = three_segment_run();
    run.segments[0].set_comparison_time(PERSONAL_BEST, TimingMethod::RealTime, Some(u64::MAX - 10));
    assert!(ctx.set_segment_time_ms(&run, 1, 1_000).is_none());
    assert!(ctx.edit_segment_time_text(&run, 1, "1").unwrap().is_none());
}
