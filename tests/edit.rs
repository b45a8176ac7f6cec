use tuxsplit::delta::PERSONAL_BEST;
use tuxsplit::edit::EditTransaction;
use tuxsplit::segment_time::set_segment_time_at;
use tuxsplit::run::{Run, Segment, TimingMethod};

fn three_segment_run() -> Run {
    let mut run = Run::new("Game".to_string(), "Any%".to_string());
    for (i, t) in [10_000u64, 25_000, 40_000].iter().enumerate() {
        let mut s = Segment::new(format!("S{}", i));
        s.set_comparison_time(PERSONAL_BEST, TimingMethod::RealTime, Some(*t));
        run.push_segment(s);
    }
    run
}

fn pb(run: &Run, i: usize, m: TimingMethod) -> Option<u64> {
    run.segments[i].comparison_timing_method(PERSONAL_BEST, m)
}

#[test]
fn staged_edits_apply_to_selection() {
    let mut t = EditTransaction::open(three_segment_run());
    t.select(1);
    t.select_additionally(2);
    t.select_timing_method(TimingMethod::GameTime);
    t.set_comparison_time(PERSONAL_BEST, Some(30_000));
    assert!(!t.is_selected(0));
    assert!(t.is_selected(1));
    let run = t.close();
    assert_eq!(pb(&run, 0, TimingMethod::GameTime), None);
    assert_eq!(pb(&run, 1, TimingMethod::GameTime), Some(30_000));
    assert_eq!(pb(&run, 2, TimingMethod::GameTime), Some(30_000));
    assert_eq!(pb(&run, 1, TimingMethod::RealTime), Some(25_000));
}

#[test]
fn negative_time_is_rejected() {
    let mut t = EditTransaction::open(three_segment_run());
    t.select(0);
    t.set_comparison_time(PERSONAL_BEST, Some(-5));
    t.set_segment_time(Some(-1));
    t.set_best_segment_time(Some(-1));
    let run = t.close();
    assert_eq!(pb(&run, 0, TimingMethod::RealTime), Some(10_000));
    assert_eq!(run.segments[0].split_time.real_time, None);
    assert_eq!(run.segments[0].best_segment_time.real_time, None);
}

#[test]
fn segment_and_best_times() {
    let mut t = EditTransaction::open(three_segment_run());
    t.select(2);
    t.set_segment_time(Some(41_000));
    t.set_best_segment_time(Some(14_000));
    t.unselect(2);
    t.set_best_segment_time(Some(1));
    let run = t.close();
    assert_eq!(pb(&run, 2, TimingMethod::RealTime), Some(66_000));
    assert_eq!(run.segments[2].split_time.real_time, None);
    assert_eq!(run.segments[2].best_segment_time.real_time, Some(14_000));
    assert_eq!(run.segments[1].best_segment_time.real_time, None);
}

#[test]
fn out_of_range_selection_is_ignored() {
    let mut t = EditTransaction::open(three_segment_run());
    t.select(5);
    t.select_additionally(7);
    t.set_segment_time(Some(1_000));
    assert_eq!(t.segment_count(), 3);
    assert!(!t.is_selected(5));
    let run = t.close();
    let fresh = three_segment_run();
    for i in 0..3 {
        assert_eq!(pb(&run, i, TimingMethod::RealTime), pb(&fresh, i, TimingMethod::RealTime));
    }
}

#[test]
fn cancel_restores_snapshot() {
    let mut t = EditTransaction::open(three_segment_run());
    t.select(0);
    t.set_comparison_time(PERSONAL_BEST, Some(1));
    t.set_comparison_time("Latest Run", Some(2));
    t.select_timing_method(TimingMethod::GameTime);
    t.set_best_segment_time(Some(3));
    assert_eq!(pb(t.run(), 0, TimingMethod::RealTime), Some(1));
    let run = t.cancel();
    let fresh = three_segment_run();
    assert_eq!(run.segments.len(), 3);
    for i in 0..3 {
        assert_eq!(pb(&run, i, TimingMethod::RealTime), pb(&fresh, i, TimingMethod::RealTime));
        assert_eq!(run.segments[i].comparisons.len(), 1);
        assert_eq!(run.segments[i].best_segment_time, fresh.segments[i].best_segment_time);
        assert_eq!(run.segments[i].name, fresh.segments[i].name);
    }
}

#[test]
fn segment_time_on_each_selected_segment() {
    let mut t = EditTransaction::open(three_segment_run());
    t.select(0);
    t.select_additionally(1);
    t.set_segment_time(Some(5_000));
    let run = t.close();
    assert_eq!(pb(&run, 0, TimingMethod::RealTime), Some(5_000));
    assert_eq!(pb(&run, 1, TimingMethod::RealTime), Some(10_000));
    assert_eq!(pb(&run, 2, TimingMethod::RealTime), Some(25_000));
}

#[test]
fn clearing_segment_time_drops_later_splits() {
    let mut t = EditTransaction::open(three_segment_run());
    t.select(1);
    t.set_segment_time(None);
    let run = t.close();
    assert_eq!(pb(&run, 0, TimingMethod::RealTime), Some(10_000));
    assert_eq!(pb(&run, 1, TimingMethod::RealTime), None);
    assert_eq!(pb(&run, 2, TimingMethod::RealTime), Some(25_000));
    assert_eq!(run.segments[1].split_time.real_time, None);
}

#[test]
fn clearing_first_segment_time() {
    let run = three_segment_run();
    let r = set_segment_time_at(&run, 0, TimingMethod::RealTime, None).unwrap();
    assert_eq!(pb(&r, 0, TimingMethod::RealTime), None);
    assert_eq!(pb(&r, 1, TimingMethod::RealTime), Some(15_000));
    assert_eq!(pb(&r, 2, TimingMethod::RealTime), Some(30_000));
    let set = set_segment_time_at(&run, 0, TimingMethod::RealTime, Some(4_000)).unwrap();
    assert_eq!(pb(&set, 0, TimingMethod::RealTime), Some(4_000));
    assert_eq!(pb(&set, 2, TimingMethod::RealTime), Some(34_000));
}
