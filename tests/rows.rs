use tuxsplit::config::{config_dir_source, ConfigDir};
use tuxsplit::delta::PERSONAL_BEST;
use tuxsplit::label::{format_label, get_formatter};
use tuxsplit::rows::SegmentsModel;
use tuxsplit::table::SegmentsEditor;
use tuxsplit::run::{Run, Segment, TimingMethod};

fn run_with(times: &[u64]) -> Run {
    let mut run = Run::new("Game".to_string(), "Any%".to_string());
    for (i, t) in times.iter().enumerate() {
        let mut s = Segment::new(format!("S{}", i));
        s.set_comparison_time(PERSONAL_BEST, TimingMethod::RealTime, Some(*t));
        run.push_segment(s);
    }
    run
}

#[test]
fn build_and_refresh_rows() {
    let mut model = SegmentsModel::new();
    assert!(model.store().is_empty());
    model.build_from_timer(&run_with(&[10_000, 25_000, 40_000]), TimingMethod::RealTime);
    assert_eq!(model.store().len(), 3);
    assert_eq!(model.store()[2].segment_time, "0:00:15.000");
    model.refresh_from_timer(&run_with(&[10_000, 26_000, 40_000]), TimingMethod::RealTime);
    assert_eq!(model.store()[1].split_time, "0:00:26.000");
    assert_eq!(model.store()[2].segment_time, "0:00:14.000");
    model.refresh_from_timer(&run_with(&[5_000]), TimingMethod::RealTime);
    assert_eq!(model.store().len(), 1);
    assert_eq!(model.store()[0].name, "S0");
    model.refresh_from_timer(&run_with(&[5_000]), TimingMethod::GameTime);
    assert_eq!(model.store()[0].split_time, "");
    assert_eq!(model.store()[0].best, "0:00:00.000");
}

#[test]
fn labels() {
    assert_eq!(format_label("Personal Best"), "PB");
    assert_eq!(format_label("Best Segments"), "SOB");
    assert_eq!(format_label("Worst Segments"), "Worst Split");
    assert_eq!(format_label("Latest Run"), "Latest");
    assert_eq!(format_label("My Comparison"), "My Comparison");
    assert_eq!(get_formatter().len(), 8);
}

#[test]
fn config_dir_precedence() {
    assert_eq!(config_dir_source(true, true, true), ConfigDir::DataDir);
    assert_eq!(config_dir_source(false, true, true), ConfigDir::XdgConfigHome);
    assert_eq!(config_dir_source(false, false, true), ConfigDir::Home);
    assert_eq!(config_dir_source(false, false, false), ConfigDir::Temp);
}

#[test]
fn editor_cancel_restores_snapshot() {
    let opened = run_with(&[10_000, 25_000]);
    let editor = SegmentsEditor::new(&opened);
    assert_eq!(editor.timing_method(), TimingMethod::RealTime);
    let mut stored = run_with(&[10_000, 25_000]);
    stored.segments[1].set_comparison_time(PERSONAL_BEST, TimingMethod::RealTime, Some(1));
    stored.segments[0].name = "Renamed".to_string();
    editor.cancel_changes(&mut stored);
    assert_eq!(stored.segments[0].name, "S0");
    assert_eq!(
        stored.segments[1].comparison_timing_method(PERSONAL_BEST, TimingMethod::RealTime),
        Some(25_000)
    );
    let rows = editor.create_data_model();
    assert_eq!(rows.len(), 2);
    assert_eq!(rows[1].segment_time, "0:00:15.000");
}
