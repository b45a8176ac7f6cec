use vstd::prelude::*;
use crate::rows::{build_rows, table_rows, DisplayRow};
use crate::run::{Run, RunView, TimingMethod};

verus! {

/// The segments table of the run editor: it keeps the run as it was when the
/// editor opened, so that the edits made through it can be undone.
#[derive(Debug)]
pub struct SegmentsEditor {
    run_snapshot: Run,
    timing_method: TimingMethod,
}

impl SegmentsEditor {
    /// The run as it was when the editor opened.
    pub closed spec fn snapshot(&self) -> RunView {
        self.run_snapshot@
    }

    pub closed spec fn spec_timing_method(&self) -> TimingMethod {
        self.timing_method
    }

    /// An editor on the current `run`, showing real time.
    pub fn new(run: &Run) -> (r: SegmentsEditor)
        ensures
            r.snapshot() == run@,
            r.spec_timing_method() == TimingMethod::RealTime,
    {
        SegmentsEditor { run_snapshot: run.duplicate(), timing_method: TimingMethod::RealTime }
    }

    /// The timing method shown.
    pub fn timing_method(&self) -> (r: TimingMethod)
        ensures
            r == self.spec_timing_method(),
    {
        self.timing_method
    }

    /// Shows `method` from now on.
    pub fn set_timing_method(&mut self, method: TimingMethod)
        ensures
            final(self).spec_timing_method() == method,
            final(self).snapshot() == old(self).snapshot(),
    {
        self.timing_method = method;
    }

    /// The rows of the snapshot under the shown timing method.
    pub fn create_data_model(&self) -> (r: Vec<DisplayRow>)
        ensures
            r@.map_values(|x: DisplayRow| x@) == table_rows(
                self.snapshot().segments,
                self.spec_timing_method(),
            ),
    {
        build_rows(&self.run_snapshot, self.timing_method)
    }

    /// Undoes every edit made since the editor opened: `stored` becomes the snapshot.
    pub fn cancel_changes(&self, stored: &mut Run)
        ensures
            final(stored)@ == self.snapshot(),
    {
        *stored = self.run_snapshot.duplicate();
    }
}

} // verus!
