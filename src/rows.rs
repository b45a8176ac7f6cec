use vstd::prelude::*;
use crate::codec::{duration_text, TimeFormat};
use crate::delta::{compute_row_values, row_values, segment_views, RowValues, PERSONAL_BEST};
use crate::run::{comparison_time, Run, Segment, SegmentView, TimingMethod};

verus! {

/// One row of the segments table, as shown.
#[derive(Debug)]
pub struct DisplayRow {
    pub index: usize,
    pub name: String,
    pub split_time: String,
    pub segment_time: String,
    pub best: String,
}

pub struct DisplayRowView {
    pub index: int,
    pub name: Seq<char>,
    pub split_time: Seq<char>,
    pub segment_time: Seq<char>,
    pub best: Seq<char>,
}

impl View for DisplayRow {
    type V = DisplayRowView;

    open spec fn view(&self) -> DisplayRowView {
        DisplayRowView {
            index: self.index as int,
            name: self.name@,
            split_time: self.split_time@,
            segment_time: self.segment_time@,
            best: self.best@,
        }
    }
}

/// An absent time shows as empty text.
pub open spec fn optional_text(t: Option<u64>, precision: nat) -> Seq<char> {
    match t {
        Some(ms) => duration_text(ms as nat, precision),
        None => Seq::<char>::empty(),
    }
}

/// The row shown for segment `i`.
pub open spec fn display_row(
    segs: Seq<SegmentView>,
    i: int,
    comparison: Seq<char>,
    method: TimingMethod,
    precision: nat,
) -> DisplayRowView {
    let v = row_values(segs, i, comparison, method);
    DisplayRowView {
        index: i,
        name: segs[i].name,
        split_time: optional_text(v.split_time, precision),
        segment_time: optional_text(v.segment_delta, precision),
        best: duration_text(v.best_delta as nat, precision),
    }
}

/// The split time shown in a row is the segment's own comparison time under
/// the active method, formatted, and empty when it is absent.
pub proof fn lemma_split_time_shown(
    segs: Seq<SegmentView>,
    i: int,
    comparison: Seq<char>,
    method: TimingMethod,
    precision: nat,
)
    requires
        0 <= i < segs.len(),
    ensures
        display_row(segs, i, comparison, method, precision).split_time == match comparison_time(
            segs[i],
            comparison,
            method,
        ) {
            Some(ms) => duration_text(ms as nat, precision),
            None => Seq::<char>::empty(),
        },
{
}

/// The rows shown for all segments, against the personal best at millisecond precision.
pub open spec fn table_rows(segs: Seq<SegmentView>, method: TimingMethod) -> Seq<DisplayRowView> {
    Seq::new(segs.len(), |i: int| display_row(segs, i, PERSONAL_BEST@, method, 3))
}

/// The row shown for segment `index` against `comparison` under `method`.
pub fn compute_row(
    format: &TimeFormat,
    segments: &[Segment],
    index: usize,
    comparison: &str,
    method: TimingMethod,
) -> (r: DisplayRow)
    requires
        index < segments@.len(),
    ensures
        r@ == display_row(
            segment_views(segments@),
            index as int,
            comparison@,
            method,
            format.precision as nat,
        ),
{
    let values: RowValues = compute_row_values(segments, index, comparison, method);
    assert(segment_views(segments@)[index as int] == segments@[index as int]@);
    DisplayRow {
        index,
        name: segments[index].name.clone(),
        split_time: format.format_time_span(values.split_time),
        segment_time: format.format_time_span(values.segment_delta),
        best: format.format_duration(values.best_delta),
    }
}

/// The rows of the segments table of `run` under `timing_method`.
pub fn build_rows(run: &Run, timing_method: TimingMethod) -> (r: Vec<DisplayRow>)
    ensures
        r@.map_values(|x: DisplayRow| x@) == table_rows(run@.segments, timing_method),
{
    let format = TimeFormat::millis();
    let segments = run.segments.as_slice();
    let ghost segs = segment_views(segments@);
    assert(segs =~= run@.segments);
    let mut rows: Vec<DisplayRow> = Vec::new();
    for index in 0..segments.len()
        invariant
            segments@ == run.segments@,
            segs == segment_views(segments@),
            format.precision == 3,
            rows.len() == index,
            forall|j: int|
                0 <= j < index ==> #[trigger] rows@[j]@ == display_row(
                    segs,
                    j,
                    PERSONAL_BEST@,
                    timing_method,
                    3,
                ),
    {
        rows.push(compute_row(&format, segments, index, PERSONAL_BEST, timing_method));
    }
    assert(rows@.map_values(|x: DisplayRow| x@) =~= table_rows(run@.segments, timing_method));
    rows
}

/// The ordered rows of the segments table of a run.
#[derive(Debug)]
pub struct SegmentsModel {
    rows: Vec<DisplayRow>,
}

impl SegmentsModel {
    pub closed spec fn spec_rows(&self) -> Seq<DisplayRowView> {
        self.rows@.map_values(|r: DisplayRow| r@)
    }

    /// Row `j` is the row of segment `j`.
    pub closed spec fn wf(&self) -> bool {
        forall|j: int| 0 <= j < self.rows@.len() ==> #[trigger] self.rows@[j].index == j
    }

    /// A model without rows.
    pub fn new() -> (r: SegmentsModel)
        ensures
            r.wf(),
            r.spec_rows().len() == 0,
    {
        SegmentsModel { rows: Vec::new() }
    }

    /// The rows.
    pub fn store(&self) -> (r: &Vec<DisplayRow>)
        ensures
            r@.map_values(|x: DisplayRow| x@) == self.spec_rows(),
    {
        &self.rows
    }

    /// Replaces every row by those of `run` under `timing_method`.
    pub fn build_from_timer(&mut self, run: &Run, timing_method: TimingMethod)
        ensures
            final(self).wf(),
            final(self).spec_rows() == table_rows(run@.segments, timing_method),
    {
        self.rows = build_rows(run, timing_method);
        assert(self.rows@.len() == self.spec_rows().len());
        assert(self.spec_rows().len() == run@.segments.len());
        assert forall|j: int| 0 <= j < self.rows@.len() implies #[trigger] self.rows@[j].index
            == j by {
            assert(self.spec_rows()[j].index == self.rows@[j].index as int);
            assert(table_rows(run@.segments, timing_method)[j].index == j);
        }
    }

    /// Brings the rows up to date with `run`: in place when the number of
    /// segments is unchanged, else by rebuilding them.
    pub fn refresh_from_timer(&mut self, run: &Run, timing_method: TimingMethod)
        requires
            old(self).wf(),
        ensures
            final(self).wf(),
            final(self).spec_rows() == table_rows(run@.segments, timing_method),
            old(self).spec_rows().len() == run@.segments.len() ==> forall|j: int|
                0 <= j < run@.segments.len() ==> #[trigger] final(self).spec_rows()[j].index
                    == old(self).spec_rows()[j].index,
    {
        let segments = run.segments.as_slice();
        if self.rows.len() != segments.len() {
            self.build_from_timer(run, timing_method);
            return;
        }
        let format = TimeFormat::millis();
        let ghost segs = segment_views(segments@);
        assert(segs =~= run@.segments);
        let n = self.rows.len();
        for index in 0..n
            invariant
                n == self.rows.len(),
                n == segments@.len(),
                segments@ == run.segments@,
                segs == segment_views(segments@),
                format.precision == 3,
                forall|j: int|
                    0 <= j < index ==> #[trigger] self.rows@[j]@ == display_row(
                        segs,
                        j,
                        PERSONAL_BEST@,
                        timing_method,
                        3,
                    ),
        {
            let row = compute_row(&format, segments, index, PERSONAL_BEST, timing_method);
            self.rows.set(index, row);
        }
        assert(self.spec_rows() =~= table_rows(run@.segments, timing_method));
        assert forall|j: int| 0 <= j < self.rows@.len() implies #[trigger] self.rows@[j].index
            == j by {
            assert(self.spec_rows()[j].index == self.rows@[j].index as int);
            assert(table_rows(run@.segments, timing_method)[j].index == j);
        }
        assert forall|j: int| 0 <= j < n implies #[trigger] self.spec_rows()[j].index == old(
            self,
        ).spec_rows()[j].index by {
            assert(self.spec_rows()[j].index == self.rows@[j].index as int);
            assert(old(self).spec_rows()[j].index == old(self).rows@[j].index as int);
        }
    }
}

} // verus!
