use vstd::prelude::*;
use crate::run::{lemma_views_update, set_in, Run, RunView, SegmentView, TimingMethod};
use crate::segment_time::{segment_time_edit, segment_time_fits, set_segment_time_at};

verus! {

/// A time given for an edit is taken unless it is negative.
pub open spec fn accepted(value: Option<i64>) -> bool {
    match value {
        Some(v) => v >= 0,
        None => true,
    }
}

/// The stored form of an accepted time.
pub open spec fn stored(value: Option<i64>) -> Option<u64> {
    match value {
        Some(v) => Some(v as u64),
        None => None,
    }
}

/// `segs` with `f` applied to each selected segment.
pub open spec fn edit_selected(
    segs: Seq<SegmentView>,
    selection: Seq<bool>,
    f: spec_fn(SegmentView) -> SegmentView,
) -> Seq<SegmentView> {
    Seq::new(segs.len(), |j: int| if selection[j] { f(segs[j]) } else { segs[j] })
}

/// `run` with `f` applied to each selected segment.
pub open spec fn edit_run(
    run: RunView,
    selection: Seq<bool>,
    f: spec_fn(SegmentView) -> SegmentView,
) -> RunView {
    RunView { segments: edit_selected(run.segments, selection, f), ..run }
}

/// `segs` with `f` applied to each selected segment among the first `k`.
pub open spec fn edit_selected_upto(
    segs: Seq<SegmentView>,
    selection: Seq<bool>,
    f: spec_fn(SegmentView) -> SegmentView,
    k: int,
) -> Seq<SegmentView> {
    Seq::new(segs.len(), |j: int| if j < k && selection[j] { f(segs[j]) } else { segs[j] })
}

/// `run` after setting the segment time of each selected segment among the
/// first `k` to `d` (clearing it when `None`), in order; a segment whose edit
/// would not fit is skipped.
pub open spec fn segment_times_upto(
    run: RunView,
    selection: Seq<bool>,
    method: TimingMethod,
    d: Option<u64>,
    k: nat,
) -> RunView
    decreases k,
{
    if k == 0 {
        run
    } else {
        let r = segment_times_upto(run, selection, method, d, (k - 1) as nat);
        if selection[k - 1] && segment_time_fits(r.segments, k - 1, method, d) {
            RunView { segments: segment_time_edit(r.segments, k - 1, method, d), ..r }
        } else {
            r
        }
    }
}

pub open spec fn set_comparison_of(
    name: Seq<char>,
    method: TimingMethod,
    value: Option<u64>,
) -> spec_fn(SegmentView) -> SegmentView {
    |s: SegmentView| SegmentView { comparisons: set_in(s.comparisons, name, method, value), ..s }
}

pub open spec fn set_best_of(method: TimingMethod, value: Option<u64>) -> spec_fn(
    SegmentView,
) -> SegmentView {
    |s: SegmentView| SegmentView {
        best_segment_time: s.best_segment_time.spec_with(method, value),
        ..s
    }
}

/// A staged editing session over a run: edits apply to the selected
/// segments under the active timing method, and the session ends either
/// with the edited run (`close`) or with the run it was opened on (`cancel`).
pub struct EditTransaction {
    snapshot: Run,
    run: Run,
    selected: Vec<bool>,
    method: TimingMethod,
}

impl EditTransaction {
    /// The run the session was opened on.
    pub closed spec fn opened_on(&self) -> RunView {
        self.snapshot@
    }

    /// The run with the staged edits.
    pub closed spec fn current(&self) -> RunView {
        self.run@
    }

    /// Which segments are selected.
    pub closed spec fn selection(&self) -> Seq<bool> {
        self.selected@
    }

    /// The timing method that edits apply to.
    pub closed spec fn method(&self) -> TimingMethod {
        self.method
    }

    pub closed spec fn wf(&self) -> bool {
        &&& self.selected@.len() == self.run@.segments.len()
        &&& self.run@.segments.len() == self.snapshot@.segments.len()
    }

    /// Opens a session on `run`, with no segment selected and real time active.
    pub fn open(run: Run) -> (r: EditTransaction)
        ensures
            r.wf(),
            r.opened_on() == run@,
            r.current() == run@,
            r.selection() == Seq::new(run@.segments.len(), |j: int| false),
            r.method() == TimingMethod::RealTime,
    {
        let working = run.duplicate();
        let mut selected: Vec<bool> = Vec::new();
        for i in 0..run.segments.len()
            invariant
                selected@ =~= Seq::new(i as nat, |j: int| false),
        {
            selected.push(false);
        }
        EditTransaction { snapshot: run, run: working, selected, method: TimingMethod::RealTime }
    }

    /// The run with the staged edits.
    pub fn run(&self) -> (r: &Run)
        ensures
            r@ == self.current(),
    {
        &self.run
    }

    /// The number of segments.
    pub fn segment_count(&self) -> (r: usize)
        requires
            self.wf(),
        ensures
            r == self.current().segments.len(),
    {
        self.run.segments.len()
    }

    /// Whether segment `index` is selected; `false` out of range.
    pub fn is_selected(&self, index: usize) -> (r: bool)
        requires
            self.wf(),
        ensures
            r == (index < self.selection().len() && self.selection()[index as int]),
    {
        index < self.selected.len() && self.selected[index]
    }

    /// The timing method that edits apply to.
    pub fn timing_method(&self) -> (r: TimingMethod)
        ensures
            r == self.method(),
    {
        self.method
    }

    /// Makes segment `index` the only selected one; out of range, nothing changes.
    pub fn select(&mut self, index: usize)
        requires
            old(self).wf(),
        ensures
            final(self).wf(),
            final(self).opened_on() == old(self).opened_on(),
            final(self).current() == old(self).current(),
            final(self).method() == old(self).method(),
            final(self).selection() == if index < old(self).selection().len() {
                Seq::new(old(self).selection().len(), |j: int| j == index)
            } else {
                old(self).selection()
            },
    {
        if index < self.selected.len() {
            let n = self.selected.len();
            let mut i: usize = 0;
            while i < n
                invariant
                    n == self.selected@.len(),
                    0 <= i <= n,
                    index < n,
                    self.run == old(self).run,
                    self.snapshot == old(self).snapshot,
                    self.method == old(self).method,
                    self.wf(),
                    forall|j: int| 0 <= j < i ==> self.selected@[j] == (j == index),
                decreases n - i,
            {
                self.selected.set(i, i == index);
                i = i + 1;
            }
            assert(self.selected@ =~= Seq::new(n as nat, |j: int| j == index));
        }
    }

    /// Adds segment `index` to the selection; out of range, nothing changes.
    pub fn select_additionally(&mut self, index: usize)
        requires
            old(self).wf(),
        ensures
            final(self).wf(),
            final(self).opened_on() == old(self).opened_on(),
            final(self).current() == old(self).current(),
            final(self).method() == old(self).method(),
            final(self).selection() == if index < old(self).selection().len() {
                old(self).selection().update(index as int, true)
            } else {
                old(self).selection()
            },
    {
        if index < self.selected.len() {
            self.selected.set(index, true);
        }
    }

    /// Removes segment `index` from the selection; out of range, nothing changes.
    pub fn unselect(&mut self, index: usize)
        requires
            old(self).wf(),
        ensures
            final(self).wf(),
            final(self).opened_on() == old(self).opened_on(),
            final(self).current() == old(self).current(),
            final(self).method() == old(self).method(),
            final(self).selection() == if index < old(self).selection().len() {
                old(self).selection().update(index as int, false)
            } else {
                old(self).selection()
            },
    {
        if index < self.selected.len() {
            self.selected.set(index, false);
        }
    }

    /// Sets the timing method that later edits apply to.
    pub fn select_timing_method(&mut self, method: TimingMethod)
        requires
            old(self).wf(),
        ensures
            final(self).wf(),
            final(self).opened_on() == old(self).opened_on(),
            final(self).current() == old(self).current(),
            final(self).selection() == old(self).selection(),
            final(self).method() == method,
    {
        self.method = method;
    }

    /// Sets the time of comparison `name` of every selected segment under the
    /// active method; a negative time changes nothing.
    pub fn set_comparison_time(&mut self, name: &str, value: Option<i64>)
        requires
            old(self).wf(),
        ensures
            final(self).wf(),
            final(self).opened_on() == old(self).opened_on(),
            final(self).selection() == old(self).selection(),
            final(self).method() == old(self).method(),
            final(self).current() == if accepted(value) {
                edit_run(
                    old(self).current(),
                    old(self).selection(),
                    set_comparison_of(name@, old(self).method(), stored(value)),
                )
            } else {
                old(self).current()
            },
    {
        let v = match value {
            Some(ms) => {
                if ms < 0 {
                    return;
                }
                Some(ms as u64)
            },
            None => None,
        };
        let ghost f = set_comparison_of(name@, self.method, v);
        let ghost before = self.run@;
        let n = self.run.segments.len();
        assert(before.segments =~= edit_selected_upto(before.segments, self.selected@, f, 0));
        for i in 0..n
            invariant
                n == self.run@.segments.len(),
                n == self.run.segments@.len(),
                self.wf(),
                self.snapshot == old(self).snapshot,
                self.selected == old(self).selected,
                self.method == old(self).method,
                before == old(self).run@,
                f == set_comparison_of(name@, self.method, v),
                self.run@ == (RunView { segments: self.run@.segments, ..before }),
                self.run@.segments == edit_selected_upto(before.segments, self.selected@, f, i as int),
        {
            if self.selected[i] {
                let ghost prev = self.run.segments@;
                assert(self.run@.segments[i as int] == prev[i as int]@);
                assert(self.run@.segments[i as int] == before.segments[i as int]);
                let method = self.method;
                self.run.segments[i].set_comparison_time(name, method, v);
                proof {
                    lemma_views_update(prev, i as int, self.run.segments@[i as int]);
                }
            }
            assert(self.run@.segments =~= edit_selected_upto(
                before.segments,
                self.selected@,
                f,
                i + 1,
            ));
        }
        assert(self.run@.segments =~= edit_selected(before.segments, self.selected@, f));
    }

    /// Writes `v` under the active method into the best segment time of
    /// every selected segment.
    fn set_best_field(&mut self, v: Option<u64>)
        requires
            old(self).wf(),
        ensures
            final(self).wf(),
            final(self).opened_on() == old(self).opened_on(),
            final(self).selection() == old(self).selection(),
            final(self).method() == old(self).method(),
            final(self).current() == edit_run(
                old(self).current(),
                old(self).selection(),
                set_best_of(old(self).method(), v),
            ),
    {
        let ghost f = set_best_of(self.method, v);
        let ghost before = self.run@;
        let n = self.run.segments.len();
        assert(before.segments =~= edit_selected_upto(before.segments, self.selected@, f, 0));
        for i in 0..n
            invariant
                n == self.run@.segments.len(),
                n == self.run.segments@.len(),
                self.wf(),
                self.snapshot == old(self).snapshot,
                self.selected == old(self).selected,
                self.method == old(self).method,
                before == old(self).run@,
                f == set_best_of(self.method, v),
                self.run@ == (RunView { segments: self.run@.segments, ..before }),
                self.run@.segments == edit_selected_upto(before.segments, self.selected@, f, i as int),
        {
            if self.selected[i] {
                let ghost prev = self.run.segments@;
                assert(self.run@.segments[i as int] == prev[i as int]@);
                assert(self.run@.segments[i as int] == before.segments[i as int]);
                let t = self.run.segments[i].best_segment_time.with_timing_method(self.method, v);
                self.run.segments[i].best_segment_time = t;
                proof {
                    lemma_views_update(prev, i as int, self.run.segments@[i as int]);
                }
            }
            assert(self.run@.segments =~= edit_selected_upto(
                before.segments,
                self.selected@,
                f,
                i + 1,
            ));
        }
        assert(self.run@.segments =~= edit_selected(before.segments, self.selected@, f));
    }

    /// Sets the segment time (personal-best split less the previous recorded
    /// one) of each selected segment to `value` under the active method, in
    /// segment order, or clears it when `value` is `None`; later splits move
    /// so that their segment times are kept (see `set_segment_time_at`). A
    /// negative time changes nothing, and an edit whose splits would not fit
    /// is skipped.
    pub fn set_segment_time(&mut self, value: Option<i64>)
        requires
            old(self).wf(),
        ensures
            final(self).wf(),
            final(self).opened_on() == old(self).opened_on(),
            final(self).selection() == old(self).selection(),
            final(self).method() == old(self).method(),
            final(self).current() == if accepted(value) {
                segment_times_upto(
                    old(self).current(),
                    old(self).selection(),
                    old(self).method(),
                    stored(value),
                    old(self).selection().len(),
                )
            } else {
                old(self).current()
            },
    {
        let d: Option<u64> = match value {
            Some(ms) => {
                if ms < 0 {
                    return;
                }
                Some(ms as u64)
            },
            None => None,
        };
        let ghost before = self.run@;
        let n = self.run.segments.len();
        for k in 0..n
            invariant
                n == self.selected@.len(),
                self.wf(),
                self.snapshot == old(self).snapshot,
                self.selected == old(self).selected,
                self.method == old(self).method,
                before == old(self).run@,
                self.run@ == segment_times_upto(before, self.selected@, self.method, d, k as nat),
        {
            if self.selected[k] {
                match set_segment_time_at(&self.run, k, self.method, d) {
                    Some(x) => {
                        self.run = x;
                    },
                    None => {},
                }
            }
        }
    }

    /// Sets the best segment time of every selected segment under the active
    /// method; a negative time changes nothing.
    pub fn set_best_segment_time(&mut self, value: Option<i64>)
        requires
            old(self).wf(),
        ensures
            final(self).wf(),
            final(self).opened_on() == old(self).opened_on(),
            final(self).selection() == old(self).selection(),
            final(self).method() == old(self).method(),
            final(self).current() == if accepted(value) {
                edit_run(
                    old(self).current(),
                    old(self).selection(),
                    set_best_of(old(self).method(), stored(value)),
                )
            } else {
                old(self).current()
            },
    {
        match value {
            Some(ms) => {
                if ms >= 0 {
                    self.set_best_field(Some(ms as u64));
                }
            },
            None => self.set_best_field(None),
        }
    }

    /// Ends the session with the edited run.
    pub fn close(self) -> (r: Run)
        ensures
            r@ == self.current(),
    {
        self.run
    }

    /// Ends the session, discarding every staged edit: the run it was opened on.
    pub fn cancel(self) -> (r: Run)
        ensures
            r@ == self.opened_on(),
    {
        self.snapshot
    }
}

} // verus!
