use vstd::prelude::*;
use crate::codec::{parse, parse_result, ParseError};
use crate::delta::PERSONAL_BEST;
use crate::edit::{set_best_of, set_comparison_of};
use crate::segment_time::{segment_time_edit, segment_time_fits, set_segment_time_at};
use crate::run::{Run, RunView, SegmentView, TimingMethod};

verus! {

/// `run` with `f` applied to segment `index`.
pub open spec fn edit_segment(
    run: RunView,
    index: int,
    f: spec_fn(SegmentView) -> SegmentView,
) -> RunView {
    RunView { segments: run.segments.update(index, f(run.segments[index])), ..run }
}

pub open spec fn rename_to(name: Seq<char>) -> spec_fn(SegmentView) -> SegmentView {
    |s: SegmentView| SegmentView { name: name, ..s }
}

/// The timing method stored under code `c`: 1 is game time, any other real time.
pub open spec fn method_of_code(c: i32) -> TimingMethod {
    if c == 1 {
        TimingMethod::GameTime
    } else {
        TimingMethod::RealTime
    }
}

/// `run` with the segment time of `index` set to `ms` under `method`, or
/// `None` when a rewritten split would not fit.
pub open spec fn segment_time_result(
    run: RunView,
    index: int,
    method: TimingMethod,
    ms: u64,
) -> Option<RunView> {
    if segment_time_fits(run.segments, index, method, Some(ms)) {
        Some(RunView { segments: segment_time_edit(run.segments, index, method, Some(ms)), ..run })
    } else {
        None
    }
}

/// `run` with `f` applied to segment `index`, as an edit that always applies.
pub open spec fn single_edit(
    run: RunView,
    index: int,
    f: spec_fn(SegmentView) -> SegmentView,
) -> Option<RunView> {
    Some(edit_segment(run, index, f))
}

/// What an edit of one segment's time from text gives: the parse error;
/// else `None` when `index` is out of range or `g` gives no run for the
/// parsed time; else the run that `g` gives.
pub open spec fn text_edit_ok(
    r: Result<Option<Run>, ParseError>,
    run: RunView,
    index: int,
    text: Seq<char>,
    g: spec_fn(u64) -> Option<RunView>,
) -> bool {
    match parse_result(text) {
        Err(e) => r == Err::<Option<Run>, ParseError>(e),
        Ok(ms) => match r {
            Err(_) => false,
            Ok(None) => index >= run.segments.len() || g(ms) is None,
            Ok(Some(x)) => index < run.segments.len() && g(ms) == Some(x@),
        },
    }
}

/// Editing settings shared by the edit entry points: the active timing method.
#[derive(Debug)]
pub struct EditorContext {
    timing_method: i32,
}

impl EditorContext {
    pub closed spec fn spec_method(&self) -> TimingMethod {
        method_of_code(self.timing_method)
    }

    /// A context editing real time.
    pub fn new() -> (r: EditorContext)
        ensures
            r.spec_method() == TimingMethod::RealTime,
    {
        EditorContext { timing_method: 0 }
    }

    /// The stored timing method.
    pub fn method(&self) -> (r: TimingMethod)
        ensures
            r == self.spec_method(),
    {
        if self.timing_method == 1 {
            TimingMethod::GameTime
        } else {
            TimingMethod::RealTime
        }
    }

    /// Stores `method`.
    pub fn set_method(&mut self, method: TimingMethod)
        ensures
            final(self).spec_method() == method,
    {
        self.timing_method = match method {
            TimingMethod::RealTime => 0,
            TimingMethod::GameTime => 1,
        };
    }

    /// The timing method used for edits.
    pub fn timing_method(&self) -> (r: TimingMethod)
        ensures
            r == self.spec_method(),
    {
        self.method()
    }

    /// Sets the timing method used for edits; true when it changed, which is
    /// when listeners of timing-method changes are to be told.
    pub fn set_timing_method(&mut self, method: TimingMethod) -> (changed: bool)
        ensures
            final(self).spec_method() == method,
            changed == (old(self).spec_method() != method),
    {
        let previous = self.method();
        self.set_method(method);
        previous != method
    }

    /// `run` with segment `index` renamed; `None` when `index` is out of range.
    pub fn set_segment_name(&self, run: &Run, index: usize, name: String) -> (r: Option<Run>)
        ensures
            match r {
                None => index >= run@.segments.len(),
                Some(x) => index < run@.segments.len() && x@ == edit_segment(
                    run@,
                    index as int,
                    rename_to(name@),
                ),
            },
    {
        if index >= run.segments.len() {
            return None;
        }
        let mut edited = run.duplicate();
        assert(edited.segments@.len() == edited@.segments.len());
        edited.segments[index].name = name;
        assert(edited@.segments =~= run@.segments.update(
            index as int,
            rename_to(name@)(run@.segments[index as int]),
        ));
        Some(edited)
    }

    /// `run` with the personal-best split time of segment `index` set to `ms`
    /// under `method`.
    fn with_split_time(run: &Run, index: usize, method: TimingMethod, ms: u64) -> (r: Run)
        requires
            index < run@.segments.len(),
        ensures
            r@ == edit_segment(
                run@,
                index as int,
                set_comparison_of(PERSONAL_BEST@, method, Some(ms)),
            ),
    {
        let mut edited = run.duplicate();
        assert(edited.segments@.len() == edited@.segments.len());
        edited.segments[index].set_comparison_time(PERSONAL_BEST, method, Some(ms));
        assert(edited@.segments =~= run@.segments.update(
            index as int,
            set_comparison_of(PERSONAL_BEST@, method, Some(ms))(run@.segments[index as int]),
        ));
        edited
    }

    /// `run` with the best segment time of segment `index` set to `ms` under `method`.
    fn with_best_time(run: &Run, index: usize, method: TimingMethod, ms: u64) -> (r: Run)
        requires
            index < run@.segments.len(),
        ensures
            r@ == edit_segment(run@, index as int, set_best_of(method, Some(ms))),
    {
        let mut edited = run.duplicate();
        assert(edited.segments@.len() == edited@.segments.len());
        let t = edited.segments[index].best_segment_time.with_timing_method(method, Some(ms));
        edited.segments[index].best_segment_time = t;
        assert(edited@.segments =~= run@.segments.update(
            index as int,
            set_best_of(method, Some(ms))(run@.segments[index as int]),
        ));
        edited
    }

    /// `run` with the personal-best split time of segment `index` set to `ms`
    /// under the active method; `None` when `ms` is negative or `index` out of range.
    /// Only that split changes: no repair pass follows that would make later
    /// splits non-decreasing or lower the best segment times.
    pub fn set_split_time_ms(&self, run: &Run, index: usize, ms: i64) -> (r: Option<Run>)
        ensures
            match r {
                None => ms < 0 || index >= run@.segments.len(),
                Some(x) => ms >= 0 && index < run@.segments.len() && x@ == edit_segment(
                    run@,
                    index as int,
                    set_comparison_of(PERSONAL_BEST@, self.spec_method(), Some(ms as u64)),
                ),
            },
    {
        if ms < 0 || index >= run.segments.len() {
            return None;
        }
        Some(Self::with_split_time(run, index, self.timing_method(), ms as u64))
    }

    /// `run` with the segment time of `index` (its personal-best split less
    /// the previous recorded one) set to `ms` under the active method, later
    /// splits moving with it; `None` when `ms` is negative, `index` out of
    /// range, or a rewritten split would not fit.
    pub fn set_segment_time_ms(&self, run: &Run, index: usize, ms: i64) -> (r: Option<Run>)
        ensures
            match r {
                None => ms < 0 || index >= run@.segments.len() || segment_time_result(
                    run@,
                    index as int,
                    self.spec_method(),
                    ms as u64,
                ) is None,
                Some(x) => ms >= 0 && index < run@.segments.len() && segment_time_result(
                    run@,
                    index as int,
                    self.spec_method(),
                    ms as u64,
                ) == Some(x@),
            },
    {
        if ms < 0 || index >= run.segments.len() {
            return None;
        }
        set_segment_time_at(run, index, self.timing_method(), Some(ms as u64))
    }

    /// `run` with the best segment time of segment `index` set to `ms` under
    /// the active method; `None` when `ms` is negative or `index` out of range.
    pub fn set_best_time_ms(&self, run: &Run, index: usize, ms: i64) -> (r: Option<Run>)
        ensures
            match r {
                None => ms < 0 || index >= run@.segments.len(),
                Some(x) => ms >= 0 && index < run@.segments.len() && x@ == edit_segment(
                    run@,
                    index as int,
                    set_best_of(self.spec_method(), Some(ms as u64)),
                ),
            },
    {
        if ms < 0 || index >= run.segments.len() {
            return None;
        }
        Some(Self::with_best_time(run, index, self.timing_method(), ms as u64))
    }

    /// The edit of a personal-best split time typed as text into row `index`.
    pub fn edit_split_time_text(&self, run: &Run, index: usize, text: &str) -> (r: Result<
        Option<Run>,
        ParseError,
    >)
        ensures
            text_edit_ok(
                r,
                run@,
                index as int,
                text@,
                |ms: u64|
                    single_edit(
                        run@,
                        index as int,
                        set_comparison_of(PERSONAL_BEST@, self.spec_method(), Some(ms)),
                    ),
            ),
    {
        let ms = match parse(text) {
            Ok(ms) => ms,
            Err(e) => {
                return Err(e);
            },
        };
        if index >= run.segments.len() {
            return Ok(None);
        }
        Ok(Some(Self::with_split_time(run, index, self.timing_method(), ms)))
    }

    /// The edit of a segment time typed as text into row `index`.
    pub fn edit_segment_time_text(&self, run: &Run, index: usize, text: &str) -> (r: Result<
        Option<Run>,
        ParseError,
    >)
        ensures
            text_edit_ok(
                r,
                run@,
                index as int,
                text@,
                |ms: u64| segment_time_result(run@, index as int, self.spec_method(), ms),
            ),
    {
        let ms = match parse(text) {
            Ok(ms) => ms,
            Err(e) => {
                return Err(e);
            },
        };
        if index >= run.segments.len() {
            return Ok(None);
        }
        Ok(set_segment_time_at(run, index, self.timing_method(), Some(ms)))
    }

    /// The edit of a best segment time typed as text into row `index`.
    pub fn edit_best_time_text(&self, run: &Run, index: usize, text: &str) -> (r: Result<
        Option<Run>,
        ParseError,
    >)
        ensures
            text_edit_ok(
                r,
                run@,
                index as int,
                text@,
                |ms: u64|
                    single_edit(run@, index as int, set_best_of(self.spec_method(), Some(ms))),
            ),
    {
        let ms = match parse(text) {
            Ok(ms) => ms,
            Err(e) => {
                return Err(e);
            },
        };
        if index >= run.segments.len() {
            return Ok(None);
        }
        Ok(Some(Self::with_best_time(run, index, self.timing_method(), ms)))
    }
}

/// Applies a prepared edit to the stored run. It takes effect only when the
/// write lock was obtained and there is an edit; the result says whether it
/// took effect, which is when listeners of run changes are to be told.
/// Otherwise the stored run is left as it was.
pub fn commit(stored: &mut Run, write_acquired: bool, edit: Option<Run>) -> (notify: bool)
    ensures
        notify == (write_acquired && edit is Some),
        notify ==> final(stored)@ == edit->Some_0@,
        !notify ==> final(stored)@ == old(stored)@,
{
    if !write_acquired {
        return false;
    }
    match edit {
        Some(run) => {
            *stored = run;
            true
        },
        None => false,
    }
}

} // verus!
