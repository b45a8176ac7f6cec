use vstd::prelude::*;
use crate::run::{comparison_time, recorded_time, Segment, SegmentView, TimingMethod};

verus! {

/// The comparison holding each segment's split time in the personal best.
pub const PERSONAL_BEST: &'static str = "Personal Best";

/// The comparison holding the sum of best segments up to each segment.
pub const BEST_SEGMENTS: &'static str = "Best Segments";

/// The values of all segments.
pub open spec fn segment_views(segments: Seq<Segment>) -> Seq<SegmentView> {
    segments.map_values(|s: Segment| s@)
}

/// The nearest recorded, non-zero time for `name` before position `i`,
/// or zero when there is none.
pub open spec fn prev_reference(
    segs: Seq<SegmentView>,
    i: int,
    name: Seq<char>,
    method: TimingMethod,
) -> u64
    decreases i,
{
    if i <= 0 {
        0
    } else if recorded_time(segs[i - 1], name, method) != 0 {
        recorded_time(segs[i - 1], name, method)
    } else {
        prev_reference(segs, i - 1, name, method)
    }
}

/// `a - b`, floored at zero.
pub open spec fn clamped_sub(a: u64, b: u64) -> u64 {
    if a >= b {
        (a - b) as u64
    } else {
        0
    }
}

/// The numeric values shown in one row, in milliseconds.
#[derive(Clone, Copy, Debug, PartialEq, Eq, Structural)]
pub struct RowValues {
    /// The segment's comparison time; `None` when absent.
    pub split_time: Option<u64>,
    /// The split time less the previous reference; `None` when the split time is absent.
    pub segment_delta: Option<u64>,
    /// The best segment time less the previous gold.
    pub best_delta: u64,
}

/// The row values of segment `i`, for comparison `name` under `method`.
pub open spec fn row_values(
    segs: Seq<SegmentView>,
    i: int,
    name: Seq<char>,
    method: TimingMethod,
) -> RowValues {
    let split = comparison_time(segs[i], name, method);
    let best = match segs[i].best_segment_time.spec_get(method) {
        Some(t) => t,
        None => 0,
    };
    RowValues {
        split_time: split,
        segment_delta: match split {
            Some(t) => Some(clamped_sub(t, prev_reference(segs, i, name, method))),
            None => None,
        },
        best_delta: clamped_sub(best, prev_reference(segs, i, BEST_SEGMENTS@, method)),
    }
}

/// The previous reference is the time of the nearest earlier segment with a
/// recorded, non-zero time, and zero when every earlier time is absent or zero.
pub proof fn lemma_prev_reference_nearest(
    segs: Seq<SegmentView>,
    i: int,
    name: Seq<char>,
    method: TimingMethod,
)
    requires
        0 <= i <= segs.len(),
    ensures
        prev_reference(segs, i, name, method) == 0 ==> forall|k: int|
            0 <= k < i ==> #[trigger] recorded_time(segs[k], name, method) == 0,
        prev_reference(segs, i, name, method) != 0 ==> exists|k: int|
            0 <= k < i && recorded_time(segs[k], name, method) == prev_reference(
                segs,
                i,
                name,
                method,
            ) && forall|j: int|
                k < j < i ==> #[trigger] recorded_time(segs[j], name, method) == 0,
    decreases i,
{
    if i > 0 {
        lemma_prev_reference_nearest(segs, i - 1, name, method);
        if recorded_time(segs[i - 1], name, method) == 0 && prev_reference(segs, i, name, method)
            != 0 {
            let k = choose|k: int|
                0 <= k < i - 1 && recorded_time(segs[k], name, method) == prev_reference(
                    segs,
                    i - 1,
                    name,
                    method,
                ) && forall|j: int|
                    k < j < i - 1 ==> #[trigger] recorded_time(segs[j], name, method) == 0;
            assert(forall|j: int| k < j < i ==> #[trigger] recorded_time(segs[j], name, method) == 0);
        }
        if recorded_time(segs[i - 1], name, method) != 0 {
            assert(forall|j: int|
                i - 1 < j < i ==> #[trigger] recorded_time(segs[j], name, method) == 0);
        }
    }
}

/// The segment delta is absent exactly when the split time is; otherwise it
/// is the split time less the previous reference when that is not negative,
/// and zero when it would be.
pub proof fn lemma_segment_delta(
    segs: Seq<SegmentView>,
    i: int,
    name: Seq<char>,
    method: TimingMethod,
)
    requires
        0 <= i < segs.len(),
    ensures
        ({
            let v = row_values(segs, i, name, method);
            let prev = prev_reference(segs, i, name, method);
            &&& v.split_time is None <==> v.segment_delta is None
            &&& v.split_time is Some && v.split_time->Some_0 >= prev ==> v.segment_delta == Some(
                (v.split_time->Some_0 - prev) as u64,
            )
            &&& v.split_time is Some && v.split_time->Some_0 < prev ==> v.segment_delta == Some(
                0u64,
            )
        }),
{
}

/// The nearest recorded, non-zero time for `name` before `index`, or zero.
pub fn previous_reference(
    segments: &[Segment],
    index: usize,
    name: &str,
    method: TimingMethod,
) -> (r: u64)
    requires
        index <= segments@.len(),
    ensures
        r == prev_reference(segment_views(segments@), index as int, name@, method),
{
    let ghost segs = segment_views(segments@);
    let mut k: usize = index;
    while k > 0
        invariant
            k <= index <= segments@.len(),
            segs == segment_views(segments@),
            prev_reference(segs, index as int, name@, method) == prev_reference(
                segs,
                k as int,
                name@,
                method,
            ),
        decreases k,
    {
        assert(segs[k - 1] == segments@[k - 1]@);
        let t = match segments[k - 1].comparison_timing_method(name, method) {
            Some(t) => t,
            None => 0,
        };
        if t != 0 {
            return t;
        }
        k = k - 1;
    }
    0
}

/// The numeric values of the row of segment `index`: its split time, its
/// segment delta against the previous recorded split, and its best segment
/// time against the previous recorded gold.
pub fn compute_row_values(
    segments: &[Segment],
    index: usize,
    comparison: &str,
    method: TimingMethod,
) -> (r: RowValues)
    requires
        index < segments@.len(),
    ensures
        r == row_values(segment_views(segments@), index as int, comparison@, method),
{
    let ghost segs = segment_views(segments@);
    assert(segs[index as int] == segments@[index as int]@);
    let previous = previous_reference(segments, index, comparison, method);
    let previous_gold = previous_reference(segments, index, BEST_SEGMENTS, method);
    let split_time = segments[index].comparison_timing_method(comparison, method);
    let segment_delta = match split_time {
        Some(t) => Some(if t >= previous { t - previous } else { 0 }),
        None => None,
    };
    let best = match segments[index].best_segment_time.get(method) {
        Some(t) => t,
        None => 0,
    };
    let best_delta = if best >= previous_gold { best - previous_gold } else { 0 };
    RowValues { split_time, segment_delta, best_delta }
}

} // verus!
