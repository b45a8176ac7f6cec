use vstd::prelude::*;
use crate::delta::{
    prev_reference, previous_reference, row_values, segment_views, PERSONAL_BEST,
};
use crate::run::{
    comparison_time, lemma_lookup_set_in, lemma_views_update, recorded_time, set_in, Run,
    RunView, SegmentView, TimingMethod,
};

verus! {

/// A segment's time is its personal-best split less the previous recorded
/// split. Setting segment `i`'s time to `d` gives it the split
/// `prev_reference + d`; clearing it (`None`) makes its split absent. Every
/// later recorded split moves by as much as the reference after `i` moved,
/// so that later segment times are kept.
///
/// Deliberate choices of this model: the previous split is the last one that
/// is recorded and non-zero, as in the row computation (an absent and a zero
/// split are both skipped); a moved split is floored at zero; and no repair
/// pass follows (splits are not made non-decreasing, best segments are not
/// lowered), as the editing rules of this library describe none.
pub open spec fn new_reference(
    segs: Seq<SegmentView>,
    i: int,
    method: TimingMethod,
    d: Option<u64>,
) -> int {
    prev_reference(segs, i, PERSONAL_BEST@, method) + match d {
        Some(x) => x as int,
        None => 0,
    }
}

/// How far the splits after segment `i` move.
pub open spec fn split_shift(
    segs: Seq<SegmentView>,
    i: int,
    method: TimingMethod,
    d: Option<u64>,
) -> int {
    new_reference(segs, i, method, d) - prev_reference(segs, i + 1, PERSONAL_BEST@, method)
}

/// Whether setting segment `i`'s time rewrites the split of segment `j`.
pub open spec fn is_shifted(segs: Seq<SegmentView>, i: int, method: TimingMethod, j: int) -> bool {
    j == i || (j > i && recorded_time(segs[j], PERSONAL_BEST@, method) != 0)
}

/// The new personal-best split of a rewritten segment `j`, when present.
pub open spec fn shifted_split(
    segs: Seq<SegmentView>,
    i: int,
    method: TimingMethod,
    d: Option<u64>,
    j: int,
) -> int {
    if j == i {
        new_reference(segs, i, method, d)
    } else {
        let v = recorded_time(segs[j], PERSONAL_BEST@, method) + split_shift(segs, i, method, d);
        if v >= 0 {
            v
        } else {
            0
        }
    }
}

/// Whether the rewritten segment `j` keeps a split (all but a cleared `i`).
pub open spec fn keeps_split(i: int, d: Option<u64>, j: int) -> bool {
    !(j == i && d is None)
}

/// Every rewritten split fits in 64 bits.
pub open spec fn segment_time_fits(
    segs: Seq<SegmentView>,
    i: int,
    method: TimingMethod,
    d: Option<u64>,
) -> bool {
    forall|j: int|
        0 <= j < segs.len() && is_shifted(segs, i, method, j) && keeps_split(i, d, j)
            ==> shifted_split(segs, i, method, d, j) <= u64::MAX
}

/// A segment with its personal-best split under `method` set to `v`.
pub open spec fn with_pb(seg: SegmentView, method: TimingMethod, v: Option<u64>) -> SegmentView {
    SegmentView { comparisons: set_in(seg.comparisons, PERSONAL_BEST@, method, v), ..seg }
}

/// The new split of a rewritten segment `j`.
pub open spec fn new_split_of(
    segs: Seq<SegmentView>,
    i: int,
    method: TimingMethod,
    d: Option<u64>,
    j: int,
) -> Option<u64> {
    if keeps_split(i, d, j) {
        Some(shifted_split(segs, i, method, d, j) as u64)
    } else {
        None
    }
}

/// The segments after setting segment `i`'s time to `d` under `method`.
pub open spec fn segment_time_edit(
    segs: Seq<SegmentView>,
    i: int,
    method: TimingMethod,
    d: Option<u64>,
) -> Seq<SegmentView> {
    segment_time_edit_upto(segs, i, method, d, segs.len() as int)
}

/// The segments with the first `k` of them as `segment_time_edit` leaves them.
pub open spec fn segment_time_edit_upto(
    segs: Seq<SegmentView>,
    i: int,
    method: TimingMethod,
    d: Option<u64>,
    k: int,
) -> Seq<SegmentView> {
    Seq::new(
        segs.len(),
        |j: int|
            if j < k && is_shifted(segs, i, method, j) {
                with_pb(segs[j], method, new_split_of(segs, i, method, d, j))
            } else {
                segs[j]
            },
    )
}

/// `run` with the time of segment `index` set to `value` (cleared when
/// `None`) under `method`; `None` when a rewritten split would not fit in 64
/// bits.
pub fn set_segment_time_at(run: &Run, index: usize, method: TimingMethod, value: Option<u64>) -> (r:
    Option<Run>)
    requires
        index < run@.segments.len(),
    ensures
        match r {
            None => !segment_time_fits(run@.segments, index as int, method, value),
            Some(x) => segment_time_fits(run@.segments, index as int, method, value) && x@
                == (RunView {
                segments: segment_time_edit(run@.segments, index as int, method, value),
                ..run@
            }),
        },
{
    let segments = run.segments.as_slice();
    let ghost segs = run@.segments;
    assert(segment_views(segments@) =~= segs);
    let n = segments.len();
    let prev = previous_reference(segments, index, PERSONAL_BEST, method);
    let after = previous_reference(segments, index + 1, PERSONAL_BEST, method);
    let new_split: u64 = match value {
        Some(ms) => {
            if prev > u64::MAX - ms {
                assert(is_shifted(segs, index as int, method, index as int));
                assert(keeps_split(index as int, value, index as int));
                assert(shifted_split(segs, index as int, method, value, index as int) > u64::MAX);
                return None;
            }
            prev + ms
        },
        None => prev,
    };
    let kept: Option<u64> = match value {
        Some(_) => Some(new_split),
        None => None,
    };
    let mut edited = run.duplicate();
    assert(edited.segments@.len() == n);
    let ghost before = edited.segments@;
    edited.segments[index].set_comparison_time(PERSONAL_BEST, method, kept);
    proof {
        lemma_views_update(before, index as int, edited.segments@[index as int]);
        assert(edited@.segments =~= segment_time_edit_upto(
            segs,
            index as int,
            method,
            value,
            index + 1,
        ));
    }
    let mut j: usize = index + 1;
    while j < n
        invariant
            index < j <= n,
            n == segs.len(),
            segments@ == run.segments@,
            segs == run@.segments,
            segs == segment_views(segments@),
            after == prev_reference(segs, index + 1, PERSONAL_BEST@, method),
            new_split == new_reference(segs, index as int, method, value),
            edited@.game_name == run@.game_name,
            edited@.category_name == run@.category_name,
            edited.segments@.len() == n,
            edited@.segments == segment_time_edit_upto(segs, index as int, method, value, j as int),
            forall|k: int|
                0 <= k < j && is_shifted(segs, index as int, method, k) && keeps_split(
                    index as int,
                    value,
                    k,
                ) ==> shifted_split(segs, index as int, method, value, k) <= u64::MAX,
        decreases n - j,
    {
        assert(segs[j as int] == segments@[j as int]@);
        let t = match segments[j].comparison_timing_method(PERSONAL_BEST, method) {
            Some(t) => t,
            None => 0,
        };
        if t != 0 {
            let v: u64 = if new_split >= after {
                let up = new_split - after;
                if t > u64::MAX - up {
                    assert(is_shifted(segs, index as int, method, j as int));
                    assert(keeps_split(index as int, value, j as int));
                    assert(shifted_split(segs, index as int, method, value, j as int) > u64::MAX);
                    return None;
                }
                t + up
            } else {
                let down = after - new_split;
                if t >= down {
                    t - down
                } else {
                    0
                }
            };
            assert(v == shifted_split(segs, index as int, method, value, j as int));
            let ghost previous = edited.segments@;
            assert(previous[j as int]@ == edited@.segments[j as int]);
            assert(edited@.segments[j as int] == segs[j as int]);
            edited.segments[j].set_comparison_time(PERSONAL_BEST, method, Some(v));
            proof {
                lemma_views_update(previous, j as int, edited.segments@[j as int]);
                assert(edited.segments@[j as int]@ == with_pb(segs[j as int], method, Some(v)));
            }
        }
        assert(t == recorded_time(segs[j as int], PERSONAL_BEST@, method));
        assert(edited@.segments =~= segment_time_edit_upto(
            segs,
            index as int,
            method,
            value,
            j + 1,
        ));
        j = j + 1;
    }
    assert(edited@.segments =~= segment_time_edit(segs, index as int, method, value));
    Some(edited)
}

/// The previous reference at `i` depends on the segments before `i` alone.
pub proof fn lemma_prev_reference_prefix(
    a: Seq<SegmentView>,
    b: Seq<SegmentView>,
    i: int,
    name: Seq<char>,
    method: TimingMethod,
)
    requires
        0 <= i <= a.len(),
        i <= b.len(),
        forall|j: int| 0 <= j < i ==> a[j] == b[j],
    ensures
        prev_reference(a, i, name, method) == prev_reference(b, i, name, method),
    decreases i,
{
    if i > 0 {
        lemma_prev_reference_prefix(a, b, i - 1, name, method);
    }
}

proof fn lemma_with_pb_time(seg: SegmentView, method: TimingMethod, v: Option<u64>)
    ensures
        comparison_time(with_pb(seg, method, v), PERSONAL_BEST@, method) == v,
{
    lemma_lookup_set_in(seg.comparisons, PERSONAL_BEST@, method, v);
}

/// Setting segment `i`'s time to `d` makes its segment delta against the
/// personal best exactly `d` (absent when cleared), leaves the segments before it as they were, and
/// changes no name, best segment time or attempt split time.
pub proof fn lemma_segment_time_set(
    segs: Seq<SegmentView>,
    i: int,
    method: TimingMethod,
    d: Option<u64>,
)
    requires
        0 <= i < segs.len(),
        segment_time_fits(segs, i, method, d),
    ensures
        ({
            let e = segment_time_edit(segs, i, method, d);
            &&& e.len() == segs.len()
            &&& row_values(e, i, PERSONAL_BEST@, method).segment_delta == d
            &&& forall|j: int| 0 <= j < i ==> e[j] == segs[j]
            &&& forall|j: int|
                0 <= j < segs.len() ==> e[j].name == segs[j].name && e[j].best_segment_time
                    == segs[j].best_segment_time && e[j].split_time == segs[j].split_time
        }),
{
    let e = segment_time_edit(segs, i, method, d);
    lemma_prev_reference_prefix(e, segs, i, PERSONAL_BEST@, method);
    lemma_with_pb_time(segs[i], method, new_split_of(segs, i, method, d, i));
}

/// Every later segment keeps its segment delta against the personal best,
/// provided no later recorded split is moved down to zero or below.
pub proof fn lemma_segment_time_keeps_later(
    segs: Seq<SegmentView>,
    i: int,
    method: TimingMethod,
    d: Option<u64>,
)
    requires
        0 <= i < segs.len(),
        segment_time_fits(segs, i, method, d),
        forall|j: int|
            i < j < segs.len() && recorded_time(segs[j], PERSONAL_BEST@, method) != 0 ==> 
            #[trigger] recorded_time(segs[j], PERSONAL_BEST@, method) + split_shift(
                segs,
                i,
                method,
                d,
            ) > 0,
    ensures
        forall|j: int|
            i < j < segs.len() ==> #[trigger] row_values(
                segment_time_edit(segs, i, method, d),
                j,
                PERSONAL_BEST@,
                method,
            ).segment_delta == row_values(segs, j, PERSONAL_BEST@, method).segment_delta,
{
    let e = segment_time_edit(segs, i, method, d);
    let shift = split_shift(segs, i, method, d);
    assert forall|j: int| i < j < segs.len() implies #[trigger] row_values(
        e,
        j,
        PERSONAL_BEST@,
        method,
    ).segment_delta == row_values(segs, j, PERSONAL_BEST@, method).segment_delta by {
        lemma_shifted_reference(segs, i, method, d, j);
        if is_shifted(segs, i, method, j) {
            lemma_with_pb_time(segs[j], method, new_split_of(segs, i, method, d, j));
        }
    }
}

/// Past segment `i`, the new previous reference is the old one moved by the shift.
proof fn lemma_shifted_reference(segs: Seq<SegmentView>, i: int, method: TimingMethod, d: Option<u64>, j: int)
    requires
        0 <= i < j <= segs.len(),
        segment_time_fits(segs, i, method, d),
        forall|k: int|
            i < k < segs.len() && recorded_time(segs[k], PERSONAL_BEST@, method) != 0 ==> 
            #[trigger] recorded_time(segs[k], PERSONAL_BEST@, method) + split_shift(
                segs,
                i,
                method,
                d,
            ) > 0,
    ensures
        prev_reference(segment_time_edit(segs, i, method, d), j, PERSONAL_BEST@, method)
            == prev_reference(segs, j, PERSONAL_BEST@, method) + split_shift(
            segs,
            i,
            method,
            d,
        ),
    decreases j,
{
    let e = segment_time_edit(segs, i, method, d);
    let pb = PERSONAL_BEST@;
    if j == i + 1 {
        lemma_prev_reference_prefix(e, segs, i, pb, method);
        lemma_with_pb_time(segs[i], method, new_split_of(segs, i, method, d, i));
    } else {
        lemma_shifted_reference(segs, i, method, d, j - 1);
        if is_shifted(segs, i, method, j - 1) {
            lemma_with_pb_time(segs[j - 1], method, new_split_of(segs, i, method, d, j - 1));
        }
    }
}

} // verus!
