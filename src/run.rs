use vstd::prelude::*;

verus! {

/// The two parallel timebases tracked for every segment.
#[derive(Clone, Copy, Debug, PartialEq, Eq, Structural)]
pub enum TimingMethod {
    RealTime,
    GameTime,
}

/// A time under both timing methods, in milliseconds; `None` when absent.
#[derive(Clone, Copy, Debug, PartialEq, Eq, Structural)]
pub struct Time {
    pub real_time: Option<u64>,
    pub game_time: Option<u64>,
}

impl Time {
    /// The time under `method`.
    pub open spec fn spec_get(self, method: TimingMethod) -> Option<u64> {
        match method {
            TimingMethod::RealTime => self.real_time,
            TimingMethod::GameTime => self.game_time,
        }
    }

    /// A time with nothing recorded under either method.
    pub fn empty() -> (r: Time)
        ensures
            r.real_time is None,
            r.game_time is None,
    {
        Time { real_time: None, game_time: None }
    }

    /// The time under `method`.
    pub fn get(&self, method: TimingMethod) -> (r: Option<u64>)
        ensures
            r == self.spec_get(method),
    {
        match method {
            TimingMethod::RealTime => self.real_time,
            TimingMethod::GameTime => self.game_time,
        }
    }

    /// This time with the entry for `method` replaced by `value`.
    pub open spec fn spec_with(self, method: TimingMethod, value: Option<u64>) -> Time {
        match method {
            TimingMethod::RealTime => Time { real_time: value, ..self },
            TimingMethod::GameTime => Time { game_time: value, ..self },
        }
    }

    /// This time with the entry for `method` replaced by `value`.
    pub fn with_timing_method(self, method: TimingMethod, value: Option<u64>) -> (r: Time)
        ensures
            r == self.spec_with(method, value),
    {
        match method {
            TimingMethod::RealTime => Time { real_time: value, ..self },
            TimingMethod::GameTime => Time { game_time: value, ..self },
        }
    }
}

/// A named comparison time of one segment.
#[derive(Debug)]
pub struct Comparison {
    pub name: String,
    pub time: Time,
}

/// One leg of a run.
#[derive(Debug)]
pub struct Segment {
    pub name: String,
    /// Comparison times by name; the first entry of a name is the one in force.
    pub comparisons: Vec<Comparison>,
    pub best_segment_time: Time,
    /// The split time of the current attempt, once it has reached this segment.
    pub split_time: Time,
}

/// The ordered record of segments of one game and category.
#[derive(Debug)]
pub struct Run {
    pub game_name: String,
    pub category_name: String,
    pub segments: Vec<Segment>,
}

/// The mathematical value of a segment.
pub struct SegmentView {
    pub name: Seq<char>,
    pub comparisons: Seq<(Seq<char>, Time)>,
    pub best_segment_time: Time,
    pub split_time: Time,
}

/// The mathematical value of a run.
pub struct RunView {
    pub game_name: Seq<char>,
    pub category_name: Seq<char>,
    pub segments: Seq<SegmentView>,
}

impl View for Comparison {
    type V = (Seq<char>, Time);

    open spec fn view(&self) -> (Seq<char>, Time) {
        (self.name@, self.time)
    }
}

impl View for Segment {
    type V = SegmentView;

    open spec fn view(&self) -> SegmentView {
        SegmentView {
            name: self.name@,
            comparisons: self.comparisons@.map_values(|c: Comparison| c@),
            best_segment_time: self.best_segment_time,
            split_time: self.split_time,
        }
    }
}

impl View for Run {
    type V = RunView;

    open spec fn view(&self) -> RunView {
        RunView {
            game_name: self.game_name@,
            category_name: self.category_name@,
            segments: self.segments@.map_values(|s: Segment| s@),
        }
    }
}

/// The time in force for comparison `name`: that of its first entry.
pub open spec fn lookup(comps: Seq<(Seq<char>, Time)>, name: Seq<char>) -> Option<Time>
    decreases comps.len(),
{
    if comps.len() == 0 {
        None
    } else if comps[0].0 == name {
        Some(comps[0].1)
    } else {
        lookup(comps.drop_first(), name)
    }
}

/// The comparison time of a segment for `name` under `method`.
pub open spec fn comparison_time(seg: SegmentView, name: Seq<char>, method: TimingMethod) -> Option<
    u64,
> {
    match lookup(seg.comparisons, name) {
        Some(t) => t.spec_get(method),
        None => None,
    }
}

/// The comparison time, with an absent one read as zero.
pub open spec fn recorded_time(seg: SegmentView, name: Seq<char>, method: TimingMethod) -> u64 {
    match comparison_time(seg, name, method) {
        Some(t) => t,
        None => 0,
    }
}

/// Replaces the time under `method` of the first entry named `name`, or
/// appends an entry holding only that time when there is none.
pub open spec fn set_in(
    comps: Seq<(Seq<char>, Time)>,
    name: Seq<char>,
    method: TimingMethod,
    value: Option<u64>,
) -> Seq<(Seq<char>, Time)>
    decreases comps.len(),
{
    if comps.len() == 0 {
        seq![(name, Time { real_time: None, game_time: None }.spec_with(method, value))]
    } else if comps[0].0 == name {
        comps.update(0, (name, comps[0].1.spec_with(method, value)))
    } else {
        seq![comps[0]] + set_in(comps.drop_first(), name, method, value)
    }
}

impl Comparison {
    /// A copy equal in every field.
    pub fn duplicate(&self) -> (r: Comparison)
        ensures
            r@ == self@,
    {
        Comparison { name: self.name.clone(), time: self.time }
    }
}

impl Segment {
    /// A segment with the given name and nothing recorded.
    pub fn new(name: String) -> (r: Segment)
        ensures
            r@.name == name@,
            r@.comparisons.len() == 0,
            r.best_segment_time == (Time { real_time: None, game_time: None }),
            r.split_time == (Time { real_time: None, game_time: None }),
    {
        Segment {
            name,
            comparisons: Vec::new(),
            best_segment_time: Time::empty(),
            split_time: Time::empty(),
        }
    }

    /// A copy equal in every field.
    pub fn duplicate(&self) -> (r: Segment)
        ensures
            r@ == self@,
    {
        let mut comparisons: Vec<Comparison> = Vec::new();
        for i in 0..self.comparisons.len()
            invariant
                comparisons.len() == i,
                forall|j: int| 0 <= j < i ==> comparisons@[j]@ == self.comparisons@[j]@,
        {
            comparisons.push(self.comparisons[i].duplicate());
        }
        assert(comparisons@.map_values(|c: Comparison| c@) =~= self.comparisons@.map_values(
            |c: Comparison| c@,
        ));
        Segment {
            name: self.name.clone(),
            comparisons,
            best_segment_time: self.best_segment_time,
            split_time: self.split_time,
        }
    }

    /// The comparison time for `name` under `method`.
    pub fn comparison_timing_method(&self, name: &str, method: TimingMethod) -> (r: Option<u64>)
        ensures
            r == comparison_time(self@, name@, method),
    {
        let ghost comps = self@.comparisons;
        let key = name.to_owned();
        let mut i: usize = 0;
        assert(comps.subrange(0, comps.len() as int) =~= comps);
        while i < self.comparisons.len()
            invariant
                i <= self.comparisons.len(),
                key@ == name@,
                comps == self@.comparisons,
                lookup(comps, name@) == lookup(comps.subrange(i as int, comps.len() as int), name@),
            decreases self.comparisons.len() - i,
        {
            let ghost rest = comps.subrange(i as int, comps.len() as int);
            assert(rest.drop_first() =~= comps.subrange(i + 1, comps.len() as int));
            assert(rest[0] == comps[i as int]);
            assert(comps[i as int] == self.comparisons@[i as int]@);
            if self.comparisons[i].name == key {
                return self.comparisons[i].time.get(method);
            }
            i = i + 1;
        }
        proof {
            assert(comps.subrange(i as int, comps.len() as int).len() == 0);
        }
        None
    }

    /// Sets the comparison time for `name` under `method`.
    pub fn set_comparison_time(&mut self, name: &str, method: TimingMethod, value: Option<u64>)
        ensures
            final(self)@ == (SegmentView {
                comparisons: set_in(old(self)@.comparisons, name@, method, value),
                ..old(self)@
            }),
    {
        let ghost comps = old(self)@.comparisons;
        let key = name.to_owned();
        let mut i: usize = 0;
        while i < self.comparisons.len()
            invariant
                i <= self.comparisons.len(),
                self@ == old(self)@,
                key@ == name@,
                comps == self@.comparisons,
                forall|j: int| 0 <= j < i ==> comps[j].0 != name@,
            decreases self.comparisons.len() - i,
        {
            assert(comps[i as int] == self.comparisons@[i as int]@);
            if self.comparisons[i].name == key {
                proof {
                    lemma_set_in_at(comps, name@, method, value, i as int);
                }
                let t = self.comparisons[i].time.with_timing_method(method, value);
                self.comparisons[i].time = t;
                assert(self@.comparisons =~= set_in(comps, name@, method, value));
                return;
            }
            i = i + 1;
        }
        proof {
            lemma_set_in_append(comps, name@, method, value);
        }
        let time = Time::empty().with_timing_method(method, value);
        self.comparisons.push(Comparison { name: key, time });
        assert(self@.comparisons =~= set_in(comps, name@, method, value));
    }
}

proof fn lemma_set_in_at(
    comps: Seq<(Seq<char>, Time)>,
    name: Seq<char>,
    method: TimingMethod,
    value: Option<u64>,
    i: int,
)
    requires
        0 <= i < comps.len(),
        comps[i].0 == name,
        forall|j: int| 0 <= j < i ==> comps[j].0 != name,
    ensures
        set_in(comps, name, method, value) == comps.update(
            i,
            (name, comps[i].1.spec_with(method, value)),
        ),
    decreases i,
{
    if i > 0 {
        let rest = comps.drop_first();
        lemma_set_in_at(rest, name, method, value, i - 1);
        assert(seq![comps[0]] + rest.update(i - 1, (name, comps[i].1.spec_with(method, value)))
            =~= comps.update(i, (name, comps[i].1.spec_with(method, value))));
    }
}

proof fn lemma_set_in_append(
    comps: Seq<(Seq<char>, Time)>,
    name: Seq<char>,
    method: TimingMethod,
    value: Option<u64>,
)
    requires
        forall|j: int| 0 <= j < comps.len() ==> comps[j].0 != name,
    ensures
        set_in(comps, name, method, value) == comps.push(
            (name, Time { real_time: None, game_time: None }.spec_with(method, value)),
        ),
    decreases comps.len(),
{
    if comps.len() > 0 {
        let rest = comps.drop_first();
        lemma_set_in_append(rest, name, method, value);
        assert(seq![comps[0]] + rest.push(
            (name, Time { real_time: None, game_time: None }.spec_with(method, value)),
        ) =~= comps.push(
            (name, Time { real_time: None, game_time: None }.spec_with(method, value)),
        ));
    }
}

/// Replacing one element of a vector of segments replaces one view.
pub proof fn lemma_views_update(before: Seq<Segment>, i: int, s: Segment)
    requires
        0 <= i < before.len(),
    ensures
        before.update(i, s).map_values(|x: Segment| x@) == before.map_values(|x: Segment| x@).update(
            i,
            s@,
        ),
{
    assert(before.update(i, s).map_values(|x: Segment| x@) =~= before.map_values(
        |x: Segment| x@,
    ).update(i, s@));
}

/// After `set_in`, the entry in force for `name` is the old one (or an empty
/// time) with `value` under `method`.
pub proof fn lemma_lookup_set_in(
    comps: Seq<(Seq<char>, Time)>,
    name: Seq<char>,
    method: TimingMethod,
    value: Option<u64>,
)
    ensures
        lookup(set_in(comps, name, method, value), name) == Some(
            match lookup(comps, name) {
                Some(t) => t,
                None => Time { real_time: None, game_time: None },
            }.spec_with(method, value),
        ),
    decreases comps.len(),
{
    if comps.len() > 0 && comps[0].0 != name {
        let rest = comps.drop_first();
        lemma_lookup_set_in(rest, name, method, value);
        assert((seq![comps[0]] + set_in(rest, name, method, value)).drop_first() =~= set_in(
            rest,
            name,
            method,
            value,
        ));
    }
}

impl Run {
    /// An empty run with the given game and category names.
    pub fn new(game_name: String, category_name: String) -> (r: Run)
        ensures
            r@.game_name == game_name@,
            r@.category_name == category_name@,
            r@.segments.len() == 0,
    {
        Run { game_name, category_name, segments: Vec::new() }
    }

    /// Appends a segment at the end.
    pub fn push_segment(&mut self, segment: Segment)
        ensures
            final(self)@ == (RunView { segments: old(self)@.segments.push(segment@), ..old(self)@ }),
    {
        self.segments.push(segment);
        assert(self@.segments =~= old(self)@.segments.push(segment@));
    }

    /// The number of segments.
    pub fn len(&self) -> (r: usize)
        ensures
            r == self@.segments.len(),
    {
        self.segments.len()
    }

    /// A copy equal in every field.
    pub fn duplicate(&self) -> (r: Run)
        ensures
            r@ == self@,
    {
        let mut segments: Vec<Segment> = Vec::new();
        for i in 0..self.segments.len()
            invariant
                segments.len() == i,
                forall|j: int| 0 <= j < i ==> segments@[j]@ == self.segments@[j]@,
        {
            segments.push(self.segments[i].duplicate());
        }
        assert(segments@.map_values(|s: Segment| s@) =~= self.segments@.map_values(
            |s: Segment| s@,
        ));
        Run {
            game_name: self.game_name.clone(),
            category_name: self.category_name.clone(),
            segments,
        }
    }
}

} // verus!
