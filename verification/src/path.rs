//! Path prediction: where a predicted trajectory is cut into segments.
//!
//! A prediction walks the body's current conic forward in `STEPS` equal
//! increments of true anomaly. At each increment the caller measures, for the
//! time at which the body would be there, whether the predicted point has
//! left the parent's sphere of influence or entered that of a secondary. The
//! first increment at which that happens ends the segment; the prediction goes
//! on with the conic derived at that point, one level deeper, until a conic
//! is walked in full or `MAX_SEGMENTS` segments have been laid out.

use vstd::prelude::*;

verus! {

/// The number of increments in which one conic is walked.
pub const STEPS: usize = 128;

/// The most segments one prediction holds.
pub const MAX_SEGMENTS: usize = 8;

/// A change of gravitational primary.
#[derive(Clone, Copy, Debug, PartialEq, Eq, Structural)]
pub enum Crossing {
    /// The body leaves the sphere of influence of the secondary it orbits.
    Exit,
    /// The body enters the sphere of influence of the secondary with this
    /// index among the candidates.
    Entry { secondary: usize },
}

/// What the caller measured at one increment of a walk.
#[derive(Debug, PartialEq, Eq)]
pub struct StepSample {
    /// The radius at the start of the increment is one the prediction shows.
    /// An increment out of range is passed over: it is not examined for a
    /// crossing.
    pub in_range: bool,
    /// The predicted point lies beyond the parent's sphere of influence.
    /// Read only while the walked conic is about a secondary.
    pub outside_parent: bool,
    /// For each candidate secondary, whether the predicted point lies within
    /// its sphere of influence. Read only while the walked conic is about the
    /// top-level primary.
    pub within: Vec<bool>,
}

/// One stretch of a prediction: a conic and the part of it that the body is
/// predicted to travel.
#[derive(Debug, PartialEq)]
pub struct Segment<S> {
    /// The caller's description of the conic walked.
    pub state: S,
    /// Whether that conic is about a secondary.
    pub captured: bool,
    /// How many crossings lie between the body's current conic and this one.
    pub depth: usize,
    /// The number of increments walked: the segment covers the increments
    /// `0..steps`.
    pub steps: usize,
    /// The crossing found at the last increment walked, if the walk ended
    /// early.
    pub end: Option<Crossing>,
}

impl<S: Copy> Clone for Segment<S> {
    fn clone(&self) -> (copy: Self)
        ensures
            copy == *self,
    {
        *self
    }
}

impl<S: Copy> Copy for Segment<S> {

}

/// The index of the first `true` in `within`, if there is any.
pub open spec fn first_within(within: Seq<bool>) -> Option<int>
    decreases within.len(),
{
    if within.len() == 0 {
        None
    } else if first_within(within.drop_last()) is Some {
        first_within(within.drop_last())
    } else if within.last() {
        Some(within.len() - 1)
    } else {
        None
    }
}

/// The crossing that a sample shows for a conic of the given kind.
///
/// An increment out of range shows none. On a conic about a secondary the
/// only crossing is the exit from the parent's sphere of influence. On a
/// conic about the top-level primary it is the entry into the first
/// candidate whose sphere of influence holds the predicted point.
pub open spec fn crossing_at(captured: bool, sample: StepSample) -> Option<Crossing> {
    if !sample.in_range {
        None
    } else if captured {
        if sample.outside_parent {
            Some(Crossing::Exit)
        } else {
            None
        }
    } else {
        match first_within(sample.within@) {
            Some(k) => Some(Crossing::Entry { secondary: k as usize }),
            None => None,
        }
    }
}

/// `first_within` names an index exactly when some entry is `true`, and then
/// it names the first such entry.
pub proof fn lemma_first_within_is_first(within: Seq<bool>)
    ensures
        first_within(within) is None <==> forall|j: int| 0 <= j < within.len() ==> !within[j],
        first_within(within) matches Some(k) ==> {
            &&& 0 <= k < within.len()
            &&& within[k]
            &&& forall|j: int| 0 <= j < k ==> !within[j]
        },
    decreases within.len(),
{
    if within.len() > 0 {
        let front = within.drop_last();
        lemma_first_within_is_first(front);
        assert forall|j: int| 0 <= j < front.len() implies front[j] == within[j] by {}
        if first_within(front) is Some {
            let k = first_within(front)->0;
            assert(front[k]);
        } else if !within.last() {
            assert forall|j: int| 0 <= j < within.len() implies !within[j] by {
                if j < front.len() {
                    assert(!front[j]);
                }
            }
        }
    }
}

/// The index of the first candidate whose flag is set.
pub fn first_candidate(within: &Vec<bool>) -> (found: Option<usize>)
    ensures
        match found {
            Some(k) => first_within(within@) == Some(k as int),
            None => first_within(within@) is None,
        },
{
    let mut i: usize = 0;
    while i < within.len()
        invariant
            i <= within.len(),
            first_within(within@.take(i as int)) is None,
        decreases within.len() - i,
    {
        proof {
            let seen = within@.take(i as int + 1);
            assert(seen.drop_last() == within@.take(i as int));
            assert(seen.last() == within@[i as int]);
        }
        if within[i] {
            proof {
                lemma_first_within_extends(within@, i as int + 1);
            }
            return Some(i);
        }
        i = i + 1;
    }
    proof {
        assert(within@.take(within.len() as int) == within@);
    }
    None
}

/// Once a prefix holds a `true`, the first `true` of the whole sequence is
/// the first `true` of that prefix.
proof fn lemma_first_within_extends(within: Seq<bool>, n: int)
    requires
        0 <= n <= within.len(),
        first_within(within.take(n)) is Some,
    ensures
        first_within(within) == first_within(within.take(n)),
    decreases within.len() - n,
{
    if n < within.len() {
        let longer = within.take(n + 1);
        assert(longer.drop_last() == within.take(n));
        lemma_first_within_extends(within, n + 1);
    } else {
        assert(within.take(n) == within);
    }
}

/// The crossing that `sample` shows for a conic of the given kind.
pub fn step_crossing(captured: bool, sample: &StepSample) -> (crossing: Option<Crossing>)
    ensures
        crossing == crossing_at(captured, *sample),
{
    if !sample.in_range {
        None
    } else if captured {
        if sample.outside_parent {
            Some(Crossing::Exit)
        } else {
            None
        }
    } else {
        match first_candidate(&sample.within) {
            Some(k) => Some(Crossing::Entry { secondary: k }),
            None => None,
        }
    }
}

/// `samples` are measurements that account for `segment`: one per increment
/// walked, each an outcome of `probe` at the segment's conic and that
/// increment; none before the last shows a crossing; the last shows the
/// segment's end; and a segment without an end was walked in full.
pub open spec fn is_walk<S, P: Fn(S, usize) -> StepSample>(
    probe: P,
    segment: Segment<S>,
    samples: Seq<StepSample>,
) -> bool {
    &&& 1 <= segment.steps <= STEPS
    &&& samples.len() == segment.steps
    &&& forall|n: int|
        0 <= n < samples.len() ==> probe.ensures((segment.state, n as usize), #[trigger] samples[n])
    &&& forall|n: int|
        0 <= n < samples.len() - 1 ==> crossing_at(segment.captured, #[trigger] samples[n]) is None
    &&& crossing_at(segment.captured, samples.last()) == segment.end
    &&& segment.end is None ==> segment.steps == STEPS
}

/// `next` is the segment that follows `segment`: `segment` ends in a
/// crossing, the conic of `next` is an outcome of `follow` at that crossing,
/// and the crossing has changed the kind of primary.
pub open spec fn is_successor<S, N: Fn(S, usize, Crossing) -> S>(
    follow: N,
    segment: Segment<S>,
    next: Segment<S>,
) -> bool {
    &&& segment.steps >= 1
    &&& segment.end is Some
    &&& follow.ensures((segment.state, (segment.steps - 1) as usize, segment.end->0), next.state)
    &&& next.captured == !segment.captured
    &&& next.depth == segment.depth + 1
}

/// `path` is the prediction from `start`: it begins with the body's current
/// conic at depth 0, every segment is accounted for by some measurements,
/// each segment but the last is followed by its successor, and the last
/// either was walked without a crossing or fills the prediction.
pub open spec fn is_prediction<S, P: Fn(S, usize) -> StepSample, N: Fn(S, usize, Crossing) -> S>(
    start: S,
    captured: bool,
    probe: P,
    follow: N,
    path: Seq<Segment<S>>,
) -> bool {
    &&& 1 <= path.len() <= MAX_SEGMENTS
    &&& path[0].state == start
    &&& path[0].captured == captured
    &&& path[0].depth == 0
    &&& forall|i: int|
        0 <= i < path.len() ==> exists|samples: Seq<StepSample>|
            is_walk(probe, #[trigger] path[i], samples)
    &&& forall|i: int| 0 <= i < path.len() - 1 ==> is_successor(follow, #[trigger] path[i], path[i + 1])
    &&& path.len() < MAX_SEGMENTS ==> path.last().end is None
}

/// Whether `probe` can be called at every increment of every conic.
pub open spec fn can_probe<S, P: Fn(S, usize) -> StepSample>(probe: P) -> bool {
    forall|s: S, n: usize| n < STEPS ==> #[trigger] probe.requires((s, n))
}

/// Whether `follow` can be called at every increment of every conic, for
/// every crossing.
pub open spec fn can_follow<S, N: Fn(S, usize, Crossing) -> S>(follow: N) -> bool {
    forall|s: S, n: usize, c: Crossing| n < STEPS ==> #[trigger] follow.requires((s, n, c))
}

/// Walks one conic: probes the increments in order and stops at the first
/// that shows a crossing.
pub fn walk_segment<S: Copy, P: Fn(S, usize) -> StepSample>(
    state: S,
    captured: bool,
    depth: usize,
    probe: &P,
) -> (segment: Segment<S>)
    requires
        can_probe(*probe),
    ensures
        segment.state == state,
        segment.captured == captured,
        segment.depth == depth,
        exists|samples: Seq<StepSample>| is_walk(*probe, segment, samples),
{
    let ghost mut samples: Seq<StepSample> = Seq::empty();
    let mut n: usize = 0;
    while n < STEPS
        invariant
            n <= STEPS,
            can_probe(*probe),
            samples.len() == n,
            forall|k: int|
                0 <= k < n ==> probe.ensures((state, k as usize), #[trigger] samples[k]),
            forall|k: int| 0 <= k < n ==> crossing_at(captured, #[trigger] samples[k]) is None,
        decreases STEPS - n,
    {
        let sample = probe(state, n);
        let crossing = step_crossing(captured, &sample);
        proof {
            samples = samples.push(sample);
        }
        if crossing.is_some() {
            let segment = Segment { state, captured, depth, steps: n + 1, end: crossing };
            assert(is_walk(*probe, segment, samples));
            return segment;
        }
        n = n + 1;
    }
    let segment = Segment { state, captured, depth, steps: STEPS, end: None };
    assert(is_walk(*probe, segment, samples));
    segment
}

/// Lays out the predicted path of a body.
///
/// `start` describes the body's current conic and `captured` says whether
/// that conic is about a secondary. `probe` measures one increment of a
/// conic; `follow` derives, from a conic, the increment at which it was left
/// and the crossing found there, the conic that the body travels next.
///
/// The segments come in the order in which the body travels them.
pub fn predict_path<S: Copy, P: Fn(S, usize) -> StepSample, N: Fn(S, usize, Crossing) -> S>(
    start: S,
    captured: bool,
    probe: P,
    follow: N,
) -> (path: Vec<Segment<S>>)
    requires
        can_probe(probe),
        can_follow(follow),
    ensures
        is_prediction(start, captured, probe, follow, path@),
{
    let mut path: Vec<Segment<S>> = Vec::new();
    let mut segment = walk_segment(start, captured, 0, &probe);
    path.push(segment);
    while segment.end.is_some() && path.len() < MAX_SEGMENTS
        invariant
            can_probe(probe),
            can_follow(follow),
            1 <= path.len() <= MAX_SEGMENTS,
            1 <= segment.steps <= STEPS,
            path@.last() == segment,
            segment.depth == path.len() - 1,
            path@[0].state == start,
            path@[0].captured == captured,
            path@[0].depth == 0,
            forall|i: int|
                0 <= i < path.len() ==> exists|samples: Seq<StepSample>|
                    is_walk(probe, #[trigger] path@[i], samples),
            forall|i: int|
                0 <= i < path.len() - 1 ==> is_successor(follow, #[trigger] path@[i], path@[i + 1]),
        decreases MAX_SEGMENTS - path.len(),
    {
        let crossing = segment.end.unwrap();
        let state = follow(segment.state, segment.steps - 1, crossing);
        let next = walk_segment(state, !segment.captured, segment.depth + 1, &probe);
        let ghost before = path@;
        path.push(next);
        proof {
            assert(is_successor(follow, segment, next));
            assert forall|i: int| 0 <= i < path.len() implies exists|samples: Seq<StepSample>|
                is_walk(probe, #[trigger] path@[i], samples) by {
                if i < before.len() {
                    assert(path@[i] == before[i]);
                }
            }
            assert forall|i: int| 0 <= i < path.len() - 1 implies is_successor(
                follow,
                #[trigger] path@[i],
                path@[i + 1],
            ) by {
                if i < before.len() - 1 {
                    assert(path@[i] == before[i]);
                    assert(path@[i + 1] == before[i + 1]);
                }
            }
        }
        segment = next;
    }
    path
}

/// Along a prediction the depth counts the segments and the kind of primary
/// alternates: the segment at place `i` has depth `i`, and its conic is about
/// a secondary exactly when `i` is even and the body started out captured, or
/// `i` is odd and it started out free.
pub proof fn lemma_segments_alternate<
    S,
    P: Fn(S, usize) -> StepSample,
    N: Fn(S, usize, Crossing) -> S,
>(start: S, captured: bool, probe: P, follow: N, path: Seq<Segment<S>>, i: int)
    requires
        is_prediction(start, captured, probe, follow, path),
        0 <= i < path.len(),
    ensures
        path[i].depth == i,
        path[i].captured == (captured == (i % 2 == 0)),
    decreases i,
{
    if i > 0 {
        lemma_segments_alternate(start, captured, probe, follow, path, i - 1);
        assert(is_successor(follow, path[i - 1], path[i]));
    }
}

/// A walk that ends early ends in a crossing of the kind that its primary
/// allows: the exit where its conic is about a secondary, and where it is
/// about the top-level primary the entry into a candidate that the last
/// sample shows the predicted point within.
pub proof fn lemma_crossing_fits_segment<S, P: Fn(S, usize) -> StepSample>(
    probe: P,
    segment: Segment<S>,
    samples: Seq<StepSample>,
)
    requires
        is_walk(probe, segment, samples),
        segment.end is Some,
    ensures
        segment.captured ==> segment.end == Some(Crossing::Exit),
        !segment.captured ==> {
            &&& segment.end->0 matches Crossing::Entry { secondary }
            &&& secondary < samples.last().within.len()
            &&& samples.last().within[secondary as int]
        },
{
    lemma_first_within_is_first(samples.last().within@);
}

/// Whether `probe` measures one thing at each increment of each conic: any
/// two of its outcomes there agree in all that a walk reads.
pub open spec fn is_measurement<S, P: Fn(S, usize) -> StepSample>(probe: P) -> bool {
    forall|s: S, n: usize, a: StepSample, b: StepSample|
        #![trigger probe.ensures((s, n), a), probe.ensures((s, n), b)]
        probe.ensures((s, n), a) && probe.ensures((s, n), b) ==> {
            &&& a.in_range == b.in_range
            &&& a.outside_parent == b.outside_parent
            &&& a.within@ == b.within@
        }
}

/// Whether `follow` derives one conic from each crossing.
pub open spec fn is_derivation<S, N: Fn(S, usize, Crossing) -> S>(follow: N) -> bool {
    forall|s: S, n: usize, c: Crossing, a: S, b: S|
        #![trigger follow.ensures((s, n, c), a), follow.ensures((s, n, c), b)]
        follow.ensures((s, n, c), a) && follow.ensures((s, n, c), b) ==> a == b
}

/// Where the probe measures one thing at each increment, a conic is walked
/// in one way: two walks of it cover the same increments and end alike.
pub proof fn lemma_walk_is_determined<S, P: Fn(S, usize) -> StepSample>(
    probe: P,
    first: Segment<S>,
    first_samples: Seq<StepSample>,
    second: Segment<S>,
    second_samples: Seq<StepSample>,
)
    requires
        is_measurement(probe),
        is_walk(probe, first, first_samples),
        is_walk(probe, second, second_samples),
        first.state == second.state,
        first.captured == second.captured,
    ensures
        first.steps == second.steps,
        first.end == second.end,
{
    let shorter = if first.steps <= second.steps {
        first.steps as int
    } else {
        second.steps as int
    };
    let a = first_samples[shorter - 1];
    let b = second_samples[shorter - 1];
    assert(probe.ensures((first.state, (shorter - 1) as usize), a));
    assert(probe.ensures((first.state, (shorter - 1) as usize), b));
    assert(crossing_at(first.captured, a) == crossing_at(first.captured, b));
}

/// Two predictions from one start, measured and derived alike, hold the same
/// segments for as long as both go on.
proof fn lemma_predictions_agree<S, P: Fn(S, usize) -> StepSample, N: Fn(S, usize, Crossing) -> S>(
    start: S,
    captured: bool,
    probe: P,
    follow: N,
    first: Seq<Segment<S>>,
    second: Seq<Segment<S>>,
    i: int,
)
    requires
        is_measurement(probe),
        is_derivation(follow),
        is_prediction(start, captured, probe, follow, first),
        is_prediction(start, captured, probe, follow, second),
        0 <= i < first.len(),
        i < second.len(),
    ensures
        first[i] == second[i],
    decreases i,
{
    if i > 0 {
        lemma_predictions_agree(start, captured, probe, follow, first, second, i - 1);
        assert(is_successor(follow, first[i - 1], first[i]));
        assert(is_successor(follow, second[i - 1], second[i]));
    }
    let first_samples = choose|samples: Seq<StepSample>| is_walk(probe, first[i], samples);
    let second_samples = choose|samples: Seq<StepSample>| is_walk(probe, second[i], samples);
    lemma_walk_is_determined(probe, first[i], first_samples, second[i], second_samples);
}

/// The prediction is a function of its inputs: where the probe measures one
/// thing at each increment and one conic is derived from each crossing, a
/// start has one prediction.
pub proof fn lemma_prediction_is_determined<
    S,
    P: Fn(S, usize) -> StepSample,
    N: Fn(S, usize, Crossing) -> S,
>(start: S, captured: bool, probe: P, follow: N, first: Seq<Segment<S>>, second: Seq<Segment<S>>)
    requires
        is_measurement(probe),
        is_derivation(follow),
        is_prediction(start, captured, probe, follow, first),
        is_prediction(start, captured, probe, follow, second),
    ensures
        first == second,
{
    let shorter = if first.len() <= second.len() {
        first.len() as int
    } else {
        second.len() as int
    };
    lemma_predictions_agree(start, captured, probe, follow, first, second, shorter - 1);
    // a prediction that goes on has a crossing where the other has none
    if first.len() < second.len() {
        assert(is_successor(follow, second[shorter - 1], second[shorter]));
        assert(first.last() == second[shorter - 1]);
    }
    if second.len() < first.len() {
        assert(is_successor(follow, first[shorter - 1], first[shorter]));
        assert(second.last() == first[shorter - 1]);
    }
    assert forall|i: int| 0 <= i < first.len() implies first[i] == second[i] by {
        lemma_predictions_agree(start, captured, probe, follow, first, second, i);
    }
    assert(first =~= second);
}

} // verus!
