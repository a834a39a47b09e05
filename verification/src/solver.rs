//! Bounded root refinement.
//!
//! A root search is a starting point, a test that says whether a point is
//! close enough to a root, and a refinement that moves a point closer. For
//! Newton's method on `f` the test is `|f(x)| < eps` and the refinement is
//! `x - f(x) / f'(x)`. The search itself is the same whatever the numbers
//! are, so it is written over any copyable point type.

use vstd::prelude::*;

verus! {

/// The most refinements one search performs.
pub const MAX_ITERATIONS: u32 = 20;

/// Why a search returned no root.
#[derive(Clone, Copy, Debug, PartialEq, Eq)]
pub enum SolverError {
    /// The point reached after `MAX_ITERATIONS` refinements was still rejected.
    NoConvergence,
}

impl SolverError {
    /// A short description for logs and panics.
    pub fn message(&self) -> (text: &'static str)
        ensures
            text@ == "newton solver failed to converge"@,
    {
        "newton solver failed to converge"
    }
}

/// `points` records a search from `x0`: it starts there, every point but the
/// last was rejected by `accept`, and each point after the first is what
/// `refine` made of the one before it.
pub open spec fn is_search<T, A: Fn(T) -> bool, R: Fn(T) -> T>(
    accept: A,
    refine: R,
    x0: T,
    points: Seq<T>,
) -> bool {
    &&& points.len() >= 1
    &&& points[0] == x0
    &&& forall|i: int|
        0 <= i < points.len() - 1 ==> {
            &&& accept.ensures((#[trigger] points[i],), false)
            &&& refine.ensures((points[i],), points[i + 1])
        }
}

/// What `newton_solver` may return for a search recorded in `points`: the
/// last point if `accept` took it, and `NoConvergence` if the search used all
/// its refinements and `accept` rejected the last point too.
pub open spec fn is_outcome<T, A: Fn(T) -> bool>(
    accept: A,
    points: Seq<T>,
    outcome: Result<T, SolverError>,
) -> bool {
    match outcome {
        Ok(x) => {
            &&& points.len() <= MAX_ITERATIONS + 1
            &&& x == points.last()
            &&& accept.ensures((x,), true)
        },
        Err(e) => {
            &&& points.len() == MAX_ITERATIONS + 1
            &&& accept.ensures((points.last(),), false)
            &&& e == SolverError::NoConvergence
        },
    }
}

/// Whether the search from `x0` can run: `accept` and `refine` can be called
/// on `x0` and on every point that `refine` hands back.
pub open spec fn can_search<T, A: Fn(T) -> bool, R: Fn(T) -> T>(
    accept: A,
    refine: R,
    x0: T,
) -> bool {
    &&& accept.requires((x0,))
    &&& refine.requires((x0,))
    &&& forall|x: T, y: T| #[trigger]
        refine.ensures((x,), y) ==> accept.requires((y,)) && refine.requires((y,))
}

/// Refines `x0` until `accept` takes the point, at most `MAX_ITERATIONS` times.
///
/// Returns the first accepted point. Returns `NoConvergence` exactly when
/// `x0` and each of the `MAX_ITERATIONS` points refined from it were rejected.
pub fn newton_solver<T: Copy, A: Fn(T) -> bool, R: Fn(T) -> T>(
    accept: A,
    refine: R,
    x0: T,
) -> (outcome: Result<T, SolverError>)
    requires
        can_search(accept, refine, x0),
    ensures
        exists|points: Seq<T>| #[trigger]
            is_search(accept, refine, x0, points) && is_outcome(accept, points, outcome),
{
    let mut x = x0;
    let mut iterations: u32 = 0;
    let ghost mut points: Seq<T> = seq![x0];
    loop
        invariant
            can_search(accept, refine, x0),
            accept.requires((x,)),
            refine.requires((x,)),
            iterations <= MAX_ITERATIONS,
            points.len() == iterations + 1,
            points.last() == x,
            is_search(accept, refine, x0, points),
        decreases MAX_ITERATIONS - iterations,
    {
        if accept(x) {
            assert(is_outcome(accept, points, Ok::<T, SolverError>(x)));
            return Ok(x);
        }
        if iterations == MAX_ITERATIONS {
            assert(is_outcome(accept, points, Err::<T, SolverError>(SolverError::NoConvergence)));
            return Err(SolverError::NoConvergence);
        }
        let next = refine(x);
        proof {
            let longer = points.push(next);
            assert forall|i: int| 0 <= i < longer.len() - 1 implies {
                &&& accept.ensures((#[trigger] longer[i],), false)
                &&& refine.ensures((longer[i],), longer[i + 1])
            } by {
                if i < points.len() - 1 {
                    assert(longer[i] == points[i]);
                    assert(longer[i + 1] == points[i + 1]);
                }
            }
            points = longer;
        }
        x = next;
        iterations = iterations + 1;
    }
}

/// Whether `accept` gives one verdict for each point.
pub open spec fn is_test<T, A: Fn(T) -> bool>(accept: A) -> bool {
    forall|x: T, a: bool, b: bool|
        #![trigger accept.ensures((x,), a), accept.ensures((x,), b)]
        accept.ensures((x,), a) && accept.ensures((x,), b) ==> a == b
}

/// Whether `refine` gives one point for each point.
pub open spec fn is_map<T, R: Fn(T) -> T>(refine: R) -> bool {
    forall|x: T, a: T, b: T|
        #![trigger refine.ensures((x,), a), refine.ensures((x,), b)]
        refine.ensures((x,), a) && refine.ensures((x,), b) ==> a == b
}

/// Two searches from one start with one test and one refinement visit the
/// same points for as long as both go on.
proof fn lemma_searches_agree<T, A: Fn(T) -> bool, R: Fn(T) -> T>(
    accept: A,
    refine: R,
    x0: T,
    first: Seq<T>,
    second: Seq<T>,
    i: int,
)
    requires
        is_map(refine),
        is_search(accept, refine, x0, first),
        is_search(accept, refine, x0, second),
        0 <= i < first.len(),
        i < second.len(),
    ensures
        first[i] == second[i],
    decreases i,
{
    if i > 0 {
        lemma_searches_agree(accept, refine, x0, first, second, i - 1);
        assert(refine.ensures((first[i - 1],), first[i]));
        assert(refine.ensures((second[i - 1],), second[i]));
    }
}

/// The search is a function of its inputs: where the test and the refinement
/// give one result for each point, a start has one outcome, reached by one
/// sequence of points.
pub proof fn lemma_outcome_is_determined<T, A: Fn(T) -> bool, R: Fn(T) -> T>(
    accept: A,
    refine: R,
    x0: T,
    first: Seq<T>,
    first_outcome: Result<T, SolverError>,
    second: Seq<T>,
    second_outcome: Result<T, SolverError>,
)
    requires
        is_test(accept),
        is_map(refine),
        is_search(accept, refine, x0, first),
        is_outcome(accept, first, first_outcome),
        is_search(accept, refine, x0, second),
        is_outcome(accept, second, second_outcome),
    ensures
        first == second,
        first_outcome == second_outcome,
{
    let shorter = if first.len() <= second.len() {
        first.len() as int
    } else {
        second.len() as int
    };
    lemma_searches_agree(accept, refine, x0, first, second, shorter - 1);
    // the last point of one search is not a rejected point of the other
    if first.len() < second.len() {
        assert(accept.ensures((second[shorter - 1],), false));
        assert(first.last() == second[shorter - 1]);
    }
    if second.len() < first.len() {
        assert(accept.ensures((first[shorter - 1],), false));
        assert(second.last() == first[shorter - 1]);
    }
    assert forall|i: int| 0 <= i < first.len() implies first[i] == second[i] by {
        lemma_searches_agree(accept, refine, x0, first, second, i);
    }
    assert(first =~= second);
}

} // verus!
