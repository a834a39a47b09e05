//! Gravitational regimes and the sphere-of-influence decision of one tick.
//!
//! A simulated body either orbits the top-level primary (it is free) or a
//! secondary body whose sphere of influence it has entered (it is captured).
//! Once per tick the caller integrates the body's motion, measures the
//! distances that matter, and asks `soi_transition` what follows from them.
//! Conics, masses and times are the caller's own values; this module only
//! moves them around, so it is generic in their types.

use vstd::prelude::*;

verus! {

/// What a captured body remembers of its capture: the conic of the secondary
/// it now orbits, and the simulated time at which it entered that
/// secondary's sphere of influence.
#[derive(Debug, PartialEq)]
pub struct ParentInfo<C, T> {
    pub conic: C,
    pub entry_time: T,
}

/// The gravitational regime of a simulated body.
#[derive(Debug, PartialEq)]
pub enum Regime<C, T> {
    /// The body orbits the top-level primary.
    Free,
    /// The body orbits a secondary.
    Captured(ParentInfo<C, T>),
}

/// A secondary body as one tick sees it: its conic about the top-level
/// primary, its mass, and whether the simulated body's position at this tick
/// lies within its sphere of influence.
#[derive(Debug, PartialEq)]
pub struct Candidate<C, M> {
    pub conic: C,
    pub mass: M,
    pub within_soi: bool,
}

/// The outcome of one tick's check: the regime the body is in afterwards
/// and, when its conic has to be derived anew from its live position and
/// velocity, the mass of the primary to derive it against.
#[derive(Debug, PartialEq)]
pub struct Transition<C, M, T> {
    pub regime: Regime<C, T>,
    pub rederive: Option<M>,
}

impl<C: Copy, T: Copy> Clone for ParentInfo<C, T> {
    fn clone(&self) -> (copy: Self)
        ensures
            copy == *self,
    {
        *self
    }
}

impl<C: Copy, T: Copy> Copy for ParentInfo<C, T> {

}

impl<C: Copy, T: Copy> Clone for Regime<C, T> {
    fn clone(&self) -> (copy: Self)
        ensures
            copy == *self,
    {
        *self
    }
}

impl<C: Copy, T: Copy> Copy for Regime<C, T> {

}

impl<C: Copy, M: Copy> Clone for Candidate<C, M> {
    fn clone(&self) -> (copy: Self)
        ensures
            copy == *self,
    {
        *self
    }
}

impl<C: Copy, M: Copy> Copy for Candidate<C, M> {

}

impl<C: Copy, M: Copy, T: Copy> Clone for Transition<C, M, T> {
    fn clone(&self) -> (copy: Self)
        ensures
            copy == *self,
    {
        *self
    }
}

impl<C: Copy, M: Copy, T: Copy> Copy for Transition<C, M, T> {

}

impl<C, T> Regime<C, T> {
    /// Whether the body orbits a secondary.
    pub fn is_captured(&self) -> (captured: bool)
        ensures
            captured == (*self is Captured),
    {
        match self {
            Regime::Free => false,
            Regime::Captured(_) => true,
        }
    }
}

/// Whether the sphere of influence of the candidate at place `j` holds the
/// body.
pub open spec fn is_within<C, M>(candidates: Seq<Candidate<C, M>>, j: int) -> bool {
    candidates[j].within_soi
}

/// The index of the candidate that captures a free body: the last one in the
/// snapshot whose sphere of influence holds the body, if there is any.
pub open spec fn captor<C, M>(candidates: Seq<Candidate<C, M>>) -> Option<int>
    decreases candidates.len(),
{
    if candidates.len() == 0 {
        None
    } else if candidates.last().within_soi {
        Some(candidates.len() - 1)
    } else {
        captor(candidates.drop_last())
    }
}

/// What one tick's check decides.
///
/// A captured body that is found outside its parent's sphere of influence
/// becomes free, and its conic is derived anew against the top-level primary.
/// A free body that is found within the sphere of influence of a candidate is
/// captured by `captor(candidates)`: it keeps that candidate's conic together
/// with the time of this tick, and its conic is derived anew against that
/// candidate's mass. In every other case nothing changes.
pub open spec fn transition_of<C, M, T>(
    regime: Regime<C, T>,
    now: T,
    primary_mass: M,
    outside_parent: bool,
    candidates: Seq<Candidate<C, M>>,
) -> Transition<C, M, T> {
    match regime {
        Regime::Captured(_) => if outside_parent {
            Transition { regime: Regime::Free, rederive: Some(primary_mass) }
        } else {
            Transition { regime, rederive: None }
        },
        Regime::Free => match captor(candidates) {
            Some(k) => Transition {
                regime: Regime::Captured(
                    ParentInfo { conic: candidates[k].conic, entry_time: now },
                ),
                rederive: Some(candidates[k].mass),
            },
            None => Transition { regime, rederive: None },
        },
    }
}

/// `captor` names a candidate exactly when one holds the body, and then it
/// names the last such candidate.
pub proof fn lemma_captor_is_last_within<C, M>(candidates: Seq<Candidate<C, M>>)
    ensures
        captor(candidates) is None <==> forall|j: int|
            0 <= j < candidates.len() ==> !is_within(candidates, j),
        captor(candidates) matches Some(k) ==> {
            &&& 0 <= k < candidates.len()
            &&& is_within(candidates, k)
            &&& forall|j: int| k < j < candidates.len() ==> !is_within(candidates, j)
        },
    decreases candidates.len(),
{
    if candidates.len() > 0 && candidates.last().within_soi {
        assert(is_within(candidates, candidates.len() - 1));
    } else if candidates.len() > 0 {
        let front = candidates.drop_last();
        lemma_captor_is_last_within(front);
        if captor(front) is None {
            assert forall|j: int| 0 <= j < candidates.len() implies !is_within(candidates, j) by {
                if j < front.len() {
                    assert(!is_within(front, j));
                }
            }
        } else {
            let k = captor(front)->0;
            assert(is_within(front, k));
            assert(is_within(candidates, k));
            assert forall|j: int| k < j < candidates.len() implies !is_within(candidates, j) by {
                if j < front.len() {
                    assert(!is_within(front, j));
                }
            }
        }
    }
}

/// Decides, from what one tick measured, the regime a body is in after the
/// tick and whether its conic has to be derived anew.
///
/// `now` is the simulated time of the tick and `primary_mass` the mass of the
/// top-level primary. `outside_parent` says whether a captured body lies
/// beyond its parent's sphere of influence; it is not looked at for a free
/// body. `candidates` is the tick's snapshot of the secondaries; it is not
/// looked at for a captured body.
pub fn soi_transition<C: Copy, M: Copy, T: Copy>(
    regime: Regime<C, T>,
    now: T,
    primary_mass: M,
    outside_parent: bool,
    candidates: &Vec<Candidate<C, M>>,
) -> (next: Transition<C, M, T>)
    ensures
        next == transition_of(regime, now, primary_mass, outside_parent, candidates@),
{
    match regime {
        Regime::Captured(_) => {
            if outside_parent {
                Transition { regime: Regime::Free, rederive: Some(primary_mass) }
            } else {
                Transition { regime, rederive: None }
            }
        },
        Regime::Free => {
            let mut next = Transition { regime, rederive: None };
            let mut i: usize = 0;
            while i < candidates.len()
                invariant
                    i <= candidates.len(),
                    regime is Free,
                    next == transition_of(
                        regime,
                        now,
                        primary_mass,
                        outside_parent,
                        candidates@.take(i as int),
                    ),
                decreases candidates.len() - i,
            {
                proof {
                    let before = candidates@.take(i as int);
                    let seen = candidates@.take(i as int + 1);
                    assert(seen.drop_last() == before);
                    assert(seen.last() == candidates@[i as int]);
                    lemma_captor_is_last_within(before);
                    assert(is_within(seen, i as int) == candidates@[i as int].within_soi);
                    if captor(before) is Some {
                        let k = captor(before)->0;
                        assert(seen[k] == before[k]);
                    }
                }
                if candidates[i].within_soi {
                    next = Transition {
                        regime: Regime::Captured(
                            ParentInfo { conic: candidates[i].conic, entry_time: now },
                        ),
                        rederive: Some(candidates[i].mass),
                    };
                }
                i = i + 1;
            }
            proof {
                assert(candidates@.take(candidates.len() as int) == candidates@);
            }
            next
        },
    }
}

/// A free body that lies within the sphere of influence of a candidate is
/// captured at this tick: afterwards it holds a record whose entry time is
/// the time of the tick and whose conic is that of a candidate whose sphere
/// of influence holds it, and its own conic is to be derived against the mass
/// of that same candidate.
pub proof fn lemma_entry_is_recorded<C, M, T>(
    now: T,
    primary_mass: M,
    outside_parent: bool,
    candidates: Seq<Candidate<C, M>>,
    k: int,
)
    requires
        0 <= k < candidates.len(),
        is_within(candidates, k),
    ensures
        ({
            let next = transition_of(
                Regime::<C, T>::Free,
                now,
                primary_mass,
                outside_parent,
                candidates,
            );
            &&& next.regime is Captured
            &&& next.regime->0.entry_time == now
            &&& exists|j: int|
                {
                    &&& k <= j < candidates.len()
                    &&& is_within(candidates, j)
                    &&& next.regime->0.conic == candidates[j].conic
                    &&& next.rederive == Some(candidates[j].mass)
                }
        }),
{
    lemma_captor_is_last_within(candidates);
    assert(is_within(candidates, k));
    let j = captor(candidates)->0;
    assert(is_within(candidates, j));
}

/// A tick changes the regime at most once, and the conic is derived anew
/// exactly when it does: the regime after the tick is of the other kind where
/// a mass is handed back, and is the regime before the tick where none is.
pub proof fn lemma_rederive_iff_regime_changes<C, M, T>(
    regime: Regime<C, T>,
    now: T,
    primary_mass: M,
    outside_parent: bool,
    candidates: Seq<Candidate<C, M>>,
)
    ensures
        ({
            let next = transition_of(regime, now, primary_mass, outside_parent, candidates);
            &&& next.rederive is Some ==> (next.regime is Captured) != (regime is Captured)
            &&& next.rederive is None ==> next.regime == regime
        }),
{
}

} // verus!
