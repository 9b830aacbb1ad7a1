//! The nearest-hit rule: which of the entities that a ray meets is the one
//! that is seen.
//!
//! A ray parameter is held here as a rank: an unsigned integer that orders as
//! the parameters themselves do. The rule only ever compares them.

use vstd::prelude::*;

verus! {

/// What a ray's meeting with one entity came to: no hit, one root, or two
/// roots with the farther one first.
#[derive(Clone, Copy, Debug, PartialEq, Eq, Structural)]
pub enum IntersectionResult {
    No,
    One(u64),
    Two(u64, u64),
}

impl IntersectionResult {
    /// The rank by which a result is compared: of one root, that root; of
    /// two, the first.
    pub open spec fn spec_compared(self) -> Option<u64> {
        match self {
            IntersectionResult::No => None,
            IntersectionResult::One(t) => Some(t),
            IntersectionResult::Two(t1, _) => Some(t1),
        }
    }

    /// The rank by which this result is compared, if it is a hit.
    pub fn compared(&self) -> (rank: Option<u64>)
        ensures
            rank == self.spec_compared(),
    {
        match self {
            IntersectionResult::No => None,
            IntersectionResult::One(t) => Some(*t),
            IntersectionResult::Two(t1, _) => Some(*t1),
        }
    }
}

/// Whether result `i` is a hit nearer than `horizon`.
pub open spec fn qualifies(results: Seq<IntersectionResult>, horizon: u64, i: int) -> bool {
    &&& 0 <= i < results.len()
    &&& results[i].spec_compared() is Some
    &&& results[i].spec_compared().unwrap() < horizon
}

/// Whether result `k` is the one that the rule picks: a hit nearer than
/// `horizon`, no farther than any other such hit, and strictly nearer than
/// each one before it.
pub open spec fn is_nearest(results: Seq<IntersectionResult>, horizon: u64, k: int) -> bool {
    &&& qualifies(results, horizon, k)
    &&& forall|i: int| #[trigger]
        qualifies(results, horizon, i) ==> results[k].spec_compared().unwrap()
            <= results[i].spec_compared().unwrap()
    &&& forall|i: int|
        i < k && #[trigger] qualifies(results, horizon, i) ==> results[k].spec_compared().unwrap()
            < results[i].spec_compared().unwrap()
}

/// Scans the results in order and picks the hit of least rank below
/// `horizon`; of several such, the first. `None` where there is no such hit.
pub fn find_nearest(results: &Vec<IntersectionResult>, horizon: u64) -> (nearest: Option<usize>)
    ensures
        match nearest {
            Some(k) => is_nearest(results@, horizon, k as int),
            None => forall|i: int| !qualifies(results@, horizon, i),
        },
{
    let mut dist: u64 = horizon;
    let mut closest: Option<usize> = None;
    for n in 0..results.len()
        invariant
            dist <= horizon,
            closest is None ==> dist == horizon,
            match closest {
                Some(k) => {
                    &&& k < n
                    &&& qualifies(results@, horizon, k as int)
                    &&& results@[k as int].spec_compared() == Some(dist)
                },
                None => true,
            },
            forall|i: int|
                0 <= i < n && #[trigger] qualifies(results@, horizon, i) ==> {
                    &&& closest is Some
                    &&& dist <= results@[i].spec_compared().unwrap()
                    &&& i < closest.unwrap() ==> dist < results@[i].spec_compared().unwrap()
                },
    {
        match results[n].compared() {
            None => {},
            Some(t) => {
                if t < dist {
                    dist = t;
                    closest = Some(n);
                }
            },
        }
    }
    closest
}

/// The rule picks at most one result.
pub proof fn lemma_nearest_is_unique(
    results: Seq<IntersectionResult>,
    horizon: u64,
    a: int,
    b: int,
)
    requires
        is_nearest(results, horizon, a),
        is_nearest(results, horizon, b),
    ensures
        a == b,
{
}

/// Where no entity is hit, the rule picks nothing.
pub proof fn lemma_no_hit_no_nearest(results: Seq<IntersectionResult>, horizon: u64, k: int)
    requires
        forall|i: int| 0 <= i < results.len() ==> results[i] == IntersectionResult::No,
    ensures
        !is_nearest(results, horizon, k),
{
}

} // verus!
