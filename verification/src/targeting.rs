use vstd::prelude::*;

verus! {

/// An enemy that a tower (or a ricocheting projectile) might aim at: its
/// identifier, whether it is inside the shooter's range, and its distance
/// to the shooter, rounded down to a whole number.
#[derive(Clone, Copy, Debug, PartialEq, Eq, Structural)]
pub struct TargetCandidate {
    pub entity: u64,
    pub in_range: bool,
    pub distance: u64,
}

/// `c` may be aimed at: it is in range and is not the excluded entity.
pub open spec fn eligible(c: TargetCandidate, exclude: Option<u64>) -> bool {
    c.in_range && exclude != Some(c.entity)
}

/// Candidate `k` is the nearest eligible one, and the first of those at
/// that distance.
pub open spec fn is_first_nearest(candidates: Seq<TargetCandidate>, exclude: Option<u64>, k: int) -> bool {
    &&& 0 <= k < candidates.len()
    &&& eligible(candidates[k], exclude)
    &&& forall|m: int| 0 <= m < candidates.len() && eligible(#[trigger] candidates[m], exclude) ==> candidates[k].distance <= candidates[m].distance
    &&& forall|m: int| 0 <= m < k && eligible(#[trigger] candidates[m], exclude) ==> candidates[k].distance < candidates[m].distance
}

/// The target to aim at: among the eligible candidates, the nearest one,
/// the first in the list when several are equally near; `None` when no
/// candidate is eligible. A ricochet excludes the enemy just hit.
pub fn nearest_target(candidates: &Vec<TargetCandidate>, exclude: Option<u64>) -> (r: Option<u64>)
    ensures
        r is None <==> forall|m: int| 0 <= m < candidates@.len() ==> !eligible(#[trigger] candidates@[m], exclude),
        r matches Some(e) ==> exists|k: int| is_first_nearest(candidates@, exclude, k) && candidates@[k].entity == e,
{
    let mut best: Option<usize> = None;
    let mut i: usize = 0;
    while i < candidates.len()
        invariant
            i <= candidates@.len(),
            best is None ==> forall|m: int| 0 <= m < i ==> !eligible(#[trigger] candidates@[m], exclude),
            best matches Some(b) ==> b < i && eligible(candidates@[b as int], exclude)
                && (forall|m: int| 0 <= m < i && eligible(#[trigger] candidates@[m], exclude) ==> candidates@[b as int].distance <= candidates@[m].distance)
                && (forall|m: int| 0 <= m < b && eligible(#[trigger] candidates@[m], exclude) ==> candidates@[b as int].distance < candidates@[m].distance),
        decreases candidates@.len() - i,
    {
        let c = candidates[i];
        let ok = match exclude {
            Some(x) => c.in_range && x != c.entity,
            None => c.in_range,
        };
        if ok {
            match best {
                None => {
                    best = Some(i);
                },
                Some(b) => {
                    if c.distance < candidates[b].distance {
                        best = Some(i);
                    }
                },
            }
        }
        i = i + 1;
    }
    match best {
        None => None,
        Some(b) => {
            proof {
                assert(is_first_nearest(candidates@, exclude, b as int));
            }
            Some(candidates[b].entity)
        },
    }
}

} // verus!
