use vstd::prelude::*;

verus! {

/// What happens to a projectile on one frame of its flight.
#[derive(Clone, Copy, Debug, PartialEq, Eq, Structural)]
pub struct ProjectileStep {
    /// It hits its target: the hit is reported.
    pub hit: bool,
    /// It is removed.
    pub despawn: bool,
    /// It aims at its target's current position (otherwise at the last
    /// position it knew).
    pub follow_target: bool,
}

/// One frame of a projectile's flight. While its target exists the
/// projectile follows it, and touching it is a hit that ends the
/// projectile; once the target is gone the projectile flies on to the
/// target's last known position and ends when it gets close to it.
pub fn projectile_step(target_exists: bool, touches_target: bool, near_last_known_position: bool) -> (r: ProjectileStep)
    ensures
        r.follow_target == target_exists,
        r.hit == (target_exists && touches_target),
        r.despawn == (if target_exists { touches_target } else { near_last_known_position }),
{
    if target_exists {
        ProjectileStep { hit: touches_target, despawn: touches_target, follow_target: true }
    } else {
        ProjectileStep { hit: false, despawn: near_last_known_position, follow_target: false }
    }
}

} // verus!
