use vstd::prelude::*;

verus! {

/// Why the player's layout of buildings cannot be played.
#[derive(Clone, Copy, Debug, PartialEq, Eq, Structural)]
pub enum MapError {
    BuildingOverlapsBase,
    BuildingOverlapsSpawnerZone,
    PathBlocked,
}

/// The text shown for `e`.
pub open spec fn spec_message(e: MapError) -> Seq<char> {
    match e {
        MapError::BuildingOverlapsBase => "Building overlap with base."@,
        MapError::BuildingOverlapsSpawnerZone => "Building overlap with spawner zone."@,
        MapError::PathBlocked => "The path has been blocked."@,
    }
}

impl MapError {
    /// The text shown for this error.
    pub fn message(&self) -> (s: String)
        ensures
            s@ == spec_message(*self),
    {
        match self {
            MapError::BuildingOverlapsBase => "Building overlap with base.".to_owned(),
            MapError::BuildingOverlapsSpawnerZone => "Building overlap with spawner zone.".to_owned(),
            MapError::PathBlocked => "The path has been blocked.".to_owned(),
        }
    }
}

/// Whether the layout is playable: `None` when it is, else the first
/// problem found.
pub struct MapValidity {
    pub error: Option<MapError>,
}

/// Some entry of `flags` is set.
pub open spec fn any(flags: Seq<bool>) -> bool {
    exists|k: int| 0 <= k < flags.len() && flags[k]
}

/// Whether some entry of `flags` is set.
pub fn any_set(flags: &Vec<bool>) -> (r: bool)
    ensures
        r == any(flags@),
{
    let mut i: usize = 0;
    while i < flags.len()
        invariant
            i <= flags@.len(),
            forall|k: int| 0 <= k < i ==> !flags@[k],
        decreases flags@.len() - i,
    {
        if flags[i] {
            return true;
        }
        i = i + 1;
    }
    false
}

/// The verdict on a layout, checked in this order: no building may overlap
/// the base, none may overlap the enemies' spawner zone, and the spawner
/// zone must still have a way to the base.
pub open spec fn spec_verdict(overlaps_base: Seq<bool>, overlaps_spawner: Seq<bool>, spawner_reachable: bool) -> Option<MapError> {
    if any(overlaps_base) {
        Some(MapError::BuildingOverlapsBase)
    } else if any(overlaps_spawner) {
        Some(MapError::BuildingOverlapsSpawnerZone)
    } else if !spawner_reachable {
        Some(MapError::PathBlocked)
    } else {
        None
    }
}

impl MapValidity {
    /// A layout not yet found wrong.
    pub fn new() -> (v: MapValidity)
        ensures
            v.error is None,
    {
        MapValidity { error: None }
    }

    /// Checks the layout, and says whether a verdict was given. `overlaps_base[k]` and `overlaps_spawner[k]` say
    /// whether building `k` touches the base or the spawner zone. When the
    /// base, or (once no building touches the base) the spawner zone, is
    /// missing, nothing can be checked and the verdict is left as it was.
    pub fn check(
        &mut self,
        base_found: bool,
        overlaps_base: &Vec<bool>,
        spawner_found: bool,
        overlaps_spawner: &Vec<bool>,
        spawner_reachable: bool,
    ) -> (checked: bool)
        ensures
            checked <==> (base_found && (any(overlaps_base@) || spawner_found)),
            (!base_found || (!any(overlaps_base@) && !spawner_found)) ==> final(self).error == old(self).error,
            (base_found && (any(overlaps_base@) || spawner_found)) ==> final(self).error == spec_verdict(overlaps_base@, overlaps_spawner@, spawner_reachable),
            (base_found && exists|k: int| 0 <= k < overlaps_base@.len() && overlaps_base@[k])
                ==> checked && final(self).error == Some(MapError::BuildingOverlapsBase),
            (base_found && spawner_found && (forall|k: int| 0 <= k < overlaps_base@.len() ==> !overlaps_base@[k])
                && exists|k: int| 0 <= k < overlaps_spawner@.len() && overlaps_spawner@[k])
                ==> checked && final(self).error == Some(MapError::BuildingOverlapsSpawnerZone),
            (base_found && spawner_found && (forall|k: int| 0 <= k < overlaps_base@.len() ==> !overlaps_base@[k])
                && (forall|k: int| 0 <= k < overlaps_spawner@.len() ==> !overlaps_spawner@[k]))
                ==> checked && final(self).error == (if spawner_reachable { None } else { Some(MapError::PathBlocked) }),
    {
        if !base_found {
            return false;
        }
        if any_set(overlaps_base) {
            self.error = Some(MapError::BuildingOverlapsBase);
            return true;
        }
        if !spawner_found {
            return false;
        }
        if any_set(overlaps_spawner) {
            self.error = Some(MapError::BuildingOverlapsSpawnerZone);
            return true;
        }
        if !spawner_reachable {
            self.error = Some(MapError::PathBlocked);
            return true;
        }
        self.error = None;
        true
    }
}

/// The verdict in terms of the buildings: a building on the base is that
/// error whatever else holds; otherwise a building on the spawner zone is
/// that error; otherwise the layout is valid exactly when the spawner zone
/// can reach the base.
pub proof fn lemma_verdict_order(overlaps_base: Seq<bool>, overlaps_spawner: Seq<bool>, spawner_reachable: bool)
    ensures
        (exists|k: int| 0 <= k < overlaps_base.len() && overlaps_base[k])
            ==> spec_verdict(overlaps_base, overlaps_spawner, spawner_reachable) == Some(MapError::BuildingOverlapsBase),
        ((forall|k: int| 0 <= k < overlaps_base.len() ==> !overlaps_base[k])
            && exists|k: int| 0 <= k < overlaps_spawner.len() && overlaps_spawner[k])
            ==> spec_verdict(overlaps_base, overlaps_spawner, spawner_reachable) == Some(MapError::BuildingOverlapsSpawnerZone),
        ((forall|k: int| 0 <= k < overlaps_base.len() ==> !overlaps_base[k])
            && (forall|k: int| 0 <= k < overlaps_spawner.len() ==> !overlaps_spawner[k]))
            ==> spec_verdict(overlaps_base, overlaps_spawner, spawner_reachable) == (if spawner_reachable {
                None
            } else {
                Some(MapError::PathBlocked)
            }),
{
}

} // verus!
