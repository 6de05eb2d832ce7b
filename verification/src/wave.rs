use vstd::prelude::*;

verus! {

/// The phases of a wave: enemies are being spawned, the last spawned
/// enemies are being fought, or the wave is over and the player may build.
#[derive(Clone, Copy, Debug, PartialEq, Eq, Structural)]
pub enum WavePhase {
    Spawning,
    Killing,
    Finished,
}

/// The wave counter and the current phase. `count` is the number of the
/// next wave to launch; it starts at 1.
pub struct WaveProgress {
    pub phase: WavePhase,
    pub count: u32,
}

/// Number of enemies in wave number `count`.
pub open spec fn spec_enemy_count(count: int) -> int {
    count * count + 10
}

/// Number of enemies in wave number `count`: its square plus ten.
pub fn enemy_count(count: u32) -> (n: u32)
    requires
        spec_enemy_count(count as int) <= u32::MAX,
    ensures
        n == spec_enemy_count(count as int),
{
    count * count + 10
}

/// The phase after the spawner has run out.
pub open spec fn spec_after_spawner_finished(phase: WavePhase) -> WavePhase {
    if phase == WavePhase::Spawning { WavePhase::Killing } else { phase }
}

/// The phase after the enemies left on the field were counted.
pub open spec fn spec_after_enemies_checked(phase: WavePhase, enemies_left: bool) -> WavePhase {
    if phase == WavePhase::Killing && !enemies_left { WavePhase::Finished } else { phase }
}

/// Whether the number of enemies of wave number `count` fits in a `u32`.
pub fn enemy_count_fits(count: u32) -> (r: bool)
    ensures
        r == (spec_enemy_count(count as int) <= u32::MAX),
{
    let c = count as u64;
    proof {
        assert(c * c <= u32::MAX as int * u32::MAX as int) by (nonlinear_arith)
            requires
                c <= u32::MAX,
        ;
    }
    c * c + 10 <= u32::MAX as u64
}

impl WaveProgress {
    /// The state when the battlefield is set up: before the first wave, with
    /// the building phase.
    pub fn new() -> (w: WaveProgress)
        ensures
            w.phase == WavePhase::Finished,
            w.count == 1,
    {
        WaveProgress { phase: WavePhase::Finished, count: 1 }
    }

    /// Launches the next wave: the phase becomes spawning and the counter
    /// moves on; returns how many enemies the launched wave brings.
    pub fn launch(&mut self) -> (enemies: u32)
        requires
            spec_enemy_count(old(self).count as int) <= u32::MAX,
        ensures
            enemies == spec_enemy_count(old(self).count as int),
            final(self).phase == WavePhase::Spawning,
            final(self).count == old(self).count + 1,
    {
        let enemies = enemy_count(self.count);
        proof {
            let c = old(self).count as int;
            assert(c < 65536) by (nonlinear_arith)
                requires
                    c * c + 10 <= u32::MAX,
                    c >= 0,
            ;
        }
        self.phase = WavePhase::Spawning;
        self.count = self.count + 1;
        enemies
    }

    /// The wave's spawner has run out: while spawning, the phase moves on to
    /// killing; otherwise nothing changes.
    pub fn spawner_finished(&mut self)
        ensures
            final(self).count == old(self).count,
            final(self).phase == spec_after_spawner_finished(old(self).phase),
    {
        if self.phase == WavePhase::Spawning {
            self.phase = WavePhase::Killing;
        }
    }

    /// The enemies left on the field were counted: while killing, the wave
    /// is over once none is left; otherwise nothing changes.
    pub fn enemies_checked(&mut self, enemies_left: bool)
        ensures
            final(self).count == old(self).count,
            final(self).phase == spec_after_enemies_checked(old(self).phase, enemies_left),
    {
        if self.phase == WavePhase::Killing && !enemies_left {
            self.phase = WavePhase::Finished;
        }
    }
}

/// A launched wave runs its course: once spawning has ended, the wave stays
/// in the killing phase for as long as enemies are left, and ends as soon as
/// none is; the building phase is never left but by a launch.
pub proof fn lemma_wave_cycle(enemies_left: bool)
    ensures
        spec_after_spawner_finished(WavePhase::Spawning) == WavePhase::Killing,
        spec_after_enemies_checked(WavePhase::Killing, enemies_left) == (if enemies_left {
            WavePhase::Killing
        } else {
            WavePhase::Finished
        }),
        spec_after_spawner_finished(WavePhase::Finished) == WavePhase::Finished,
        spec_after_enemies_checked(WavePhase::Finished, enemies_left) == WavePhase::Finished,
        spec_after_enemies_checked(WavePhase::Spawning, enemies_left) == WavePhase::Spawning,
{
}

} // verus!
