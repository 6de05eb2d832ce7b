use vstd::prelude::*;

verus! {

/// The base that the enemies try to reach, with the life it has left.
pub struct Base {
    pub life: u32,
}

impl Base {
    /// A base with `life` points of life.
    pub fn new(life: u32) -> (b: Base)
        ensures
            b.life == life,
    {
        Base { life }
    }

    /// An enemy reached the base: it loses one point of life, never going
    /// below zero.
    pub fn hit(&mut self)
        ensures
            final(self).life == spec_life_after_hits(old(self).life as nat, 1),
    {
        self.life = self.life.saturating_sub(1);
    }

    /// The game is over once the base has no life left.
    pub fn is_destroyed(&self) -> (r: bool)
        ensures
            r <==> self.life == 0,
    {
        self.life == 0
    }
}

/// Life left after `hits` enemies reached a base that had `life`.
pub open spec fn spec_life_after_hits(life: nat, hits: nat) -> nat {
    if hits >= life { 0 } else { (life - hits) as nat }
}

/// One more hit on a base takes one more point of life, down to zero: the
/// life after `hits + 1` hits is the life after `hits` hits, hit once more.
pub proof fn lemma_hits_accumulate(life: nat, hits: nat)
    ensures
        spec_life_after_hits(life, hits + 1) == (if spec_life_after_hits(life, hits) == 0 {
            0
        } else {
            (spec_life_after_hits(life, hits) - 1) as nat
        }),
        spec_life_after_hits(life, hits) <= life,
        spec_life_after_hits(life, hits) == 0 <==> hits >= life,
{
}

} // verus!
