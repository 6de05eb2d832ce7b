use vstd::prelude::*;

verus! {

/// A relic, known by an identifier: two relics are the same relic exactly
/// when their identifiers are equal.
#[derive(Clone, Copy, Debug, PartialEq, Eq, Structural)]
pub struct Relic {
    pub id: u64,
}

/// The relics that an entity carries, in the order they were added, with a
/// fixed number of slots.
pub struct Relics {
    list: Vec<Relic>,
    slot_count: usize,
}

/// No relic occurs twice in `s`.
pub open spec fn no_duplicates(s: Seq<Relic>) -> bool {
    forall|a: int, b: int| 0 <= a < b < s.len() ==> s[a] != s[b]
}

impl Relics {
    /// The relics carried, in the order they were added.
    pub closed spec fn relics(self) -> Seq<Relic> {
        self.list@
    }

    /// Number of slots.
    pub closed spec fn slots(self) -> nat {
        self.slot_count as nat
    }

    /// Never more relics than slots, and never the same relic twice.
    #[verifier::type_invariant]
    closed spec fn wf(self) -> bool {
        &&& self.list@.len() <= self.slot_count
        &&& no_duplicates(self.list@)
    }

    /// The relics carried, in the order they were added.
    pub fn list(&self) -> (r: &Vec<Relic>)
        ensures
            r@ == self.relics(),
    {
        &self.list
    }

    /// Number of slots.
    pub fn slot_count(&self) -> (r: usize)
        ensures
            r == self.slots(),
    {
        self.slot_count
    }

    /// No relic yet, `slot_count` slots.
    pub fn new(slot_count: usize) -> (r: Relics)
        ensures
            r.relics() == Seq::<Relic>::empty(),
            r.relics().len() <= r.slots(),
            no_duplicates(r.relics()),
            r.slots() == slot_count,
    {
        Relics { list: Vec::new(), slot_count }
    }

    /// Position of `relic` in the list, if it is there.
    pub fn position(&self, relic: Relic) -> (r: Option<usize>)
        ensures
            r is None <==> !self.relics().contains(relic),
            r matches Some(i) ==> i < self.relics().len() && self.relics()[i as int] == relic
                && forall|j: int| 0 <= j < i ==> self.relics()[j] != relic,
    {
        let mut i: usize = 0;
        while i < self.list.len()
            invariant
                i <= self.relics().len(),
                forall|j: int| 0 <= j < i ==> self.relics()[j] != relic,
            decreases self.relics().len() - i,
        {
            if self.list[i] == relic {
                return Some(i);
            }
            i = i + 1;
        }
        proof {
            assert forall|j: int| 0 <= j < self.relics().len() implies self.relics()[j] != relic by {}
        }
        None
    }

    /// Adds `relic` at the end of the list, unless every slot is taken or the
    /// relic is already there; says whether it was added.
    pub fn add(&mut self, relic: Relic) -> (added: bool)
        ensures
            final(self).slots() == old(self).slots(),
            final(self).relics().len() <= final(self).slots(),
            no_duplicates(final(self).relics()),
            added <==> (old(self).relics().len() < old(self).slots() && !old(self).relics().contains(relic)),
            final(self).relics() == (if added { old(self).relics().push(relic) } else { old(self).relics() }),
    {
        proof {
            use_type_invariant(&*self);
        }
        if self.list.len() >= self.slot_count {
            return false;
        }
        if self.position(relic).is_some() {
            return false;
        }
        let mut list: Vec<Relic> = Vec::new();
        std::mem::swap(&mut list, &mut self.list);
        list.push(relic);
        self.list = list;
        proof {
            assert forall|a: int, b: int| 0 <= a < b < self.relics().len() implies self.relics()[a] != self.relics()[b] by {
                if b == self.relics().len() - 1 {
                    assert(old(self).relics()[a] == self.relics()[a]);
                    assert(old(self).relics().contains(self.relics()[a]));
                }
            }
        }
        true
    }

    /// Takes `relic` out of the list, keeping the order of the others; gives
    /// the position it had, or `None` when it was not there.
    pub fn remove(&mut self, relic: Relic) -> (removed: Option<usize>)
        ensures
            final(self).slots() == old(self).slots(),
            final(self).relics().len() <= final(self).slots(),
            no_duplicates(final(self).relics()),
            removed is None <==> !old(self).relics().contains(relic),
            removed is None ==> final(self).relics() == old(self).relics(),
            removed matches Some(i) ==> i < old(self).relics().len() && old(self).relics()[i as int] == relic
                && final(self).relics() == old(self).relics().remove(i as int),
    {
        proof {
            use_type_invariant(&*self);
        }
        match self.position(relic) {
            None => None,
            Some(i) => {
                let mut list: Vec<Relic> = Vec::new();
                std::mem::swap(&mut list, &mut self.list);
                list.remove(i);
                self.list = list;
                proof {
                    let o = old(self).relics();
                    let s = self.relics();
                    assert forall|a: int, b: int| 0 <= a < b < s.len() implies s[a] != s[b] by {
                        let oa = if a < i { a } else { a + 1 };
                        let ob = if b < i { b } else { b + 1 };
                        assert(s[a] == o[oa] && s[b] == o[ob]);
                    }
                }
                Some(i)
            },
        }
    }
}

/// Adding a relic and then removing it gives back the relics as they were.
pub proof fn lemma_add_then_remove(before: Seq<Relic>, relic: Relic, i: int)
    requires
        no_duplicates(before),
        !before.contains(relic),
        0 <= i < before.push(relic).len(),
        before.push(relic)[i] == relic,
    ensures
        i == before.len(),
        before.push(relic).remove(i) == before,
{
    if i < before.len() {
        assert(before[i] == relic);
        assert(before.contains(relic));
    }
    assert(before.push(relic).remove(i) =~= before);
}

} // verus!
