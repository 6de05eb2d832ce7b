use vstd::prelude::*;

verus! {

/// The entity that the player has selected on the battlefield, if any,
/// known by its identifier.
pub struct Selection {
    pub entity: Option<u64>,
}

/// The selection after a click on `clicked`.
pub open spec fn spec_after_click(clicked: u64, clicked_is_selectable: bool) -> Option<u64> {
    if clicked_is_selectable { Some(clicked) } else { None }
}

/// The selection after a toggling click on `clicked`.
pub open spec fn spec_after_toggle(current: Option<u64>, clicked: u64, clicked_is_selectable: bool) -> Option<u64> {
    if clicked_is_selectable && current != Some(clicked) { Some(clicked) } else { None }
}

impl Selection {
    /// Nothing selected.
    pub fn new() -> (s: Selection)
        ensures
            s.entity is None,
    {
        Selection { entity: None }
    }

    /// A click on entity `clicked`: clicking a selectable entity selects it,
    /// clicking anything else clears the selection. The selection is only
    /// written when its value changes, so that no change is signalled for a
    /// click that leaves it as it was; the result says whether it was written.
    pub fn on_click(&mut self, clicked: u64, clicked_is_selectable: bool) -> (written: bool)
        ensures
            final(self).entity == spec_after_click(clicked, clicked_is_selectable),
            written <==> final(self).entity != old(self).entity,
    {
        if clicked_is_selectable {
            match self.entity {
                Some(current) => {
                    if current != clicked {
                        self.entity = Some(clicked);
                        true
                    } else {
                        false
                    }
                },
                None => {
                    self.entity = Some(clicked);
                    true
                },
            }
        } else if self.entity.is_some() {
            self.entity = None;
            true
        } else {
            false
        }
    }

    /// A toggling click: clicking a selectable entity
    /// selects it, or clears the selection when it was already the selected
    /// one; clicking anything else clears the selection.
    pub fn on_click_toggle(&mut self, clicked: u64, clicked_is_selectable: bool)
        ensures
            final(self).entity == spec_after_toggle(old(self).entity, clicked, clicked_is_selectable),
    {
        if clicked_is_selectable {
            match self.entity {
                Some(current) => {
                    if current == clicked {
                        self.entity = None;
                    } else {
                        self.entity = Some(clicked);
                    }
                },
                None => {
                    self.entity = Some(clicked);
                },
            }
        } else {
            self.entity = None;
        }
    }
}

/// With toggling clicks, clicking a selectable entity twice leaves it
/// selected exactly when it was selected before; clicking anything that
/// cannot be selected always clears the selection.
pub proof fn lemma_toggle_twice(current: Option<u64>, clicked: u64)
    ensures
        spec_after_toggle(spec_after_toggle(current, clicked, true), clicked, true) == (if current == Some(clicked) {
            Some(clicked)
        } else {
            None::<u64>
        }),
        spec_after_toggle(current, clicked, false) is None,
{
}

} // verus!
