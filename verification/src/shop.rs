use vstd::prelude::*;

verus! {

/// The shop: every item it can sell, and the positions (in that list) of
/// the items currently offered, in the order they are shown.
pub struct Shop<T> {
    pub all_items: Vec<T>,
    pub current_items: Vec<usize>,
}

/// The offered positions that name an item, in order; the others are
/// skipped.
pub open spec fn spec_shown(current: Seq<usize>, item_count: nat) -> Seq<usize>
    decreases current.len(),
{
    if current.len() == 0 {
        Seq::empty()
    } else {
        let rest = spec_shown(current.drop_last(), item_count);
        if (current.last() as nat) < item_count { rest.push(current.last()) } else { rest }
    }
}

impl<T> Shop<T> {
    /// A shop that offers all of `all_items`, in their order.
    pub fn new(all_items: Vec<T>) -> (s: Shop<T>)
        ensures
            s.all_items@ == all_items@,
            s.current_items@.len() == all_items@.len(),
            forall|k: int| 0 <= k < all_items@.len() ==> s.current_items@[k] == k,
    {
        let n = all_items.len();
        let mut current_items: Vec<usize> = Vec::new();
        let mut k: usize = 0;
        while k < n
            invariant
                k <= n,
                current_items@.len() == k,
                forall|j: int| 0 <= j < k ==> current_items@[j] == j,
            decreases n - k,
        {
            current_items.push(k);
            k = k + 1;
        }
        Shop { all_items, current_items }
    }

    /// Positions of the items to show, in the order of `current_items`,
    /// skipping those that name no item.
    pub fn shown_items(&self) -> (r: Vec<usize>)
        ensures
            r@ == spec_shown(self.current_items@, self.all_items@.len()),
            forall|k: int| 0 <= k < r@.len() ==> (#[trigger] r@[k] as int) < self.all_items@.len(),
    {
        let mut r: Vec<usize> = Vec::new();
        let mut i: usize = 0;
        while i < self.current_items.len()
            invariant
                i <= self.current_items@.len(),
                r@ == spec_shown(self.current_items@.subrange(0, i as int), self.all_items@.len()),
                forall|k: int| 0 <= k < r@.len() ==> (#[trigger] r@[k] as int) < self.all_items@.len(),
            decreases self.current_items@.len() - i,
        {
            let idx = self.current_items[i];
            proof {
                let s = self.current_items@.subrange(0, i as int + 1);
                assert(s.drop_last() =~= self.current_items@.subrange(0, i as int));
                assert(s.last() == idx);
            }
            if idx < self.all_items.len() {
                r.push(idx);
            }
            i = i + 1;
        }
        proof {
            assert(self.current_items@.subrange(0, i as int) =~= self.current_items@);
        }
        r
    }
}

} // verus!
