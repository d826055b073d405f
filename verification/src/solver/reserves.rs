use vstd::prelude::*;

use std::collections::HashMap;

use crate::constants::{item_code, ColonyItem};

verus! {

/// The counted part of a player's balance: story points, alpha cores, and
/// colony items by item code. An item is listed only while at least one is
/// held.
pub struct Reserves {
    story_points: u32,
    alpha_cores: u32,
    colony_items: HashMap<u64, u32>,
}

/// How many of the item with code `code` the counts hold.
pub open spec fn count_of(items: Map<u64, u32>, code: u64) -> nat {
    if items.contains_key(code) {
        items[code] as nat
    } else {
        0
    }
}

/// The counts after gaining one item with code `code`.
pub open spec fn items_after_add(items: Map<u64, u32>, code: u64) -> Map<u64, u32> {
    items.insert(code, (count_of(items, code) + 1) as u32)
}

/// The counts after giving up one item with code `code`, when one is held.
pub open spec fn items_after_remove(items: Map<u64, u32>, code: u64) -> Map<u64, u32> {
    if count_of(items, code) == 0 {
        items
    } else if count_of(items, code) == 1 {
        items.remove(code)
    } else {
        items.insert(code, (count_of(items, code) - 1) as u32)
    }
}

/// No item is listed with a count of zero.
pub open spec fn counts_positive(items: Map<u64, u32>) -> bool {
    forall|k: u64| #[trigger] items.contains_key(k) ==> items[k] > 0
}

impl Reserves {
    #[verifier::type_invariant]
    spec fn well_formed(self) -> bool {
        counts_positive(self.colony_items@)
    }

    pub closed spec fn story_point_count(self) -> u32 {
        self.story_points
    }

    pub closed spec fn alpha_core_count(self) -> u32 {
        self.alpha_cores
    }

    /// The held colony items: count by item code.
    pub closed spec fn item_counts(self) -> Map<u64, u32> {
        self.colony_items@
    }

    /// Reserves with the given story points and alpha cores and no items.
    pub fn new(initial_sp: u32, initial_cores: u32) -> (r: Self)
        ensures
            r.story_point_count() == initial_sp,
            r.alpha_core_count() == initial_cores,
            r.item_counts() == Map::<u64, u32>::empty(),
            counts_positive(r.item_counts()),
    {
        Reserves { story_points: initial_sp, alpha_cores: initial_cores, colony_items: HashMap::new() }
    }

    pub fn story_points(&self) -> (n: u32)
        ensures
            n == self.story_point_count(),
    {
        self.story_points
    }

    pub fn alpha_cores(&self) -> (n: u32)
        ensures
            n == self.alpha_core_count(),
    {
        self.alpha_cores
    }

    /// The held colony items, count by item code.
    pub fn colony_items(&self) -> (m: &HashMap<u64, u32>)
        ensures
            m@ == self.item_counts(),
            counts_positive(m@),
    {
        proof {
            use_type_invariant(self);
        }
        &self.colony_items
    }

    /// How many of `item` are held.
    pub fn colony_item_count(&self, item: ColonyItem) -> (n: u32)
        ensures
            n == count_of(self.item_counts(), item_code(item)),
    {
        broadcast use vstd::std_specs::hash::group_hash_axioms;

        match self.colony_items.get(&item.code()) {
            Some(n) => *n,
            None => 0,
        }
    }

    pub fn add_story_points(&mut self, amount: u32)
        requires
            old(self).story_point_count() + amount <= u32::MAX,
        ensures
            final(self).story_point_count() == old(self).story_point_count() + amount,
            final(self).alpha_core_count() == old(self).alpha_core_count(),
            final(self).item_counts() == old(self).item_counts(),
    {
        proof {
            use_type_invariant(&*self);
        }
        self.story_points = self.story_points + amount;
    }

    /// Spend `amount` story points if that many are held; returns whether
    /// they were spent.
    pub fn spend_story_points(&mut self, amount: u32) -> (ok: bool)
        ensures
            ok == (old(self).story_point_count() >= amount),
            final(self).story_point_count() == if ok {
                (old(self).story_point_count() - amount) as u32
            } else {
                old(self).story_point_count()
            },
            final(self).alpha_core_count() == old(self).alpha_core_count(),
            final(self).item_counts() == old(self).item_counts(),
    {
        proof {
            use_type_invariant(&*self);
        }
        if self.story_points >= amount {
            self.story_points = self.story_points - amount;
            true
        } else {
            false
        }
    }

    pub fn add_alpha_cores(&mut self, amount: u32)
        requires
            old(self).alpha_core_count() + amount <= u32::MAX,
        ensures
            final(self).alpha_core_count() == old(self).alpha_core_count() + amount,
            final(self).story_point_count() == old(self).story_point_count(),
            final(self).item_counts() == old(self).item_counts(),
    {
        proof {
            use_type_invariant(&*self);
        }
        self.alpha_cores = self.alpha_cores + amount;
    }

    /// Spend `amount` alpha cores if that many are held; returns whether
    /// they were spent.
    pub fn spend_alpha_cores(&mut self, amount: u32) -> (ok: bool)
        ensures
            ok == (old(self).alpha_core_count() >= amount),
            final(self).alpha_core_count() == if ok {
                (old(self).alpha_core_count() - amount) as u32
            } else {
                old(self).alpha_core_count()
            },
            final(self).story_point_count() == old(self).story_point_count(),
            final(self).item_counts() == old(self).item_counts(),
    {
        proof {
            use_type_invariant(&*self);
        }
        if self.alpha_cores >= amount {
            self.alpha_cores = self.alpha_cores - amount;
            true
        } else {
            false
        }
    }

    /// Gain one `item`.
    pub fn add_colony_item(&mut self, item: ColonyItem)
        requires
            count_of(old(self).item_counts(), item_code(item)) < u32::MAX,
        ensures
            final(self).item_counts() == items_after_add(old(self).item_counts(), item_code(item)),
            counts_positive(old(self).item_counts()),
            counts_positive(final(self).item_counts()),
            final(self).story_point_count() == old(self).story_point_count(),
            final(self).alpha_core_count() == old(self).alpha_core_count(),
    {
        broadcast use vstd::std_specs::hash::group_hash_axioms;

        proof {
            use_type_invariant(&*self);
        }
        let code = item.code();
        let count = match self.colony_items.get(&code) {
            Some(n) => *n,
            None => 0,
        };
        let mut items: HashMap<u64, u32> = HashMap::new();
        std::mem::swap(&mut items, &mut self.colony_items);
        items.insert(code, count + 1);
        self.colony_items = items;
    }

    /// Give up one `item` if one is held; returns whether one was.
    pub fn remove_colony_item(&mut self, item: &ColonyItem) -> (ok: bool)
        ensures
            ok == (count_of(old(self).item_counts(), item_code(*item)) > 0),
            final(self).item_counts() == items_after_remove(old(self).item_counts(), item_code(*item)),
            counts_positive(old(self).item_counts()),
            counts_positive(final(self).item_counts()),
            final(self).story_point_count() == old(self).story_point_count(),
            final(self).alpha_core_count() == old(self).alpha_core_count(),
    {
        broadcast use vstd::std_specs::hash::group_hash_axioms;

        proof {
            use_type_invariant(&*self);
        }
        let code = item.code();
        let count = match self.colony_items.get(&code) {
            Some(n) => *n,
            None => 0,
        };
        if count == 0 {
            return false;
        }
        let mut items: HashMap<u64, u32> = HashMap::new();
        std::mem::swap(&mut items, &mut self.colony_items);
        if count == 1 {
            items.remove(&code);
        } else {
            items.insert(code, count - 1);
        }
        self.colony_items = items;
        true
    }
}

/// Law: giving up an item just gained restores the counts exactly.
pub proof fn lemma_remove_undoes_add(items: Map<u64, u32>, code: u64)
    requires
        counts_positive(items),
        count_of(items, code) < u32::MAX,
    ensures
        items_after_remove(items_after_add(items, code), code) == items,
{
    let added = items_after_add(items, code);
    assert(count_of(added, code) == count_of(items, code) + 1);
    if count_of(items, code) == 0 {
        assert(!items.contains_key(code));
        assert(added.remove(code) =~= items);
    } else {
        assert(added.insert(code, (count_of(added, code) - 1) as u32) =~= items);
    }
}

} // verus!
