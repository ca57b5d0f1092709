//! Where the live allocations of a program are.

use std::collections::HashMap;

use vstd::prelude::*;

use crate::device::Base;
use crate::heap::Block;

verus! {



/// The block behind every live allocation.
pub struct Table {
    fresh: HashMap<usize, Block>,
    kept: HashMap<usize, Block>,
    pool: HashMap<usize, Block>,
    slots: HashMap<usize, Block>,
}

impl Table {
    closed spec fn part(&self, base: Base) -> Option<Block> {
        match base {
            Base::Fresh(id) => if self.fresh@.contains_key(id) {
                Some(self.fresh@[id])
            } else {
                None
            },
            Base::Kept(id) => if self.kept@.contains_key(id) {
                Some(self.kept@[id])
            } else {
                None
            },
            Base::Pool(len) => if self.pool@.contains_key(len) {
                Some(self.pool@[len])
            } else {
                None
            },
            Base::Slot(id) => if self.slots@.contains_key(id) {
                Some(self.slots@[id])
            } else {
                None
            },
        }
    }
}

impl View for Table {
    type V = Map<Base, Block>;

    closed spec fn view(&self) -> Map<Base, Block> {
        Map::new(|base: Base| self.part(base) is Some, |base: Base| self.part(base)->0)
    }
}

impl Table {
    pub fn new() -> (table: Table)
        ensures
            table@ == Map::<Base, Block>::empty(),
    {
        let table = Table {
            fresh: HashMap::new(),
            kept: HashMap::new(),
            pool: HashMap::new(),
            slots: HashMap::new(),
        };
        assert(table@ =~= Map::<Base, Block>::empty());
        table
    }

    /// The block of an allocation, where it is live.
    pub fn find(&self, base: Base) -> (block: Option<Block>)
        ensures
            match block {
                Some(b) => self@.contains_key(base) && self@[base] == b,
                None => !self@.contains_key(base),
            },
    {
        let found = match base {
            Base::Fresh(id) => self.fresh.get(&id),
            Base::Kept(id) => self.kept.get(&id),
            Base::Pool(len) => self.pool.get(&len),
            Base::Slot(id) => self.slots.get(&id),
        };
        match found {
            Some(b) => Some(*b),
            None => None,
        }
    }

    pub fn insert(&mut self, base: Base, block: Block)
        ensures
            final(self)@ == old(self)@.insert(base, block),
    {
        match base {
            Base::Fresh(id) => {
                self.fresh.insert(id, block);
            },
            Base::Kept(id) => {
                self.kept.insert(id, block);
            },
            Base::Pool(len) => {
                self.pool.insert(len, block);
            },
            Base::Slot(id) => {
                self.slots.insert(id, block);
            },
        }
        assert(self@ =~= old(self)@.insert(base, block));
    }

    pub fn remove(&mut self, base: Base)
        ensures
            final(self)@ == old(self)@.remove(base),
    {
        match base {
            Base::Fresh(id) => {
                self.fresh.remove(&id);
            },
            Base::Kept(id) => {
                self.kept.remove(&id);
            },
            Base::Pool(len) => {
                self.pool.remove(&len);
            },
            Base::Slot(id) => {
                self.slots.remove(&id);
            },
        }
        assert(self@ =~= old(self)@.remove(base));
    }
}

} // verus!
