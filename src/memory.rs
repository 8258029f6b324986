use std::collections::HashMap;
use vstd::prelude::*;

use crate::table::PageTable;
use crate::ENTRIES_PER_TABLE;

verus! {

broadcast use vstd::std_specs::hash::group_hash_axioms;

/// Simulated physical memory: the page table that each frame address holds.
pub struct PhysicalMemory {
    /// Frame address to the position of its table in `tables`.
    slots: HashMap<u64, usize>,
    tables: Vec<PageTable>,
}

impl View for PhysicalMemory {
    type V = Map<u64, Seq<u64>>;

    /// Each frame that holds a table, to the raw entries of that table.
    closed spec fn view(&self) -> Map<u64, Seq<u64>> {
        Map::new(
            |k: u64| self.slots@.contains_key(k),
            |k: u64| self.tables@[self.slots@[k] as int]@,
        )
    }
}

/// Replacing the table at a stored frame, in its position, keeps the memory
/// consistent and changes the view at that frame alone.
proof fn lemma_replace_table(m: PhysicalMemory, k: u64)
    requires
        m.wf(),
        m.slots@.contains_key(k),
    ensures
        forall|m2: PhysicalMemory, t: PageTable|
            #![trigger m2.wf(), t.wf()]
            m2.slots@ == m.slots@ && m2.tables@ == m.tables@.update(m.slots@[k] as int, t)
                && t.wf() ==> m2.wf() && m2@ == m@.insert(k, t@),
{
    assert forall|m2: PhysicalMemory, t: PageTable|
        #![trigger m2.wf(), t.wf()]
        m2.slots@ == m.slots@ && m2.tables@ == m.tables@.update(m.slots@[k] as int, t)
            && t.wf() implies m2.wf() && m2@ == m@.insert(k, t@) by {
        assert(m2@ =~= m@.insert(k, t@));
    }
}

impl PhysicalMemory {
    /// Every frame has a position of its own, and every table is well formed.
    pub closed spec fn inv(&self) -> bool {
        &&& forall|k: u64| #[trigger]
            self.slots@.contains_key(k) ==> self.slots@[k] < self.tables@.len()
        &&& forall|k1: u64, k2: u64|
            #![trigger self.slots@[k1], self.slots@[k2]]
            self.slots@.contains_key(k1) && self.slots@.contains_key(k2) && k1 != k2
                ==> self.slots@[k1] != self.slots@[k2]
        &&& forall|i: int| 0 <= i < self.tables@.len() ==> #[trigger] self.tables@[i].wf()
    }

    /// The memory is consistent, and each table it holds has one entry per slot.
    pub open spec fn wf(&self) -> bool {
        &&& self.inv()
        &&& forall|k: u64| #[trigger]
            self@.contains_key(k) ==> self@[k].len() == ENTRIES_PER_TABLE
    }

    /// Memory that holds no table yet.
    pub fn new() -> (r: PhysicalMemory)
        ensures
            r.wf(),
            r@ == Map::<u64, Seq<u64>>::empty(),
    {
        let r = PhysicalMemory { slots: HashMap::new(), tables: Vec::new() };
        assert(r@ =~= Map::<u64, Seq<u64>>::empty());
        r
    }

    /// Puts `page_table` at frame `phys_addr`, replacing any table already there.
    pub fn store_page_table(&mut self, phys_addr: u64, page_table: PageTable)
        requires
            old(self).wf(),
            page_table.wf(),
        ensures
            final(self).wf(),
            final(self)@ == old(self)@.insert(phys_addr, page_table@),
    {
        let ghost t = page_table@;
        let found: Option<usize> = match self.slots.get(&phys_addr) {
            Some(i) => Some(*i),
            None => None,
        };
        match found {
            Some(idx) => {
                self.tables.set(idx, page_table);
            },
            None => {
                let idx = self.tables.len();
                self.tables.push(page_table);
                self.slots.insert(phys_addr, idx);
            },
        }
        assert(self@ =~= old(self)@.insert(phys_addr, t));
    }

    /// The table at frame `phys_addr`, if one was stored there.
    pub fn get_page_table(&self, phys_addr: u64) -> (r: Option<&PageTable>)
        requires
            self.wf(),
        ensures
            r is Some == self@.contains_key(phys_addr),
            r is Some ==> r->Some_0@ == self@[phys_addr] && r->Some_0.wf(),
    {
        match self.slots.get(&phys_addr) {
            Some(i) => Some(&self.tables[*i]),
            None => None,
        }
    }

    /// The table at frame `phys_addr` for changing in place, if one was stored there.
    pub fn get_mut_page_table(&mut self, phys_addr: u64) -> (r: Option<&mut PageTable>)
        requires
            old(self).wf(),
        ensures
            r is Some == old(self)@.contains_key(phys_addr),
            match r {
                Some(t) => {
                    &&& (*t)@ == old(self)@[phys_addr]
                    &&& t.wf()
                    &&& final(t).wf() ==> final(self).wf() && final(self)@ == old(
                        self,
                    )@.insert(phys_addr, final(t)@)
                },
                None => final(self).wf() && final(self)@ == old(self)@,
            },
    {
        let found: Option<usize> = match self.slots.get(&phys_addr) {
            Some(i) => Some(*i),
            None => None,
        };
        match found {
            Some(idx) => {
                proof {
                    lemma_replace_table(*old(self), phys_addr);
                }
                Some(&mut self.tables[idx])
            },
            None => None,
        }
    }
}

} // verus!
