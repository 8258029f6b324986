use vstd::prelude::*;

use crate::entry::PageTableEntry;
use crate::error::TranslationError;
use crate::ENTRIES_PER_TABLE;

verus! {

/// The raw values of a table whose slots are all zero (not present).
pub open spec fn empty_table() -> Seq<u64> {
    Seq::new(ENTRIES_PER_TABLE as nat, |i: int| 0u64)
}

/// One page-sized table of 512 entries.
pub struct PageTable {
    entries: Vec<u64>,
}

impl View for PageTable {
    type V = Seq<u64>;

    /// The raw values of the entries, in slot order.
    closed spec fn view(&self) -> Seq<u64> {
        self.entries@
    }
}

impl PageTable {
    /// A table holds exactly one entry per slot.
    pub open spec fn wf(&self) -> bool {
        self@.len() == ENTRIES_PER_TABLE
    }

    /// A table whose 512 entries are all zero.
    pub fn new() -> (r: PageTable)
        ensures
            r.wf(),
            r@ == empty_table(),
    {
        let mut entries: Vec<u64> = Vec::new();
        let mut i: usize = 0;
        while i < ENTRIES_PER_TABLE
            invariant
                i <= ENTRIES_PER_TABLE,
                entries@ == Seq::new(i as nat, |j: int| 0u64),
            decreases ENTRIES_PER_TABLE - i,
        {
            entries.push(0);
            i = i + 1;
            assert(entries@ =~= Seq::new(i as nat, |j: int| 0u64));
        }
        assert(entries@ =~= empty_table());
        PageTable { entries }
    }

    /// Replaces the entry in slot `index`; an index past the last slot is refused.
    pub fn add_entry(&mut self, index: usize, entry: PageTableEntry) -> (r: Result<
        (),
        TranslationError,
    >)
        requires
            old(self).wf(),
        ensures
            final(self).wf(),
            (index < ENTRIES_PER_TABLE) == r is Ok,
            r is Err ==> r->Err_0 == TranslationError::IndexOutOfRange && final(self)@ == old(
                self,
            )@,
            r is Ok ==> final(self)@ == old(self)@.update(index as int, entry@),
    {
        if index >= ENTRIES_PER_TABLE {
            return Err(TranslationError::IndexOutOfRange);
        }
        self.entries.set(index, entry.bits());
        Ok(())
    }

    /// The entry in slot `index`; an index past the last slot is refused.
    pub fn get_entry(&self, index: usize) -> (r: Result<PageTableEntry, TranslationError>)
        requires
            self.wf(),
        ensures
            (index < ENTRIES_PER_TABLE) == r is Ok,
            r is Err ==> r->Err_0 == TranslationError::IndexOutOfRange,
            r is Ok ==> r->Ok_0@ == self@[index as int],
    {
        if index >= ENTRIES_PER_TABLE {
            return Err(TranslationError::IndexOutOfRange);
        }
        Ok(PageTableEntry::from_bits(self.entries[index]))
    }
}

} // verus!
