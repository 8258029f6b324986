use vstd::prelude::*;

verus! {

/// Everything that can go wrong while building entries, indexing tables,
/// allocating frames or translating addresses.
#[derive(Clone, Copy, Debug, PartialEq, Eq, Structural)]
pub enum TranslationError {
    /// A physical address handed to an entry is not a multiple of the page size.
    InvalidAlignment,
    /// A table index lies outside `0..512`.
    IndexOutOfRange,
    /// The frame allocator has no frame left.
    OutOfMemory,
    /// A virtual address is not in canonical form.
    InvalidAddress,
    /// A present entry names a frame that holds no page table.
    MissingTable,
}

} // verus!
