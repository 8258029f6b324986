//! A software model of x86-64 four-level address translation (PML4, PDPT, PD,
//! PT) with a recursive PML4 slot, backed by a bump frame allocator.
use vstd::prelude::*;

pub mod address;
pub mod entry;
pub mod error;
pub mod frame;
pub mod memory;
pub mod table;
pub mod translate;

verus! {

/// Size in bytes of a page and of a physical frame.
pub const PAGE_SIZE: u64 = 4096;

/// Number of slots in every page table.
pub const ENTRIES_PER_TABLE: usize = 512;

/// The PML4 slot that points back at the PML4 table itself.
pub const RECURSIVE_INDEX: u64 = 511;

/// Size in bytes of one page-table entry.
pub const ENTRY_SIZE: u64 = 8;

/// Bits 12 to 51 of an entry: the physical address of a frame.
pub const ADDR_MASK: u64 = 0x000F_FFFF_FFFF_F000;

/// First address of the user half of the virtual address space.
pub const USER_SPACE_START_ADDRESS: u64 = 0x0000_0000_0000_0000;

/// Last address of the user half of the virtual address space.
pub const USER_SPACE_END_ADDRESS: u64 = 0x0000_7FFF_FFFF_FFFF;

} // verus!
