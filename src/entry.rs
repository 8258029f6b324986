use bit_field::BitField;
use vstd::prelude::*;

use crate::error::TranslationError;
use crate::{ADDR_MASK, PAGE_SIZE};

verus! {

/// Bit 0 of an entry: the slot is in use.
pub const PRESENT_BIT: u64 = 0x1;

/// Bit 1 of an entry: the mapped memory may be written.
pub const WRITABLE_BIT: u64 = 0x2;

/// Bit 63 of an entry: the mapped memory may not be executed.
pub const NO_EXECUTE_BIT: u64 = 0x8000_0000_0000_0000;

/// The 64-bit value of an entry built from an address and three flags.
pub open spec fn entry_bits(addr: u64, present: bool, writable: bool, no_execute: bool) -> u64 {
    (addr & ADDR_MASK) | (if present { PRESENT_BIT } else { 0u64 }) | (if writable {
        WRITABLE_BIT
    } else {
        0u64
    }) | (if no_execute { NO_EXECUTE_BIT } else { 0u64 })
}

/// Whether any bit of `flag` is set in `bits`.
pub open spec fn has_flag(bits: u64, flag: u64) -> bool {
    bits & flag != 0
}

/// The frame address stored in an entry's bits.
pub open spec fn address_of(bits: u64) -> u64 {
    bits & ADDR_MASK
}

/// Relies on `BitField::get_bit` for `u64` (bit_field): whether bit `bit` is set.
#[verifier::external_body]
fn read_bit(x: u64, bit: usize) -> (r: bool)
    requires
        bit < 64,
    ensures
        r == (x & (1u64 << (bit as u64)) != 0),
{
    x.get_bit(bit)
}

/// Relies on `BitField::set_bit` for `u64` (bit_field): `x` with bit `bit`
/// set when `value` holds and cleared otherwise.
#[verifier::external_body]
fn write_bit(x: u64, bit: usize, value: bool) -> (r: u64)
    requires
        bit < 64,
    ensures
        r == (if value {
            x | (1u64 << (bit as u64))
        } else {
            x & !(1u64 << (bit as u64))
        }),
{
    let mut y = x;
    y.set_bit(bit, value);
    y
}

/// Setting a flag bit that is clear, or clearing it, is an `|` with the flag or with zero.
proof fn lemma_write_clear_bit(x: u64, flag: u64, value: bool)
    requires
        x & flag == 0,
    ensures
        (if value {
            x | flag
        } else {
            x & !flag
        }) == x | (if value {
            flag
        } else {
            0u64
        }),
{
    if !value {
        assert(x & flag == 0 ==> x & !flag == x | 0u64) by (bit_vector);
    }
}

/// What an entry grants, as independent capabilities: any combination can hold.
#[derive(Clone, Copy, Debug, PartialEq, Eq, Structural)]
pub struct PermissionSet {
    /// The mapped memory may be written.
    pub writable: bool,
    /// The mapped memory may be executed.
    pub executable: bool,
    /// The mapped memory may only be read (the default when not writable).
    pub read_only: bool,
}

/// One slot of a page table: flags in bits 0, 1 and 63, and a frame address
/// in bits 12 to 51.
#[derive(Clone, Copy, Debug, PartialEq, Eq, Structural)]
pub struct PageTableEntry {
    bits: u64,
}

impl View for PageTableEntry {
    type V = u64;

    closed spec fn view(&self) -> u64 {
        self.bits
    }
}

impl PageTableEntry {
    /// Builds an entry that points at `phys_addr`, which must be page aligned.
    pub fn new(phys_addr: u64, present: bool, writable: bool, no_execute: bool) -> (r: Result<
        PageTableEntry,
        TranslationError,
    >)
        ensures
            (phys_addr % PAGE_SIZE == 0) == r is Ok,
            r is Err ==> r->Err_0 == TranslationError::InvalidAlignment,
            r is Ok ==> r->Ok_0@ == entry_bits(phys_addr, present, writable, no_execute),
    {
        if phys_addr % PAGE_SIZE != 0 {
            return Err(TranslationError::InvalidAlignment);
        }
        let b0 = write_bit(0, 0, present);
        proof {
            assert((1u64 << 0u64) == PRESENT_BIT) by (bit_vector);
            assert(0u64 & PRESENT_BIT == 0) by (bit_vector);
            lemma_write_clear_bit(0, PRESENT_BIT, present);
            assert(b0 == if present { PRESENT_BIT } else { 0u64 }) by {
                assert(0u64 | PRESENT_BIT == PRESENT_BIT) by (bit_vector);
                assert(0u64 | 0u64 == 0u64) by (bit_vector);
            }
            assert(b0 & WRITABLE_BIT == 0) by {
                assert(PRESENT_BIT & WRITABLE_BIT == 0) by (bit_vector);
                assert(0u64 & WRITABLE_BIT == 0) by (bit_vector);
            }
            assert((1u64 << 1u64) == WRITABLE_BIT) by (bit_vector);
            lemma_write_clear_bit(b0, WRITABLE_BIT, writable);
        }
        let b1 = write_bit(b0, 1, writable);
        proof {
            let w = if writable { WRITABLE_BIT } else { 0u64 };
            assert(b0 & NO_EXECUTE_BIT == 0 && w & NO_EXECUTE_BIT == 0 ==> (b0 | w)
                & NO_EXECUTE_BIT == 0) by (bit_vector);
            assert(PRESENT_BIT & NO_EXECUTE_BIT == 0) by (bit_vector);
            assert(WRITABLE_BIT & NO_EXECUTE_BIT == 0) by (bit_vector);
            assert(0u64 & NO_EXECUTE_BIT == 0) by (bit_vector);
            assert((1u64 << 63u64) == NO_EXECUTE_BIT) by (bit_vector);
            lemma_write_clear_bit(b1, NO_EXECUTE_BIT, no_execute);
        }
        let b2 = write_bit(b1, 63, no_execute);
        let bits = b2 | (phys_addr & ADDR_MASK);
        proof {
            let p = if present { PRESENT_BIT } else { 0u64 };
            let w = if writable { WRITABLE_BIT } else { 0u64 };
            let x = if no_execute { NO_EXECUTE_BIT } else { 0u64 };
            assert(((p | w) | x) | (phys_addr & ADDR_MASK) == (phys_addr & ADDR_MASK) | p | w | x)
                by (bit_vector);
        }
        Ok(PageTableEntry { bits })
    }

    /// An entry with exactly the given bits.
    pub fn from_bits(bits: u64) -> (r: PageTableEntry)
        ensures
            r@ == bits,
    {
        PageTableEntry { bits }
    }

    /// The entry's raw 64-bit value.
    pub fn bits(&self) -> (r: u64)
        ensures
            r == self@,
    {
        self.bits
    }

    /// Whether bit 0 (present) is set.
    pub fn is_present(&self) -> (r: bool)
        ensures
            r == has_flag(self@, PRESENT_BIT),
    {
        proof {
            assert((1u64 << 0u64) == PRESENT_BIT) by (bit_vector);
        }
        read_bit(self.bits, 0)
    }

    /// The frame address in bits 12 to 51, every other bit cleared.
    pub fn get_phys_address(&self) -> (r: u64)
        ensures
            r == address_of(self@),
    {
        self.bits & ADDR_MASK
    }

    /// The capabilities that the entry's flags grant.
    pub fn permissions(&self) -> (r: PermissionSet)
        ensures
            r.writable == has_flag(self@, WRITABLE_BIT),
            r.executable == !has_flag(self@, NO_EXECUTE_BIT),
            r.read_only == !has_flag(self@, WRITABLE_BIT),
    {
        proof {
            assert((1u64 << 1u64) == WRITABLE_BIT) by (bit_vector);
            assert((1u64 << 63u64) == NO_EXECUTE_BIT) by (bit_vector);
        }
        let writable = read_bit(self.bits, 1);
        let no_execute = read_bit(self.bits, 63);
        PermissionSet { writable, executable: !no_execute, read_only: !writable }
    }
}

/// An entry built from a page-aligned address below 2^52 gives that address back.
pub proof fn lemma_entry_address_round_trip(
    addr: u64,
    present: bool,
    writable: bool,
    no_execute: bool,
)
    requires
        addr % PAGE_SIZE == 0,
        addr < 0x0010_0000_0000_0000,
    ensures
        address_of(entry_bits(addr, present, writable, no_execute)) == addr,
{
    let p = if present { PRESENT_BIT } else { 0u64 };
    let w = if writable { WRITABLE_BIT } else { 0u64 };
    let x = if no_execute { NO_EXECUTE_BIT } else { 0u64 };
    assert(p & ADDR_MASK == 0 && w & ADDR_MASK == 0 && x & ADDR_MASK == 0) by {
        assert(PRESENT_BIT & ADDR_MASK == 0) by (bit_vector);
        assert(WRITABLE_BIT & ADDR_MASK == 0) by (bit_vector);
        assert(NO_EXECUTE_BIT & ADDR_MASK == 0) by (bit_vector);
        assert(0u64 & ADDR_MASK == 0) by (bit_vector);
    }
    assert(addr % 4096 == 0 && addr < 0x0010_0000_0000_0000 && p & ADDR_MASK == 0 && w & ADDR_MASK
        == 0 && x & ADDR_MASK == 0 ==> ((addr & ADDR_MASK) | p | w | x) & ADDR_MASK == addr)
        by (bit_vector);
}

} // verus!
