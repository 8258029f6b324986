use rand::Rng;
use vstd::prelude::*;

use crate::{ENTRY_SIZE, PAGE_SIZE, RECURSIVE_INDEX, USER_SPACE_END_ADDRESS, USER_SPACE_START_ADDRESS};

verus! {

/// Bits 47 to 39 of a virtual address: the slot in the PML4 table.
pub open spec fn pml4_index(v: u64) -> u64 {
    (v >> 39u64) & 0x1FF
}

/// Bits 38 to 30 of a virtual address: the slot in the PDPT table.
pub open spec fn pdpt_index(v: u64) -> u64 {
    (v >> 30u64) & 0x1FF
}

/// Bits 29 to 21 of a virtual address: the slot in the PD table.
pub open spec fn pd_index(v: u64) -> u64 {
    (v >> 21u64) & 0x1FF
}

/// Bits 20 to 12 of a virtual address: the slot in the PT table.
pub open spec fn pt_index(v: u64) -> u64 {
    (v >> 12u64) & 0x1FF
}

/// Bits 11 to 0 of a virtual address: the byte within the page.
pub open spec fn page_offset(v: u64) -> u64 {
    v & 0xFFF
}

/// The address whose four index fields and offset are the given values.
pub open spec fn compose_address(p4: u64, p3: u64, p2: u64, p1: u64, offset: u64) -> u64 {
    (p4 << 39u64) | (p3 << 30u64) | (p2 << 21u64) | (p1 << 12u64) | offset
}

/// Bits 63 to 48 repeat bit 47.
pub open spec fn is_canonical(v: u64) -> bool {
    v < 0x0000_8000_0000_0000 || v >= 0xFFFF_8000_0000_0000
}

/// Splits a virtual address into its PML4, PDPT, PD and PT indices and its offset.
pub fn virt_addr_indices(virt_addr: u64) -> (r: (usize, usize, usize, usize, usize))
    ensures
        r.0 as u64 == pml4_index(virt_addr),
        r.1 as u64 == pdpt_index(virt_addr),
        r.2 as u64 == pd_index(virt_addr),
        r.3 as u64 == pt_index(virt_addr),
        r.4 as u64 == page_offset(virt_addr),
        r.0 < 512 && r.1 < 512 && r.2 < 512 && r.3 < 512 && r.4 < 4096,
{
    let idx_mask: u64 = 0x1FF;
    let offset_mask: u64 = 0xFFF;
    let pml4_idx = (virt_addr >> 39) & idx_mask;
    let pdpt_idx = (virt_addr >> 30) & idx_mask;
    let pd_idx = (virt_addr >> 21) & idx_mask;
    let pt_idx = (virt_addr >> 12) & idx_mask;
    let offset = virt_addr & offset_mask;
    proof {
        assert(pml4_idx < 512 && pdpt_idx < 512 && pd_idx < 512 && pt_idx < 512) by (bit_vector)
            requires
                pml4_idx == (virt_addr >> 39u64) & 0x1FF,
                pdpt_idx == (virt_addr >> 30u64) & 0x1FF,
                pd_idx == (virt_addr >> 21u64) & 0x1FF,
                pt_idx == (virt_addr >> 12u64) & 0x1FF,
        ;
        assert(offset < 4096) by (bit_vector)
            requires
                offset == virt_addr & 0xFFF,
        ;
    }
    (pml4_idx as usize, pdpt_idx as usize, pd_idx as usize, pt_idx as usize, offset as usize)
}

/// Rebuilding an address from its fields gives its low 48 bits; for an address
/// in the lower half that is the address itself.
pub proof fn lemma_indices_rebuild(v: u64)
    requires
        is_canonical(v),
    ensures
        compose_address(pml4_index(v), pdpt_index(v), pd_index(v), pt_index(v), page_offset(v))
            == v & 0x0000_FFFF_FFFF_FFFF,
        v <= USER_SPACE_END_ADDRESS ==> compose_address(
            pml4_index(v),
            pdpt_index(v),
            pd_index(v),
            pt_index(v),
            page_offset(v),
        ) == v,
{
    assert(((v >> 39u64) & 0x1FF) << 39u64 | ((v >> 30u64) & 0x1FF) << 30u64 | ((v >> 21u64)
        & 0x1FF) << 21u64 | ((v >> 12u64) & 0x1FF) << 12u64 | (v & 0xFFF) == v
        & 0x0000_FFFF_FFFF_FFFF) by (bit_vector);
    assert(v <= 0x0000_7FFF_FFFF_FFFF ==> v & 0x0000_FFFF_FFFF_FFFF == v) by (bit_vector);
}

/// Virtual address of PML4 slot `pml4_idx`, reached through the recursive slot four times.
pub fn pml4_virtual_access_addr(pml4_idx: usize) -> (r: u64)
    requires
        pml4_idx < 512,
    ensures
        r == compose_address(
            RECURSIVE_INDEX,
            RECURSIVE_INDEX,
            RECURSIVE_INDEX,
            RECURSIVE_INDEX,
            (pml4_idx * ENTRY_SIZE) as u64,
        ),
{
    (RECURSIVE_INDEX << 39) | (RECURSIVE_INDEX << 30) | (RECURSIVE_INDEX << 21) | (RECURSIVE_INDEX
        << 12) | (pml4_idx as u64 * ENTRY_SIZE)
}

/// Virtual address of PDPT slot `pdpt_idx` under PML4 slot `pml4_idx`.
pub fn pdtp_virtual_access_addr(pml4_idx: usize, pdpt_idx: usize) -> (r: u64)
    requires
        pml4_idx < 512,
        pdpt_idx < 512,
    ensures
        r == compose_address(
            RECURSIVE_INDEX,
            RECURSIVE_INDEX,
            RECURSIVE_INDEX,
            pml4_idx as u64,
            (pdpt_idx * ENTRY_SIZE) as u64,
        ),
{
    (RECURSIVE_INDEX << 39) | (RECURSIVE_INDEX << 30) | (RECURSIVE_INDEX << 21) | ((
    pml4_idx as u64) << 12) | (pdpt_idx as u64 * ENTRY_SIZE)
}

/// Virtual address of PD slot `pd_idx` under PML4 slot `pml4_idx` and PDPT slot `pdpt_idx`.
pub fn pdt_virtual_access_addr(pml4_idx: usize, pdpt_idx: usize, pd_idx: usize) -> (r: u64)
    requires
        pml4_idx < 512,
        pdpt_idx < 512,
        pd_idx < 512,
    ensures
        r == compose_address(
            RECURSIVE_INDEX,
            RECURSIVE_INDEX,
            pml4_idx as u64,
            pdpt_idx as u64,
            (pd_idx * ENTRY_SIZE) as u64,
        ),
{
    (RECURSIVE_INDEX << 39) | (RECURSIVE_INDEX << 30) | ((pml4_idx as u64) << 21) | ((
    pdpt_idx as u64) << 12) | (pd_idx as u64 * ENTRY_SIZE)
}

/// Virtual address of PT slot `pt_idx` under PML4, PDPT and PD slots
/// `pml4_idx`, `pdpt_idx` and `pd_idx`.
pub fn pt_virtual_access_addr(pml4_idx: usize, pdpt_idx: usize, pd_idx: usize, pt_idx: usize) -> (r:
    u64)
    requires
        pml4_idx < 512,
        pdpt_idx < 512,
        pd_idx < 512,
        pt_idx < 512,
    ensures
        r == compose_address(
            RECURSIVE_INDEX,
            pml4_idx as u64,
            pdpt_idx as u64,
            pd_idx as u64,
            (pt_idx * ENTRY_SIZE) as u64,
        ),
{
    (RECURSIVE_INDEX << 39) | ((pml4_idx as u64) << 30) | ((pdpt_idx as u64) << 21) | ((
    pd_idx as u64) << 12) | (pt_idx as u64 * ENTRY_SIZE)
}

/// `addr` rounded down to a multiple of `page_size`.
pub fn check_address_alignment(addr: u64, page_size: u64) -> (r: u64)
    requires
        page_size > 0,
    ensures
        r == addr - addr % page_size,
{
    let alignment = addr % page_size;
    assert(addr % page_size <= addr) by (nonlinear_arith)
        requires
            page_size > 0,
    ;
    if alignment != 0 {
        return addr - alignment;
    }
    addr
}

/// Relies on `rand::thread_rng` and `Rng::gen_range` (rand): a value drawn from
/// `low..high`.
#[verifier::external_body]
fn random_in_range(low: u64, high: u64) -> (r: u64)
    requires
        low < high,
    ensures
        low <= r < high,
{
    rand::thread_rng().gen_range(low..high)
}

/// A random page-aligned address in the user half of the address space.
pub fn generate_virtual_address() -> (r: u64)
    ensures
        r % PAGE_SIZE == 0,
        USER_SPACE_START_ADDRESS <= r < USER_SPACE_END_ADDRESS,
{
    let address = random_in_range(USER_SPACE_START_ADDRESS, USER_SPACE_END_ADDRESS);
    let aligned = check_address_alignment(address, PAGE_SIZE);
    proof {
        let q = address as int / PAGE_SIZE as int;
        vstd::arithmetic::div_mod::lemma_fundamental_div_mod(address as int, PAGE_SIZE as int);
        vstd::arithmetic::div_mod::lemma_mod_multiples_basic(q, PAGE_SIZE as int);
        assert(aligned as int == q * PAGE_SIZE);
    }
    aligned
}

} // verus!
