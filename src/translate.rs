use vstd::prelude::*;

use crate::address::{
    is_canonical, page_offset, pd_index, pdpt_index, pml4_index, pt_index, virt_addr_indices,
};
use crate::entry::{address_of, entry_bits, has_flag, lemma_entry_address_round_trip, PageTableEntry, PRESENT_BIT};
use crate::error::TranslationError;
use crate::frame::{FrameAllocator, MAX_FRAMES};
use crate::memory::PhysicalMemory;
use crate::table::{empty_table, PageTable};
use crate::{ADDR_MASK, ENTRIES_PER_TABLE, PAGE_SIZE};

verus! {

/// Where a walk down the hierarchy stands: the tables in memory, the
/// allocator's cursor, the frame reached so far, and the error that stopped
/// the walk, if one did.
pub struct Walk {
    pub tables: Map<u64, Seq<u64>>,
    pub next: u64,
    pub frame: u64,
    pub error: Option<TranslationError>,
}

/// The entry written into a parent table for a newly created frame:
/// present, writable, executable.
pub open spec fn link_entry(frame: u64) -> u64 {
    entry_bits(frame, true, true, false)
}

/// One level of the walk: read slot `idx` of the table at the current frame;
/// follow it when present, or else take a new frame from the allocator, put an
/// empty table there and link it from the slot.
pub open spec fn step(w: Walk, limit: u64, idx: u64) -> Walk {
    if w.error is Some {
        w
    } else if !w.tables.contains_key(w.frame) {
        Walk { error: Some(TranslationError::MissingTable), ..w }
    } else if has_flag(w.tables[w.frame][idx as int], PRESENT_BIT) {
        Walk { frame: address_of(w.tables[w.frame][idx as int]), ..w }
    } else if w.next >= limit {
        Walk { error: Some(TranslationError::OutOfMemory), ..w }
    } else {
        let f = (w.next * PAGE_SIZE) as u64;
        let grown = w.tables.insert(f, empty_table());
        Walk {
            tables: grown.insert(w.frame, grown[w.frame].update(idx as int, link_entry(f))),
            next: (w.next + 1) as u64,
            frame: f,
            error: None,
        }
    }
}

/// The walk through the PML4, PDPT and PD levels, which reaches the PT table.
pub open spec fn walk_to_pt(
    tables: Map<u64, Seq<u64>>,
    next: u64,
    limit: u64,
    root: u64,
    v: u64,
) -> Walk {
    let start = Walk { tables, next, frame: root, error: None };
    step(step(step(start, limit, pml4_index(v)), limit, pdpt_index(v)), limit, pd_index(v))
}

/// The whole walk for `v` from the PML4 table at `root`, with the allocator at
/// cursor `next` below `limit`.
pub open spec fn walk(tables: Map<u64, Seq<u64>>, next: u64, limit: u64, root: u64, v: u64) -> Walk {
    step(walk_to_pt(tables, next, limit, root, v), limit, pt_index(v))
}

/// What a finished walk answers for `v`: the data frame plus the page offset.
pub open spec fn walk_result(w: Walk, v: u64) -> Result<u64, TranslationError> {
    match w.error {
        Some(e) => Err(e),
        None => Ok((w.frame + page_offset(v)) as u64),
    }
}

/// Every table has one entry per slot.
pub open spec fn tables_full(tables: Map<u64, Seq<u64>>) -> bool {
    forall|k: u64| #[trigger] tables.contains_key(k) ==> tables[k].len() == ENTRIES_PER_TABLE
}

/// Every table lies in a frame below the allocator's cursor, so no frame it
/// hands out already holds one.
pub open spec fn frames_below(tables: Map<u64, Seq<u64>>, next: u64) -> bool {
    forall|k: u64| #[trigger] tables.contains_key(k) ==> k < next * PAGE_SIZE
}

/// `b` still holds every table of `a`, and every present entry of `a` unchanged.
pub open spec fn keeps_present(a: Map<u64, Seq<u64>>, b: Map<u64, Seq<u64>>) -> bool {
    forall|k: u64| #[trigger]
        a.contains_key(k) ==> b.contains_key(k) && forall|i: int|
            0 <= i < ENTRIES_PER_TABLE && has_flag(a[k][i], PRESENT_BIT) ==> #[trigger] b[k][i]
                == a[k][i]
}

/// Keeping present entries is transitive.
proof fn lemma_keeps_present_trans(
    a: Map<u64, Seq<u64>>,
    b: Map<u64, Seq<u64>>,
    c: Map<u64, Seq<u64>>,
)
    requires
        keeps_present(a, b),
        keeps_present(b, c),
    ensures
        keeps_present(a, c),
{
    assert forall|k: u64| #[trigger] a.contains_key(k) implies c.contains_key(k) && forall|i: int|
        0 <= i < ENTRIES_PER_TABLE && has_flag(a[k][i], PRESENT_BIT) ==> #[trigger] c[k][i]
            == a[k][i] by {
        assert forall|i: int|
            0 <= i < ENTRIES_PER_TABLE && has_flag(a[k][i], PRESENT_BIT) implies #[trigger] c[k][i]
                == a[k][i] by {
            assert(b[k][i] == a[k][i]);
        }
    }
}

/// A new frame's link entry is present and names that frame.
proof fn lemma_link_entry(f: u64)
    requires
        f % PAGE_SIZE == 0,
        f < 0x0010_0000_0000_0000,
    ensures
        has_flag(link_entry(f), PRESENT_BIT),
        address_of(link_entry(f)) == f,
{
    lemma_entry_address_round_trip(f, true, true, false);
    assert(((f & ADDR_MASK) | 1u64 | 2u64 | 0u64) & 1u64 != 0) by (bit_vector);
}

/// What one level of the walk does to a consistent state.
proof fn lemma_step(w: Walk, limit: u64, idx: u64)
    requires
        w.error is None,
        tables_full(w.tables),
        frames_below(w.tables, w.next),
        limit <= MAX_FRAMES,
        idx < ENTRIES_PER_TABLE,
    ensures
        ({
            let s = step(w, limit, idx);
            &&& tables_full(s.tables)
            &&& frames_below(s.tables, s.next)
            &&& keeps_present(w.tables, s.tables)
            &&& s.error is None ==> {
                &&& s.tables.contains_key(w.frame)
                &&& has_flag(s.tables[w.frame][idx as int], PRESENT_BIT)
                &&& address_of(s.tables[w.frame][idx as int]) == s.frame
            }
            &&& s.error is Some ==> s == Walk { error: s.error, ..w }
            &&& s.next != w.next ==> s.next == w.next + 1 && s.frame == w.next * PAGE_SIZE
        }),
{
    let s = step(w, limit, idx);
    if w.tables.contains_key(w.frame) && !has_flag(w.tables[w.frame][idx as int], PRESENT_BIT)
        && w.next < limit {
        let f = (w.next * PAGE_SIZE) as u64;
        let n = w.next as int;
        assert(n * 4096 < 0x0010_0000_0000_0000 && (n * 4096) % 4096 == 0) by (nonlinear_arith)
            requires
                0 <= n < 0x100_0000_0000,
        ;
        assert(f == w.next * PAGE_SIZE);
        lemma_link_entry(f);
        assert(!w.tables.contains_key(f));
        assert((n + 1) * 4096 == n * 4096 + 4096) by (nonlinear_arith);
        assert(s.tables[w.frame][idx as int] == link_entry(f));
    } else {
        assert(keeps_present(w.tables, s.tables));
    }
}

/// Replaying a level over tables that kept the first pass's present entries
/// takes the same branch: it follows the same link, or stops with the same error.
proof fn lemma_replay_step(w: Walk, limit: u64, idx: u64, tables: Map<u64, Seq<u64>>, next: u64)
    requires
        w.error is None,
        tables_full(w.tables),
        frames_below(w.tables, w.next),
        limit <= MAX_FRAMES,
        idx < ENTRIES_PER_TABLE,
        keeps_present(step(w, limit, idx).tables, tables),
        step(w, limit, idx).error is Some ==> tables == w.tables && next == w.next,
    ensures
        step(Walk { tables, next, frame: w.frame, error: None }, limit, idx) == (if step(
            w,
            limit,
            idx,
        ).error is None {
            Walk { tables, next, frame: step(w, limit, idx).frame, error: None }
        } else {
            step(w, limit, idx)
        }),
{
    lemma_step(w, limit, idx);
    let s = step(w, limit, idx);
    if s.error is None {
        assert(tables[w.frame][idx as int] == s.tables[w.frame][idx as int]);
    } else {
        assert(Walk { tables, next, frame: w.frame, error: None } == w);
    }
}

/// Translating an address a second time, right after a first translation,
/// changes nothing and gives the same answer: no frame is allocated again.
/// This holds when no table lies in a frame that the allocator has yet to
/// hand out.
pub proof fn lemma_translate_idempotent(
    tables: Map<u64, Seq<u64>>,
    next: u64,
    limit: u64,
    root: u64,
    v: u64,
)
    requires
        tables_full(tables),
        frames_below(tables, next),
        limit <= MAX_FRAMES,
    ensures
        ({
            let first = walk(tables, next, limit, root, v);
            let second = walk(first.tables, first.next, limit, root, v);
            &&& second == first
            &&& walk_result(second, v) == walk_result(first, v)
        }),
{
    let w0 = Walk { tables, next, frame: root, error: None };
    let w1 = step(w0, limit, pml4_index(v));
    let w2 = step(w1, limit, pdpt_index(v));
    let w3 = step(w2, limit, pd_index(v));
    let w4 = step(w3, limit, pt_index(v));
    assert(pml4_index(v) < 512 && pdpt_index(v) < 512 && pd_index(v) < 512 && pt_index(v) < 512)
        by (bit_vector);
    lemma_step(w0, limit, pml4_index(v));
    if w1.error is None {
        lemma_step(w1, limit, pdpt_index(v));
        if w2.error is None {
            lemma_step(w2, limit, pd_index(v));
            lemma_keeps_present_trans(w1.tables, w2.tables, w3.tables);
            if w3.error is None {
                lemma_step(w3, limit, pt_index(v));
                lemma_keeps_present_trans(w2.tables, w3.tables, w4.tables);
                lemma_keeps_present_trans(w1.tables, w2.tables, w4.tables);
            }
        }
    }
    let t = w4.tables;
    let n = w4.next;
    lemma_replay_step(w0, limit, pml4_index(v), t, n);
    if w1.error is None {
        lemma_replay_step(w1, limit, pdpt_index(v), t, n);
        if w2.error is None {
            lemma_replay_step(w2, limit, pd_index(v), t, n);
            if w3.error is None {
                lemma_replay_step(w3, limit, pt_index(v), t, n);
            }
        }
    }
}

/// The first three levels and the whole walk keep a consistent state consistent,
/// and keep every present entry.
proof fn lemma_walk_invariants(
    tables: Map<u64, Seq<u64>>,
    next: u64,
    limit: u64,
    root: u64,
    v: u64,
)
    requires
        tables_full(tables),
        frames_below(tables, next),
        limit <= MAX_FRAMES,
        walk(tables, next, limit, root, v).error is None,
    ensures
        ({
            let pt = walk_to_pt(tables, next, limit, root, v);
            let w = walk(tables, next, limit, root, v);
            &&& pt.error is None
            &&& tables_full(pt.tables) && frames_below(pt.tables, pt.next)
            &&& tables_full(w.tables) && frames_below(w.tables, w.next)
            &&& keeps_present(tables, w.tables)
            &&& keeps_present(pt.tables, w.tables)
        }),
{
    let w0 = Walk { tables, next, frame: root, error: None };
    let w1 = step(w0, limit, pml4_index(v));
    let w2 = step(w1, limit, pdpt_index(v));
    let w3 = step(w2, limit, pd_index(v));
    let w4 = step(w3, limit, pt_index(v));
    assert(pml4_index(v) < 512 && pdpt_index(v) < 512 && pd_index(v) < 512 && pt_index(v) < 512)
        by (bit_vector);
    lemma_step(w0, limit, pml4_index(v));
    lemma_step(w1, limit, pdpt_index(v));
    lemma_step(w2, limit, pd_index(v));
    lemma_step(w3, limit, pt_index(v));
    lemma_keeps_present_trans(w0.tables, w1.tables, w2.tables);
    lemma_keeps_present_trans(w0.tables, w2.tables, w3.tables);
    lemma_keeps_present_trans(w0.tables, w3.tables, w4.tables);
}

/// Once a walk has succeeded, walking the same address over any later tables
/// that kept its present entries follows the same links and allocates nothing.
proof fn lemma_replay_walk(
    tables: Map<u64, Seq<u64>>,
    next: u64,
    limit: u64,
    root: u64,
    v: u64,
    later: Map<u64, Seq<u64>>,
    later_next: u64,
)
    requires
        tables_full(tables),
        frames_below(tables, next),
        limit <= MAX_FRAMES,
        walk(tables, next, limit, root, v).error is None,
        keeps_present(walk(tables, next, limit, root, v).tables, later),
    ensures
        walk_to_pt(later, later_next, limit, root, v) == (Walk {
            tables: later,
            next: later_next,
            frame: walk_to_pt(tables, next, limit, root, v).frame,
            error: None,
        }),
        walk(later, later_next, limit, root, v) == (Walk {
            tables: later,
            next: later_next,
            frame: walk(tables, next, limit, root, v).frame,
            error: None,
        }),
{
    let w0 = Walk { tables, next, frame: root, error: None };
    let w1 = step(w0, limit, pml4_index(v));
    let w2 = step(w1, limit, pdpt_index(v));
    let w3 = step(w2, limit, pd_index(v));
    let w4 = step(w3, limit, pt_index(v));
    assert(pml4_index(v) < 512 && pdpt_index(v) < 512 && pd_index(v) < 512 && pt_index(v) < 512)
        by (bit_vector);
    lemma_step(w0, limit, pml4_index(v));
    lemma_step(w1, limit, pdpt_index(v));
    lemma_step(w2, limit, pd_index(v));
    lemma_step(w3, limit, pt_index(v));
    lemma_keeps_present_trans(w3.tables, w4.tables, later);
    lemma_keeps_present_trans(w2.tables, w3.tables, later);
    lemma_keeps_present_trans(w1.tables, w2.tables, later);
    lemma_replay_step(w0, limit, pml4_index(v), later, later_next);
    lemma_replay_step(w1, limit, pdpt_index(v), later, later_next);
    lemma_replay_step(w2, limit, pd_index(v), later, later_next);
    lemma_replay_step(w3, limit, pt_index(v), later, later_next);
}

/// Two addresses that differ only in their PT index share the PML4, PDPT and
/// PD tables: after translating the first, the second reaches the same PT
/// table without allocating on the way, and translating it leaves the first's
/// mapping as it was. When each translation created its own data frame, the
/// two frames differ. This holds when no table lies in a frame that the
/// allocator has yet to hand out.
pub proof fn lemma_translate_isolation(
    tables: Map<u64, Seq<u64>>,
    next: u64,
    limit: u64,
    root: u64,
    v1: u64,
    v2: u64,
)
    requires
        tables_full(tables),
        frames_below(tables, next),
        limit <= MAX_FRAMES,
        pml4_index(v1) == pml4_index(v2),
        pdpt_index(v1) == pdpt_index(v2),
        pd_index(v1) == pd_index(v2),
        pt_index(v1) != pt_index(v2),
        walk(tables, next, limit, root, v1).error is None,
    ensures
        ({
            let pt1 = walk_to_pt(tables, next, limit, root, v1);
            let first = walk(tables, next, limit, root, v1);
            let second = walk(first.tables, first.next, limit, root, v2);
            &&& walk_to_pt(first.tables, first.next, limit, root, v2) == (Walk {
                tables: first.tables,
                next: first.next,
                frame: pt1.frame,
                error: None,
            })
            &&& second.error is None ==> walk(second.tables, second.next, limit, root, v1) == (
            Walk { tables: second.tables, next: second.next, frame: first.frame, error: None })
            &&& first.next != pt1.next && second.next != first.next ==> second.frame
                != first.frame
        }),
{
    let pt1 = walk_to_pt(tables, next, limit, root, v1);
    let first = walk(tables, next, limit, root, v1);
    lemma_walk_invariants(tables, next, limit, root, v1);
    assert(keeps_present(first.tables, first.tables));
    lemma_replay_walk(tables, next, limit, root, v1, first.tables, first.next);
    let pt2 = walk_to_pt(first.tables, first.next, limit, root, v2);
    assert(pt2 == walk_to_pt(first.tables, first.next, limit, root, v1));
    let second = walk(first.tables, first.next, limit, root, v2);
    assert(pt_index(v1) < 512 && pt_index(v2) < 512) by (bit_vector);
    lemma_step(pt1, limit, pt_index(v1));
    lemma_step(pt2, limit, pt_index(v2));
    if second.error is None {
        lemma_walk_invariants(first.tables, first.next, limit, root, v2);
        lemma_replay_walk(tables, next, limit, root, v1, second.tables, second.next);
    }
    if first.next != pt1.next && second.next != first.next {
        let n = pt1.next as int;
        assert(n * 4096 != (n + 1) * 4096) by (nonlinear_arith);
    }
}

/// One level of the walk on the real memory and allocator.
fn walk_level(
    memory: &mut PhysicalMemory,
    allocator: &mut FrameAllocator,
    frame: u64,
    index: usize,
) -> (r: Result<u64, TranslationError>)
    requires
        old(memory).wf(),
        old(allocator).wf(),
        index < ENTRIES_PER_TABLE,
    ensures
        final(memory).wf(),
        final(allocator).wf(),
        final(allocator).limit() == old(allocator).limit(),
        ({
            let s = step(
                Walk { tables: old(memory)@, next: old(allocator).cursor(), frame, error: None },
                old(allocator).limit(),
                index as u64,
            );
            &&& final(memory)@ == s.tables
            &&& final(allocator).cursor() == s.next
            &&& r is Ok ==> s.error is None && r->Ok_0 == s.frame && s.frame <= ADDR_MASK
            &&& r is Err ==> s.error == Some(r->Err_0)
        }),
{
    let entry = match memory.get_page_table(frame) {
        Some(table) => table.get_entry(index),
        None => return Err(TranslationError::MissingTable),
    };
    let entry = match entry {
        Ok(e) => e,
        Err(e) => return Err(e),
    };
    if entry.is_present() {
        let target = entry.get_phys_address();
        let ghost bits = entry@;
        assert(target <= ADDR_MASK) by (bit_vector)
            requires
                target == bits & ADDR_MASK,
        ;
        return Ok(target);
    }
    let new_frame = match allocator.allocate_frame() {
        Ok(f) => f,
        Err(e) => return Err(e),
    };
    proof {
        let c = old(allocator).cursor() as int;
        assert(c * 4096 <= 0x000F_FFFF_FFFF_F000 && (c * 4096) % 4096 == 0) by (nonlinear_arith)
            requires
                0 <= c < 0x100_0000_0000,
        ;
    }
    memory.store_page_table(new_frame, PageTable::new());
    let link = match PageTableEntry::new(new_frame, true, true, false) {
        Ok(e) => e,
        Err(e) => return Err(e),
    };
    match memory.get_mut_page_table(frame) {
        Some(table) => {
            let _ = table.add_entry(index, link);
        },
        None => return Err(TranslationError::MissingTable),
    }
    Ok(new_frame)
}

/// Translates `virt_addr` through the hierarchy whose PML4 table lies at
/// frame `pml4_frame`, creating every missing table on the way.
///
/// A non-canonical address is refused before anything changes. Tables made
/// before the allocator runs out stay in memory.
pub fn translate_virtual_to_physical_address(
    virt_addr: u64,
    pml4_frame: u64,
    phys_mem: &mut PhysicalMemory,
    frame_allocator: &mut FrameAllocator,
) -> (r: Result<u64, TranslationError>)
    requires
        old(phys_mem).wf(),
        old(frame_allocator).wf(),
    ensures
        final(phys_mem).wf(),
        final(frame_allocator).wf(),
        final(frame_allocator).limit() == old(frame_allocator).limit(),
        !is_canonical(virt_addr) ==> {
            &&& r == Err::<u64, TranslationError>(TranslationError::InvalidAddress)
            &&& final(phys_mem)@ == old(phys_mem)@
            &&& final(frame_allocator).cursor() == old(frame_allocator).cursor()
        },
        is_canonical(virt_addr) ==> {
            let w = walk(
                old(phys_mem)@,
                old(frame_allocator).cursor(),
                old(frame_allocator).limit(),
                pml4_frame,
                virt_addr,
            );
            &&& final(phys_mem)@ == w.tables
            &&& final(frame_allocator).cursor() == w.next
            &&& r == walk_result(w, virt_addr)
        },
{
    if !(virt_addr < 0x0000_8000_0000_0000 || virt_addr >= 0xFFFF_8000_0000_0000) {
        return Err(TranslationError::InvalidAddress);
    }
    let (pml4_idx, pdpt_idx, pd_idx, pt_idx, offset) = virt_addr_indices(virt_addr);
    let pdpt_frame = match walk_level(phys_mem, frame_allocator, pml4_frame, pml4_idx) {
        Ok(f) => f,
        Err(e) => return Err(e),
    };
    let pd_frame = match walk_level(phys_mem, frame_allocator, pdpt_frame, pdpt_idx) {
        Ok(f) => f,
        Err(e) => return Err(e),
    };
    let pt_frame = match walk_level(phys_mem, frame_allocator, pd_frame, pd_idx) {
        Ok(f) => f,
        Err(e) => return Err(e),
    };
    let data_frame = match walk_level(phys_mem, frame_allocator, pt_frame, pt_idx) {
        Ok(f) => f,
        Err(e) => return Err(e),
    };
    Ok(data_frame + offset as u64)
}

} // verus!
