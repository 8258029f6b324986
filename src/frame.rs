use vstd::prelude::*;

use crate::error::TranslationError;
use crate::PAGE_SIZE;

verus! {

/// The number of frames that 52-bit physical addresses can name.
pub const MAX_FRAMES: u64 = 0x100_0000_0000;

/// A bump allocator over frame numbers `next_frame..total_frames`; frames are
/// never given back.
pub struct FrameAllocator {
    next_frame: u64,
    total_frames: u64,
}

impl FrameAllocator {
    /// The number of the next frame to hand out.
    pub closed spec fn cursor(&self) -> u64 {
        self.next_frame
    }

    /// One past the number of the last frame that can be handed out.
    pub closed spec fn limit(&self) -> u64 {
        self.total_frames
    }

    /// Every frame below the limit has an address that fits in an entry.
    pub open spec fn wf(&self) -> bool {
        self.limit() <= MAX_FRAMES
    }

    /// An allocator whose first frame is number `start`.
    pub fn new(start: u64, total_frames: u64) -> (r: FrameAllocator)
        requires
            total_frames <= MAX_FRAMES,
        ensures
            r.wf(),
            r.cursor() == start,
            r.limit() == total_frames,
    {
        FrameAllocator { next_frame: start, total_frames }
    }

    /// Hands out the address of the next frame, or fails once the pool is spent.
    pub fn allocate_frame(&mut self) -> (r: Result<u64, TranslationError>)
        requires
            old(self).wf(),
        ensures
            final(self).wf(),
            final(self).limit() == old(self).limit(),
            (old(self).cursor() < old(self).limit()) == r is Ok,
            r is Ok ==> r->Ok_0 == old(self).cursor() * PAGE_SIZE && final(self).cursor()
                == old(self).cursor() + 1,
            r is Err ==> r->Err_0 == TranslationError::OutOfMemory && final(self).cursor() == old(
                self,
            ).cursor(),
    {
        if self.next_frame < self.total_frames {
            let frame_address = self.next_frame * PAGE_SIZE;
            self.next_frame = self.next_frame + 1;
            Ok(frame_address)
        } else {
            Err(TranslationError::OutOfMemory)
        }
    }
}

} // verus!
