//! One heap extent: a header, padding up to the payload's alignment, and the
//! payload itself.

use crate::layout::{
    checked_align_up, lemma_pow2_positive, lemma_round_up, lemma_word_is_pow2, round_up,
    HEADER_ALIGN, HEADER_SIZE,
};
use vstd::arithmetic::power2::is_pow2;
use vstd::prelude::*;

verus! {

/// The record of one heap extent.
#[derive(Clone, Copy, Debug, PartialEq, Eq, Structural)]
pub struct Block {
    /// Address of the block's header.
    pub addr: usize,
    /// Address of the payload.
    pub data: usize,
    /// Payload capacity in bytes.
    pub size: usize,
    /// Whether the payload is available for reuse.
    pub free: bool,
}

/// Where the header of a block grown at `base` lies.
pub open spec fn header_at(base: int) -> int {
    round_up(base, HEADER_ALIGN as int)
}

/// Where the payload of a block grown at `base` lies.
pub open spec fn data_at(base: int, align: usize) -> int {
    round_up(header_at(base) + HEADER_SIZE, align as int)
}

/// One past the payload of a block of `size` bytes grown at `base`.
pub open spec fn end_at(base: int, size: usize, align: usize) -> int {
    data_at(base, align) + size
}

/// The allocated block that a request of `size` bytes at `align` places in
/// heap grown at `base`.
pub open spec fn placed(base: usize, size: usize, align: usize) -> Block {
    Block {
        addr: header_at(base as int) as usize,
        data: data_at(base as int, align) as usize,
        size,
        free: false,
    }
}

impl Block {
    /// One past the last payload byte.
    pub open spec fn end(self) -> int {
        self.data + self.size
    }

    /// The header is aligned and lies wholly below the payload, and the
    /// payload is not empty and ends within the address space.
    pub open spec fn wf(self) -> bool {
        &&& self.addr as int % HEADER_ALIGN as int == 0
        &&& self.addr + HEADER_SIZE <= self.data
        &&& 0 < self.size
        &&& self.data + self.size <= usize::MAX
    }

    /// Whether the block is well formed.
    pub fn is_well_formed(&self) -> (ok: bool)
        ensures
            ok == self.wf(),
    {
        self.addr % HEADER_ALIGN == 0 && self.size > 0 && self.data >= HEADER_SIZE && self.addr
            <= self.data - HEADER_SIZE && self.size <= usize::MAX - self.data
    }

    /// Whether the block can serve a request of `size` bytes at `align`.
    pub open spec fn fits(self, size: usize, align: usize) -> bool {
        self.free && self.size >= size && self.data as int % align as int == 0
    }

    /// The same block in the given state.
    pub open spec fn marked(self, free: bool) -> Block {
        Block { addr: self.addr, data: self.data, size: self.size, free }
    }

    /// The same block, handed out.
    pub open spec fn taken(self) -> Block {
        self.marked(false)
    }

    /// The same block, given back.
    pub open spec fn released(self) -> Block {
        self.marked(true)
    }

    /// The same block with its payload reaching up to `end`.
    pub open spec fn extended_to(self, end: int) -> Block {
        Block {
            addr: self.addr,
            data: self.data,
            size: (end - self.data) as usize,
            free: self.free,
        }
    }

    /// Lays out an allocated block of `size` payload bytes at `align` in heap
    /// that starts at `base`: the header at the next header boundary, the
    /// payload at the next `align` boundary behind the header. `None` when
    /// the block would end beyond the address space.
    pub fn place(base: usize, size: usize, align: usize) -> (r: Option<Block>)
        requires
            is_pow2(align as int),
        ensures
            r == (if end_at(base as int, size, align) <= usize::MAX {
                Some(placed(base, size, align))
            } else {
                None
            }),
    {
        proof {
            lemma_word_is_pow2();
            lemma_pow2_positive(align as int);
            lemma_round_up(base as int, HEADER_ALIGN as int);
            lemma_round_up(header_at(base as int) + HEADER_SIZE, align as int);
        }
        let addr: usize = match checked_align_up(base, HEADER_ALIGN) {
            Some(a) => a,
            None => {
                return None;
            },
        };
        let body: usize = match addr.checked_add(HEADER_SIZE) {
            Some(b) => b,
            None => {
                return None;
            },
        };
        let data: usize = match checked_align_up(body, align) {
            Some(d) => d,
            None => {
                return None;
            },
        };
        match data.checked_add(size) {
            Some(_) => Some(Block { addr, data, size, free: false }),
            None => None,
        }
    }
}

/// Where the block placed for a request of at least one byte ends within the
/// address space, its header and payload lie where the layout puts them, it
/// is well formed, its payload is aligned as asked, and it lies wholly at or
/// above `base`.
pub proof fn lemma_placed(base: usize, size: usize, align: usize)
    requires
        is_pow2(align as int),
        0 < size,
        end_at(base as int, size, align) <= usize::MAX,
    ensures
        placed(base, size, align).addr == header_at(base as int),
        placed(base, size, align).data == data_at(base as int, align),
        placed(base, size, align).end() == end_at(base as int, size, align),
        placed(base, size, align).wf(),
        placed(base, size, align).data as int % align as int == 0,
        base <= placed(base, size, align).addr,
{
    lemma_word_is_pow2();
    lemma_pow2_positive(align as int);
    lemma_round_up(base as int, HEADER_ALIGN as int);
    lemma_round_up(header_at(base as int) + HEADER_SIZE, align as int);
}

} // verus!
