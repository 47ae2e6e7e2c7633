//! The allocator: layout validation, first-fit reuse, growth of the heap on
//! a miss, and release with forward coalescing.
//!
//! Policy. A request for no bytes is an error, [`AllocError::ZeroSize`]. A
//! free block is reused as it is, without splitting, where it is large
//! enough and its payload lies on the requested boundary. Freed memory is
//! never handed back to the system: the break only ever rises, which keeps
//! every address that was handed out valid for reuse, at the price of a heap
//! that does not shrink.

use crate::block::{end_at, header_at, lemma_placed, placed, Block};
use crate::free_list::{coalesced, first_fit, index_of, list_wf, FreeList};
use crate::heap_break::{break_of, extension_of, BreakError, HeapBreak};
use crate::laws::{lemma_allocated_block, lemma_low_pointer_unknown};
use crate::lock::{spin_books, spin_lock, spin_new};
use crate::layout::{is_power_of_two, lemma_pow2_positive};
use vstd::arithmetic::power2::is_pow2;
use vstd::prelude::*;

verus! {

/// Why an allocation was not made.
#[derive(Clone, Copy, Debug, PartialEq, Eq, Structural)]
pub enum AllocError {
    /// The request was for no bytes.
    ZeroSize,
    /// The requested alignment is not a power of two.
    AlignmentViolation,
    /// No free block fits and the heap could not be grown.
    OutOfMemory,
}

/// Why a pointer was not released. Either way the caller's books are
/// corrupt, and it should not go on.
#[derive(Clone, Copy, Debug, PartialEq, Eq, Structural)]
pub enum InvalidFree {
    /// No block has its payload at the pointer.
    UnknownPointer,
    /// The pointer's block is free already.
    DoubleFree,
}

/// The head of the list: an empty block that is never free, so that no
/// request can match it.
pub open spec fn sentinel() -> Block {
    Block { addr: 0, data: 0, size: 0, free: false }
}

/// The error that a request's layout earns, if any.
pub open spec fn layout_error(size: usize, align: usize) -> Option<AllocError> {
    if size == 0 {
        Some(AllocError::ZeroSize)
    } else if !is_pow2(align as int) {
        Some(AllocError::AlignmentViolation)
    } else {
        None
    }
}

/// The bytes by which a heap that ends at `heap_break` has to grow to hold
/// one more block: padding up to the header, the header, padding up to the
/// payload's alignment, and the payload.
pub open spec fn extent_needed(heap_break: usize, size: usize, align: usize) -> int {
    end_at(heap_break as int, size, align) - heap_break
}

/// The bytes to ask the system for on a miss, where the heap ends at
/// `heap_break`: the extent needed, unless the block would end beyond the
/// address space or the extent is more than the system can be asked for.
pub open spec fn extent_to_ask(heap_break: usize, size: usize, align: usize) -> Option<usize> {
    if end_at(heap_break as int, size, align) <= usize::MAX && extent_needed(
        heap_break,
        size,
        align,
    ) <= isize::MAX {
        Some(extent_needed(heap_break, size, align) as usize)
    } else {
        None
    }
}

/// Whether `extent` bytes of new heap at `base` can take the request's block
/// behind the blocks `s`: the block ends within the address space and within
/// the new bytes, and begins above the last block.
pub open spec fn installable(
    s: Seq<Block>,
    base: usize,
    extent: usize,
    size: usize,
    align: usize,
) -> bool {
    &&& end_at(base as int, size, align) <= usize::MAX
    &&& end_at(base as int, size, align) <= base + extent
    &&& s.len() > 0 ==> s.last().end() <= header_at(base as int)
}

/// What booking the request's block in `extent` new bytes at `base` makes of
/// the blocks `s`, and what it returns.
pub open spec fn installed(
    s: Seq<Block>,
    base: usize,
    extent: usize,
    size: usize,
    align: usize,
) -> (Seq<Block>, Result<usize, AllocError>) {
    if installable(s, base, extent, size, align) {
        (s.push(placed(base, size, align)), Ok(placed(base, size, align).data))
    } else {
        (s, Err(AllocError::OutOfMemory))
    }
}

/// The increment handed to the break primitive on a miss, where it answered
/// `at` to the query for the break: none where that answer is a failure or
/// the request cannot be asked for.
pub open spec fn asked(at: usize, size: usize, align: usize) -> Option<isize> {
    match break_of(at) {
        None => None,
        Some(heap_break) => match extent_to_ask(heap_break, size, align) {
            None => None,
            Some(extent) => Some(extent as isize),
        },
    }
}

/// What a miss makes of the blocks `s`, and what it returns, where the break
/// primitive answered `at` to the query for the break and `got` to the
/// extension by the increment [`asked`].
pub open spec fn grown(s: Seq<Block>, size: usize, align: usize, at: usize, got: usize) -> (
    Seq<Block>,
    Result<usize, AllocError>,
) {
    match asked(at, size, align) {
        None => (s, Err(AllocError::OutOfMemory)),
        Some(n) => match break_of(got) {
            None => (s, Err(AllocError::OutOfMemory)),
            Some(base) => installed(s, base, n as usize, size, align),
        },
    }
}

/// Whether blocks `t` and pointer `p` are what a successful allocation of
/// `size` bytes at `align` makes of the blocks `s`: the first fit handed out
/// as it is, or, where nothing fits, a new allocated block of exactly `size`
/// bytes at the tail, its payload on an `align` boundary.
pub open spec fn allocates(
    s: Seq<Block>,
    size: usize,
    align: usize,
    t: Seq<Block>,
    p: usize,
) -> bool {
    match first_fit(s, size, align) {
        Some(i) => t == s.update(i, s[i].taken()) && p == s[i].data,
        None => {
            &&& t.len() == s.len() + 1
            &&& t.drop_last() == s
            &&& t.last().data == p
            &&& t.last().data as int % align as int == 0
            &&& t.last().size == size
            &&& !t.last().free
        },
    }
}

/// Whether blocks `t` and answer `r` are a possible outcome of a request for
/// `size` bytes at `align` on the blocks `s`: a bad layout is refused, a
/// first fit is handed out, and only where nothing fits may the request
/// fail for want of memory; a failure changes nothing.
pub open spec fn served(
    s: Seq<Block>,
    size: usize,
    align: usize,
    t: Seq<Block>,
    r: Result<usize, AllocError>,
) -> bool {
    match layout_error(size, align) {
        Some(e) => r == Err::<usize, AllocError>(e) && t == s,
        None => match r {
            Ok(p) => allocates(s, size, align, t, p),
            Err(e) => e == AllocError::OutOfMemory && t == s && first_fit(s, size, align) is None,
        },
    }
}

/// Whether blocks `t` and answer `r` are a possible outcome of a miss on the
/// blocks `s` over the manager `heap`: the primitive under `heap` gave some
/// answer `at` to the query for the break and, where an extension was asked
/// for, some answer `got` to the increment [`asked`], and the outcome is what
/// [`grown`] makes of the two.
pub open spec fn grown_over<B: Fn(isize) -> usize>(
    heap: HeapBreak<B>,
    s: Seq<Block>,
    size: usize,
    align: usize,
    t: Seq<Block>,
    r: Result<usize, AllocError>,
) -> bool {
    exists|at: usize, got: usize|
        #![trigger grown(s, size, align, at, got)]
        heap.answers(0, at) && (asked(at, size, align) matches Some(n) ==> heap.answers(n, got))
            && (t, r) == grown(s, size, align, at, got)
}

/// Whether blocks `t` and answer `r` are a possible outcome of a request for
/// `size` bytes at `align` on the blocks `s` over the manager `heap`: what
/// [`served`] says, and on a miss what [`grown_over`] says.
pub open spec fn served_over<B: Fn(isize) -> usize>(
    heap: HeapBreak<B>,
    s: Seq<Block>,
    size: usize,
    align: usize,
    t: Seq<Block>,
    r: Result<usize, AllocError>,
) -> bool {
    &&& served(s, size, align, t, r)
    &&& layout_error(size, align) is None && first_fit(s, size, align) is None ==> grown_over(
        heap,
        s,
        size,
        align,
        t,
        r,
    )
}

/// Whether blocks `t` and answer `r` are the outcome of releasing `ptr` on
/// the blocks `s`; a refusal changes nothing.
pub open spec fn freed(
    s: Seq<Block>,
    ptr: usize,
    t: Seq<Block>,
    r: Result<(), InvalidFree>,
) -> bool {
    match released(s, ptr) {
        Ok(u) => r == Ok::<(), InvalidFree>(()) && t == u,
        Err(e) => r == Err::<(), InvalidFree>(e) && t == s,
    }
}

/// What releasing `ptr` makes of the blocks `s`: the pointer's block marked
/// free and merged with the free blocks that directly follow it.
pub open spec fn released(s: Seq<Block>, ptr: usize) -> Result<Seq<Block>, InvalidFree> {
    match index_of(s, ptr) {
        None => Err(InvalidFree::UnknownPointer),
        Some(i) => if s[i].free {
            Err(InvalidFree::DoubleFree)
        } else {
            Ok(coalesced(s.update(i, s[i].released()), i))
        },
    }
}

/// Validates a request's layout: the size must not be zero and the
/// alignment must be a power of two.
pub fn validate_layout(size: usize, align: usize) -> (r: Result<(), AllocError>)
    ensures
        r == (match layout_error(size, align) {
            Some(e) => Err(e),
            None => Ok(()),
        }),
{
    if size == 0 {
        Err(AllocError::ZeroSize)
    } else if !is_power_of_two(align) {
        Err(AllocError::AlignmentViolation)
    } else {
        Ok(())
    }
}

/// The bytes to grow the heap by for a request that no free block fits,
/// given where the heap ends now. The request is out of memory without
/// further ado where its block would end beyond the address space or the
/// growth is more than the system can be asked for.
pub fn needed_extent(heap_break: usize, size: usize, align: usize) -> (r: Result<usize, AllocError>)
    ensures
        r == (match layout_error(size, align) {
            Some(e) => Err(e),
            None => match extent_to_ask(heap_break, size, align) {
                Some(extent) => Ok(extent),
                None => Err(AllocError::OutOfMemory),
            },
        }),
        r matches Ok(extent) ==> 0 < extent <= isize::MAX,
{
    match validate_layout(size, align) {
        Err(e) => {
            return Err(e);
        },
        Ok(()) => {},
    }
    match Block::place(heap_break, size, align) {
        None => Err(AllocError::OutOfMemory),
        Some(b) => {
            proof {
                lemma_placed(heap_break, size, align);
            }
            let extent: usize = b.data + b.size - heap_break;
            if extent > isize::MAX as usize {
                Err(AllocError::OutOfMemory)
            } else {
                Ok(extent)
            }
        },
    }
}

/// The allocator's books, to be used by one caller at a time.
pub struct AllocatorImpl {
    list: FreeList,
}

impl View for AllocatorImpl {
    type V = Seq<Block>;

    /// The blocks behind the head, in address order.
    closed spec fn view(&self) -> Seq<Block> {
        self.list@
    }
}

impl AllocatorImpl {
    /// An allocator that holds nothing but the head.
    pub fn new() -> (a: Self)
        ensures
            a@ == Seq::<Block>::empty(),
    {
        AllocatorImpl { list: FreeList::new() }
    }

    /// Hands out the first free block that fits the request, as it is, or
    /// says that there is none.
    pub fn reuse(&mut self, size: usize, align: usize) -> (r: Result<Option<usize>, AllocError>)
        ensures
            list_wf(old(self)@),
            list_wf(final(self)@),
            match layout_error(size, align) {
                Some(e) => r == Err::<Option<usize>, AllocError>(e) && final(self)@ == old(self)@,
                None => match first_fit(old(self)@, size, align) {
                    Some(i) => r == Ok::<Option<usize>, AllocError>(Some(old(self)@[i].data))
                        && final(self)@ == old(self)@.update(i, old(self)@[i].taken()),
                    None => r == Ok::<Option<usize>, AllocError>(None) && final(self)@ == old(
                        self,
                    )@,
                },
            },
            r matches Ok(Some(p)) ==> p as int % align as int == 0,
    {
        proof {
            use_type_invariant(&self.list);
        }
        match validate_layout(size, align) {
            Err(e) => {
                return Err(e);
            },
            Ok(()) => {},
        }
        proof {
            lemma_pow2_positive(align as int);
        }
        match self.list.find_first_fit(size, align) {
            None => Ok(None),
            Some(i) => Ok(Some(self.list.take(i))),
        }
    }

    /// Books the block of a request that no free block fitted, after the
    /// heap was grown by `extent` bytes at `base`. Where the new bytes cannot
    /// take the block, the request is out of memory and nothing changes.
    pub fn install(&mut self, base: usize, extent: usize, size: usize, align: usize) -> (r: Result<
        usize,
        AllocError,
    >)
        ensures
            list_wf(old(self)@),
            list_wf(final(self)@),
            match layout_error(size, align) {
                Some(e) => r == Err::<usize, AllocError>(e) && final(self)@ == old(self)@,
                None => (final(self)@, r) == installed(old(self)@, base, extent, size, align),
            },
            r matches Ok(p) ==> p as int % align as int == 0,
    {
        proof {
            use_type_invariant(&self.list);
        }
        match validate_layout(size, align) {
            Err(e) => {
                return Err(e);
            },
            Ok(()) => {},
        }
        let block: Block = match Block::place(base, size, align) {
            None => {
                return Err(AllocError::OutOfMemory);
            },
            Some(b) => b,
        };
        proof {
            lemma_placed(base, size, align);
        }
        if block.data - base > extent || block.size > extent - (block.data - base) {
            return Err(AllocError::OutOfMemory);
        }
        if self.list.insert(block) {
            Ok(block.data)
        } else {
            Err(AllocError::OutOfMemory)
        }
    }

    /// Serves a request for `size` bytes at `align`: the first free block
    /// that fits, or else a new block in heap grown by exactly the bytes
    /// needed. Fails with [`AllocError::OutOfMemory`] only where nothing fits
    /// and the heap could not be grown, and then changes nothing.
    pub fn allocate<B: Fn(isize) -> usize>(
        &mut self,
        size: usize,
        align: usize,
        heap: &HeapBreak<B>,
    ) -> (r: Result<usize, AllocError>)
        ensures
            list_wf(old(self)@),
            list_wf(final(self)@),
            served_over(*heap, old(self)@, size, align, final(self)@, r),
            r matches Ok(p) ==> p as int % align as int == 0,
    {
        let ghost before = self@;
        match self.reuse(size, align) {
            Err(e) => {
                return Err(e);
            },
            Ok(Some(p)) => {
                return Ok(p);
            },
            Ok(None) => {},
        }
        let current: Option<usize> = heap.current();
        let ghost at = choose|raw: usize| heap.answers(0, raw) && current == break_of(raw);
        let heap_break: usize = match current {
            None => {
                proof {
                    assert((self@, Err::<usize, AllocError>(AllocError::OutOfMemory)) == grown(
                        before,
                        size,
                        align,
                        at,
                        0,
                    ));
                }
                return Err(AllocError::OutOfMemory);
            },
            Some(b) => b,
        };
        let extent: usize = match needed_extent(heap_break, size, align) {
            Err(e) => {
                proof {
                    assert((self@, Err::<usize, AllocError>(e)) == grown(
                        before,
                        size,
                        align,
                        at,
                        0,
                    ));
                }
                return Err(e);
            },
            Ok(n) => n,
        };
        let extended: Result<usize, BreakError> = heap.extend(extent);
        let ghost got = choose|raw: usize|
            heap.answers(extent as isize, raw) && extended == extension_of(raw);
        let base: usize = match extended {
            Err(_) => {
                proof {
                    assert((self@, Err::<usize, AllocError>(AllocError::OutOfMemory)) == grown(
                        before,
                        size,
                        align,
                        at,
                        got,
                    ));
                }
                return Err(AllocError::OutOfMemory);
            },
            Ok(b) => b,
        };
        let r = self.install(base, extent, size, align);
        proof {
            assert((self@, r) == grown(before, size, align, at, got));
            if r is Ok {
                lemma_placed(base, size, align);
                assert(self@.drop_last() =~= before);
            }
        }
        r
    }

    /// Releases the block whose payload lies at `ptr`: marks it free and
    /// merges it with the free blocks that directly follow it. A pointer
    /// that names no block, or a block that is free already, is reported and
    /// changes nothing.
    pub fn deallocate(&mut self, ptr: usize) -> (r: Result<(), InvalidFree>)
        ensures
            list_wf(old(self)@),
            list_wf(final(self)@),
            freed(old(self)@, ptr, final(self)@, r),
    {
        proof {
            use_type_invariant(&self.list);
        }
        let index: usize = match self.list.find_by_ptr(ptr) {
            None => {
                return Err(InvalidFree::UnknownPointer);
            },
            Some(i) => i,
        };
        let block: Block = match self.list.get(index) {
            None => {
                return Err(InvalidFree::UnknownPointer);
            },
            Some(b) => b,
        };
        if block.free {
            return Err(InvalidFree::DoubleFree);
        }
        self.list.release(index);
        self.list.coalesce_from(index);
        Ok(())
    }

    /// The head and every block behind it, in list order.
    pub fn dump_blocks(&self) -> (r: Vec<Block>)
        ensures
            r@ == seq![sentinel()] + self@,
            list_wf(self@),
    {
        proof {
            use_type_invariant(&self.list);
        }
        let mut out: Vec<Block> = Vec::new();
        out.push(Block { addr: 0, data: 0, size: 0, free: false });
        let mut rest: Vec<Block> = self.list.blocks();
        out.append(&mut rest);
        proof {
            assert(out@ =~= seq![sentinel()] + self@);
        }
        out
    }
}

/// The allocator behind a spin lock: every call takes the lock for its whole
/// duration, the search as well as the growth of the heap. A call made while
/// the same thread is inside another call on the same allocator never
/// returns; the break primitive in particular must not allocate from it.
pub struct Allocator<B: Fn(isize) -> usize> {
    allocator_impl: spin::Mutex<AllocatorImpl>,
    heap: HeapBreak<B>,
}

impl<B: Fn(isize) -> usize> Allocator<B> {
    /// The manager through which this allocator grows the heap.
    pub closed spec fn heap(&self) -> HeapBreak<B> {
        self.heap
    }

    /// An allocator without blocks over the break primitive `sbrk`, which
    /// must accept every increment. The allocator grows the heap through
    /// `sbrk` and nothing else: what its manager answers is what `sbrk`
    /// answers.
    pub fn new(sbrk: B) -> (a: Self)
        requires
            forall|n: isize| call_requires(sbrk, (n,)),
        ensures
            forall|n: isize, raw: usize|
                a.heap().answers(n, raw) <==> call_ensures(sbrk, (n,), raw),
    {
        Allocator { allocator_impl: spin_new(AllocatorImpl::new()), heap: HeapBreak::new(sbrk) }
    }

    /// Serves a request under the lock: see [`AllocatorImpl::allocate`]. The
    /// answer is the one that the books give in the state in which the lock
    /// was taken, which other threads decide, over this allocator's own
    /// manager of the break. Whatever the others did, a bad
    /// layout is refused, any other failure is want of memory, and a pointer
    /// handed out is not null and lies on the requested boundary.
    pub fn allocate(&self, size: usize, align: usize) -> (r: Result<usize, AllocError>)
        ensures
            exists|s: Seq<Block>, t: Seq<Block>|
                #![trigger served_over(self.heap(), s, size, align, t, r)]
                list_wf(s) && list_wf(t) && served_over(self.heap(), s, size, align, t, r),
            match layout_error(size, align) {
                Some(e) => r == Err::<usize, AllocError>(e),
                None => r matches Err(e) ==> e == AllocError::OutOfMemory,
            },
            r matches Ok(p) ==> p != 0 && p as int % align as int == 0,
    {
        let mut guard = spin_lock(&self.allocator_impl);
        let books = spin_books(&mut guard);
        let ghost before = books@;
        let r = books.allocate(size, align, &self.heap);
        proof {
            assert(served_over(self.heap(), before, size, align, books@, r));
            if let Ok(p) = r {
                lemma_allocated_block(before, size, align, books@, p);
            }
        }
        r
    }

    /// Releases a pointer under the lock: see [`AllocatorImpl::deallocate`].
    /// The answer is the one that the books give in the state in which the
    /// lock was taken, which other threads decide. Whatever they did, the
    /// null pointer is unknown.
    pub fn deallocate(&self, ptr: usize) -> (r: Result<(), InvalidFree>)
        ensures
            exists|s: Seq<Block>, t: Seq<Block>|
                #![trigger freed(s, ptr, t, r)]
                list_wf(s) && list_wf(t) && freed(s, ptr, t, r),
            ptr == 0 ==> r == Err::<(), InvalidFree>(InvalidFree::UnknownPointer),
    {
        let mut guard = spin_lock(&self.allocator_impl);
        let books = spin_books(&mut guard);
        let ghost before = books@;
        let r = books.deallocate(ptr);
        proof {
            assert(freed(before, ptr, books@, r));
            if ptr == 0 {
                lemma_low_pointer_unknown(before, ptr);
            }
        }
        r
    }

    /// The head and every block behind it as they stand under the lock.
    pub fn dump_blocks(&self) -> (r: Vec<Block>)
        ensures
            r@.len() > 0,
            r@[0] == sentinel(),
            list_wf(r@.subrange(1, r@.len() as int)),
    {
        let mut guard = spin_lock(&self.allocator_impl);
        let books = spin_books(&mut guard);
        books.dump_blocks()
    }
}

} // verus!
