//! A first-fit heap allocator over the process's heap break.
//!
//! The allocator keeps one record per heap extent, in address order. A
//! request is served from the first free block that fits; where none does,
//! the heap is grown by exactly the bytes that one more block takes. A
//! released block is merged with the free blocks that directly follow it.
//!
//! [`allocator::AllocatorImpl`] holds the books and is to be used by one
//! caller at a time. [`allocator::Allocator`] puts them behind a spin lock,
//! [`StupidAllocator`] behind a mutex that parks the waiting thread.

use crate::allocator::{
    freed, layout_error, sentinel, served_over, AllocError, AllocatorImpl, InvalidFree,
};
use crate::block::Block;
use crate::free_list::list_wf;
use crate::heap_break::HeapBreak;
use crate::laws::{lemma_allocated_block, lemma_low_pointer_unknown};
use crate::lock::{parking_books, parking_lock, parking_new};
use vstd::prelude::*;

pub mod allocator;
pub mod block;
pub mod free_list;
pub mod heap_break;
pub mod laws;
pub mod layout;
pub mod lock;

verus! {

/// The allocator behind a parking mutex: every call takes the mutex for its
/// whole duration, the search as well as the growth of the heap, and a
/// thread that has to wait is put to sleep. A call made while the same
/// thread is inside another call on the same allocator never returns; the
/// break primitive in particular must not allocate from it.
pub struct StupidAllocator<B: Fn(isize) -> usize> {
    allocator: parking_lot::Mutex<AllocatorImpl>,
    heap: HeapBreak<B>,
}

impl<B: Fn(isize) -> usize> StupidAllocator<B> {
    /// The manager through which this allocator grows the heap.
    pub closed spec fn heap(&self) -> HeapBreak<B> {
        self.heap
    }

    /// An allocator without blocks over the break primitive `sbrk`, which
    /// must accept every increment. The allocator grows the heap through
    /// `sbrk` and nothing else: what its manager answers is what `sbrk`
    /// answers.
    pub fn new(sbrk: B) -> (a: Self)
        requires
            forall|n: isize| call_requires(sbrk, (n,)),
        ensures
            forall|n: isize, raw: usize|
                a.heap().answers(n, raw) <==> call_ensures(sbrk, (n,), raw),
    {
        StupidAllocator { allocator: parking_new(AllocatorImpl::new()), heap: HeapBreak::new(sbrk) }
    }

    /// Serves a request under the mutex: see [`AllocatorImpl::allocate`].
    /// The answer is the one that the books give in the state in which the
    /// mutex was taken, which other threads decide, over this allocator's
    /// own manager of the break. Whatever the others did, a bad
    /// layout is refused, any other failure is want of memory, and a pointer
    /// handed out is not null and lies on the requested boundary.
    pub fn allocate(&self, size: usize, align: usize) -> (r: Result<usize, AllocError>)
        ensures
            exists|s: Seq<Block>, t: Seq<Block>|
                #![trigger served_over(self.heap(), s, size, align, t, r)]
                list_wf(s) && list_wf(t) && served_over(self.heap(), s, size, align, t, r),
            match layout_error(size, align) {
                Some(e) => r == Err::<usize, AllocError>(e),
                None => r matches Err(e) ==> e == AllocError::OutOfMemory,
            },
            r matches Ok(p) ==> p != 0 && p as int % align as int == 0,
    {
        let mut guard = parking_lock(&self.allocator);
        let books = parking_books(&mut guard);
        let ghost before = books@;
        let r = books.allocate(size, align, &self.heap);
        proof {
            assert(served_over(self.heap(), before, size, align, books@, r));
            if let Ok(p) = r {
                lemma_allocated_block(before, size, align, books@, p);
            }
        }
        r
    }

    /// Releases a pointer under the mutex: see [`AllocatorImpl::deallocate`].
    /// The answer is the one that the books give in the state in which the
    /// mutex was taken, which other threads decide. Whatever they did, the
    /// null pointer is unknown.
    pub fn deallocate(&self, ptr: usize) -> (r: Result<(), InvalidFree>)
        ensures
            exists|s: Seq<Block>, t: Seq<Block>|
                #![trigger freed(s, ptr, t, r)]
                list_wf(s) && list_wf(t) && freed(s, ptr, t, r),
            ptr == 0 ==> r == Err::<(), InvalidFree>(InvalidFree::UnknownPointer),
    {
        let mut guard = parking_lock(&self.allocator);
        let books = parking_books(&mut guard);
        let ghost before = books@;
        let r = books.deallocate(ptr);
        proof {
            assert(freed(before, ptr, books@, r));
            if ptr == 0 {
                lemma_low_pointer_unknown(before, ptr);
            }
        }
        r
    }

    /// The head and every block behind it as they stand under the mutex.
    pub fn dump_blocks(&self) -> (r: Vec<Block>)
        ensures
            r@.len() > 0,
            r@[0] == sentinel(),
            list_wf(r@.subrange(1, r@.len() as int)),
    {
        let mut guard = parking_lock(&self.allocator);
        let books = parking_books(&mut guard);
        books.dump_blocks()
    }
}

} // verus!
