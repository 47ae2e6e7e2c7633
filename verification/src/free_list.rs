//! The free list: every block of the heap in address order, with first-fit
//! search, lookup by payload address, and forward coalescing.

use crate::block::Block;
use vstd::prelude::*;

verus! {

/// Every block is well formed, and each ends at or below the header of every
/// later one: the blocks ascend in address and none overlaps another.
pub open spec fn list_wf(s: Seq<Block>) -> bool {
    &&& forall|i: int| 0 <= i < s.len() ==> (#[trigger] s[i]).wf()
    &&& forall|i: int, j: int|
        #![trigger s[i], s[j]]
        0 <= i < j < s.len() ==> s[i].end() <= s[j].addr
}

/// Whether block `i` fits the request and no block before it does.
pub open spec fn is_first_fit(s: Seq<Block>, i: int, size: usize, align: usize) -> bool {
    &&& 0 <= i < s.len()
    &&& s[i].fits(size, align)
    &&& forall|j: int| 0 <= j < i ==> !(#[trigger] s[j]).fits(size, align)
}

/// The index of the first block that fits the request.
pub open spec fn first_fit(s: Seq<Block>, size: usize, align: usize) -> Option<int> {
    if exists|i: int| is_first_fit(s, i, size, align) {
        Some(choose|i: int| is_first_fit(s, i, size, align))
    } else {
        None
    }
}

/// Whether block `i` has its payload at `ptr` and no block before it has.
pub open spec fn is_first_at(s: Seq<Block>, i: int, ptr: usize) -> bool {
    &&& 0 <= i < s.len()
    &&& s[i].data == ptr
    &&& forall|j: int| 0 <= j < i ==> (#[trigger] s[j]).data != ptr
}

/// The index of the block whose payload lies at `ptr`.
pub open spec fn index_of(s: Seq<Block>, ptr: usize) -> Option<int> {
    if exists|i: int| is_first_at(s, i, ptr) {
        Some(choose|i: int| is_first_at(s, i, ptr))
    } else {
        None
    }
}

/// The last index of the run of free blocks that directly follows block `i`;
/// `i` itself where the next block is allocated or there is none.
pub open spec fn run_end(s: Seq<Block>, i: int) -> int
    decreases s.len() - i,
{
    if 0 <= i && i + 1 < s.len() && s[i + 1].free {
        run_end(s, i + 1)
    } else {
        i
    }
}

/// The list with block `i` grown over the free blocks that directly follow
/// it, and those blocks gone.
pub open spec fn coalesced(s: Seq<Block>, i: int) -> Seq<Block> {
    let j = run_end(s, i);
    s.subrange(0, i).push(s[i].extended_to(s[j].end())) + s.subrange(j + 1, s.len() as int)
}

/// The first fit is the one index that `is_first_fit` holds of.
pub proof fn lemma_first_fit_is(s: Seq<Block>, i: int, size: usize, align: usize)
    requires
        is_first_fit(s, i, size, align),
    ensures
        first_fit(s, size, align) == Some(i),
{
    let c = choose|c: int| is_first_fit(s, c, size, align);
    if c < i {
        assert(!s[c].fits(size, align));
    } else if i < c {
        assert(!s[i].fits(size, align));
    }
}

/// Where there is a first fit, `is_first_fit` holds of it.
pub proof fn lemma_first_fit_some(s: Seq<Block>, size: usize, align: usize)
    ensures
        first_fit(s, size, align) matches Some(i) ==> is_first_fit(s, i, size, align),
{
}

/// There is no first fit exactly when no block fits.
pub proof fn lemma_first_fit_none(s: Seq<Block>, size: usize, align: usize)
    ensures
        first_fit(s, size, align) is None <==> forall|j: int|
            0 <= j < s.len() ==> !(#[trigger] s[j]).fits(size, align),
{
    if exists|j: int| 0 <= j < s.len() && (#[trigger] s[j]).fits(size, align) {
        let j = choose|j: int| 0 <= j < s.len() && (#[trigger] s[j]).fits(size, align);
        lemma_least_fit(s, j, size, align);
    }
}

/// Below any block that fits lies a first one.
proof fn lemma_least_fit(s: Seq<Block>, j: int, size: usize, align: usize)
    requires
        0 <= j < s.len(),
        s[j].fits(size, align),
    ensures
        exists|i: int| is_first_fit(s, i, size, align),
    decreases j,
{
    if exists|k: int| 0 <= k < j && (#[trigger] s[k]).fits(size, align) {
        let k = choose|k: int| 0 <= k < j && (#[trigger] s[k]).fits(size, align);
        lemma_least_fit(s, k, size, align);
    } else {
        assert(is_first_fit(s, j, size, align));
    }
}

/// The index of a pointer is the one index that `is_first_at` holds of.
pub proof fn lemma_index_of_is(s: Seq<Block>, i: int, ptr: usize)
    requires
        is_first_at(s, i, ptr),
    ensures
        index_of(s, ptr) == Some(i),
{
    let c = choose|c: int| is_first_at(s, c, ptr);
    if c < i {
        assert(s[c].data != ptr);
    } else if i < c {
        assert(s[i].data != ptr);
    }
}

/// Where a pointer has an index, `is_first_at` holds of it.
pub proof fn lemma_index_of_some(s: Seq<Block>, ptr: usize)
    ensures
        index_of(s, ptr) matches Some(i) ==> is_first_at(s, i, ptr),
{
}

/// A pointer has no index exactly when no block has its payload there.
pub proof fn lemma_index_of_none(s: Seq<Block>, ptr: usize)
    ensures
        index_of(s, ptr) is None <==> forall|j: int|
            0 <= j < s.len() ==> (#[trigger] s[j]).data != ptr,
{
    if exists|j: int| 0 <= j < s.len() && (#[trigger] s[j]).data == ptr {
        let j = choose|j: int| 0 <= j < s.len() && (#[trigger] s[j]).data == ptr;
        lemma_least_at(s, j, ptr);
    }
}

/// Below any block with its payload at `ptr` lies a first one.
proof fn lemma_least_at(s: Seq<Block>, j: int, ptr: usize)
    requires
        0 <= j < s.len(),
        s[j].data == ptr,
    ensures
        exists|i: int| is_first_at(s, i, ptr),
    decreases j,
{
    if exists|k: int| 0 <= k < j && (#[trigger] s[k]).data == ptr {
        let k = choose|k: int| 0 <= k < j && (#[trigger] s[k]).data == ptr;
        lemma_least_at(s, k, ptr);
    } else {
        assert(is_first_at(s, j, ptr));
    }
}

/// In a well-formed list the payload addresses ascend strictly, so a pointer
/// names at most one block.
pub proof fn lemma_data_ascends(s: Seq<Block>, i: int, j: int)
    requires
        list_wf(s),
        0 <= i < j < s.len(),
    ensures
        s[i].data < s[j].data,
{
    assert(s[i].wf() && s[j].wf());
    assert(s[i].end() <= s[j].addr);
}

/// Handing a block out or taking it back keeps a list well formed.
pub proof fn lemma_state_keeps_wf(s: Seq<Block>, i: int, free: bool)
    requires
        list_wf(s),
        0 <= i < s.len(),
    ensures
        list_wf(s.update(i, s[i].marked(free))),
{
    let t = s.update(i, s[i].marked(free));
    assert forall|a: int| 0 <= a < t.len() implies (#[trigger] t[a]).wf() by {
        assert(s[a].wf());
    }
    assert forall|a: int, b: int| #![trigger t[a], t[b]] 0 <= a < b < t.len() implies t[a].end()
        <= t[b].addr by {
        assert(s[a].end() <= s[b].addr);
    }
}

/// The run behind block `i` ends within the list, holds free blocks only, and
/// stops before an allocated block or at the list's end.
pub proof fn lemma_run_end(s: Seq<Block>, i: int)
    requires
        0 <= i < s.len(),
    ensures
        i <= run_end(s, i) < s.len(),
        forall|k: int| i < k <= run_end(s, i) ==> (#[trigger] s[k]).free,
        run_end(s, i) + 1 < s.len() ==> !s[run_end(s, i) + 1].free,
    decreases s.len() - i,
{
    if i + 1 < s.len() && s[i + 1].free {
        lemma_run_end(s, i + 1);
    }
}

/// Coalescing keeps a list well formed.
pub proof fn lemma_coalesced_wf(s: Seq<Block>, i: int)
    requires
        list_wf(s),
        0 <= i < s.len(),
    ensures
        list_wf(coalesced(s, i)),
        coalesced(s, i).len() == s.len() - (run_end(s, i) - i),
{
    lemma_run_end(s, i);
    let j = run_end(s, i);
    let t = coalesced(s, i);
    let merged = s[i].extended_to(s[j].end());
    assert(s[i].wf() && s[j].wf());
    if i < j {
        assert(s[i].end() <= s[j].addr);
    }
    assert(merged.wf());
    assert(merged.end() == s[j].end());
    assert forall|a: int| 0 <= a < t.len() implies (#[trigger] t[a]).wf() by {
        if a < i {
            assert(t[a] == s[a]);
        } else if a == i {
            assert(t[a] == merged);
        } else {
            assert(t[a] == s[a + (j - i)]);
        }
    }
    assert forall|a: int, b: int| #![trigger t[a], t[b]] 0 <= a < b < t.len() implies t[a].end()
        <= t[b].addr by {
        let sa = if a <= i {
            a
        } else {
            a + (j - i)
        };
        let sb = b + (j - i);
        if b <= i {
            assert(t[a] == s[a]);
            assert(t[b].addr == s[b].addr);
            assert(s[a].end() <= s[b].addr);
        } else {
            assert(t[b] == s[sb]);
            if a < i {
                assert(t[a] == s[a]);
                assert(s[a].end() <= s[sb].addr);
            } else if a == i {
                assert(t[a] == merged);
                assert(s[j].end() <= s[sb].addr);
            } else {
                assert(t[a] == s[sa]);
                assert(s[sa].end() <= s[sb].addr);
            }
        }
    }
}

/// Walks `blocks` from the head and says whether they are well formed, in
/// ascending address order and free of overlap.
pub fn is_consistent(blocks: &Vec<Block>) -> (ok: bool)
    ensures
        ok == list_wf(blocks@),
{
    let ghost s = blocks@;
    let mut k: usize = 0;
    while k < blocks.len()
        invariant
            s == blocks@,
            k <= s.len(),
            forall|i: int| 0 <= i < k ==> (#[trigger] s[i]).wf(),
            forall|i: int, j: int| #![trigger s[i], s[j]] 0 <= i < j < k ==> s[i].end() <= s[j].addr,
        decreases s.len() - k,
    {
        let b: Block = blocks[k];
        if !b.is_well_formed() {
            return false;
        }
        if k > 0 {
            let a: Block = blocks[k - 1];
            proof {
                assert(s[k - 1].wf());
            }
            if a.data + a.size > b.addr {
                proof {
                    assert(!(s[k - 1].end() <= s[k as int].addr));
                }
                return false;
            }
            proof {
                assert forall|i: int| 0 <= i < k implies (#[trigger] s[i]).end() <= s[k as int].addr by {
                    if i < k - 1 {
                        assert(s[i].end() <= s[k - 1].addr);
                    }
                }
            }
        }
        k += 1;
    }
    true
}

/// The blocks of the heap, in address order.
pub struct FreeList {
    blocks: Vec<Block>,
}

impl View for FreeList {
    type V = Seq<Block>;

    closed spec fn view(&self) -> Seq<Block> {
        self.blocks@
    }
}

impl FreeList {
    /// The list's invariant, which every list meets at all times: see
    /// [`list_wf`].
    #[verifier::type_invariant]
    pub open spec fn wf(&self) -> bool {
        list_wf(self@)
    }

    /// A list without blocks.
    pub fn new() -> (list: Self)
        ensures
            list@ == Seq::<Block>::empty(),
    {
        FreeList { blocks: Vec::new() }
    }

    /// The number of blocks.
    pub fn len(&self) -> (n: usize)
        ensures
            n == self@.len(),
    {
        self.blocks.len()
    }

    /// The block at `index`, if there is one.
    pub fn get(&self, index: usize) -> (r: Option<Block>)
        ensures
            r == (if index < self@.len() {
                Some(self@[index as int])
            } else {
                None
            }),
    {
        if index < self.blocks.len() {
            Some(self.blocks[index])
        } else {
            None
        }
    }

    /// Scans from the head for the first free block of at least `min_size`
    /// bytes whose payload lies on an `align` boundary.
    pub fn find_first_fit(&self, min_size: usize, align: usize) -> (r: Option<usize>)
        requires
            0 < align,
        ensures
            r matches Some(i) ==> is_first_fit(self@, i as int, min_size, align),
            r is None ==> forall|j: int|
                0 <= j < self@.len() ==> !(#[trigger] self@[j]).fits(min_size, align),
            first_fit(self@, min_size, align) == (match r {
                Some(i) => Some(i as int),
                None => None,
            }),
    {
        let mut i: usize = 0;
        while i < self.blocks.len()
            invariant
                0 < align,
                i <= self.blocks@.len(),
                forall|j: int| 0 <= j < i ==> !(#[trigger] self.blocks@[j]).fits(min_size, align),
            decreases self.blocks@.len() - i,
        {
            let b: Block = self.blocks[i];
            if b.free && b.size >= min_size && b.data % align == 0 {
                proof {
                    lemma_first_fit_is(self@, i as int, min_size, align);
                }
                return Some(i);
            }
            i += 1;
        }
        proof {
            lemma_first_fit_none(self@, min_size, align);
        }
        None
    }

    /// Scans from the head for the block whose payload lies at `ptr`.
    pub fn find_by_ptr(&self, ptr: usize) -> (r: Option<usize>)
        ensures
            r matches Some(i) ==> is_first_at(self@, i as int, ptr),
            r is None ==> forall|j: int| 0 <= j < self@.len() ==> (#[trigger] self@[j]).data != ptr,
            index_of(self@, ptr) == (match r {
                Some(i) => Some(i as int),
                None => None,
            }),
    {
        let mut i: usize = 0;
        while i < self.blocks.len()
            invariant
                i <= self.blocks@.len(),
                forall|j: int| 0 <= j < i ==> (#[trigger] self.blocks@[j]).data != ptr,
            decreases self.blocks@.len() - i,
        {
            if self.blocks[i].data == ptr {
                proof {
                    lemma_index_of_is(self@, i as int, ptr);
                }
                return Some(i);
            }
            i += 1;
        }
        proof {
            lemma_index_of_none(self@, ptr);
        }
        None
    }

    /// Whether `block` may become the new tail: it is well formed and lies
    /// above every block of the list.
    pub open spec fn accepts(&self, block: Block) -> bool {
        block.wf() && (self@.len() > 0 ==> self@.last().end() <= block.addr)
    }

    /// Appends `block` at the tail where that keeps the list in address
    /// order, and says whether it did.
    pub fn insert(&mut self, block: Block) -> (done: bool)
        ensures
            old(self).wf(),
            final(self).wf(),
            done == old(self).accepts(block),
            final(self)@ == (if done {
                old(self)@.push(block)
            } else {
                old(self)@
            }),
    {
        proof {
            use_type_invariant(&*self);
        }
        if !block.is_well_formed() {
            return false;
        }
        let n: usize = self.blocks.len();
        if n > 0 {
            let tail: Block = self.blocks[n - 1];
            proof {
                assert(self@[n - 1].wf());
            }
            if tail.data + tail.size > block.addr {
                return false;
            }
        }
        proof {
            let s = self@;
            let t = s.push(block);
            assert forall|i: int, j: int| #![trigger t[i], t[j]] 0 <= i < j < t.len() implies t[i].end()
                <= t[j].addr by {
                if j < s.len() {
                    assert(s[i].end() <= s[j].addr);
                } else if i < s.len() - 1 {
                    assert(s[i].end() <= s[s.len() - 1].addr);
                    assert(s[s.len() - 1].wf());
                }
            }
            assert forall|i: int| 0 <= i < t.len() implies (#[trigger] t[i]).wf() by {
                if i < s.len() {
                    assert(s[i].wf());
                }
            }
        }
        let mut blocks: Vec<Block> = Vec::new();
        std::mem::swap(&mut blocks, &mut self.blocks);
        blocks.push(block);
        self.blocks = blocks;
        true
    }

    /// Marks block `index` as handed out and returns its payload address.
    pub fn take(&mut self, index: usize) -> (ptr: usize)
        requires
            index < old(self)@.len(),
        ensures
            old(self).wf(),
            final(self).wf(),
            final(self)@ == old(self)@.update(index as int, old(self)@[index as int].taken()),
            ptr == old(self)@[index as int].data,
    {
        proof {
            use_type_invariant(&*self);
            lemma_state_keeps_wf(self@, index as int, false);
        }
        let b: Block = self.blocks[index];
        let mut blocks: Vec<Block> = Vec::new();
        std::mem::swap(&mut blocks, &mut self.blocks);
        blocks.set(index, Block { addr: b.addr, data: b.data, size: b.size, free: false });
        self.blocks = blocks;
        b.data
    }

    /// Marks block `index` as free.
    pub fn release(&mut self, index: usize)
        requires
            index < old(self)@.len(),
        ensures
            old(self).wf(),
            final(self).wf(),
            final(self)@ == old(self)@.update(index as int, old(self)@[index as int].released()),
    {
        proof {
            use_type_invariant(&*self);
            lemma_state_keeps_wf(self@, index as int, true);
        }
        let b: Block = self.blocks[index];
        let mut blocks: Vec<Block> = Vec::new();
        std::mem::swap(&mut blocks, &mut self.blocks);
        blocks.set(index, Block { addr: b.addr, data: b.data, size: b.size, free: true });
        self.blocks = blocks;
    }

    /// Merges the free block `index` with the free blocks that directly
    /// follow it, up to the first allocated block or the list's end. The
    /// merged block keeps its header and payload address; its size reaches to
    /// the end of the last block merged. On an allocated block, or an index
    /// beyond the list, nothing changes.
    pub fn coalesce_from(&mut self, index: usize)
        ensures
            old(self).wf(),
            final(self).wf(),
            final(self)@ == (if index < old(self)@.len() && old(self)@[index as int].free {
                coalesced(old(self)@, index as int)
            } else {
                old(self)@
            }),
    {
        proof {
            use_type_invariant(&*self);
        }
        if index >= self.blocks.len() {
            return;
        }
        let head: Block = self.blocks[index];
        if !head.free {
            return;
        }
        let ghost s = self@;
        let n: usize = self.blocks.len();
        let mut last: usize = index;
        while last < n - 1 && self.blocks[last + 1].free
            invariant
                self.blocks@ == s,
                n == s.len(),
                index <= last < n,
                run_end(s, last as int) == run_end(s, index as int),
            decreases s.len() - last,
        {
            last += 1;
        }
        proof {
            lemma_coalesced_wf(s, index as int);
            assert(s[index as int].wf() && s[last as int].wf());
            if index < last {
                assert(s[index as int].end() <= s[last as int].addr);
            }
        }
        let tail: Block = self.blocks[last];
        let merged = Block {
            addr: head.addr,
            data: head.data,
            size: tail.data + tail.size - head.data,
            free: head.free,
        };
        let mut blocks: Vec<Block> = Vec::new();
        std::mem::swap(&mut blocks, &mut self.blocks);
        let mut rest: Vec<Block> = blocks.split_off(last + 1);
        blocks.truncate(index);
        blocks.push(merged);
        blocks.append(&mut rest);
        proof {
            assert(blocks@ =~= coalesced(s, index as int));
        }
        self.blocks = blocks;
    }

    /// A copy of the blocks, in list order.
    pub fn blocks(&self) -> (r: Vec<Block>)
        ensures
            r@ == self@,
    {
        let mut out: Vec<Block> = Vec::new();
        let mut i: usize = 0;
        while i < self.blocks.len()
            invariant
                i <= self.blocks@.len(),
                out@ == self.blocks@.subrange(0, i as int),
            decreases self.blocks@.len() - i,
        {
            out.push(self.blocks[i]);
            proof {
                assert(out@ =~= self.blocks@.subrange(0, i + 1));
            }
            i += 1;
        }
        proof {
            assert(out@ =~= self.blocks@);
        }
        out
    }
}

} // verus!
