//! What holds of the allocator's books across calls, stated over the blocks
//! that the calls' contracts speak of.

use crate::allocator::{
    allocates, extent_needed, installable, layout_error, released, InvalidFree,
};
use crate::block::{data_at, header_at, lemma_placed, placed, Block};
use crate::free_list::{
    coalesced, first_fit, index_of, is_first_at, is_first_fit, lemma_coalesced_wf,
    lemma_data_ascends, lemma_first_fit_is, lemma_first_fit_none, lemma_first_fit_some,
    lemma_index_of_is, lemma_index_of_none, lemma_index_of_some, lemma_run_end,
    lemma_state_keeps_wf, list_wf, run_end,
};
use crate::layout::{lemma_round_up, round_up, HEADER_SIZE, WORD};
use vstd::arithmetic::power2::is_pow2;
use vstd::prelude::*;

verus! {

/// A successful allocation leaves its pointer as the payload address of
/// exactly one block; that block is allocated, holds at least the bytes
/// asked for, and does not begin at the null address.
pub proof fn lemma_allocated_block(
    s: Seq<Block>,
    size: usize,
    align: usize,
    t: Seq<Block>,
    p: usize,
)
    requires
        list_wf(t),
        allocates(s, size, align, t, p),
    ensures
        index_of(t, p) matches Some(i) && 0 <= i < t.len() && t[i].data == p && !t[i].free
            && t[i].size >= size,
        p >= HEADER_SIZE,
        p as int % align as int == 0,
{
    lemma_first_fit_some(s, size, align);
    let i = match first_fit(s, size, align) {
        Some(i) => i,
        None => t.len() - 1,
    };
    assert(t[i].wf());
    assert(t[i].data == p);
    assert forall|j: int| 0 <= j < i implies (#[trigger] t[j]).data != p by {
        lemma_data_ascends(t, j, i);
    }
    assert(is_first_at(t, i, p));
    lemma_index_of_is(t, i, p);
}

/// Reuse. After a successful allocation and the release of its pointer, the
/// same request finds a first fit, and that fit is the block at the same
/// pointer: the allocator hands the address out again and the heap does not
/// grow.
pub proof fn lemma_reuse_after_release(
    s: Seq<Block>,
    size: usize,
    align: usize,
    t: Seq<Block>,
    p: usize,
)
    requires
        list_wf(s),
        list_wf(t),
        allocates(s, size, align, t, p),
    ensures
        released(t, p) matches Ok(u) && list_wf(u) && (first_fit(u, size, align) matches Some(k)
            && u[k].data == p),
{
    lemma_allocated_block(s, size, align, t, p);
    lemma_first_fit_some(s, size, align);
    lemma_first_fit_none(s, size, align);
    let i = index_of(t, p)->Some_0;
    let t1 = t.update(i, t[i].released());
    lemma_state_keeps_wf(t, i, true);
    lemma_run_end(t1, i);
    lemma_coalesced_wf(t1, i);
    let j = run_end(t1, i);
    let u = coalesced(t1, i);
    assert(released(t, p) == Ok::<Seq<Block>, InvalidFree>(u));
    assert(t1[i].wf() && t1[j].wf());
    if i < j {
        assert(t1[i].end() <= t1[j].addr);
    }
    assert(u[i] == t1[i].extended_to(t1[j].end()));
    assert(u[i].fits(size, align));
    assert forall|k: int| 0 <= k < i implies !(#[trigger] u[k]).fits(size, align) by {
        assert(u[k] == t[k]);
        assert(t[k] == s[k]);
    }
    assert(is_first_fit(u, i, size, align));
    lemma_first_fit_is(u, i, size, align);
}

/// Double free. Once a pointer was released, releasing it again is refused
/// as a double free.
pub proof fn lemma_double_free(s: Seq<Block>, ptr: usize)
    requires
        list_wf(s),
        released(s, ptr) is Ok,
    ensures
        released(released(s, ptr)->Ok_0, ptr) == Err::<Seq<Block>, InvalidFree>(
            InvalidFree::DoubleFree,
        ),
{
    lemma_index_of_some(s, ptr);
    let i = index_of(s, ptr)->Some_0;
    let s1 = s.update(i, s[i].released());
    lemma_state_keeps_wf(s, i, true);
    lemma_run_end(s1, i);
    let u = coalesced(s1, i);
    assert(u[i].data == ptr && u[i].free);
    assert forall|j: int| 0 <= j < i implies (#[trigger] u[j]).data != ptr by {
        assert(u[j] == s[j]);
    }
    assert(is_first_at(u, i, ptr));
    lemma_index_of_is(u, i, ptr);
}

/// Coalescing. Releasing an allocated block that a free block directly
/// follows merges the two: one block is left in their place, free, with its
/// payload where the released block had it and reaching at least to the end
/// of the follower, so that it fits every request up to that extent on a
/// boundary that the payload lies on.
pub proof fn lemma_release_merges_next(s: Seq<Block>, i: int, size: usize, align: usize)
    requires
        list_wf(s),
        0 <= i,
        i + 1 < s.len(),
        !s[i].free,
        s[i + 1].free,
        size <= s[i + 1].end() - s[i].data,
        s[i].data as int % align as int == 0,
    ensures
        released(s, s[i].data) matches Ok(u) && list_wf(u) && u.len() < s.len() && u[i].data
            == s[i].data && u[i].end() >= s[i + 1].end() && u[i].fits(size, align),
{
    let p = s[i].data;
    assert forall|j: int| 0 <= j < i implies (#[trigger] s[j]).data != p by {
        lemma_data_ascends(s, j, i);
    }
    assert(is_first_at(s, i, p));
    lemma_index_of_is(s, i, p);
    let s1 = s.update(i, s[i].released());
    lemma_state_keeps_wf(s, i, true);
    lemma_run_end(s1, i);
    lemma_run_end(s1, i + 1);
    lemma_coalesced_wf(s1, i);
    let j = run_end(s1, i);
    let u = coalesced(s1, i);
    assert(s1[i + 1].free);
    assert(j >= i + 1);
    assert(s1[i].wf() && s1[j].wf() && s1[i + 1].wf());
    assert(s1[i].end() <= s1[i + 1].addr);
    if i + 1 < j {
        assert(s1[i + 1].end() <= s1[j].addr);
    }
    assert(u[i] == s1[i].extended_to(s1[j].end()));
}

/// Foreign pointers. No payload begins within the first header's length of
/// the address space, so a pointer there, the null pointer among them, is
/// unknown to every allocator.
pub proof fn lemma_low_pointer_unknown(s: Seq<Block>, ptr: usize)
    requires
        list_wf(s),
        ptr < HEADER_SIZE,
    ensures
        released(s, ptr) == Err::<Seq<Block>, InvalidFree>(InvalidFree::UnknownPointer),
{
    assert forall|j: int| 0 <= j < s.len() implies (#[trigger] s[j]).data != ptr by {
        assert(s[j].wf());
    }
    lemma_index_of_none(s, ptr);
}

/// Granted memory. A block booked in new heap lies wholly within the bytes
/// that the system granted for it, and exactly as many bytes are asked for
/// as the block takes where the break stands when the heap is grown.
pub proof fn lemma_block_within_grant(
    s: Seq<Block>,
    base: usize,
    extent: usize,
    size: usize,
    align: usize,
)
    requires
        layout_error(size, align) is None,
        installable(s, base, extent, size, align),
    ensures
        base <= placed(base, size, align).addr,
        placed(base, size, align).end() <= base + extent,
        extent == extent_needed(base, size, align) ==> placed(base, size, align).end() == base
            + extent,
{
    lemma_placed(base, size, align);
}

/// Growth on a word boundary. Where the heap ends on a word boundary and the
/// request asks for word alignment or less, a new block takes the header and
/// the payload and no padding: never more than `allocation_size` gives for
/// the payload.
pub proof fn lemma_extent_on_word_boundary(heap_break: usize, size: usize, align: usize)
    requires
        heap_break as int % WORD as int == 0,
        is_pow2(align as int),
        align <= WORD,
    ensures
        extent_needed(heap_break, size, align) == HEADER_SIZE + size,
        extent_needed(heap_break, size, align) <= round_up(size as int, WORD as int) + HEADER_SIZE,
{
    reveal_with_fuel(is_pow2, 5);
    assert(align == 1 || align == 2 || align == 4 || align == 8);
    let body = heap_break + HEADER_SIZE;
    assert(header_at(heap_break as int) == heap_break);
    assert(body % 8 == 0);
    assert(body % (align as int) == 0) by {
        if align == 1 {
            assert(body % 1 == 0);
        } else if align == 2 {
            assert(body % 2 == 0);
        } else if align == 4 {
            assert(body % 4 == 0);
        }
    }
    assert(data_at(heap_break as int, align) == body);
    lemma_round_up(size as int, WORD as int);
}

/// Forward only. A release changes nothing below the released block: a free
/// block that lies directly in front of it stays as it is and is not merged
/// with it.
pub proof fn lemma_release_leaves_lower_blocks(s: Seq<Block>, i: int, k: int)
    requires
        list_wf(s),
        0 <= k < i < s.len(),
        !s[i].free,
    ensures
        released(s, s[i].data) matches Ok(u) && k < u.len() && u[k] == s[k],
{
    let p = s[i].data;
    assert forall|j: int| 0 <= j < i implies (#[trigger] s[j]).data != p by {
        lemma_data_ascends(s, j, i);
    }
    assert(is_first_at(s, i, p));
    lemma_index_of_is(s, i, p);
    let s1 = s.update(i, s[i].released());
    lemma_run_end(s1, i);
    assert(coalesced(s1, i)[k] == s[k]);
}

/// Fresh memory. The bytes that an allocation hands out are not in use:
/// they share nothing with the payload of any block that was allocated
/// before.
pub proof fn lemma_allocation_is_fresh(
    s: Seq<Block>,
    size: usize,
    align: usize,
    t: Seq<Block>,
    p: usize,
    j: int,
)
    requires
        list_wf(s),
        list_wf(t),
        allocates(s, size, align, t, p),
        0 <= j < s.len(),
        !s[j].free,
    ensures
        s[j].data + s[j].size <= p || p + size <= s[j].data,
{
    lemma_first_fit_some(s, size, align);
    match first_fit(s, size, align) {
        Some(i) => {
            assert(s[i].wf() && s[j].wf());
            if i < j {
                assert(s[i].end() <= s[j].addr);
            } else {
                assert(s[j].end() <= s[i].addr);
            }
        },
        None => {
            let n = t.len() - 1;
            assert(t[j] == s[j]);
            assert(t[j].end() <= t[n].addr);
            assert(t[n].wf());
        },
    }
}

/// Allocation keeps what is in use. Every block that was allocated before
/// an allocation stands unchanged at the same index afterwards.
pub proof fn lemma_allocation_keeps_live(
    s: Seq<Block>,
    size: usize,
    align: usize,
    t: Seq<Block>,
    p: usize,
    j: int,
)
    requires
        allocates(s, size, align, t, p),
        0 <= j < s.len(),
        !s[j].free,
    ensures
        j < t.len(),
        t[j] == s[j],
{
    lemma_first_fit_some(s, size, align);
    if first_fit(s, size, align) is None {
        assert(t.drop_last()[j] == t[j]);
    }
}

/// Release keeps what is in use. Every allocated block other than the one
/// released stands unchanged afterwards, at its index or further down by the
/// number of blocks merged away.
pub proof fn lemma_release_keeps_live(s: Seq<Block>, ptr: usize, j: int)
    requires
        list_wf(s),
        released(s, ptr) is Ok,
        0 <= j < s.len(),
        !s[j].free,
        s[j].data != ptr,
    ensures
        exists|k: int| 0 <= k <= j && k < released(s, ptr)->Ok_0.len() && #[trigger] released(
            s,
            ptr,
        )->Ok_0[k] == s[j],
{
    lemma_index_of_some(s, ptr);
    let i = index_of(s, ptr)->Some_0;
    let s1 = s.update(i, s[i].released());
    lemma_state_keeps_wf(s, i, true);
    lemma_run_end(s1, i);
    lemma_coalesced_wf(s1, i);
    let e = run_end(s1, i);
    let u = coalesced(s1, i);
    assert(released(s, ptr) == Ok::<Seq<Block>, InvalidFree>(u));
    let k = if j < i {
        j
    } else {
        j - (e - i)
    };
    if j > i {
        assert(j > e) by {
            if j <= e {
                assert(s1[j].free);
            }
        }
    }
    assert(u[k] == s[j]);
    assert(0 <= k <= j && k < released(s, ptr)->Ok_0.len() && released(s, ptr)->Ok_0[k] == s[j]);
}

/// No overlap. In well-formed books the payload of a block ends below the
/// header of every later block, so no two payloads share a byte and no
/// payload reaches into a header.
pub proof fn lemma_payloads_disjoint(s: Seq<Block>, i: int, j: int)
    requires
        list_wf(s),
        0 <= i < j < s.len(),
    ensures
        s[i].data + s[i].size <= s[j].addr,
        s[j].addr + HEADER_SIZE <= s[j].data,
{
    assert(s[i].end() <= s[j].addr);
    assert(s[j].wf());
}

} // verus!
