//! Address arithmetic: rounding addresses and sizes up to an alignment.

use vstd::arithmetic::power2::is_pow2;
use vstd::prelude::*;

verus! {

/// The machine word, in bytes. Sizes are rounded to it by [`word_align`].
pub const WORD: usize = 8;

/// Bytes reserved in front of every payload for the block's header.
pub const HEADER_SIZE: usize = 32;

/// Alignment of a block header.
pub const HEADER_ALIGN: usize = 8;

/// The least multiple of `align` that is not below `addr`.
pub open spec fn round_up(addr: int, align: int) -> int {
    if addr % align == 0 {
        addr
    } else {
        addr + (align - addr % align)
    }
}

/// `round_up` yields a multiple of the alignment, less than one alignment
/// above the address.
pub proof fn lemma_round_up(addr: int, align: int)
    requires
        0 <= addr,
        0 < align,
    ensures
        round_up(addr, align) % align == 0,
        addr <= round_up(addr, align) < addr + align,
{
    let r = round_up(addr, align);
    assert(r % align == 0 && addr <= r < addr + align) by (nonlinear_arith)
        requires
            0 <= addr,
            0 < align,
            r == (if addr % align == 0 {
                addr
            } else {
                addr + (align - addr % align)
            }),
    ;
}

/// A power of two has a single bit set, and nothing else has.
pub proof fn lemma_single_bit(x: usize)
    ensures
        is_pow2(x as int) <==> (x != 0 && x & ((x - 1) as usize) == 0),
    decreases x,
{
    reveal(is_pow2);
    if x == 0 {
    } else if x == 1 {
        assert(1usize & 0usize == 0) by (bit_vector);
    } else {
        let h: usize = x / 2;
        lemma_single_bit(h);
        assert((x & ((x - 1) as usize) == 0) <==> (x % 2 == 0 && h & ((h - 1) as usize) == 0))
            by (bit_vector)
            requires
                x > 1,
                h == x / 2,
        ;
    }
}

/// Under a power of two, masking with `align - 1` is the remainder.
pub proof fn lemma_mask_is_remainder(addr: usize, align: usize)
    requires
        is_pow2(align as int),
    ensures
        addr & ((align - 1) as usize) == addr % align,
    decreases align,
{
    reveal(is_pow2);
    if align == 1 {
        assert(addr & 0usize == 0) by (bit_vector);
    } else {
        let h: usize = align / 2;
        let a: usize = addr / 2;
        lemma_mask_is_remainder(a, h);
        assert(addr & ((align - 1) as usize) == 2 * (a & ((h - 1) as usize)) + addr % 2)
            by (bit_vector)
            requires
                align > 1,
                align % 2 == 0,
                h == align / 2,
                a == addr / 2,
        ;
        vstd::arithmetic::div_mod::lemma_mod_breakdown(addr as int, 2, h as int);
    }
}

/// Whether `x` is a power of two.
pub fn is_power_of_two(x: usize) -> (r: bool)
    ensures
        r == is_pow2(x as int),
{
    proof {
        lemma_single_bit(x);
    }
    x != 0 && x & (x - 1) == 0
}

/// Rounds `addr` up to the power of two `align`.
pub fn align_up(addr: usize, align: usize) -> (r: usize)
    requires
        is_pow2(align as int),
        round_up(addr as int, align as int) <= usize::MAX,
    ensures
        r == round_up(addr as int, align as int),
{
    proof {
        lemma_single_bit(align);
        lemma_mask_is_remainder(addr, align);
    }
    let rem: usize = addr & (align - 1);
    if rem == 0 {
        addr
    } else {
        addr + (align - rem)
    }
}

/// Rounds `addr` up to the power of two `align`, or reports that the result
/// does not fit an address.
pub fn checked_align_up(addr: usize, align: usize) -> (r: Option<usize>)
    requires
        is_pow2(align as int),
    ensures
        r == (if round_up(addr as int, align as int) <= usize::MAX {
            Some(round_up(addr as int, align as int) as usize)
        } else {
            None
        }),
{
    proof {
        lemma_single_bit(align);
        lemma_mask_is_remainder(addr, align);
    }
    let rem: usize = addr & (align - 1);
    if rem == 0 {
        Some(addr)
    } else {
        addr.checked_add(align - rem)
    }
}

/// Rounds `size` up to a whole number of machine words.
pub fn word_align(size: usize) -> (r: usize)
    requires
        round_up(size as int, WORD as int) <= usize::MAX,
    ensures
        r == round_up(size as int, WORD as int),
{
    proof {
        lemma_word_is_pow2();
    }
    align_up(size, WORD)
}

/// The bytes of heap that one block of `size` payload bytes takes when header
/// and payload are both rounded to whole words.
pub fn allocation_size(size: usize) -> (r: usize)
    requires
        round_up(size as int, WORD as int) + HEADER_SIZE <= usize::MAX,
    ensures
        r == round_up(size + round_up(HEADER_SIZE as int, WORD as int), WORD as int),
        r == round_up(size as int, WORD as int) + HEADER_SIZE,
{
    proof {
        lemma_word_is_pow2();
        lemma_round_up(size as int, WORD as int);
    }
    let header: usize = word_align(HEADER_SIZE);
    word_align(size + header)
}

/// A power of two is at least one.
pub proof fn lemma_pow2_positive(x: int)
    requires
        is_pow2(x),
    ensures
        0 < x,
{
    reveal(is_pow2);
}

/// The word and the header alignment are powers of two.
pub proof fn lemma_word_is_pow2()
    ensures
        is_pow2(WORD as int),
        is_pow2(HEADER_ALIGN as int),
{
    reveal_with_fuel(is_pow2, 5);
}

} // verus!
