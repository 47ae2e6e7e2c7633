//! The heap break manager: a thin layer over the one primitive that moves
//! the end of the process's heap.
//!
//! The primitive is handed in as a function from an increment in bytes to
//! the break as it was before the move, after the manner of `sbrk`: with
//! increment zero it reports the break and moves nothing, and where the
//! system refuses it answers with [`BREAK_FAILED`]. The manager keeps no
//! books and must not be entered by two callers at once: the allocator's
//! lock sees to that.

use vstd::prelude::*;

verus! {

/// The primitive's answer where the system refuses to move the break.
pub const BREAK_FAILED: usize = usize::MAX;

/// Why the break was not moved.
#[derive(Clone, Copy, Debug, PartialEq, Eq, Structural)]
pub enum BreakError {
    /// The caller asked to extend the heap by no bytes at all.
    InvalidAmount,
    /// The system refused, or the amount is beyond what it can be asked for.
    OutOfMemory,
}

/// The break that a raw answer of the primitive stands for: none where it is
/// [`BREAK_FAILED`] or the null address.
pub open spec fn break_of(raw: usize) -> Option<usize> {
    if raw == 0 || raw == BREAK_FAILED {
        None
    } else {
        Some(raw)
    }
}

/// The increment that the primitive is given to extend the heap by
/// `byte_count` bytes.
pub open spec fn increment_of(byte_count: usize) -> Result<isize, BreakError> {
    if byte_count == 0 {
        Err(BreakError::InvalidAmount)
    } else if byte_count > isize::MAX {
        Err(BreakError::OutOfMemory)
    } else {
        Ok(byte_count as isize)
    }
}

/// What an extension returns for a raw answer of the primitive.
pub open spec fn extension_of(raw: usize) -> Result<usize, BreakError> {
    match break_of(raw) {
        Some(base) => Ok(base),
        None => Err(BreakError::OutOfMemory),
    }
}

/// Reads a raw answer of the primitive.
pub fn decode(raw: usize) -> (r: Option<usize>)
    ensures
        r == break_of(raw),
{
    if raw == 0 || raw == BREAK_FAILED {
        None
    } else {
        Some(raw)
    }
}

/// Turns a byte count into the increment handed to the primitive.
pub fn increment(byte_count: usize) -> (r: Result<isize, BreakError>)
    ensures
        r == increment_of(byte_count),
{
    if byte_count == 0 {
        Err(BreakError::InvalidAmount)
    } else if byte_count > isize::MAX as usize {
        Err(BreakError::OutOfMemory)
    } else {
        Ok(byte_count as isize)
    }
}

/// The heap break manager over the primitive `sbrk`.
pub struct HeapBreak<B: Fn(isize) -> usize> {
    sbrk: B,
}

impl<B: Fn(isize) -> usize> HeapBreak<B> {
    /// The primitive accepts every increment.
    #[verifier::type_invariant]
    spec fn inv(&self) -> bool {
        forall|n: isize| call_requires(self.sbrk, (n,))
    }

    /// Whether `raw` is a possible answer of the primitive to `increment`.
    pub closed spec fn answers(&self, increment: isize, raw: usize) -> bool {
        call_ensures(self.sbrk, (increment,), raw)
    }

    /// A manager over `sbrk`, which must accept every increment.
    pub fn new(sbrk: B) -> (heap: Self)
        requires
            forall|n: isize| call_requires(sbrk, (n,)),
        ensures
            forall|n: isize, raw: usize|
                heap.answers(n, raw) <==> call_ensures(sbrk, (n,), raw),
    {
        HeapBreak { sbrk }
    }

    /// The current break, or `None` where the primitive fails.
    pub fn current(&self) -> (r: Option<usize>)
        ensures
            exists|raw: usize| self.answers(0, raw) && r == break_of(raw),
    {
        proof {
            use_type_invariant(self);
        }
        let raw: usize = (self.sbrk)(0);
        decode(raw)
    }

    /// Extends the heap by `byte_count` bytes and returns the address at
    /// which the new bytes begin. Asking for no bytes is the caller's error;
    /// an amount beyond `isize::MAX` is refused without asking the system.
    pub fn extend(&self, byte_count: usize) -> (r: Result<usize, BreakError>)
        ensures
            match increment_of(byte_count) {
                Err(e) => r == Err::<usize, BreakError>(e),
                Ok(n) => exists|raw: usize| self.answers(n, raw) && r == extension_of(raw),
            },
    {
        proof {
            use_type_invariant(self);
        }
        match increment(byte_count) {
            Err(e) => Err(e),
            Ok(n) => {
                let raw: usize = (self.sbrk)(n);
                let r = match decode(raw) {
                    Some(base) => Ok(base),
                    None => Err(BreakError::OutOfMemory),
                };
                proof {
                    assert(self.answers(n, raw) && r == extension_of(raw));
                }
                r
            },
        }
    }
}

} // verus!
