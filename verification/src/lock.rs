//! The two locks that the allocators put around their books, as far as the
//! library uses them: making one, taking it, and reaching what it guards.
//! None of this is verified; each item says what it relies on.

use crate::allocator::AllocatorImpl;
use vstd::prelude::*;

verus! {

/// `spin::mutex::Mutex`, carried without a view of what it holds.
#[verifier::external_type_specification]
#[verifier::external_body]
#[verifier::reject_recursive_types(T)]
#[verifier::reject_recursive_types(R)]
pub struct ExSpinMutex<T: ?Sized, R>(spin::mutex::Mutex<T, R>);

/// `spin::mutex::MutexGuard`, carried without a view of what it guards.
#[verifier::external_type_specification]
#[verifier::external_body]
#[verifier::reject_recursive_types(T)]
#[verifier::reject_recursive_types(R)]
pub struct ExSpinMutexGuard<'a, T: 'a + ?Sized, R>(spin::mutex::MutexGuard<'a, T, R>);

/// `spin::relax::Spin`, the waiting strategy that `spin::Mutex` defaults to.
#[verifier::external_type_specification]
#[verifier::external_body]
pub struct ExSpin(spin::relax::Spin);

/// `lock_api::Mutex`, which `parking_lot::Mutex` is an alias of, carried
/// without a view of what it holds.
#[verifier::external_type_specification]
#[verifier::external_body]
#[verifier::reject_recursive_types(R)]
#[verifier::reject_recursive_types(T)]
pub struct ExParkingMutex<R, T: ?Sized>(parking_lot::lock_api::Mutex<R, T>);

/// A `parking_lot::MutexGuard` over the books. The guard's own type is bound
/// by a trait of its crate and cannot be declared, so it is carried in this
/// struct, of which nothing is known.
#[verifier::external_body]
pub struct ParkingGuard<'a> {
    guard: parking_lot::MutexGuard<'a, AllocatorImpl>,
}

/// `parking_lot::RawMutex`, the lock inside `parking_lot::Mutex`.
#[verifier::external_type_specification]
#[verifier::external_body]
pub struct ExRawMutex(parking_lot::RawMutex);

/// `spin::Mutex::new`: an unlocked spin lock around `state`. Nothing is
/// claimed of the lock.
#[verifier::external_body]
pub(crate) fn spin_new(state: AllocatorImpl) -> spin::Mutex<AllocatorImpl> {
    spin::Mutex::new(state)
}

/// `spin::Mutex::lock`: spins until the lock is free and takes it; the lock
/// is given back when the guard goes out of scope. Nothing is claimed of the
/// guard. The call does not return while the calling thread itself holds the
/// lock.
#[verifier::external_body]
pub(crate) fn spin_lock<'a>(lock: &'a spin::Mutex<AllocatorImpl>) -> spin::MutexGuard<
    'a,
    AllocatorImpl,
> {
    lock.lock()
}

/// `DerefMut::deref_mut` of `spin::MutexGuard`: the books that the guard
/// protects. Nothing is claimed of them beyond their type.
#[verifier::external_body]
pub(crate) fn spin_books<'a, 'b>(
    guard: &'a mut spin::MutexGuard<'b, AllocatorImpl>,
) -> &'a mut AllocatorImpl {
    &mut **guard
}

/// `parking_lot::Mutex::new`: an unlocked mutex around `state`. Nothing is
/// claimed of the mutex.
#[verifier::external_body]
pub(crate) fn parking_new(state: AllocatorImpl) -> parking_lot::Mutex<AllocatorImpl> {
    parking_lot::Mutex::new(state)
}

/// `parking_lot::Mutex::lock`: blocks the thread until the mutex is free and
/// takes it; the mutex is given back when the guard goes out of scope.
/// Nothing is claimed of the guard. The call does not return while the
/// calling thread itself holds the mutex.
#[verifier::external_body]
pub(crate) fn parking_lock<'a>(lock: &'a parking_lot::Mutex<AllocatorImpl>) -> ParkingGuard<'a> {
    ParkingGuard { guard: lock.lock() }
}

/// `DerefMut::deref_mut` of `parking_lot::MutexGuard`: the books that the
/// guard protects. Nothing is claimed of them beyond their type.
#[verifier::external_body]
pub(crate) fn parking_books<'a, 'b>(guard: &'a mut ParkingGuard<'b>) -> &'a mut AllocatorImpl {
    &mut *guard.guard
}

} // verus!
