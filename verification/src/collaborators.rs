//! The interfaces through which a job reaches the device.
//!
//! Nothing is promised of what an implementation does or answers:
//! whatever comes back, the job layer decides what follows from it.

use crate::parameter::{Parameter, PlacedTransfer};
use std::sync::PoisonError;
use vstd::prelude::*;

verus! {

/// `std::sync::PoisonError`: what a lock gives in place of its guard once
/// a holder has failed while holding it.
#[verifier::external_type_specification]
#[verifier::external_body]
#[verifier::reject_recursive_types(T)]
pub struct ExPoisonError<T>(PoisonError<T>);

/// Why an allocator request did not go through.
#[derive(Debug)]
pub enum AllocatorFault<E> {
    /// The allocator's lock was poisoned: an earlier holder failed while
    /// it held the lock.
    Poisoned,
    /// The allocator itself refused the request.
    Refused(E),
}

impl<T, E> From<PoisonError<T>> for AllocatorFault<E> {
    /// A poisoned lock, whatever it guards, is reported as poisoned.
    fn from(_error: PoisonError<T>) -> (fault: Self) {
        AllocatorFault::Poisoned
    }
}

impl<T, E> vstd::std_specs::convert::FromSpecImpl<PoisonError<T>> for AllocatorFault<E> {
    open spec fn obeys_from_spec() -> bool {
        true
    }

    open spec fn from_spec(_error: PoisonError<T>) -> Self {
        AllocatorFault::Poisoned
    }
}

/// A pool of device memory: an allocator behind a lock, and a DMA engine.
///
/// The lock is taken for the single request and given up when the request
/// is done.
pub trait Memory {
    type AllocatorError;

    type DmaError;

    /// Reserves `size` bytes and gives the address of the region.
    fn allocate(&self, size: u64) -> Result<u64, AllocatorFault<Self::AllocatorError>>;

    /// Gives back the region that starts at `address`.
    fn free(&self, address: u64) -> Result<(), AllocatorFault<Self::AllocatorError>>;

    /// Copies `data` into device memory, starting at `address`.
    fn copy_to(&self, data: &[u8], address: u64) -> Result<(), Self::DmaError>;

    /// Fills `dest` from device memory, starting at `address`.
    ///
    /// The buffer is a slice, which cannot grow or shrink: that it keeps
    /// its length is all that is stated here, and it holds of whatever
    /// stands behind this method.
    fn copy_from(&self, address: u64, dest: &mut [u8]) -> (answer: Result<(), Self::DmaError>)
        ensures
            final(dest)@.len() == old(dest)@.len(),
    ;
}

/// An acquired processing element.
pub trait ProcessingElement<M> {
    type Error;

    /// Writes `value` to the argument register `index`.
    fn set_arg(&self, index: usize, value: Parameter<M>) -> Result<(), Self::Error>;

    /// Sets the element running.
    fn start(&mut self) -> Result<(), Self::Error>;

    /// Notes a transfer whose data is to be read back once the element is done.
    fn add_copyback(&mut self, transfer: PlacedTransfer<M>);

    /// Waits until the element is idle and hands out the transfers noted
    /// since it was last idle, oldest first.
    fn release(&mut self) -> Result<Option<Vec<PlacedTransfer<M>>>, Self::Error>;
}

/// The owner of the pool of processing elements.
pub trait Scheduler<P> {
    type Error;

    /// Takes an acquired element back into the pool.
    fn release_pe(&self, pe: P) -> Result<(), Self::Error>;
}

} // verus!
