//! The ways in which a job can fail.

use crate::collaborators::{AllocatorFault, Memory, ProcessingElement, Scheduler};
use crate::parameter::Parameter;
use std::sync::PoisonError;
use vstd::prelude::*;

verus! {

/// A failure of a job: that of a collaborator, with its cause, or a
/// parameter in a form that a stage cannot take.
#[derive(Debug)]
#[allow(inconsistent_fields)]
pub enum Error<M: Memory, P: ProcessingElement<M>, S: Scheduler<P>> {
    /// The allocator refused a request.
    AllocatorError { source: M::AllocatorError },
    /// The DMA engine failed to move data.
    DMAError { source: M::DmaError },
    /// The allocator's lock has been poisoned.
    MutexError {  },
    /// The processing element failed.
    PEError { source: P::Error },
    /// A transfer reached register binding without having been turned into
    /// an address.
    UnsupportedRegisterParameter { arg: Parameter<M> },
    /// A parameter reached the transfer stage in a form it cannot take.
    UnsupportedTransferParameter { arg: Parameter<M> },
    /// The scheduler failed to take the processing element back.
    SchedulerError { source: S::Error },
}

impl<M: Memory, P: ProcessingElement<M>, S: Scheduler<P>> Error<M, P, S> {
    /// The failure of a job whose allocator request ended in `fault`: a
    /// poisoned lock is a `MutexError`, a refusal an `AllocatorError` with
    /// its cause.
    pub open spec fn of_fault(fault: AllocatorFault<M::AllocatorError>) -> Self {
        match fault {
            AllocatorFault::Poisoned => Error::MutexError {  },
            AllocatorFault::Refused(cause) => Error::AllocatorError { source: cause },
        }
    }

    /// The failure of a job whose allocator request ended in `fault`: a
    /// poisoned lock is reported as such, a refusal with its cause.
    pub fn from_allocator_fault(fault: AllocatorFault<M::AllocatorError>) -> (e: Self)
        ensures
            e == Self::of_fault(fault),
    {
        match fault {
            AllocatorFault::Poisoned => Error::MutexError {  },
            AllocatorFault::Refused(cause) => Error::AllocatorError { source: cause },
        }
    }
}

impl<T, M: Memory, P: ProcessingElement<M>, S: Scheduler<P>> From<PoisonError<T>> for Error<M, P, S> {
    /// A poisoned lock, whatever it guards, is a `MutexError`.
    fn from(_error: PoisonError<T>) -> (e: Self) {
        Error::MutexError {  }
    }
}

impl<T, M: Memory, P: ProcessingElement<M>, S: Scheduler<P>> vstd::std_specs::convert::FromSpecImpl<PoisonError<T>> for Error<M, P, S> {
    open spec fn obeys_from_spec() -> bool {
        true
    }

    open spec fn from_spec(_error: PoisonError<T>) -> Self {
        Error::MutexError {  }
    }
}

} // verus!
