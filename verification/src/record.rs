//! The record of what a job has asked of its collaborators and of what
//! they answered.
//!
//! The record is ghost state. Only the functions of [`Record`] add to it:
//! each makes one call to a collaborator and notes, in the same step, what
//! it handed over and what came back.

use crate::chain::chain;
use crate::collaborators::{AllocatorFault, Memory, ProcessingElement, Scheduler};
use crate::error::Error;
use crate::parameter::{placed_views, Parameter, ParameterView, PlacedTransfer, PlacedTransferView};
use std::sync::Arc;
use vstd::prelude::*;

verus! {

/// One request to a collaborator, with what it is handed.
pub enum Call<M> {
    /// The pool `memory` is asked for `size` bytes.
    Allocate { memory: Arc<M>, size: u64 },
    /// The pool `memory` is asked to take back the region at `address`.
    Free { memory: Arc<M>, address: u64 },
    /// The pool `memory` is handed `data` to write at `address`.
    CopyTo { memory: Arc<M>, data: Seq<u8>, address: u64 },
    /// The pool `memory` is handed a buffer of `len` bytes to fill from
    /// `address`.
    CopyFrom { memory: Arc<M>, address: u64, len: nat },
    /// The processing element is handed a transfer to read back later.
    AddCopyback { transfer: PlacedTransferView<M> },
    /// The processing element is handed `value` for register `index`.
    SetArg { index: usize, value: ParameterView<M> },
    /// The processing element is set running.
    Start,
    /// The processing element is waited for and its copybacks are drained.
    Release,
    /// The scheduler is handed the processing element.
    ReturnPe,
}

/// One request to a collaborator together with its answer.
#[allow(inconsistent_fields)]
pub enum Exchange<M: Memory, P: ProcessingElement<M>, S: Scheduler<P>> {
    Allocate { memory: Arc<M>, size: u64, answer: Result<u64, AllocatorFault<M::AllocatorError>> },
    Free { memory: Arc<M>, address: u64, answer: Result<(), AllocatorFault<M::AllocatorError>> },
    CopyTo { memory: Arc<M>, data: Seq<u8>, address: u64, answer: Result<(), M::DmaError> },
    /// `found` is what the buffer held when the call came back.
    CopyFrom {
        memory: Arc<M>,
        address: u64,
        len: nat,
        found: Seq<u8>,
        answer: Result<(), M::DmaError>,
    },
    AddCopyback { transfer: PlacedTransferView<M> },
    SetArg { index: usize, value: ParameterView<M>, answer: Result<(), P::Error> },
    Start { answer: Result<(), P::Error> },
    /// The answer holds the transfers that the element reported, if it
    /// reported a list.
    Release { answer: Result<Option<Seq<PlacedTransferView<M>>>, P::Error> },
    ReturnPe { answer: Result<(), S::Error> },
}

impl<M: Memory, P: ProcessingElement<M>, S: Scheduler<P>> Exchange<M, P, S> {
    /// What was asked.
    pub open spec fn call(self) -> Call<M> {
        match self {
            Exchange::Allocate { memory, size, .. } => Call::Allocate { memory, size },
            Exchange::Free { memory, address, .. } => Call::Free { memory, address },
            Exchange::CopyTo { memory, data, address, .. } => Call::CopyTo {
                memory,
                data,
                address,
            },
            Exchange::CopyFrom { memory, address, len, .. } => Call::CopyFrom {
                memory,
                address,
                len,
            },
            Exchange::AddCopyback { transfer } => Call::AddCopyback { transfer },
            Exchange::SetArg { index, value, .. } => Call::SetArg { index, value },
            Exchange::Start { .. } => Call::Start,
            Exchange::Release { .. } => Call::Release,
            Exchange::ReturnPe { .. } => Call::ReturnPe,
        }
    }

    /// The error of the job where the answer is a failure, with the cause
    /// that the collaborator gave, and nothing where it is not.
    pub open spec fn failure(self) -> Option<Error<M, P, S>> {
        match self {
            Exchange::Allocate { answer: Err(fault), .. } => Some(Error::of_fault(fault)),
            Exchange::Free { answer: Err(fault), .. } => Some(Error::of_fault(fault)),
            Exchange::CopyTo { answer: Err(cause), .. } => Some(Error::DMAError { source: cause }),
            Exchange::CopyFrom { answer: Err(cause), .. } => Some(
                Error::DMAError { source: cause },
            ),
            Exchange::SetArg { answer: Err(cause), .. } => Some(Error::PEError { source: cause }),
            Exchange::Start { answer: Err(cause) } => Some(Error::PEError { source: cause }),
            Exchange::Release { answer: Err(cause) } => Some(Error::PEError { source: cause }),
            Exchange::ReturnPe { answer: Err(cause) } => Some(
                Error::SchedulerError { source: cause },
            ),
            _ => None,
        }
    }

    /// What a buffer held after it was filled from the device, where this
    /// is such a read.
    pub open spec fn found(self) -> Seq<Seq<u8>> {
        match self {
            Exchange::CopyFrom { found, .. } => seq![found],
            _ => Seq::empty(),
        }
    }
}

/// What was asked in each of `made`, in the same order.
pub open spec fn calls<M: Memory, P: ProcessingElement<M>, S: Scheduler<P>>(
    made: Seq<Exchange<M, P, S>>,
) -> Seq<Call<M>> {
    made.map_values(|x: Exchange<M, P, S>| x.call())
}

/// `Exchange::found` as a value.
pub open spec fn found_step<M: Memory, P: ProcessingElement<M>, S: Scheduler<P>>() -> spec_fn(
    Exchange<M, P, S>,
) -> Seq<Seq<u8>> {
    |x: Exchange<M, P, S>| x.found()
}

/// What the buffers held after each read from the device in `made`, in the
/// order of the reads.
pub open spec fn found_in<M: Memory, P: ProcessingElement<M>, S: Scheduler<P>>(
    made: Seq<Exchange<M, P, S>>,
) -> Seq<Seq<u8>> {
    chain(made, found_step())
}

/// The list of transfers that the processing element reported in the first
/// exchange of `made`, if that is a wait that was answered with a list.
pub open spec fn reported_in<M: Memory, P: ProcessingElement<M>, S: Scheduler<P>>(
    made: Seq<Exchange<M, P, S>>,
) -> Option<Seq<PlacedTransferView<M>>> {
    if made.len() > 0 {
        match made[0] {
            Exchange::Release { answer: Ok(reported) } => reported,
            _ => None,
        }
    } else {
        None
    }
}

/// How often the processing element was handed to the scheduler.
pub open spec fn handed_back<M: Memory, P: ProcessingElement<M>, S: Scheduler<P>>(
    made: Seq<Exchange<M, P, S>>,
) -> nat
    decreases made.len(),
{
    if made.len() == 0 {
        0
    } else {
        handed_back(made.drop_last()) + if made.last() is ReturnPe {
            1nat
        } else {
            0nat
        }
    }
}

/// From `before` to `after`, the calls of `script` were made, all of them
/// and no other, and none of them failed.
pub open spec fn ran<M: Memory, P: ProcessingElement<M>, S: Scheduler<P>>(
    before: Seq<Exchange<M, P, S>>,
    after: Seq<Exchange<M, P, S>>,
    script: Seq<Call<M>>,
) -> bool {
    let made = after.skip(before.len() as int);
    &&& before.is_prefix_of(after)
    &&& calls(made) == script
    &&& forall|k: int| 0 <= k < made.len() ==> (#[trigger] made[k]).failure() is None
}

/// From `before` to `after`, the calls of `script` were made from the
/// first on up to one that failed, and none after it: no call before that
/// one failed, and `e` is its failure.
pub open spec fn broke<M: Memory, P: ProcessingElement<M>, S: Scheduler<P>>(
    before: Seq<Exchange<M, P, S>>,
    after: Seq<Exchange<M, P, S>>,
    script: Seq<Call<M>>,
    e: Error<M, P, S>,
) -> bool {
    let made = after.skip(before.len() as int);
    &&& before.is_prefix_of(after)
    &&& 0 < made.len() <= script.len()
    &&& calls(made) == script.take(made.len() as int)
    &&& forall|k: int| 0 <= k < made.len() - 1 ==> (#[trigger] made[k]).failure() is None
    &&& made.last().failure() == Some(e)
}

/// `ran`, for a record that grew by `made`.
pub proof fn lemma_ran<M: Memory, P: ProcessingElement<M>, S: Scheduler<P>>(
    before: Seq<Exchange<M, P, S>>,
    made: Seq<Exchange<M, P, S>>,
    script: Seq<Call<M>>,
)
    requires
        calls(made) == script,
        forall|k: int| 0 <= k < made.len() ==> (#[trigger] made[k]).failure() is None,
    ensures
        ran(before, before + made, script),
{
    assert((before + made).skip(before.len() as int) =~= made);
    assert((before + made).subrange(0, before.len() as int) =~= before);
}

/// `broke`, for a record that grew by `made`.
pub proof fn lemma_broke<M: Memory, P: ProcessingElement<M>, S: Scheduler<P>>(
    before: Seq<Exchange<M, P, S>>,
    made: Seq<Exchange<M, P, S>>,
    script: Seq<Call<M>>,
    e: Error<M, P, S>,
)
    requires
        0 < made.len() <= script.len(),
        calls(made) == script.take(made.len() as int),
        forall|k: int| 0 <= k < made.len() - 1 ==> (#[trigger] made[k]).failure() is None,
        made.last().failure() == Some(e),
    ensures
        broke(before, before + made, script, e),
{
    assert((before + made).skip(before.len() as int) =~= made);
    assert((before + made).subrange(0, before.len() as int) =~= before);
}

/// One script after another, both run to the end, is the two scripts run
/// to the end as one.
pub proof fn lemma_ran_ran<M: Memory, P: ProcessingElement<M>, S: Scheduler<P>>(
    r0: Seq<Exchange<M, P, S>>,
    r1: Seq<Exchange<M, P, S>>,
    r2: Seq<Exchange<M, P, S>>,
    first: Seq<Call<M>>,
    second: Seq<Call<M>>,
)
    requires
        ran(r0, r1, first),
        ran(r1, r2, second),
    ensures
        ran(r0, r2, first + second),
{
    let m1 = r1.skip(r0.len() as int);
    let m2 = r2.skip(r1.len() as int);
    let m = r2.skip(r0.len() as int);
    assert(r1 =~= r0 + m1);
    assert(r2 =~= r1 + m2);
    assert(m =~= m1 + m2);
    assert(r2.subrange(0, r0.len() as int) =~= r0);
    assert(calls(m) =~= first + second);
    assert forall|k: int| 0 <= k < m.len() implies (#[trigger] m[k]).failure() is None by {
        if k < m1.len() {
            assert(m[k] == m1[k]);
        } else {
            assert(m[k] == m2[k - m1.len()]);
        }
    }
}

/// A script run to the end and then one that broke off is the two as one,
/// broken off.
pub proof fn lemma_ran_broke<M: Memory, P: ProcessingElement<M>, S: Scheduler<P>>(
    r0: Seq<Exchange<M, P, S>>,
    r1: Seq<Exchange<M, P, S>>,
    r2: Seq<Exchange<M, P, S>>,
    first: Seq<Call<M>>,
    second: Seq<Call<M>>,
    e: Error<M, P, S>,
)
    requires
        ran(r0, r1, first),
        broke(r1, r2, second, e),
    ensures
        broke(r0, r2, first + second, e),
{
    let m1 = r1.skip(r0.len() as int);
    let m2 = r2.skip(r1.len() as int);
    let m = r2.skip(r0.len() as int);
    assert(r1 =~= r0 + m1);
    assert(r2 =~= r1 + m2);
    assert(m =~= m1 + m2);
    assert(r2.subrange(0, r0.len() as int) =~= r0);
    assert(calls(m) =~= calls(m1) + calls(m2));
    assert(calls(m1).len() == m1.len());
    assert((first + second).take(m.len() as int) =~= first + second.take(m2.len() as int));
    assert forall|k: int| 0 <= k < m.len() - 1 implies (#[trigger] m[k]).failure() is None by {
        if k < m1.len() {
            assert(m[k] == m1[k]);
        } else {
            assert(m[k] == m2[k - m1.len()]);
        }
    }
    assert(m.last() == m2.last());
}

/// What a record that grew twice grew by is what it grew by the first
/// time and then the second.
pub proof fn lemma_made<M: Memory, P: ProcessingElement<M>, S: Scheduler<P>>(
    r0: Seq<Exchange<M, P, S>>,
    r1: Seq<Exchange<M, P, S>>,
    r2: Seq<Exchange<M, P, S>>,
)
    requires
        r0.is_prefix_of(r1),
        r1.is_prefix_of(r2),
    ensures
        r0.is_prefix_of(r2),
        r2.skip(r0.len() as int) == r1.skip(r0.len() as int) + r2.skip(r1.len() as int),
{
    assert(r1 =~= r0 + r1.skip(r0.len() as int));
    assert(r2 =~= r1 + r2.skip(r1.len() as int));
    assert(r2.subrange(0, r0.len() as int) =~= r0);
    assert(r2.skip(r0.len() as int) =~= r1.skip(r0.len() as int) + r2.skip(r1.len() as int));
}

/// What broke off in a script broke off in the same way in any script
/// that begins with it.
pub proof fn lemma_broke_longer<M: Memory, P: ProcessingElement<M>, S: Scheduler<P>>(
    before: Seq<Exchange<M, P, S>>,
    after: Seq<Exchange<M, P, S>>,
    script: Seq<Call<M>>,
    more: Seq<Call<M>>,
    e: Error<M, P, S>,
)
    requires
        broke(before, after, script, e),
    ensures
        broke(before, after, script + more, e),
{
    let made = after.skip(before.len() as int);
    assert((script + more).take(made.len() as int) =~= script.take(made.len() as int));
}

/// The report of a processing element as a value.
pub open spec fn report<M, E>(answer: Result<Option<Vec<PlacedTransfer<M>>>, E>) -> Result<
    Option<Seq<PlacedTransferView<M>>>,
    E,
> {
    match answer {
        Ok(Some(transfers)) => Ok(Some(placed_views(transfers@))),
        Ok(None) => Ok(None),
        Err(cause) => Err(cause),
    }
}

/// The record of a job. It grows by one exchange with each call that one
/// of its functions makes, and in no other way.
pub struct Record<M: Memory, P: ProcessingElement<M>, S: Scheduler<P>> {
    exchanges: Ghost<Seq<Exchange<M, P, S>>>,
}

impl<M: Memory, P: ProcessingElement<M>, S: Scheduler<P>> View for Record<M, P, S> {
    type V = Seq<Exchange<M, P, S>>;

    closed spec fn view(&self) -> Seq<Exchange<M, P, S>> {
        self.exchanges@
    }
}

impl<M: Memory, P: ProcessingElement<M>, S: Scheduler<P>> Record<M, P, S> {
    /// The record of a job that has asked nothing yet.
    pub(crate) fn new() -> (record: Self)
        ensures
            record@ == Seq::<Exchange<M, P, S>>::empty(),
    {
        Record { exchanges: Ghost(Seq::empty()) }
    }

    /// Asks `memory` for `size` bytes.
    pub(crate) fn allocate(&mut self, memory: &Arc<M>, size: u64) -> (answer: Result<
        u64,
        AllocatorFault<M::AllocatorError>,
    >)
        ensures
            final(self)@ == old(self)@.push(Exchange::Allocate { memory: *memory, size, answer }),
    {
        let answer = memory.allocate(size);
        proof {
            self.exchanges@ = self.exchanges@.push(
                Exchange::Allocate { memory: *memory, size, answer },
            );
        }
        answer
    }

    /// Asks `memory` to take back the region at `address`.
    pub(crate) fn free(&mut self, memory: &Arc<M>, address: u64) -> (answer: Result<
        (),
        AllocatorFault<M::AllocatorError>,
    >)
        ensures
            final(self)@ == old(self)@.push(Exchange::Free { memory: *memory, address, answer }),
    {
        let answer = memory.free(address);
        proof {
            self.exchanges@ = self.exchanges@.push(
                Exchange::Free { memory: *memory, address, answer },
            );
        }
        answer
    }

    /// Hands `data` to `memory` to write at `address`.
    pub(crate) fn copy_to(&mut self, memory: &Arc<M>, data: &[u8], address: u64) -> (answer:
        Result<(), M::DmaError>)
        ensures
            final(self)@ == old(self)@.push(
                Exchange::CopyTo { memory: *memory, data: data@, address, answer },
            ),
    {
        let answer = memory.copy_to(data, address);
        proof {
            self.exchanges@ = self.exchanges@.push(
                Exchange::CopyTo { memory: *memory, data: data@, address, answer },
            );
        }
        answer
    }

    /// Hands `dest` to `memory` to fill from `address`.
    pub(crate) fn copy_from(&mut self, memory: &Arc<M>, address: u64, dest: &mut [u8]) -> (answer:
        Result<(), M::DmaError>)
        ensures
            final(dest)@.len() == old(dest)@.len(),
            final(self)@ == old(self)@.push(
                Exchange::CopyFrom {
                    memory: *memory,
                    address,
                    len: old(dest)@.len(),
                    found: final(dest)@,
                    answer,
                },
            ),
    {
        let ghost len = dest@.len();
        let answer = memory.copy_from(address, dest);
        proof {
            self.exchanges@ = self.exchanges@.push(
                Exchange::CopyFrom { memory: *memory, address, len, found: dest@, answer },
            );
        }
        answer
    }

    /// Hands `transfer` to `pe` to read back later.
    pub(crate) fn add_copyback(&mut self, pe: &mut P, transfer: PlacedTransfer<M>)
        ensures
            final(self)@ == old(self)@.push(Exchange::AddCopyback { transfer: transfer@ }),
    {
        let ghost noted = transfer@;
        pe.add_copyback(transfer);
        proof {
            self.exchanges@ = self.exchanges@.push(Exchange::AddCopyback { transfer: noted });
        }
    }

    /// Hands `value` to `pe` for register `index`.
    pub(crate) fn set_arg(&mut self, pe: &P, index: usize, value: Parameter<M>) -> (answer:
        Result<(), P::Error>)
        ensures
            final(self)@ == old(self)@.push(Exchange::SetArg { index, value: value@, answer }),
    {
        let ghost written = value@;
        let answer = pe.set_arg(index, value);
        proof {
            self.exchanges@ = self.exchanges@.push(
                Exchange::SetArg { index, value: written, answer },
            );
        }
        answer
    }

    /// Sets `pe` running.
    pub(crate) fn start(&mut self, pe: &mut P) -> (answer: Result<(), P::Error>)
        ensures
            final(self)@ == old(self)@.push(Exchange::Start { answer }),
    {
        let answer = pe.start();
        proof {
            self.exchanges@ = self.exchanges@.push(Exchange::Start { answer });
        }
        answer
    }

    /// Waits for `pe` and takes the transfers that it reports.
    pub(crate) fn release(&mut self, pe: &mut P) -> (answer: Result<
        Option<Vec<PlacedTransfer<M>>>,
        P::Error,
    >)
        ensures
            final(self)@ == old(self)@.push(Exchange::Release { answer: report(answer) }),
    {
        let answer = pe.release();
        proof {
            self.exchanges@ = self.exchanges@.push(Exchange::Release { answer: report(answer) });
        }
        answer
    }

    /// Hands `pe` to `scheduler`.
    pub(crate) fn return_pe(&mut self, scheduler: &Arc<S>, pe: P) -> (answer: Result<
        (),
        S::Error,
    >)
        ensures
            final(self)@ == old(self)@.push(Exchange::ReturnPe { answer }),
    {
        let answer = scheduler.release_pe(pe);
        proof {
            self.exchanges@ = self.exchanges@.push(Exchange::ReturnPe { answer });
        }
        answer
    }
}

/// One more exchange is one more handing back if it is one, and none if
/// it is not.
pub proof fn lemma_handed_back_push<M: Memory, P: ProcessingElement<M>, S: Scheduler<P>>(
    made: Seq<Exchange<M, P, S>>,
    x: Exchange<M, P, S>,
)
    ensures
        handed_back(made.push(x)) == handed_back(made) + if x is ReturnPe {
            1nat
        } else {
            0nat
        },
{
    assert(made.push(x).drop_last() =~= made);
}

} // verus!
