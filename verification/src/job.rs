//! A job: one invocation on an acquired processing element.

use crate::chain::{lemma_chain_concat, lemma_chain_prefix, lemma_chain_push, lemma_chain_step};
use crate::collaborators::{Memory, ProcessingElement, Scheduler};
use crate::error::Error;
use crate::parameter::{
    buffers, forwarded, forwarding_step, placed_views, placement, views, Parameter,
    PlacedTransfer,
};
use crate::record::{
    broke, calls, found_in, found_step, handed_back, lemma_broke, lemma_broke_longer,
    lemma_handed_back_push, lemma_made, lemma_ran, lemma_ran_broke, lemma_ran_ran, ran, report,
    reported_in,
    Call, Exchange, Record,
};
use crate::script::{
    allocation_calls, allocation_of, allocation_step, bindable_len, binding_calls, bindings,
    copyback_calls, copyback_of, copyback_step, lemma_bindable_len, lemma_forwarded_bindable,
    lemma_placed_from_longer, lemma_placed_from_places, placed_from, release_calls,
    request_index, start_calls, transfer_calls, transfer_of, transfer_step,
};
use std::sync::Arc;
use vstd::prelude::*;

verus! {

/// One invocation on a processing element, from the binding of its
/// arguments to the return of the element to the scheduler.
pub struct Job<M: Memory, P: ProcessingElement<M>, S: Scheduler<P>> {
    pe: Option<P>,
    scheduler: Arc<S>,
    record: Record<M, P, S>,
}

/// `Arc::clone`: another handle to the value that `handle` points to.
#[verifier::external_body]
fn share<T>(handle: &Arc<T>) -> (shared: Arc<T>)
    ensures
        shared == *handle,
{
    handle.clone()
}

impl<M: Memory, P: ProcessingElement<M>, S: Scheduler<P>> Job<M, P, S> {
    /// The processing element that the job holds, if it still holds one.
    pub closed spec fn pe(&self) -> Option<P> {
        self.pe
    }

    /// The scheduler that is to get the processing element back.
    pub closed spec fn scheduler(&self) -> Arc<S> {
        self.scheduler
    }

    /// Every exchange of the job with its collaborators, oldest first.
    pub closed spec fn record(&self) -> Seq<Exchange<M, P, S>> {
        self.record@
    }

    /// The exchanges that the job has had since `earlier`.
    pub open spec fn made_since(&self, earlier: &Self) -> Seq<Exchange<M, P, S>> {
        self.record().skip(earlier.record().len() as int)
    }

    /// What holds of every job: it has handed its processing element to
    /// the scheduler once if it holds none, and never if it holds one.
    pub open spec fn wf(&self) -> bool {
        handed_back(self.record()) == if self.pe() is Some {
            0nat
        } else {
            1nat
        }
    }

    /// Since `earlier`, the job has made exactly the calls of `script`,
    /// and none of them failed.
    pub open spec fn went_through(&self, earlier: &Self, script: Seq<Call<M>>) -> bool {
        ran(earlier.record(), self.record(), script)
    }

    /// Since `earlier`, the job has made the calls of `script` up to one
    /// that failed, and none after it; `e` is the failure of that call.
    pub open spec fn broke_off(
        &self,
        earlier: &Self,
        script: Seq<Call<M>>,
        e: Error<M, P, S>,
    ) -> bool {
        broke(earlier.record(), self.record(), script, e)
    }

    /// A job that holds `pe` and shares `scheduler`, with nothing asked of
    /// anyone yet.
    pub fn new(pe: P, scheduler: &Arc<S>) -> (job: Self)
        ensures
            job.pe() == Some(pe),
            job.scheduler() == *scheduler,
            job.record() == Seq::<Exchange<M, P, S>>::empty(),
            job.wf(),
    {
        Job { pe: Some(pe), scheduler: share(scheduler), record: Record::new() }
    }

    /// Whether the job still holds its processing element.
    pub fn holds_pe(&self) -> (held: bool)
        ensures
            held == self.pe() is Some,
    {
        self.pe.is_some()
    }

    /// Reserves device memory for every unplaced transfer among `args`:
    /// each is asked for in turn, and the first request that fails ends
    /// the stage with its failure.
    pub fn handle_allocates(&mut self, args: Vec<Parameter<M>>) -> (r: Result<
        Vec<Parameter<M>>,
        Error<M, P, S>,
    >)
        ensures
            final(self).pe() == old(self).pe(),
            final(self).scheduler() == old(self).scheduler(),
            old(self).wf() ==> final(self).wf(),
            match r {
                Ok(placed) => {
                    &&& final(self).went_through(old(self), allocation_calls(views(args@)))
                    &&& views(placed@) == placed_from(
                        views(args@),
                        final(self).made_since(old(self)),
                    )
                    &&& placement(views(args@), views(placed@))
                },
                Err(e) => {
                    &&& final(self).broke_off(old(self), allocation_calls(views(args@)), e)
                    &&& e is MutexError || e is AllocatorError
                },
            },
            (forall|i: int|
                0 <= i < args@.len() ==> !((#[trigger] views(args@)[i]) is UnplacedTransfer))
                ==> r is Ok,
    {
        let ghost input = views(args@);
        let ghost before = self.record@;
        let ghost mut made: Seq<Exchange<M, P, S>> = Seq::empty();
        let mut placed: Vec<Parameter<M>> = Vec::new();
        proof {
            assert(self.record@ =~= before + made);
            assert(input.take(0) =~= Seq::empty());
            assert(calls(made) =~= allocation_calls(input.take(0)));
        }
        for arg in it: args
            invariant
                it.seq() == args@,
                input == views(args@),
                before == old(self).record(),
                self.record@ == before + made,
                handed_back(self.record@) == handed_back(before),
                self.pe == old(self).pe,
                self.scheduler == old(self).scheduler,
                placed@.len() == it.index(),
                calls(made) == allocation_calls(input.take(it.index())),
                forall|k: int| 0 <= k < made.len() ==> (#[trigger] made[k]).failure() is None,
                forall|j: int|
                    0 <= j < it.index() ==> #[trigger] views(placed@)[j] == placed_from(
                        input,
                        made,
                    )[j],
                forall|j: int|
                    0 <= j < it.index() && (#[trigger] input[j]) is UnplacedTransfer
                        ==> request_index(input, j) < made.len(),
        {
            let ghost i = it.index();
            let ghost old_made = made;
            let ghost old_views = views(placed@);
            proof {
                lemma_chain_step(input, i, allocation_step());
                assert(input[i] == arg@);
                assert(allocation_step::<M>()(input[i]) == allocation_of(input[i]));
                assert(request_index(input, i) == old_made.len());
            }
            match arg {
                Parameter::UnplacedTransfer(t) => {
                    let size = t.data.len() as u64;
                    let answer = self.record.allocate(&t.memory, size);
                    proof {
                        let x = Exchange::Allocate { memory: t.memory, size, answer };
                        lemma_handed_back_push(before + old_made, x);
                        made = old_made.push(x);
                        assert(self.record@ =~= before + made);
                        assert(calls(made) =~= calls(old_made).push(x.call()));
                        assert(calls(made) =~= allocation_calls(input.take(i + 1)));
                    }
                    match answer {
                        Ok(address) => {
                            placed.push(Parameter::PlacedTransfer(t.place(address)));
                            proof {
                                assert forall|j: int| 0 <= j < i + 1 implies #[trigger] views(
                                    placed@,
                                )[j] == placed_from(input, made)[j] by {
                                    if j < i {
                                        assert(old_views[j] == placed_from(input, old_made)[j]);
                                        if input[j] is UnplacedTransfer {
                                            assert(made[request_index(input, j)]
                                                == old_made[request_index(input, j)]);
                                        }
                                    }
                                }
                            }
                        },
                        Err(fault) => {
                            let e = Error::from_allocator_fault(fault);
                            proof {
                                assert(views(args@)[i] is UnplacedTransfer);
                                lemma_chain_prefix(input, i + 1, allocation_step());
                                lemma_broke(before, made, allocation_calls(input), e);
                            }
                            return Err(e);
                        },
                    }
                },
                other => {
                    placed.push(other);
                    proof {
                        assert(allocation_of(input[i]) =~= Seq::empty());
                        assert(calls(made) =~= allocation_calls(input.take(i + 1)));
                        assert forall|j: int| 0 <= j < i + 1 implies #[trigger] views(placed@)[j]
                            == placed_from(input, made)[j] by {
                            if j < i {
                                assert(old_views[j] == placed_from(input, old_made)[j]);
                            }
                        }
                    }
                },
            }
        }
        proof {
            assert(input.take(input.len() as int) =~= input);
            lemma_ran(before, made, allocation_calls(input));
            assert((before + made).skip(before.len() as int) =~= made);
            assert(views(placed@) =~= placed_from(input, made));
            lemma_placed_from_places(input, made);
        }
        Ok(placed)
    }

    /// Writes every placed transfer that goes to the device into device
    /// memory, notes with the processing element every one that is to be
    /// read back, and gives what is left for the registers. The first
    /// write that fails ends the stage with its failure.
    pub fn handle_transfers_to_device(&mut self, args: Vec<Parameter<M>>) -> (r: Result<
        Vec<Parameter<M>>,
        Error<M, P, S>,
    >)
        requires
            old(self).pe() is Some || forall|i: int|
                0 <= i < args@.len() ==> !(#[trigger] views(args@)[i]).read_back(),
        ensures
            final(self).pe() is Some <==> old(self).pe() is Some,
            final(self).scheduler() == old(self).scheduler(),
            old(self).wf() ==> final(self).wf(),
            match r {
                Ok(bound) => {
                    &&& views(bound@) == forwarded(views(args@))
                    &&& final(self).went_through(old(self), transfer_calls(views(args@)))
                },
                Err(e) => {
                    &&& final(self).broke_off(old(self), transfer_calls(views(args@)), e)
                    &&& e is DMAError
                },
            },
            (forall|i: int| 0 <= i < args@.len() ==> !(#[trigger] views(args@)[i]).written())
                ==> r is Ok,
    {
        let ghost input = views(args@);
        let ghost before = self.record@;
        let ghost mut made: Seq<Exchange<M, P, S>> = Seq::empty();
        let mut bound: Vec<Parameter<M>> = Vec::new();
        proof {
            assert(self.record@ =~= before + made);
            assert(input.take(0) =~= Seq::empty());
            assert(calls(made) =~= transfer_calls(input.take(0)));
        }
        for arg in it: args
            invariant
                it.seq() == args@,
                input == views(args@),
                before == old(self).record(),
                self.record@ == before + made,
                handed_back(self.record@) == handed_back(before),
                self.pe is Some <==> old(self).pe is Some,
                self.pe is Some || forall|j: int|
                    0 <= j < input.len() ==> !(#[trigger] input[j]).read_back(),
                self.scheduler == old(self).scheduler,
                views(bound@) == forwarded(input.take(it.index())),
                calls(made) == transfer_calls(input.take(it.index())),
                forall|k: int| 0 <= k < made.len() ==> (#[trigger] made[k]).failure() is None,
        {
            let ghost i = it.index();
            let ghost old_made = made;
            proof {
                lemma_chain_step(input, i, transfer_step());
                lemma_chain_step(input, i, forwarding_step());
                assert(input[i] == arg@);
                assert(transfer_step::<M>()(input[i]) == transfer_of(input[i]));
                assert(forwarding_step::<M>()(input[i]) == input[i].forwarded());
            }
            match arg {
                Parameter::PlacedTransfer(t) => {
                    if t.to_device {
                        let answer = self.record.copy_to(
                            &t.memory,
                            t.data.as_slice(),
                            t.device_address,
                        );
                        proof {
                            let x = Exchange::CopyTo {
                                memory: t.memory,
                                data: t.data@,
                                address: t.device_address,
                                answer,
                            };
                            lemma_handed_back_push(before + made, x);
                            made = made.push(x);
                            assert(self.record@ =~= before + made);
                            assert(calls(made) =~= calls(old_made).push(x.call()));
                        }
                        match answer {
                            Ok(()) => {},
                            Err(cause) => {
                                let e = Error::DMAError { source: cause };
                                proof {
                                    assert(views(args@)[i].written());
                                    let script = transfer_calls(input);
                                    lemma_chain_prefix(input, i + 1, transfer_step());
                                    assert(script.take(made.len() as int) =~= calls(made));
                                    lemma_broke(before, made, script, e);
                                }
                                return Err(e);
                            },
                        }
                        bound.push(Parameter::DeviceAddress(t.device_address));
                    }
                    if t.from_device {
                        let ghost x = Exchange::<M, P, S>::AddCopyback { transfer: t@ };
                        let ghost earlier = made;
                        self.record.add_copyback(self.pe.as_mut().unwrap(), t);
                        proof {
                            lemma_handed_back_push(before + made, x);
                            made = made.push(x);
                            assert(self.record@ =~= before + made);
                            assert(calls(made) =~= calls(earlier).push(x.call()));
                        }
                    }
                    assert(calls(made) =~= calls(old_made) + transfer_of(input[i]));
                },
                other => {
                    bound.push(other);
                    assert(transfer_of(input[i]) =~= Seq::empty());
                },
            }
            assert(views(bound@) =~= forwarded(input.take(i + 1)));
            assert(calls(made) =~= transfer_calls(input.take(i + 1)));
        }
        proof {
            assert(input.take(input.len() as int) =~= input);
            lemma_ran(before, made, transfer_calls(input));
        }
        Ok(bound)
    }

    /// Writes `values` to the registers of the processing element, each to
    /// the register of its position, and stops at the first that no
    /// register takes, or at the first write that fails.
    pub fn set_arguments(&mut self, values: Vec<Parameter<M>>) -> (r: Result<(), Error<M, P, S>>)
        requires
            old(self).pe() is Some || bindable_len(views(values@)) == 0,
        ensures
            final(self).pe() == old(self).pe(),
            final(self).scheduler() == old(self).scheduler(),
            old(self).wf() ==> final(self).wf(),
            match r {
                Ok(()) => {
                    &&& bindable_len(views(values@)) == values@.len()
                    &&& final(self).went_through(old(self), binding_calls(views(values@)))
                },
                Err(e) => {
                    ||| {
                        &&& final(self).broke_off(old(self), binding_calls(views(values@)), e)
                        &&& e is PEError
                    }
                    ||| {
                        &&& final(self).went_through(old(self), binding_calls(views(values@)))
                        &&& bindable_len(views(values@)) < values@.len()
                        &&& e matches Error::UnsupportedRegisterParameter { arg }
                            && arg@ == views(values@)[bindable_len(views(values@)) as int]
                    }
                },
            },
            values@.len() == 0 ==> r is Ok,
    {
        let ghost input = views(values@);
        let ghost before = self.record@;
        let ghost mut made: Seq<Exchange<M, P, S>> = Seq::empty();
        let mut index: usize = 0;
        proof {
            assert(input.len() == values.len());
            assert(self.record@ =~= before + made);
            assert(calls(made) =~= bindings(input, 0));
        }
        for arg in it: values
            invariant
                it.seq() == values@,
                input == views(values@),
                before == old(self).record(),
                self.record@ == before + made,
                handed_back(self.record@) == handed_back(before),
                self.pe == old(self).pe,
                self.pe is Some || bindable_len(input) == 0,
                self.scheduler == old(self).scheduler,
                index == it.index(),
                input.len() <= usize::MAX,
                forall|j: int|
                    0 <= j < it.index() ==> (#[trigger] input[j]).register_value() is Some,
                calls(made) == bindings(input, it.index() as nat),
                forall|k: int| 0 <= k < made.len() ==> (#[trigger] made[k]).failure() is None,
        {
            let ghost i = it.index();
            let ghost old_made = made;
            proof {
                assert(input[i] == arg@);
                lemma_bindable_len(input, i);
            }
            match arg.into_register_value() {
                Ok(value) => {
                    proof {
                        lemma_bindable_len(input, i + 1);
                    }
                    let ghost written = value@;
                    let answer = self.record.set_arg(self.pe.as_ref().unwrap(), index, value);
                    proof {
                        let x = Exchange::SetArg { index, value: written, answer };
                        lemma_handed_back_push(before + made, x);
                        made = made.push(x);
                        assert(self.record@ =~= before + made);
                        assert(calls(made) =~= calls(old_made).push(x.call()));
                        assert(calls(made) =~= bindings(input, (i + 1) as nat));
                    }
                    match answer {
                        Ok(()) => {},
                        Err(cause) => {
                            let e = Error::PEError { source: cause };
                            proof {
                                let script = binding_calls(input);
                                assert(script.take(i + 1) =~= bindings(input, (i + 1) as nat));
                                lemma_broke(before, made, script, e);
                            }
                            return Err(e);
                        },
                    }
                },
                Err(arg) => {
                    proof {
                        assert(binding_calls(input) =~= bindings(input, i as nat));
                        lemma_ran(before, made, binding_calls(input));
                    }
                    return Err(Error::UnsupportedRegisterParameter { arg });
                },
            }
            index = index + 1;
        }
        proof {
            lemma_bindable_len(input, input.len() as int);
            lemma_ran(before, made, binding_calls(input));
        }
        Ok(())
    }

    /// Runs the arguments through allocation and transfer, binds what is
    /// left to the registers and sets the processing element running. The
    /// first failure ends it: nothing that was done is undone.
    pub fn start(&mut self, args: Vec<Parameter<M>>) -> (r: Result<(), Error<M, P, S>>)
        requires
            old(self).pe() is Some,
        ensures
            final(self).pe() is Some,
            final(self).scheduler() == old(self).scheduler(),
            old(self).wf() ==> final(self).wf(),
            ({
                let placed = placed_from(views(args@), final(self).made_since(old(self)));
                match r {
                    Ok(()) => final(self).went_through(
                        old(self),
                        start_calls(views(args@), placed),
                    ),
                    Err(e) => final(self).broke_off(
                        old(self),
                        start_calls(views(args@), placed),
                        e,
                    ),
                }
            }),
            r matches Err(e) ==> e is MutexError || e is AllocatorError || e is DMAError
                || e is PEError,
    {
        let ghost input = views(args@);
        let ghost r0 = self.record@;
        let ghost a = allocation_calls(input);
        let ghost go = seq![Call::<M>::Start];
        let placed = match self.handle_allocates(args) {
            Ok(placed) => placed,
            Err(e) => {
                proof {
                    let pl = placed_from(input, self.record@.skip(r0.len() as int));
                    let rest = transfer_calls(pl) + binding_calls(forwarded(pl)) + go;
                    lemma_broke_longer(r0, self.record@, a, rest, e);
                    assert(start_calls(input, pl) =~= a + rest);
                }
                return Err(e);
            },
        };
        let ghost r1 = self.record@;
        let ghost pv = views(placed@);
        let ghost t = transfer_calls(pv);
        let ghost b = binding_calls(forwarded(pv));
        let ghost script = start_calls(input, pv);
        let bound = match self.handle_transfers_to_device(placed) {
            Ok(bound) => bound,
            Err(e) => {
                proof {
                    let r2 = self.record@;
                    lemma_placed_from_longer(input, r0, r1, r2);
                    lemma_broke_longer(r1, r2, t, b + go, e);
                    lemma_ran_broke(r0, r1, r2, a, t + (b + go), e);
                    assert(script =~= a + (t + (b + go)));
                }
                return Err(e);
            },
        };
        let ghost r2 = self.record@;
        proof {
            assert forall|i: int| 0 <= i < pv.len() implies !((#[trigger] pv[i])
                is UnplacedTransfer) by {
                assert(input[i].placed_as(pv[i]));
            }
            lemma_forwarded_bindable(pv);
        }
        match self.set_arguments(bound) {
            Ok(()) => {},
            Err(e) => {
                proof {
                    let r3 = self.record@;
                    lemma_broke_longer(r2, r3, b, go, e);
                    lemma_ran_broke(r1, r2, r3, t, b + go, e);
                    lemma_placed_from_longer(input, r0, r1, r3);
                    lemma_ran_broke(r0, r1, r3, a, t + (b + go), e);
                    assert(script =~= a + (t + (b + go)));
                }
                return Err(e);
            },
        }
        let ghost r3 = self.record@;
        let answer = self.record.start(self.pe.as_mut().unwrap());
        let ghost r4 = self.record@;
        proof {
            let x = Exchange::<M, P, S>::Start { answer };
            let last = seq![x];
            lemma_handed_back_push(r3, x);
            assert(r4 =~= r3 + last);
            assert(calls(last) =~= go);
            assert(script =~= a + (t + (b + go)));
            if answer is Ok {
                lemma_ran(r3, last, go);
                lemma_ran_ran(r2, r3, r4, b, go);
                lemma_ran_ran(r1, r2, r4, t, b + go);
                lemma_placed_from_longer(input, r0, r1, r4);
                lemma_ran_ran(r0, r1, r4, a, t + (b + go));
            } else {
                let e = Error::<M, P, S>::PEError { source: answer->Err_0 };
                assert(go.take(1) =~= go);
                lemma_broke(r3, last, go, e);
                lemma_ran_broke(r2, r3, r4, b, go, e);
                lemma_ran_broke(r1, r2, r4, t, b + go, e);
                lemma_placed_from_longer(input, r0, r1, r4);
                lemma_ran_broke(r0, r1, r4, a, t + (b + go), e);
            }
        }
        match answer {
            Ok(()) => Ok(()),
            Err(cause) => Err(Error::PEError { source: cause }),
        }
    }

    /// Waits for the processing element, gives it back to the scheduler if
    /// `release_pe` is set, and recovers the data of the transfers that the
    /// element reports, freeing the memory of those that ask for it. A job
    /// that holds no processing element has nothing to release.
    ///
    /// The result is `None` where the element reports no list of transfers,
    /// and a buffer for each transfer of the list, in its order, where it
    /// reports one, be the list empty or not.
    pub fn release(&mut self, release_pe: bool) -> (r: Result<
        Option<Vec<Vec<u8>>>,
        Error<M, P, S>,
    >)
        ensures
            final(self).scheduler() == old(self).scheduler(),
            old(self).wf() ==> final(self).wf(),
            final(self).pe() is Some <==> old(self).pe() is Some && (!release_pe || (r is Err
                && r->Err_0 is PEError)),
            old(self).pe() is None ==> r == Ok::<Option<Vec<Vec<u8>>>, Error<M, P, S>>(None)
                && final(self).record() == old(self).record(),
            old(self).pe() is Some ==> ({
                let made = final(self).made_since(old(self));
                let reported = reported_in(made);
                let script = release_calls(release_pe, reported);
                match r {
                    Ok(recovered) => {
                        &&& final(self).went_through(old(self), script)
                        &&& recovered is Some <==> reported is Some
                        &&& recovered matches Some(list) ==> {
                            &&& list@.len() == reported->0.len()
                            &&& buffers(list@) == found_in(made)
                            &&& forall|j: int|
                                0 <= j < list@.len() ==> (#[trigger] list@[j])@.len()
                                    == reported->0[j].data.len()
                        }
                    },
                    Err(e) => final(self).broke_off(old(self), script, e),
                }
            }),
            r matches Err(e) ==> e is PEError || (e is SchedulerError && release_pe)
                || e is DMAError || e is MutexError || e is AllocatorError,
    {
        if self.pe.is_none() {
            return Ok(None);
        }
        let ghost r0 = self.record@;
        let answer = self.record.release(self.pe.as_mut().unwrap());
        let ghost x0 = Exchange::<M, P, S>::Release { answer: report(answer) };
        let ghost mut head = seq![x0];
        proof {
            lemma_handed_back_push(r0, x0);
            assert(self.record@ =~= r0 + head);
            assert((r0 + head).skip(r0.len() as int) =~= head);
        }
        let copyback = match answer {
            Ok(copyback) => copyback,
            Err(cause) => {
                let e = Error::PEError { source: cause };
                proof {
                    let script = release_calls::<M>(release_pe, None);
                    assert(script.take(1) =~= calls(head));
                    lemma_broke(r0, head, script, e);
                }
                return Err(e);
            },
        };
        let ghost reported = reported_in(head);
        let ghost script = release_calls(release_pe, reported);
        if release_pe {
            let pe = self.pe.take().unwrap();
            let ghost r1 = self.record@;
            let answer = self.record.return_pe(&self.scheduler, pe);
            proof {
                let x1 = Exchange::<M, P, S>::ReturnPe { answer };
                lemma_handed_back_push(r1, x1);
                head = head.push(x1);
                assert(self.record@ =~= r0 + head);
                assert((r0 + head).skip(r0.len() as int) =~= head);
            }
            match answer {
                Ok(()) => {},
                Err(cause) => {
                    let e = Error::SchedulerError { source: cause };
                    proof {
                        assert(script.take(2) =~= calls(head));
                        lemma_broke(r0, head, script, e);
                    }
                    return Err(e);
                },
            }
        }
        let ghost r2 = self.record@;
        let ghost first = calls(head);
        proof {
            lemma_ran(r0, head, first);
            lemma_chain_push(Seq::empty(), head[0], found_step::<M, P, S>());
            assert(Seq::<Exchange<M, P, S>>::empty().push(head[0]) =~= head.take(1));
            if release_pe {
                lemma_chain_push(head.take(1), head[1], found_step::<M, P, S>());
                assert(head.take(1).push(head[1]) =~= head);
            } else {
                assert(head.take(1) =~= head);
            }
            assert(found_in(head) =~= Seq::<Seq<u8>>::empty());
        }
        match copyback {
            Some(transfers) => {
                let ghost recover = copyback_calls(placed_views(transfers@));
                proof {
                    assert(script =~= first + recover);
                }
                match self.handle_copybacks(transfers) {
                    Ok(recovered) => {
                        proof {
                            let r3 = self.record@;
                            let tail = r3.skip(r2.len() as int);
                            lemma_ran_ran(r0, r2, r3, first, recover);
                            lemma_made(r0, r2, r3);
                            lemma_chain_concat(head, tail, found_step::<M, P, S>());
                            assert(found_in(head + tail) =~= found_in(tail));
                            assert((head + tail)[0] == head[0]);
                        }
                        Ok(Some(recovered))
                    },
                    Err(e) => {
                        proof {
                            let r3 = self.record@;
                            let tail = r3.skip(r2.len() as int);
                            lemma_ran_broke(r0, r2, r3, first, recover, e);
                            lemma_made(r0, r2, r3);
                            assert((head + tail)[0] == head[0]);
                        }
                        Err(e)
                    },
                }
            },
            None => {
                proof {
                    assert(script =~= first);
                }
                Ok(None)
            },
        }
    }

    /// Fills the buffer of each of `transfers` from the device, in their
    /// order, and frees the memory of each that asks for it once its
    /// buffer is filled. Gives the buffers as the reads left them, one for
    /// each transfer. The first call that fails ends it with its failure.
    pub fn handle_copybacks(&mut self, transfers: Vec<PlacedTransfer<M>>) -> (r: Result<
        Vec<Vec<u8>>,
        Error<M, P, S>,
    >)
        ensures
            final(self).pe() == old(self).pe(),
            final(self).scheduler() == old(self).scheduler(),
            old(self).wf() ==> final(self).wf(),
            match r {
                Ok(recovered) => {
                    &&& final(self).went_through(
                        old(self),
                        copyback_calls(placed_views(transfers@)),
                    )
                    &&& recovered@.len() == transfers@.len()
                    &&& buffers(recovered@) == found_in(final(self).made_since(old(self)))
                    &&& forall|j: int|
                        0 <= j < recovered@.len() ==> (#[trigger] recovered@[j])@.len()
                            == transfers@[j].data@.len()
                },
                Err(e) => {
                    &&& final(self).broke_off(
                        old(self),
                        copyback_calls(placed_views(transfers@)),
                        e,
                    )
                    &&& e is DMAError || e is MutexError || e is AllocatorError
                },
            },
            transfers@.len() == 0 ==> r is Ok,
    {
        let ghost input = placed_views(transfers@);
        let ghost before = self.record@;
        let ghost script = copyback_calls(input);
        let ghost mut made: Seq<Exchange<M, P, S>> = Seq::empty();
        let mut recovered: Vec<Vec<u8>> = Vec::new();
        proof {
            assert(self.record@ =~= before + made);
            assert(input.take(0) =~= Seq::empty());
            assert(calls(made) =~= copyback_calls(input.take(0)));
            assert(buffers(recovered@) =~= found_in(made));
        }
        for transfer in it: transfers
            invariant
                it.seq() == transfers@,
                input == placed_views(transfers@),
                script == copyback_calls(input),
                before == old(self).record(),
                self.record@ == before + made,
                handed_back(self.record@) == handed_back(before),
                self.pe == old(self).pe,
                self.scheduler == old(self).scheduler,
                recovered@.len() == it.index(),
                calls(made) == copyback_calls(input.take(it.index())),
                forall|k: int| 0 <= k < made.len() ==> (#[trigger] made[k]).failure() is None,
                buffers(recovered@) == found_in(made),
                forall|j: int|
                    0 <= j < it.index() ==> (#[trigger] recovered@[j])@.len()
                        == transfers@[j].data@.len(),
        {
            let ghost i = it.index();
            let ghost old_made = made;
            let mut transfer = transfer;
            proof {
                assert(input[i] == transfer@);
                lemma_chain_step(input, i, copyback_step());
                lemma_chain_prefix(input, i + 1, copyback_step());
                assert(copyback_step::<M>()(input[i]) == copyback_of(input[i]));
            }
            let ghost len = transfer.data@.len();
            let answer = self.record.copy_from(
                &transfer.memory,
                transfer.device_address,
                transfer.data.as_mut_slice(),
            );
            proof {
                let x = Exchange::CopyFrom {
                    memory: transfer.memory,
                    address: transfer.device_address,
                    len,
                    found: transfer.data@,
                    answer,
                };
                lemma_handed_back_push(before + made, x);
                lemma_chain_push(made, x, found_step::<M, P, S>());
                made = made.push(x);
                assert(self.record@ =~= before + made);
                assert(calls(made) =~= calls(old_made).push(x.call()));
            }
            match answer {
                Ok(()) => {},
                Err(cause) => {
                    let e = Error::DMAError { source: cause };
                    proof {
                        assert(script.take(made.len() as int) =~= calls(made));
                        lemma_broke(before, made, script, e);
                    }
                    return Err(e);
                },
            }
            if transfer.free_after {
                let ghost earlier = made;
                let answer = self.record.free(&transfer.memory, transfer.device_address);
                proof {
                    let x = Exchange::Free {
                        memory: transfer.memory,
                        address: transfer.device_address,
                        answer,
                    };
                    lemma_handed_back_push(before + made, x);
                    lemma_chain_push(made, x, found_step::<M, P, S>());
                    made = made.push(x);
                    assert(self.record@ =~= before + made);
                    assert(calls(made) =~= calls(earlier).push(x.call()));
                }
                match answer {
                    Ok(()) => {},
                    Err(fault) => {
                        let e = Error::from_allocator_fault(fault);
                        proof {
                            assert(script.take(made.len() as int) =~= calls(made));
                            lemma_broke(before, made, script, e);
                        }
                        return Err(e);
                    },
                }
            }
            let ghost found = transfer.data@;
            let ghost old_buffers = buffers(recovered@);
            recovered.push(transfer.data);
            proof {
                assert(calls(made) =~= copyback_calls(input.take(i + 1)));
                assert(buffers(recovered@) =~= old_buffers.push(found));
                assert(found_in(made) =~= found_in(old_made) + seq![found]);
            }
        }
        proof {
            assert(input.take(input.len() as int) =~= input);
            lemma_ran(before, made, script);
            assert((before + made).skip(before.len() as int) =~= made);
        }
        Ok(recovered)
    }
}

} // verus!
