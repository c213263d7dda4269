//! What each stage is to ask of the collaborators, as a function of what
//! it is given.

use crate::chain::{chain, lemma_chain_all, lemma_chain_prefix, lemma_chain_step};
use crate::collaborators::{Memory, ProcessingElement, Scheduler};
use crate::parameter::{forwarded, forwarding_step, ParameterView, PlacedTransferView};
use crate::record::{calls, ran, Call, Exchange};
use vstd::prelude::*;

verus! {

/// The allocator call that one parameter needs, if any.
pub open spec fn allocation_of<M>(parameter: ParameterView<M>) -> Seq<Call<M>> {
    match parameter {
        ParameterView::UnplacedTransfer(t) => seq![
            Call::Allocate { memory: t.memory, size: t.data.len() as u64 },
        ],
        _ => Seq::empty(),
    }
}

/// `allocation_of` as a value.
pub open spec fn allocation_step<M>() -> spec_fn(ParameterView<M>) -> Seq<Call<M>> {
    |parameter: ParameterView<M>| allocation_of(parameter)
}

/// The script of the allocation stage: one request per unplaced transfer,
/// sized to its data, in the order of the arguments.
pub open spec fn allocation_calls<M>(arguments: Seq<ParameterView<M>>) -> Seq<Call<M>> {
    chain(arguments, allocation_step())
}

/// The calls that the transfer stage makes for one parameter: a placed
/// transfer is written to the device if it goes there, and then handed to
/// the processing element if it is to be read back.
pub open spec fn transfer_of<M>(parameter: ParameterView<M>) -> Seq<Call<M>> {
    match parameter {
        ParameterView::PlacedTransfer(t) => {
            let write = if t.to_device {
                seq![Call::CopyTo { memory: t.memory, data: t.data, address: t.device_address }]
            } else {
                Seq::empty()
            };
            let note = if t.from_device {
                seq![Call::AddCopyback { transfer: t }]
            } else {
                Seq::empty()
            };
            write + note
        },
        _ => Seq::empty(),
    }
}

/// `transfer_of` as a value.
pub open spec fn transfer_step<M>() -> spec_fn(ParameterView<M>) -> Seq<Call<M>> {
    |parameter: ParameterView<M>| transfer_of(parameter)
}

/// The script of the transfer stage, in the order of the arguments.
pub open spec fn transfer_calls<M>(arguments: Seq<ParameterView<M>>) -> Seq<Call<M>> {
    chain(arguments, transfer_step())
}

/// How many of `values`, from the first on, can be written to a register.
pub open spec fn bindable_len<M>(values: Seq<ParameterView<M>>) -> nat
    decreases values.len(),
{
    if values.len() == 0 || values.first().register_value() is None {
        0
    } else {
        1 + bindable_len(values.drop_first())
    }
}

/// The register writes for the first `n` of `values`: each goes to the
/// register of its position.
pub open spec fn bindings<M>(values: Seq<ParameterView<M>>, n: nat) -> Seq<Call<M>> {
    Seq::new(
        n,
        |i: int| Call::SetArg { index: i as usize, value: values[i].register_value()->0 },
    )
}

/// The script of register binding: the values are written in order, up to
/// the first that no register takes.
pub open spec fn binding_calls<M>(values: Seq<ParameterView<M>>) -> Seq<Call<M>> {
    bindings(values, bindable_len(values))
}

/// Where the first `k` values can be bound, `bindable_len` is at least
/// `k`, and it is `k` where the value after them cannot be bound: binding
/// stops at the first transfer, and nowhere before it.
pub proof fn lemma_bindable_len<M>(values: Seq<ParameterView<M>>, k: int)
    requires
        0 <= k <= values.len(),
        forall|j: int| 0 <= j < k ==> (#[trigger] values[j]).register_value() is Some,
    ensures
        k <= bindable_len(values) <= values.len(),
        k < values.len() && values[k].register_value() is None ==> bindable_len(values) == k,
    decreases values.len(),
{
    if values.len() > 0 && values.first().register_value() is Some {
        let rest = values.drop_first();
        if k > 0 {
            assert forall|j: int| 0 <= j < k - 1 implies (#[trigger] rest[j]).register_value()
                is Some by {
                assert(rest[j] == values[j + 1]);
            }
            lemma_bindable_len(rest, k - 1);
        } else {
            lemma_bindable_len(rest, 0);
        }
    }
}

/// Whether a value is one that a register takes.
pub open spec fn bindable<M>() -> spec_fn(ParameterView<M>) -> bool {
    |value: ParameterView<M>| value.register_value() is Some
}

/// What the transfer stage hands on holds no transfer, as long as no
/// unplaced transfer reaches that stage: every value of it can be bound.
pub proof fn lemma_forwarded_bindable<M>(placed: Seq<ParameterView<M>>)
    requires
        forall|i: int| 0 <= i < placed.len() ==> !((#[trigger] placed[i]) is UnplacedTransfer),
    ensures
        bindable_len(forwarded(placed)) == forwarded(placed).len(),
{
    assert forall|i: int, k: int|
        0 <= i < placed.len() && 0 <= k < forwarding_step::<M>()(placed[i]).len() implies bindable::<
        M,
    >()(#[trigger] forwarding_step::<M>()(placed[i])[k]) by {
        assert(forwarding_step::<M>()(placed[i]) == placed[i].forwarded());
    }
    lemma_chain_all(placed, forwarding_step::<M>(), bindable::<M>());
    let values = forwarded(placed);
    assert forall|j: int| 0 <= j < values.len() implies (#[trigger] values[j]).register_value()
        is Some by {
        assert(bindable::<M>()(values[j]));
    }
    lemma_bindable_len(values, values.len() as int);
}

/// The script of a start: allocation on the arguments, transfer on what
/// allocation made of them, binding of what the transfer stage handed on,
/// and the dispatch.
pub open spec fn start_calls<M>(
    arguments: Seq<ParameterView<M>>,
    placed: Seq<ParameterView<M>>,
) -> Seq<Call<M>> {
    (allocation_calls(arguments) + transfer_calls(placed) + binding_calls(forwarded(placed))).push(
        Call::Start,
    )
}

/// The calls that recover one transfer: its buffer is filled from the
/// device, and its region is then freed if it asks for that.
pub open spec fn copyback_of<M>(transfer: PlacedTransferView<M>) -> Seq<Call<M>> {
    let read = Call::CopyFrom {
        memory: transfer.memory,
        address: transfer.device_address,
        len: transfer.data.len(),
    };
    if transfer.free_after {
        seq![read, Call::Free { memory: transfer.memory, address: transfer.device_address }]
    } else {
        seq![read]
    }
}

/// `copyback_of` as a value.
pub open spec fn copyback_step<M>() -> spec_fn(PlacedTransferView<M>) -> Seq<Call<M>> {
    |transfer: PlacedTransferView<M>| copyback_of(transfer)
}

/// The calls that recover `transfers`, in their order.
pub open spec fn copyback_calls<M>(transfers: Seq<PlacedTransferView<M>>) -> Seq<Call<M>> {
    chain(transfers, copyback_step())
}

/// The script of a release: the processing element is waited for, it goes
/// back to the scheduler if that is asked, and the transfers that it
/// reported are recovered.
pub open spec fn release_calls<M>(
    release_pe: bool,
    copybacks: Option<Seq<PlacedTransferView<M>>>,
) -> Seq<Call<M>> {
    let wait = seq![Call::Release];
    let give = if release_pe {
        seq![Call::ReturnPe]
    } else {
        Seq::empty()
    };
    let recover = match copybacks {
        Some(transfers) => copyback_calls(transfers),
        None => Seq::empty(),
    };
    wait + give + recover
}

/// How many allocator requests the arguments before the one at `i` need:
/// the place, among the requests of the allocation stage, of the request
/// for the argument at `i`.
pub open spec fn request_index<M>(arguments: Seq<ParameterView<M>>, i: int) -> int {
    allocation_calls(arguments.take(i)).len() as int
}

/// The address that the exchange at `k` of `made` gave, where it is an
/// allocator request that was granted.
pub open spec fn granted_at<M: Memory, P: ProcessingElement<M>, S: Scheduler<P>>(
    made: Seq<Exchange<M, P, S>>,
    k: int,
) -> u64 {
    match made[k] {
        Exchange::Allocate { answer: Ok(address), .. } => address,
        _ => 0,
    }
}

/// The arguments after allocation, where `made` begins with the exchanges
/// of the allocation stage: each unplaced transfer stands at the address
/// that its request was answered with, and anything else is as it was.
pub open spec fn placed_from<M: Memory, P: ProcessingElement<M>, S: Scheduler<P>>(
    arguments: Seq<ParameterView<M>>,
    made: Seq<Exchange<M, P, S>>,
) -> Seq<ParameterView<M>> {
    Seq::new(
        arguments.len(),
        |i: int|
            match arguments[i] {
                ParameterView::UnplacedTransfer(t) => ParameterView::PlacedTransfer(
                    t.placed_at(granted_at(made, request_index(arguments, i))),
                ),
                _ => arguments[i],
            },
    )
}

/// The request for an unplaced transfer is one of the requests of the
/// allocation stage.
pub proof fn lemma_request_index<M>(arguments: Seq<ParameterView<M>>, i: int)
    requires
        0 <= i < arguments.len(),
        arguments[i] is UnplacedTransfer,
    ensures
        0 <= request_index(arguments, i) < allocation_calls(arguments).len(),
{
    lemma_chain_step(arguments, i, allocation_step());
    lemma_chain_prefix(arguments, i + 1, allocation_step());
    assert(allocation_step::<M>()(arguments[i]) == allocation_of(arguments[i]));
}

/// What comes after the exchanges of the allocation stage does not change
/// where the transfers were placed.
pub proof fn lemma_placed_from_longer<M: Memory, P: ProcessingElement<M>, S: Scheduler<P>>(
    arguments: Seq<ParameterView<M>>,
    r0: Seq<Exchange<M, P, S>>,
    r1: Seq<Exchange<M, P, S>>,
    r2: Seq<Exchange<M, P, S>>,
)
    requires
        ran(r0, r1, allocation_calls(arguments)),
        r1.is_prefix_of(r2),
    ensures
        placed_from(arguments, r2.skip(r0.len() as int)) == placed_from(
            arguments,
            r1.skip(r0.len() as int),
        ),
{
    let made = r1.skip(r0.len() as int);
    let longer = r2.skip(r0.len() as int);
    assert(calls(made).len() == made.len());
    assert forall|i: int| 0 <= i < arguments.len() implies placed_from(arguments, longer)[i]
        == placed_from(arguments, made)[i] by {
        if arguments[i] is UnplacedTransfer {
            lemma_request_index(arguments, i);
            let k = request_index(arguments, i);
            assert(longer[k] == r2[r0.len() + k]);
            assert(r2.subrange(0, r1.len() as int)[r0.len() + k] == r2[r0.len() + k]);
            assert(made[k] == r1[r0.len() + k]);
        }
    }
    assert(placed_from(arguments, longer) =~= placed_from(arguments, made));
}

/// What `placed_from` gives is a placement of the arguments.
pub proof fn lemma_placed_from_places<M: Memory, P: ProcessingElement<M>, S: Scheduler<P>>(
    arguments: Seq<ParameterView<M>>,
    made: Seq<Exchange<M, P, S>>,
)
    ensures
        crate::parameter::placement(arguments, placed_from(arguments, made)),
{
    assert forall|i: int| 0 <= i < arguments.len() implies (#[trigger] arguments[i]).placed_as(
        placed_from(arguments, made)[i],
    ) by {}
}

} // verus!
