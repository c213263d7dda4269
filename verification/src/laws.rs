//! What holds of the pipeline as a whole.

use crate::chain::{lemma_chain_prefix, lemma_chain_step};
use crate::parameter::{
    forwarded, forwarding_step, placement, registers_before, ParameterView, UnplacedTransferView,
};
use crate::record::Call;
use crate::script::{
    allocation_calls, bindable_len, binding_calls, bindings, copyback_calls, lemma_bindable_len,
    lemma_forwarded_bindable, release_calls, start_calls, transfer_calls,
};
use vstd::prelude::*;

verus! {

/// After allocation, the transfer stage hands on exactly one value for
/// each of the first `n` arguments that ends in a register.
pub proof fn lemma_forwarded_len<M>(
    arguments: Seq<ParameterView<M>>,
    placed: Seq<ParameterView<M>>,
    n: int,
)
    requires
        placement(arguments, placed),
        0 <= n <= arguments.len(),
    ensures
        forwarded(placed.take(n)).len() == registers_before(arguments, n),
    decreases n,
{
    if n > 0 {
        lemma_forwarded_len(arguments, placed, n - 1);
        lemma_chain_step(placed, n - 1, forwarding_step());
        assert(arguments[n - 1].placed_as(placed[n - 1]));
        assert(forwarding_step::<M>()(placed[n - 1]) == placed[n - 1].forwarded());
    } else {
        assert(placed.take(0) =~= Seq::empty());
    }
}

/// Of two arguments that end in a register, the earlier comes before the
/// later among those that do.
pub proof fn lemma_registers_before_increases<M>(
    arguments: Seq<ParameterView<M>>,
    i: int,
    j: int,
)
    requires
        0 <= i < j <= arguments.len(),
        arguments[i].reaches_registers(),
    ensures
        registers_before(arguments, i) < registers_before(arguments, j),
    decreases j - i,
{
    if i + 1 < j {
        lemma_registers_before_increases(arguments, i, j - 1);
    }
}

/// Order preservation: as many registers are written as there are
/// arguments that end in one, and such an argument is written to the
/// register whose index is the number of such arguments before it. A scalar
/// is written as it is, an address as a 64-bit scalar, and a transfer as
/// the address at which it was placed.
pub proof fn lemma_order_preserved<M>(
    arguments: Seq<ParameterView<M>>,
    placed: Seq<ParameterView<M>>,
    i: int,
)
    requires
        placement(arguments, placed),
        arguments.len() <= usize::MAX,
        0 <= i < arguments.len(),
        arguments[i].reaches_registers(),
    ensures
        binding_calls(forwarded(placed)).len() == registers_before(
            arguments,
            arguments.len() as int,
        ),
        registers_before(arguments, i) < binding_calls(forwarded(placed)).len(),
        binding_calls(forwarded(placed))[registers_before(arguments, i) as int] == (Call::SetArg {
            index: registers_before(arguments, i) as usize,
            value: match arguments[i] {
                ParameterView::Scalar32(_) => arguments[i],
                ParameterView::Scalar64(_) => arguments[i],
                ParameterView::DeviceAddress(a) => ParameterView::Scalar64(a),
                _ => ParameterView::Scalar64(placed[i]->PlacedTransfer_0.device_address),
            },
        }),
        registers_before(arguments, i) <= usize::MAX,
{
    let values = forwarded(placed);
    let at = registers_before(arguments, i) as int;
    assert forall|k: int| 0 <= k < placed.len() implies !((#[trigger] placed[k])
        is UnplacedTransfer) by {
        assert(arguments[k].placed_as(placed[k]));
    }
    lemma_forwarded_bindable(placed);
    lemma_forwarded_len(arguments, placed, i);
    lemma_forwarded_len(arguments, placed, i + 1);
    lemma_forwarded_len(arguments, placed, arguments.len() as int);
    assert(placed.take(placed.len() as int) =~= placed);
    lemma_registers_before_increases(arguments, i, arguments.len() as int);
    lemma_registers_bounded(arguments, arguments.len() as int);
    lemma_chain_step(placed, i, forwarding_step());
    lemma_chain_prefix(placed, i + 1, forwarding_step());
    assert(arguments[i].placed_as(placed[i]));
    assert(forwarding_step::<M>()(placed[i]) == placed[i].forwarded());
    let upto = forwarded(placed.take(i + 1));
    assert(values[at] == values.take(upto.len() as int)[at]);
    assert(upto[at] == placed[i].forwarded()[0]);
}

/// A transfer at the registers: where the value at `k` is a transfer and
/// none before it is, exactly the `k` values before it are written, each to
/// the register of its position, and binding stops there.
pub proof fn lemma_transfer_stops_binding<M>(values: Seq<ParameterView<M>>, k: int)
    requires
        0 <= k < values.len(),
        values[k] is UnplacedTransfer || values[k] is PlacedTransfer,
        forall|j: int|
            0 <= j < k ==> !((#[trigger] values[j]) is UnplacedTransfer) && !(values[j]
                is PlacedTransfer),
    ensures
        bindable_len(values) == k,
        binding_calls(values) == bindings(values, k as nat),
{
    lemma_bindable_len(values, k);
}

/// Round trip, as far as it is the job's part: for a transfer that goes to
/// the device and comes back, and that is to be freed, a start asks for
/// memory of the size of its data, writes the data where the memory was
/// given, notes the transfer with the processing element and binds the
/// address; once the element reports the transfer, a release reads as many
/// bytes back from that address and then frees it.
pub proof fn lemma_round_trip_calls<M>(transfer: UnplacedTransferView<M>, address: u64)
    requires
        transfer.to_device,
        transfer.from_device,
        transfer.free_after,
    ensures
        start_calls(
            seq![ParameterView::UnplacedTransfer(transfer)],
            seq![ParameterView::PlacedTransfer(transfer.placed_at(address))],
        ) == seq![
            Call::Allocate { memory: transfer.memory, size: transfer.data.len() as u64 },
            Call::CopyTo { memory: transfer.memory, data: transfer.data, address },
            Call::AddCopyback { transfer: transfer.placed_at(address) },
            Call::SetArg { index: 0, value: ParameterView::Scalar64(address) },
            Call::Start,
        ],
        release_calls(true, Some(seq![transfer.placed_at(address)])) == seq![
            Call::Release,
            Call::ReturnPe,
            Call::CopyFrom { memory: transfer.memory, address, len: transfer.data.len() },
            Call::Free { memory: transfer.memory, address },
        ],
{
    let argument = ParameterView::UnplacedTransfer(transfer);
    let placed = ParameterView::PlacedTransfer(transfer.placed_at(address));
    let arguments = seq![argument];
    let places = seq![placed];
    lemma_chain_step(arguments, 0, crate::script::allocation_step());
    lemma_chain_step(places, 0, crate::script::transfer_step());
    lemma_chain_step(places, 0, forwarding_step());
    let copybacks = seq![transfer.placed_at(address)];
    lemma_chain_step(copybacks, 0, crate::script::copyback_step());
    assert(arguments.take(1) =~= arguments);
    assert(places.take(1) =~= places);
    assert(copybacks.take(1) =~= copybacks);
    assert(arguments.take(0) =~= Seq::empty());
    assert(places.take(0) =~= Seq::empty());
    assert(copybacks.take(0) =~= Seq::empty());
    let values = forwarded(places);
    assert(values =~= seq![ParameterView::DeviceAddress(address)]);
    lemma_bindable_len(values, 1);
    assert(allocation_calls(arguments) =~= seq![
        Call::Allocate { memory: transfer.memory, size: transfer.data.len() as u64 },
    ]);
    assert(transfer_calls(places) =~= seq![
        Call::CopyTo { memory: transfer.memory, data: transfer.data, address },
        Call::AddCopyback { transfer: transfer.placed_at(address) },
    ]);
    assert(binding_calls(values) =~= seq![
        Call::SetArg { index: 0, value: ParameterView::Scalar64(address) },
    ]);
    assert(copyback_calls(copybacks) =~= seq![
        Call::CopyFrom { memory: transfer.memory, address, len: transfer.data.len() },
        Call::Free { memory: transfer.memory, address },
    ]);
}

/// No more arguments end in a register than there are.
pub proof fn lemma_registers_bounded<M>(arguments: Seq<ParameterView<M>>, n: int)
    requires
        0 <= n,
    ensures
        registers_before(arguments, n) <= n,
    decreases n,
{
    if n > 0 {
        lemma_registers_bounded(arguments, n - 1);
    }
}

} // verus!
