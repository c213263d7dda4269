//! Call arguments in each of the forms they take on their way to the
//! registers of a processing element.

use crate::chain::chain;
use std::sync::Arc;
use vstd::prelude::*;

verus! {

/// A request for device memory of the size of `data`, not yet allocated.
#[derive(Debug)]
pub struct UnplacedTransfer<M> {
    pub data: Vec<u8>,
    pub from_device: bool,
    pub to_device: bool,
    pub memory: Arc<M>,
    pub free_after: bool,
}

/// A transfer whose device memory is reserved at `device_address`.
#[derive(Debug)]
pub struct PlacedTransfer<M> {
    pub data: Vec<u8>,
    pub device_address: u64,
    pub from_device: bool,
    pub to_device: bool,
    pub memory: Arc<M>,
    pub free_after: bool,
}

/// One argument of a call.
#[derive(Debug)]
pub enum Parameter<M> {
    /// An immediate value for one register.
    Scalar32(u32),
    /// An immediate value for one register.
    Scalar64(u64),
    /// An address in device memory.
    DeviceAddress(u64),
    /// Data that still needs device memory.
    UnplacedTransfer(UnplacedTransfer<M>),
    /// Data whose device memory is reserved.
    PlacedTransfer(PlacedTransfer<M>),
}

/// An unplaced transfer as a value: its data as a sequence of bytes.
pub struct UnplacedTransferView<M> {
    pub data: Seq<u8>,
    pub from_device: bool,
    pub to_device: bool,
    pub memory: Arc<M>,
    pub free_after: bool,
}

/// A placed transfer as a value: its data as a sequence of bytes.
pub struct PlacedTransferView<M> {
    pub data: Seq<u8>,
    pub device_address: u64,
    pub from_device: bool,
    pub to_device: bool,
    pub memory: Arc<M>,
    pub free_after: bool,
}

/// A parameter as a value.
pub enum ParameterView<M> {
    Scalar32(u32),
    Scalar64(u64),
    DeviceAddress(u64),
    UnplacedTransfer(UnplacedTransferView<M>),
    PlacedTransfer(PlacedTransferView<M>),
}

impl<M> View for UnplacedTransfer<M> {
    type V = UnplacedTransferView<M>;

    open spec fn view(&self) -> UnplacedTransferView<M> {
        UnplacedTransferView {
            data: self.data@,
            from_device: self.from_device,
            to_device: self.to_device,
            memory: self.memory,
            free_after: self.free_after,
        }
    }
}

impl<M> View for PlacedTransfer<M> {
    type V = PlacedTransferView<M>;

    open spec fn view(&self) -> PlacedTransferView<M> {
        PlacedTransferView {
            data: self.data@,
            device_address: self.device_address,
            from_device: self.from_device,
            to_device: self.to_device,
            memory: self.memory,
            free_after: self.free_after,
        }
    }
}

impl<M> View for Parameter<M> {
    type V = ParameterView<M>;

    open spec fn view(&self) -> ParameterView<M> {
        match self {
            Parameter::Scalar32(x) => ParameterView::Scalar32(*x),
            Parameter::Scalar64(x) => ParameterView::Scalar64(*x),
            Parameter::DeviceAddress(a) => ParameterView::DeviceAddress(*a),
            Parameter::UnplacedTransfer(t) => ParameterView::UnplacedTransfer(t@),
            Parameter::PlacedTransfer(t) => ParameterView::PlacedTransfer(t@),
        }
    }
}

/// The views of a list of placed transfers, in the same order.
pub open spec fn placed_views<M>(transfers: Seq<PlacedTransfer<M>>) -> Seq<PlacedTransferView<M>> {
    transfers.map_values(|t: PlacedTransfer<M>| t@)
}

/// The contents of a list of buffers, in the same order.
pub open spec fn buffers(recovered: Seq<Vec<u8>>) -> Seq<Seq<u8>> {
    recovered.map_values(|b: Vec<u8>| b@)
}

/// The views of a list of parameters, in the same order.
pub open spec fn views<M>(parameters: Seq<Parameter<M>>) -> Seq<ParameterView<M>> {
    parameters.map_values(|p: Parameter<M>| p@)
}

impl<M> UnplacedTransferView<M> {
    /// The same transfer with its memory reserved at `address`.
    pub open spec fn placed_at(self, address: u64) -> PlacedTransferView<M> {
        PlacedTransferView {
            data: self.data,
            device_address: address,
            from_device: self.from_device,
            to_device: self.to_device,
            memory: self.memory,
            free_after: self.free_after,
        }
    }
}

impl<M> ParameterView<M> {
    /// Whether `after` is what allocation makes of this parameter: an
    /// unplaced transfer gets an address and keeps every other field, and
    /// anything else stays as it is.
    pub open spec fn placed_as(self, after: ParameterView<M>) -> bool {
        match self {
            ParameterView::UnplacedTransfer(t) => {
                &&& after is PlacedTransfer
                &&& after->PlacedTransfer_0 == t.placed_at(after->PlacedTransfer_0.device_address)
            },
            _ => after == self,
        }
    }

    /// What is written to a register for this parameter: a scalar as it
    /// is, an address as a 64-bit scalar, and nothing for a transfer.
    pub open spec fn register_value(self) -> Option<ParameterView<M>> {
        match self {
            ParameterView::Scalar32(_) => Some(self),
            ParameterView::Scalar64(_) => Some(self),
            ParameterView::DeviceAddress(a) => Some(ParameterView::Scalar64(a)),
            _ => None,
        }
    }

    /// Whether this is a placed transfer whose data is to be written to
    /// the device.
    pub open spec fn written(self) -> bool {
        self is PlacedTransfer && self->PlacedTransfer_0.to_device
    }

    /// Whether the parameter ends in a register: a scalar or an address
    /// does, and a transfer does if its data goes to the device.
    pub open spec fn reaches_registers(self) -> bool {
        match self {
            ParameterView::UnplacedTransfer(t) => t.to_device,
            ParameterView::PlacedTransfer(t) => t.to_device,
            _ => true,
        }
    }

    /// Whether this is a placed transfer that is to be read back from the
    /// device.
    pub open spec fn read_back(self) -> bool {
        self is PlacedTransfer && self->PlacedTransfer_0.from_device
    }

    /// What the transfer stage hands on to register binding in place of
    /// this parameter: the address of a placed transfer that goes to the
    /// device, nothing for one that does not, and anything else as it is.
    pub open spec fn forwarded(self) -> Seq<ParameterView<M>> {
        match self {
            ParameterView::PlacedTransfer(t) => if t.to_device {
                seq![ParameterView::DeviceAddress(t.device_address)]
            } else {
                Seq::empty()
            },
            _ => seq![self],
        }
    }
}

/// How many of the first `n` of `arguments` end in a register.
pub open spec fn registers_before<M>(arguments: Seq<ParameterView<M>>, n: int) -> nat
    decreases n,
{
    if n <= 0 {
        0
    } else {
        registers_before(arguments, n - 1) + if arguments[n - 1].reaches_registers() {
            1nat
        } else {
            0nat
        }
    }
}

/// The placement of `arguments` that puts every unplaced transfer at
/// address 0.
pub open spec fn placed_at_zero<M>(arguments: Seq<ParameterView<M>>) -> Seq<ParameterView<M>> {
    arguments.map_values(
        |p: ParameterView<M>|
            match p {
                ParameterView::UnplacedTransfer(t) => ParameterView::PlacedTransfer(t.placed_at(0)),
                _ => p,
            },
    )
}

/// `ParameterView::forwarded` as a value.
pub open spec fn forwarding_step<M>() -> spec_fn(ParameterView<M>) -> Seq<ParameterView<M>> {
    |parameter: ParameterView<M>| parameter.forwarded()
}

/// What the transfer stage hands on to register binding, in the order of
/// the arguments.
pub open spec fn forwarded<M>(arguments: Seq<ParameterView<M>>) -> Seq<ParameterView<M>> {
    chain(arguments, forwarding_step())
}

/// Whether `placed` is `arguments` after allocation: position by position,
/// with nothing added, dropped or moved.
pub open spec fn placement<M>(
    arguments: Seq<ParameterView<M>>,
    placed: Seq<ParameterView<M>>,
) -> bool {
    &&& placed.len() == arguments.len()
    &&& forall|i: int| 0 <= i < arguments.len() ==> (#[trigger] arguments[i]).placed_as(placed[i])
}

impl<M> Parameter<M> {
    /// The value to write to a register for this parameter, or the
    /// parameter itself where it is a transfer, which no register takes.
    pub fn into_register_value(self) -> (r: Result<Parameter<M>, Parameter<M>>)
        ensures
            match r {
                Ok(value) => self@.register_value() == Some(value@),
                Err(arg) => self@.register_value() is None && arg == self,
            },
    {
        match self {
            Parameter::Scalar32(x) => Ok(Parameter::Scalar32(x)),
            Parameter::Scalar64(x) => Ok(Parameter::Scalar64(x)),
            Parameter::DeviceAddress(a) => Ok(Parameter::Scalar64(a)),
            other => Err(other),
        }
    }
}

impl<M> UnplacedTransfer<M> {
    /// Turns the request into a placed transfer at `address`.
    pub fn place(self, address: u64) -> (placed: PlacedTransfer<M>)
        ensures
            placed@ == self@.placed_at(address),
    {
        PlacedTransfer {
            data: self.data,
            device_address: address,
            from_device: self.from_device,
            to_device: self.to_device,
            memory: self.memory,
            free_after: self.free_after,
        }
    }
}

} // verus!
