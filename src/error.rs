use vstd::prelude::*;

verus! {

/// Why the attached funds were refused.
#[derive(Debug, PartialEq)]
pub enum PaymentError {
    MissingDenom(String),
    ExtraDenom(String),
    MultipleDenoms,
    NoFunds,
    NonPayable,
}

/// Why a transfer-bridge call failed.
#[derive(Debug, PartialEq)]
pub enum ContractError {
    /// The attached funds were refused.
    Payment(PaymentError),
    /// A transfer of nothing was asked for.
    NoFunds,
    /// The channel is not registered.
    NoSuchChannel { id: String },
    /// The packet would carry a zero amount or an empty field.
    InvalidPacket,
    /// The timeout instant does not fit in nanoseconds of 64 bits.
    TimeoutOverflow,
    /// The packet is unknown, already settled, or already tracked.
    UnknownOrDuplicatePacket,
    /// A channel counter would leave the range of 128 bits.
    CounterOverflow,
    /// A token deposit came without a transfer request.
    NoData,
}

} // verus!
