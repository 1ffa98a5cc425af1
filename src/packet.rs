use vstd::prelude::*;

use crate::error::ContractError;

verus! {

/// The record sent over a channel to move an amount to a receiver on the other chain.
#[derive(Debug)]
pub struct TransferPacket {
    pub denom: String,
    pub amount: u128,
    pub sender: String,
    pub receiver: String,
}

/// What a transfer packet holds.
pub struct PacketModel {
    pub denom: Seq<char>,
    pub amount: u128,
    pub sender: Seq<char>,
    pub receiver: Seq<char>,
}

impl View for TransferPacket {
    type V = PacketModel;

    open spec fn view(&self) -> PacketModel {
        PacketModel {
            denom: self.denom@,
            amount: self.amount,
            sender: self.sender@,
            receiver: self.receiver@,
        }
    }
}

impl PacketModel {
    /// A packet may leave only with a positive amount and no empty field.
    pub open spec fn valid(self) -> bool {
        self.amount > 0 && self.denom.len() > 0 && self.sender.len() > 0 && self.receiver.len() > 0
    }
}

impl TransferPacket {
    pub fn new(amount: u128, denom: String, sender: &String, receiver: &String) -> (r:
        TransferPacket)
        ensures
            r@ == (PacketModel { denom: denom@, amount, sender: sender@, receiver: receiver@ }),
    {
        TransferPacket { denom, amount, sender: sender.clone(), receiver: receiver.clone() }
    }

    pub fn validate(&self) -> (r: Result<(), ContractError>)
        ensures
            r is Ok <==> self@.valid(),
            r is Err ==> r == Err::<(), ContractError>(ContractError::InvalidPacket),
    {
        if self.amount == 0 || self.denom.as_str().is_empty() || self.sender.as_str().is_empty()
            || self.receiver.as_str().is_empty() {
            Err(ContractError::InvalidPacket)
        } else {
            Ok(())
        }
    }
}

} // verus!
