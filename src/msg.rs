use vstd::prelude::*;

use crate::amount::NativeCoin;
use crate::packet::{PacketModel, TransferPacket};

verus! {

/// An instruction that a handler hands back to the host for execution.
#[derive(Debug)]
pub enum Instruction {
    /// Move native coins from this contract to an account.
    BankSend { to_address: String, amount: Vec<NativeCoin> },
    /// Call a contract with an encoded message and no attached funds.
    WasmExecute { contract_addr: String, msg: Vec<u8> },
    /// Send a transfer packet over a channel, timing out at a wall-clock instant.
    IbcSendPacket { channel_id: String, packet: TransferPacket, timeout_timestamp: u64 },
}

/// What an instruction denotes.
pub enum InstructionModel {
    BankSend { to_address: Seq<char>, amount: Seq<NativeCoin> },
    WasmExecute { contract_addr: Seq<char>, msg: Seq<u8> },
    IbcSendPacket { channel_id: Seq<char>, packet: PacketModel, timeout_timestamp: u64 },
}

impl View for Instruction {
    type V = InstructionModel;

    open spec fn view(&self) -> InstructionModel {
        match self {
            Instruction::BankSend { to_address, amount } => InstructionModel::BankSend {
                to_address: to_address@,
                amount: amount@,
            },
            Instruction::WasmExecute { contract_addr, msg } => InstructionModel::WasmExecute {
                contract_addr: contract_addr@,
                msg: msg@,
            },
            Instruction::IbcSendPacket { channel_id, packet, timeout_timestamp } =>
                InstructionModel::IbcSendPacket {
                channel_id: channel_id@,
                packet: packet@,
                timeout_timestamp: *timeout_timestamp,
            },
        }
    }
}

/// A key and a value that a handler reports for observers.
#[derive(Debug)]
pub struct Attribute {
    pub key: String,
    pub value: String,
}

/// What a handler hands back: the instructions to execute and the attributes to report.
#[derive(Debug)]
pub struct Response {
    pub messages: Vec<Instruction>,
    pub attributes: Vec<Attribute>,
}

/// The views of a sequence of instructions.
pub open spec fn views(m: Seq<Instruction>) -> Seq<InstructionModel> {
    m.map_values(|i: Instruction| i@)
}

pub fn attr(key: &str, value: &str) -> (r: Attribute)
    ensures
        r.key@ == key@,
        r.value@ == value@,
{
    Attribute { key: key.to_owned(), value: value.to_owned() }
}

} // verus!
