use vstd::prelude::*;

use crate::amount::NativeCoin;
use crate::msg::{attr, views, Attribute, Instruction, InstructionModel, Response};

verus! {

/// A token amount to send, with the token contract's address as the host resolved it:
/// `None` where the host could not resolve it.
#[derive(Debug)]
pub struct Cw20Entry {
    pub address: Option<String>,
    pub amount: u128,
}

/// What one recipient is to receive.
#[derive(Debug)]
pub struct Balance {
    pub native: Vec<NativeCoin>,
    pub cw20: Vec<Cw20Entry>,
}

#[derive(Debug)]
pub struct Recipient {
    pub address: String,
    pub amount: Balance,
}

/// The messages that the multisender can handle.
pub enum HandleMsg {
    Send { recipients: Vec<Recipient> },
}

#[derive(Debug)]
pub enum ContractError {
    /// The recipient at this index asks for a transfer that cannot be built.
    InvalidRecipient { index: usize },
}

/// The encoded token-contract message that moves `amount` tokens to `recipient`.
pub uninterp spec fn cw20_transfer_msg(recipient: Seq<char>, amount: u128) -> Seq<u8>;

/// Relies on cosmwasm_std::to_binary of cw20::Cw20ExecuteMsg::Transfer: the bytes
/// depend on the recipient and the amount alone, and the encoding cannot fail (the
/// serializer writes both fields as strings, by pushes that never fail).
#[verifier::external_body]
fn encode_cw20_transfer(recipient: &String, amount: u128) -> (r: Vec<u8>)
    ensures
        r@ == cw20_transfer_msg(recipient@, amount),
{
    let msg = cw20::Cw20ExecuteMsg::Transfer {
        recipient: recipient.clone(),
        amount: cosmwasm_std::Uint128(amount),
    };
    match cosmwasm_std::to_binary(&msg) {
        Ok(b) => b.0,
        Err(_) => Vec::new(),
    }
}

/// Whether every token contract of every recipient was resolved.
pub open spec fn all_resolved(rs: Seq<Recipient>) -> bool {
    forall|j: int| 0 <= j < rs.len() ==> resolved(#[trigger] rs[j])
}

/// Whether every token contract of the recipient was resolved.
pub open spec fn resolved(r: Recipient) -> bool {
    forall|i: int| 0 <= i < r.amount.cw20@.len() ==> (#[trigger] r.amount.cw20@[i]).address is Some
}

/// The instructions for one recipient: one bank send with all its native coins, if it has
/// any, then one token transfer per token entry, in order.
pub open spec fn recipient_msgs(r: Recipient) -> Seq<InstructionModel> {
    let native = if r.amount.native@.len() == 0 {
        Seq::<InstructionModel>::empty()
    } else {
        seq![InstructionModel::BankSend { to_address: r.address@, amount: r.amount.native@ }]
    };
    native + r.amount.cw20@.map_values(
        |c: Cw20Entry|
            InstructionModel::WasmExecute {
                contract_addr: c.address->Some_0@,
                msg: cw20_transfer_msg(r.address@, c.amount),
            },
    )
}

/// The instructions for all recipients, recipient by recipient.
pub open spec fn all_msgs(rs: Seq<Recipient>) -> Seq<InstructionModel>
    decreases rs.len(),
{
    if rs.len() == 0 {
        Seq::empty()
    } else {
        all_msgs(rs.drop_last()) + recipient_msgs(rs.last())
    }
}

/// The index of the first recipient with an unresolved token contract.
pub open spec fn first_unresolved(rs: Seq<Recipient>, k: int) -> bool {
    0 <= k < rs.len() && !resolved(rs[k]) && forall|j: int| 0 <= j < k ==> resolved(#[trigger] rs[j])
}

fn copy_coins(v: &Vec<NativeCoin>) -> (r: Vec<NativeCoin>)
    ensures
        r@ == v@,
{
    let mut r: Vec<NativeCoin> = Vec::new();
    let mut i: usize = 0;
    while i < v.len()
        invariant
            i <= v@.len(),
            r@ == v@.subrange(0, i as int),
        decreases v@.len() - i,
    {
        r.push(NativeCoin { denom: v[i].denom.clone(), amount: v[i].amount });
        i = i + 1;
        assert(r@ =~= v@.subrange(0, i as int));
    }
    assert(v@.subrange(0, v@.len() as int) =~= v@);
    r
}

fn check_resolved(r: &Recipient) -> (ok: bool)
    ensures
        ok == resolved(*r),
{
    let mut i: usize = 0;
    while i < r.amount.cw20.len()
        invariant
            i <= r.amount.cw20@.len(),
            forall|j: int| 0 <= j < i ==> (#[trigger] r.amount.cw20@[j]).address is Some,
        decreases r.amount.cw20@.len() - i,
    {
        if r.amount.cw20[i].address.is_none() {
            return false;
        }
        i = i + 1;
    }
    true
}

/// Appends the instructions for one resolved recipient.
fn recipient_instructions(r: &Recipient, out: &mut Vec<Instruction>)
    requires
        resolved(*r),
    ensures
        views(final(out)@) == views(old(out)@) + recipient_msgs(*r),
{
    let ghost start = views(out@);
    if r.amount.native.len() > 0 {
        out.push(
            Instruction::BankSend {
                to_address: r.address.clone(),
                amount: copy_coins(&r.amount.native),
            },
        );
    }
    let ghost native = if r.amount.native@.len() == 0 {
        Seq::<InstructionModel>::empty()
    } else {
        seq![InstructionModel::BankSend { to_address: r.address@, amount: r.amount.native@ }]
    };
    assert(views(out@) =~= start + native);
    let ghost tokens = r.amount.cw20@.map_values(
        |c: Cw20Entry|
            InstructionModel::WasmExecute {
                contract_addr: c.address->Some_0@,
                msg: cw20_transfer_msg(r.address@, c.amount),
            },
    );
    let mut i: usize = 0;
    while i < r.amount.cw20.len()
        invariant
            i <= r.amount.cw20@.len(),
            resolved(*r),
            views(out@) == start + native + tokens.subrange(0, i as int),
            tokens.len() == r.amount.cw20@.len(),
            tokens == r.amount.cw20@.map_values(
                |c: Cw20Entry|
                    InstructionModel::WasmExecute {
                        contract_addr: c.address->Some_0@,
                        msg: cw20_transfer_msg(r.address@, c.amount),
                    },
            ),
        decreases r.amount.cw20@.len() - i,
    {
        let entry = &r.amount.cw20[i];
        assert(entry.address is Some);
        let contract = match &entry.address {
            Some(a) => a.clone(),
            None => String::new(),
        };
        let msg = encode_cw20_transfer(&r.address, entry.amount);
        assert(tokens[i as int] == InstructionModel::WasmExecute {
            contract_addr: contract@,
            msg: msg@,
        });
        let ghost prev = views(out@);
        out.push(Instruction::WasmExecute { contract_addr: contract, msg });
        assert(views(out@) =~= prev.push(tokens[i as int]));
        assert(tokens.subrange(0, i + 1) =~= tokens.subrange(0, i as int).push(tokens[i as int]));
        i = i + 1;
        assert(views(out@) =~= start + native + tokens.subrange(0, i as int));
    }
    assert(tokens.subrange(0, tokens.len() as int) =~= tokens);
    assert(native + tokens =~= recipient_msgs(*r));
    assert(start + native + tokens =~= start + (native + tokens));
}

/// Expands the recipients into transfer instructions: for each recipient in order, one
/// bank send of all its native coins if it has any, then one token transfer per token
/// entry. Fails for the first recipient with an unresolved token contract, and produces
/// nothing then; succeeds whenever every token contract was resolved.
pub fn send_tokens(recipients: &Vec<Recipient>) -> (r: Result<Vec<Instruction>, ContractError>)
    ensures
        r is Ok <==> all_resolved(recipients@),
        all_resolved(recipients@) ==> (r matches Ok(msgs) && views(msgs@) == all_msgs(recipients@)),
        forall|k: int|
            first_unresolved(recipients@, k) ==> r == Err::<Vec<Instruction>, ContractError>(
                ContractError::InvalidRecipient { index: k as usize },
            ),
{
    let mut i: usize = 0;
    while i < recipients.len()
        invariant
            i <= recipients@.len(),
            forall|j: int| 0 <= j < i ==> resolved(#[trigger] recipients@[j]),
        decreases recipients@.len() - i,
    {
        if !check_resolved(&recipients[i]) {
            assert(first_unresolved(recipients@, i as int));
            assert(forall|k: int| first_unresolved(recipients@, k) ==> k == i);
            assert(!resolved(recipients@[i as int]));
            return Err(ContractError::InvalidRecipient { index: i });
        }
        i = i + 1;
    }
    assert(forall|k: int| !first_unresolved(recipients@, k));
    let mut msgs: Vec<Instruction> = Vec::new();
    let mut i: usize = 0;
    while i < recipients.len()
        invariant
            i <= recipients@.len(),
            forall|j: int| 0 <= j < recipients@.len() ==> resolved(#[trigger] recipients@[j]),
            views(msgs@) == all_msgs(recipients@.subrange(0, i as int)),
        decreases recipients@.len() - i,
    {
        let ghost before = recipients@.subrange(0, i as int);
        recipient_instructions(&recipients[i], &mut msgs);
        i = i + 1;
        assert(recipients@.subrange(0, i as int).drop_last() =~= before);
    }
    assert(recipients@.subrange(0, recipients@.len() as int) =~= recipients@);
    Ok(msgs)
}

/// Handles a send: the instructions of `send_tokens`, reported as action `send`.
pub fn execute_send(recipients: Vec<Recipient>) -> (r: Result<Response, ContractError>)
    ensures
        r is Ok <==> all_resolved(recipients@),
        all_resolved(recipients@) ==> (r matches Ok(res) && views(res.messages@) == all_msgs(
            recipients@,
        ) && res.attributes@.len() == 1 && res.attributes@[0].key@ == "action"@
            && res.attributes@[0].value@ == "send"@),
        forall|k: int|
            first_unresolved(recipients@, k) ==> r == Err::<Response, ContractError>(
                ContractError::InvalidRecipient { index: k as usize },
            ),
{
    let messages = send_tokens(&recipients)?;
    let mut attributes: Vec<Attribute> = Vec::new();
    attributes.push(attr("action", "send"));
    Ok(Response { messages, attributes })
}

/// Dispatches a message to its handler.
pub fn execute(msg: HandleMsg) -> (r: Result<Response, ContractError>)
    ensures
        match msg {
            HandleMsg::Send { recipients } => {
                &&& r is Ok <==> all_resolved(recipients@)
                &&& all_resolved(recipients@) ==> (r matches Ok(res) && views(res.messages@)
                    == all_msgs(recipients@) && res.attributes@.len() == 1
                    && res.attributes@[0].key@ == "action"@ && res.attributes@[0].value@ == "send"@)
                &&& forall|k: int|
                    first_unresolved(recipients@, k) ==> r == Err::<Response, ContractError>(
                        ContractError::InvalidRecipient { index: k as usize },
                    )
            },
        },
{
    match msg {
        HandleMsg::Send { recipients } => execute_send(recipients),
    }
}

} // verus!
