use vstd::prelude::*;

use crate::amount::{Amount, AmountModel, Cw20Coin, NativeCoin};
use crate::error::ContractError;
use crate::funds::{nonpayable, one_coin};
use crate::msg::{attr, views, Attribute, Instruction, InstructionModel, Response};
use crate::packet::{PacketModel, TransferPacket};
use crate::registry::{Outcome, Registry};

verus! {

/// Settings fixed when the bridge is set up.
pub struct Config {
    /// The timeout of a transfer that names none, in seconds.
    pub default_timeout: u64,
}

/// A request to move an amount over a channel to an address on the other chain.
pub struct TransferMsg {
    pub channel: String,
    pub remote_address: String,
    /// The timeout in seconds; `None` for the configured default.
    pub timeout: Option<u64>,
}

/// A deposit of tokens by a token contract on behalf of `sender`, with the transfer that
/// the sender asked for.
pub struct ReceiveMsg {
    pub sender: String,
    pub amount: u128,
    pub msg: Option<TransferMsg>,
}

/// Who called, and the native coins attached to the call.
pub struct MessageInfo {
    pub sender: String,
    pub funds: Vec<NativeCoin>,
}

pub enum ExecuteMsg {
    Receive(ReceiveMsg),
    Transfer(TransferMsg),
}

/// The timeout in seconds that a transfer uses.
pub open spec fn timeout_delta(timeout: Option<u64>, config: Config) -> u64 {
    match timeout {
        Some(t) => t,
        None => config.default_timeout,
    }
}

/// The instant, in nanoseconds, at which a packet sent at `block_time` (in seconds) times
/// out `delta` seconds later.
pub open spec fn timeout_ns(block_time: u64, delta: u64) -> int {
    (block_time + delta) * 1_000_000_000
}

pub open spec fn digit(d: nat) -> char {
    seq!['0', '1', '2', '3', '4', '5', '6', '7', '8', '9'][d as int]
}

/// The decimal digits of `n`.
pub open spec fn decimal(n: nat) -> Seq<char>
    decreases n,
{
    if n < 10 {
        seq![digit(n)]
    } else {
        decimal(n / 10).push(digit(n % 10))
    }
}

/// Relies on the `Display` of `u128` (through `ToString`): its decimal digits.
#[verifier::external_body]
fn decimal_string(n: u128) -> (r: String)
    ensures
        r@ == decimal(n as nat),
{
    n.to_string()
}

/// The attributes reported for a transfer of `p`.
pub open spec fn transfer_attributes(a: Seq<Attribute>, p: PacketModel) -> bool {
    &&& a.len() == 5
    &&& a[0].key@ == "action"@ && a[0].value@ == "transfer"@
    &&& a[1].key@ == "sender"@ && a[1].value@ == p.sender
    &&& a[2].key@ == "receiver"@ && a[2].value@ == p.receiver
    &&& a[3].key@ == "denom"@ && a[3].value@ == p.denom
    &&& a[4].key@ == "amount"@ && a[4].value@ == decimal(p.amount as nat)
}

/// What a transfer does: `a` and `b` are the registry before and after, `r` the result.
/// The checks come in order: an empty amount, an unknown channel, a timeout out of range, an
/// invalid packet, a sequence already tracked, a counter out of range. A transfer that
/// passes them all sends one packet and counts it at once as outstanding and sent.
pub open spec fn transfer_spec(
    a: Registry,
    b: Registry,
    config: Config,
    block_time: u64,
    msg: TransferMsg,
    amount: AmountModel,
    sender: Seq<char>,
    sequence: u64,
    r: Result<Response, ContractError>,
) -> bool {
    let ch = msg.channel@;
    let d = amount.denom();
    let amt = amount.amount();
    let t = timeout_ns(block_time, timeout_delta(msg.timeout, config));
    let packet = PacketModel { denom: d, amount: amt, sender, receiver: msg.remote_address@ };
    &&& r is Err ==> b == a
    &&& if amt == 0 {
        r == Err::<Response, ContractError>(ContractError::NoFunds)
    } else if !a.has_channel(ch) {
        r matches Err(ContractError::NoSuchChannel { id }) && id@ == ch
    } else if t > u64::MAX {
        r == Err::<Response, ContractError>(ContractError::TimeoutOverflow)
    } else if !packet.valid() {
        r == Err::<Response, ContractError>(ContractError::InvalidPacket)
    } else if a.has_packet(ch, sequence) {
        r == Err::<Response, ContractError>(ContractError::UnknownOrDuplicatePacket)
    } else if a.state_of(ch, d).total_sent + amt > u128::MAX {
        r == Err::<Response, ContractError>(ContractError::CounterOverflow)
    } else {
        &&& r matches Ok(res) && views(res.messages@) == seq![
            InstructionModel::IbcSendPacket { channel_id: ch, packet, timeout_timestamp: t as u64 },
        ] && transfer_attributes(res.attributes@, packet)
        &&& Registry::sent(a, b, ch, d, amt, sequence)
    }
}

/// The timeout instant in nanoseconds; `None` where it does not fit in 64 bits.
pub fn compute_timeout(block_time: u64, delta: u64) -> (r: Option<u64>)
    ensures
        r is None <==> timeout_ns(block_time, delta) > u64::MAX,
        r matches Some(t) ==> t == timeout_ns(block_time, delta),
{
    match block_time.checked_add(delta) {
        Some(seconds) => seconds.checked_mul(1_000_000_000),
        None => None,
    }
}

/// Sends `amount` from `sender` over the channel of `msg` to its remote address, as the
/// packet with this sequence. The send is counted in the channel's counters at once, and
/// the packet is tracked until the other chain's answer settles it.
pub fn execute_transfer(
    reg: &mut Registry,
    config: &Config,
    block_time: u64,
    msg: TransferMsg,
    amount: Amount,
    sender: String,
    sequence: u64,
) -> (r: Result<Response, ContractError>)
    requires
        old(reg).wf(),
    ensures
        final(reg).wf(),
        transfer_spec(
            *old(reg),
            *final(reg),
            *config,
            block_time,
            msg,
            amount@,
            sender@,
            sequence,
            r,
        ),
{
    if amount.is_empty() {
        return Err(ContractError::NoFunds);
    }
    if !reg.has_channel_info(&msg.channel) {
        return Err(ContractError::NoSuchChannel { id: msg.channel });
    }
    let delta = match msg.timeout {
        Some(t) => t,
        None => config.default_timeout,
    };
    let timeout = match compute_timeout(block_time, delta) {
        Some(t) => t,
        None => {
            return Err(ContractError::TimeoutOverflow);
        },
    };
    let packet = TransferPacket::new(amount.amount(), amount.denom(), &sender, &msg.remote_address);
    packet.validate()?;
    reg.record_sent_packet(&msg.channel, sequence, &packet.denom, packet.amount)?;
    let amount_text = decimal_string(packet.amount);
    let mut attributes: Vec<Attribute> = Vec::new();
    attributes.push(attr("action", "transfer"));
    attributes.push(attr("sender", packet.sender.as_str()));
    attributes.push(attr("receiver", packet.receiver.as_str()));
    attributes.push(attr("denom", packet.denom.as_str()));
    attributes.push(attr("amount", amount_text.as_str()));
    let ghost p = packet@;
    let mut messages: Vec<Instruction> = Vec::new();
    messages.push(
        Instruction::IbcSendPacket { channel_id: msg.channel, packet, timeout_timestamp: timeout },
    );
    proof {
        reveal_strlit("action");
        reveal_strlit("transfer");
        reveal_strlit("sender");
        reveal_strlit("receiver");
        reveal_strlit("denom");
        reveal_strlit("amount");
        assert(views(messages@) =~= seq![
            InstructionModel::IbcSendPacket { channel_id: msg.channel@, packet: p, timeout_timestamp: timeout },
        ]);
    }
    Ok(Response { messages, attributes })
}

/// Handles a call: a transfer of the one native coin attached, or of tokens that a token
/// contract deposited (with no native coin attached).
pub fn execute(
    reg: &mut Registry,
    config: &Config,
    block_time: u64,
    info: MessageInfo,
    msg: ExecuteMsg,
    sequence: u64,
) -> (r: Result<Response, ContractError>)
    requires
        old(reg).wf(),
    ensures
        final(reg).wf(),
        r is Err ==> *final(reg) == *old(reg),
        match msg {
            ExecuteMsg::Transfer(m) => {
                &&& (info.funds@.len() == 0 || (info.funds@.len() == 1 && info.funds@[0].amount == 0))
                    ==> r == Err::<Response, ContractError>(
                    ContractError::Payment(crate::error::PaymentError::NoFunds),
                )
                &&& info.funds@.len() > 1 ==> r == Err::<Response, ContractError>(
                    ContractError::Payment(crate::error::PaymentError::MultipleDenoms),
                )
                &&& (info.funds@.len() == 1 && info.funds@[0].amount != 0) ==> transfer_spec(
                    *old(reg),
                    *final(reg),
                    *config,
                    block_time,
                    m,
                    AmountModel::Native {
                        denom: info.funds@[0].denom@,
                        amount: info.funds@[0].amount,
                    },
                    info.sender@,
                    sequence,
                    r,
                )
            },
            ExecuteMsg::Receive(w) => {
                &&& info.funds@.len() != 0 ==> r == Err::<Response, ContractError>(
                    ContractError::Payment(crate::error::PaymentError::NonPayable),
                )
                &&& (info.funds@.len() == 0 && w.msg is None) ==> r == Err::<
                    Response,
                    ContractError,
                >(ContractError::NoData)
                &&& (info.funds@.len() == 0 && w.msg is Some) ==> transfer_spec(
                    *old(reg),
                    *final(reg),
                    *config,
                    block_time,
                    w.msg->Some_0,
                    AmountModel::Cw20 { address: info.sender@, amount: w.amount },
                    w.sender@,
                    sequence,
                    r,
                )
            },
        },
{
    match msg {
        ExecuteMsg::Transfer(m) => {
            let coin = match one_coin(&info.sender, &info.funds) {
                Ok(c) => c,
                Err(e) => {
                    return Err(ContractError::Payment(e));
                },
            };
            execute_transfer(reg, config, block_time, m, Amount::Native(coin), info.sender, sequence)
        },
        ExecuteMsg::Receive(w) => {
            if let Err(e) = nonpayable(&info.sender, &info.funds) {
                return Err(ContractError::Payment(e));
            }
            let m = match w.msg {
                Some(m) => m,
                None => {
                    return Err(ContractError::NoData);
                },
            };
            let amount = Amount::Cw20(Cw20Coin { address: info.sender, amount: w.amount });
            execute_transfer(reg, config, block_time, m, amount, w.sender, sequence)
        },
    }
}

/// A transfer of a zero amount fails with `NoFunds` and changes nothing, whatever the
/// registry holds.
pub proof fn lemma_zero_amount_refused(
    a: Registry,
    b: Registry,
    config: Config,
    block_time: u64,
    msg: TransferMsg,
    amount: AmountModel,
    sender: Seq<char>,
    sequence: u64,
    r: Result<Response, ContractError>,
)
    requires
        transfer_spec(a, b, config, block_time, msg, amount, sender, sequence, r),
        amount.amount() == 0,
    ensures
        r == Err::<Response, ContractError>(ContractError::NoFunds),
        b == a,
{
}

/// A transfer of a non-zero amount over a channel that is not registered fails with
/// `NoSuchChannel` naming that channel, and changes nothing, whatever the timeout.
pub proof fn lemma_unknown_channel_refused(
    a: Registry,
    b: Registry,
    config: Config,
    block_time: u64,
    msg: TransferMsg,
    amount: AmountModel,
    sender: Seq<char>,
    sequence: u64,
    r: Result<Response, ContractError>,
)
    requires
        transfer_spec(a, b, config, block_time, msg, amount, sender, sequence, r),
        amount.amount() != 0,
        !a.has_channel(msg.channel@),
    ensures
        r matches Err(ContractError::NoSuchChannel { id }) && id@ == msg.channel@,
        b == a,
{
}

/// The sum of the quantities of a sequence of amounts.
pub open spec fn amount_total(amounts: Seq<AmountModel>) -> nat
    decreases amounts.len(),
{
    if amounts.len() == 0 {
        0
    } else {
        amount_total(amounts.drop_last()) + amounts.last().amount() as nat
    }
}

/// Transfers are counted at once: after successful transfers of the same denomination over
/// the same channel, with no settlement in between, both counters have grown by the sum of
/// the amounts, after each call.
pub proof fn lemma_transfers_counted_at_once(
    regs: Seq<Registry>,
    config: Config,
    block_time: u64,
    msgs: Seq<TransferMsg>,
    amounts: Seq<AmountModel>,
    senders: Seq<Seq<char>>,
    sequences: Seq<u64>,
    results: Seq<Result<Response, ContractError>>,
    ch: Seq<char>,
    d: Seq<char>,
)
    requires
        regs.len() == amounts.len() + 1,
        msgs.len() == amounts.len(),
        senders.len() == amounts.len(),
        sequences.len() == amounts.len(),
        results.len() == amounts.len(),
        forall|k: int|
            0 <= k < amounts.len() ==> transfer_spec(
                #[trigger] regs[k],
                regs[k + 1],
                config,
                block_time,
                msgs[k],
                amounts[k],
                senders[k],
                sequences[k],
                results[k],
            ) && results[k] is Ok && msgs[k].channel@ == ch && amounts[k].denom() == d,
    ensures
        regs.last().state_of(ch, d).outstanding == regs[0].state_of(ch, d).outstanding
            + amount_total(amounts),
        regs.last().state_of(ch, d).total_sent == regs[0].state_of(ch, d).total_sent
            + amount_total(amounts),
    decreases amounts.len(),
{
    if amounts.len() > 0 {
        let n = amounts.len() - 1;
        assert forall|k: int| 0 <= k < amounts.drop_last().len() implies transfer_spec(
            #[trigger] regs.drop_last()[k],
            regs.drop_last()[k + 1],
            config,
            block_time,
            msgs.drop_last()[k],
            amounts.drop_last()[k],
            senders.drop_last()[k],
            sequences.drop_last()[k],
            results.drop_last()[k],
        ) && results.drop_last()[k] is Ok && msgs.drop_last()[k].channel@ == ch
            && amounts.drop_last()[k].denom() == d by {
            assert(transfer_spec(
                regs[k],
                regs[k + 1],
                config,
                block_time,
                msgs[k],
                amounts[k],
                senders[k],
                sequences[k],
                results[k],
            ));
        }
        lemma_transfers_counted_at_once(
            regs.drop_last(),
            config,
            block_time,
            msgs.drop_last(),
            amounts.drop_last(),
            senders.drop_last(),
            sequences.drop_last(),
            results.drop_last(),
            ch,
            d,
        );
        assert(transfer_spec(
            regs[n],
            regs[n + 1],
            config,
            block_time,
            msgs[n],
            amounts[n],
            senders[n],
            sequences[n],
            results[n],
        ));
    }
}

/// An acknowledgement delivered again for a packet that it already settled is refused
/// with `UnknownOrDuplicatePacket`, and changes nothing.
pub proof fn lemma_ack_replay_refused(
    a: Registry,
    b: Registry,
    c: Registry,
    ch: Seq<char>,
    sequence: u64,
    outcome: Outcome,
    r1: Result<(), ContractError>,
    r2: Result<(), ContractError>,
)
    requires
        Registry::reconcile_spec(a, b, ch, sequence, Outcome::Success, r1),
        r1 is Ok,
        Registry::reconcile_spec(b, c, ch, sequence, outcome, r2),
    ensures
        r2 == Err::<(), ContractError>(ContractError::UnknownOrDuplicatePacket),
        c == b,
{
}

/// A transfer whose packet then fails or times out leaves the channel's counters for its
/// denomination as they were before the transfer; the settlement itself succeeds.
pub proof fn lemma_failed_transfer_reverted(
    a: Registry,
    b: Registry,
    c: Registry,
    config: Config,
    block_time: u64,
    msg: TransferMsg,
    amount: AmountModel,
    sender: Seq<char>,
    sequence: u64,
    outcome: Outcome,
    r1: Result<Response, ContractError>,
    r2: Result<(), ContractError>,
)
    requires
        transfer_spec(a, b, config, block_time, msg, amount, sender, sequence, r1),
        r1 is Ok,
        outcome != Outcome::Success,
        Registry::reconcile_spec(b, c, msg.channel@, sequence, outcome, r2),
    ensures
        r2 is Ok,
        c.state_of(msg.channel@, amount.denom()) == a.state_of(msg.channel@, amount.denom()),
{
}

/// A transfer that succeeds sends exactly one packet, over the requested channel, timing out
/// at the block time plus the requested timeout (or the configured default), in nanoseconds.
pub proof fn lemma_success_timeout(
    a: Registry,
    b: Registry,
    config: Config,
    block_time: u64,
    msg: TransferMsg,
    amount: AmountModel,
    sender: Seq<char>,
    sequence: u64,
    r: Result<Response, ContractError>,
)
    requires
        transfer_spec(a, b, config, block_time, msg, amount, sender, sequence, r),
        r is Ok,
    ensures
        timeout_ns(block_time, timeout_delta(msg.timeout, config)) <= u64::MAX,
        r matches Ok(res) && res.messages@.len() == 1 && res.messages@[0]@
            == (InstructionModel::IbcSendPacket {
            channel_id: msg.channel@,
            packet: PacketModel {
                denom: amount.denom(),
                amount: amount.amount(),
                sender,
                receiver: msg.remote_address@,
            },
            timeout_timestamp: timeout_ns(block_time, timeout_delta(msg.timeout, config)) as u64,
        }),
{
    if let Ok(res) = r {
        assert(views(res.messages@).len() == 1);
        assert(views(res.messages@)[0] == res.messages@[0]@);
    }
}

} // verus!
