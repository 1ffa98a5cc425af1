use multisender::amount::{Amount, Cw20Coin, NativeCoin};
use multisender::bridge::{
    compute_timeout, execute, execute_transfer, Config, ExecuteMsg, MessageInfo, ReceiveMsg,
    TransferMsg,
};
use multisender::error::{ContractError, PaymentError};
use multisender::msg::{Instruction, Response};
use multisender::registry::{ChannelInfo, ChannelState, Outcome, Registry};

const DEFAULT_TIMEOUT: u64 = 600;
const BLOCK_TIME: u64 = 1000;

fn channel(id: &str) -> ChannelInfo {
    ChannelInfo {
        id: id.to_string(),
        counterparty_port: "transfer".to_string(),
        counterparty_channel: format!("{}-remote", id),
        connection_id: "connection-2".to_string(),
        version: "ics20-1".to_string(),
    }
}

fn setup(ids: &[&str]) -> Registry {
    let mut reg = Registry::new();
    for id in ids {
        reg.open_channel(channel(id));
    }
    reg
}

fn config() -> Config {
    Config { default_timeout: DEFAULT_TIMEOUT }
}

fn transfer_msg(ch: &str, timeout: Option<u64>) -> TransferMsg {
    TransferMsg { channel: ch.to_string(), remote_address: "foreign-address".to_string(), timeout }
}

fn native(amount: u128, denom: &str) -> Amount {
    Amount::Native(NativeCoin { denom: denom.to_string(), amount })
}

fn info(sender: &str, funds: Vec<(u128, &str)>) -> MessageInfo {
    MessageInfo {
        sender: sender.to_string(),
        funds: funds
            .into_iter()
            .map(|(amount, denom)| NativeCoin { denom: denom.to_string(), amount })
            .collect(),
    }
}

fn state(reg: &Registry, ch: &str, denom: &str) -> ChannelState {
    reg.get_state(&ch.to_string(), &denom.to_string())
}

fn only_packet(res: &Response) -> (&str, &multisender::packet::TransferPacket, u64) {
    assert_eq!(res.messages.len(), 1);
    match &res.messages[0] {
        Instruction::IbcSendPacket { channel_id, packet, timeout_timestamp } => {
            (channel_id.as_str(), packet, *timeout_timestamp)
        }
        _ => panic!("expected a packet send"),
    }
}

#[test]
fn timeout_uses_default_in_nanoseconds() {
    let mut reg = setup(&["channel-5"]);
    let res = execute_transfer(
        &mut reg,
        &config(),
        BLOCK_TIME,
        transfer_msg("channel-5", None),
        native(1234567, "ucosm"),
        "foobar".to_string(),
        1,
    )
    .unwrap();
    let (ch, packet, timeout) = only_packet(&res);
    assert_eq!(timeout, 1_600_000_000_000);
    assert_eq!(ch, "channel-5");
    assert_eq!(packet.amount, 1234567);
    assert_eq!(packet.denom, "ucosm");
    assert_eq!(packet.sender, "foobar");
    assert_eq!(packet.receiver, "foreign-address");
}

#[test]
fn timeout_override_is_used() {
    let mut reg = setup(&["channel-5"]);
    let res = execute_transfer(
        &mut reg,
        &config(),
        BLOCK_TIME,
        transfer_msg("channel-5", Some(7777)),
        native(5, "ucosm"),
        "foobar".to_string(),
        1,
    )
    .unwrap();
    assert_eq!(only_packet(&res).2, (BLOCK_TIME + 7777) * 1_000_000_000);
}

#[test]
fn timeout_overflow_is_refused() {
    assert_eq!(compute_timeout(u64::MAX, 1), None);
    assert_eq!(compute_timeout(u64::MAX / 1_000_000_000 + 1, 0), None);
    assert_eq!(compute_timeout(1000, 600), Some(1_600_000_000_000));
    let mut reg = setup(&["channel-5"]);
    let err = execute_transfer(
        &mut reg,
        &config(),
        u64::MAX - 10,
        transfer_msg("channel-5", None),
        native(5, "ucosm"),
        "foobar".to_string(),
        1,
    )
    .unwrap_err();
    assert_eq!(err, ContractError::TimeoutOverflow);
    assert_eq!(state(&reg, "channel-5", "ucosm"), ChannelState { outstanding: 0, total_sent: 0 });
}

#[test]
fn transfer_reports_attributes() {
    let mut reg = setup(&["channel-5"]);
    let res = execute_transfer(
        &mut reg,
        &config(),
        BLOCK_TIME,
        transfer_msg("channel-5", None),
        native(1234567, "ucosm"),
        "foobar".to_string(),
        1,
    )
    .unwrap();
    let pairs: Vec<(String, String)> =
        res.attributes.iter().map(|a| (a.key.clone(), a.value.clone())).collect();
    let expected: Vec<(String, String)> = vec![
        ("action", "transfer"),
        ("sender", "foobar"),
        ("receiver", "foreign-address"),
        ("denom", "ucosm"),
        ("amount", "1234567"),
    ]
    .into_iter()
    .map(|(k, v)| (k.to_string(), v.to_string()))
    .collect();
    assert_eq!(pairs, expected);
}

#[test]
fn zero_amount_fails_with_no_funds() {
    let mut reg = setup(&["channel-5"]);
    for ch in ["channel-5", "channel-45"] {
        let err = execute_transfer(
            &mut reg,
            &config(),
            BLOCK_TIME,
            transfer_msg(ch, None),
            native(0, "ucosm"),
            "foobar".to_string(),
            1,
        )
        .unwrap_err();
        assert_eq!(err, ContractError::NoFunds);
    }
    let err = execute_transfer(
        &mut reg,
        &config(),
        BLOCK_TIME,
        transfer_msg("channel-5", None),
        Amount::Cw20(Cw20Coin { address: "my-token".to_string(), amount: 0 }),
        "foobar".to_string(),
        1,
    )
    .unwrap_err();
    assert_eq!(err, ContractError::NoFunds);
}

#[test]
fn unknown_channel_fails() {
    let mut reg = setup(&["channel-5", "channel-10"]);
    for timeout in [None, Some(1)] {
        let err = execute_transfer(
            &mut reg,
            &config(),
            BLOCK_TIME,
            transfer_msg("channel-45", timeout),
            native(1234567, "ucosm"),
            "foobar".to_string(),
            1,
        )
        .unwrap_err();
        assert_eq!(err, ContractError::NoSuchChannel { id: "channel-45".to_string() });
    }
}

#[test]
fn empty_receiver_is_invalid_packet() {
    let mut reg = setup(&["channel-5"]);
    let msg = TransferMsg { channel: "channel-5".to_string(), remote_address: String::new(), timeout: None };
    let err = execute_transfer(&mut reg, &config(), BLOCK_TIME, msg, native(5, "ucosm"), "foobar".to_string(), 1)
        .unwrap_err();
    assert_eq!(err, ContractError::InvalidPacket);
}

#[test]
fn transfer_counts_at_once() {
    let mut reg = setup(&["channel-5"]);
    for (seq, amount) in [(1u64, 100u128), (2, 50)] {
        execute_transfer(
            &mut reg,
            &config(),
            BLOCK_TIME,
            transfer_msg("channel-5", None),
            native(amount, "ucosm"),
            "foobar".to_string(),
            seq,
        )
        .unwrap();
    }
    assert_eq!(state(&reg, "channel-5", "ucosm"), ChannelState { outstanding: 150, total_sent: 150 });
    assert_eq!(state(&reg, "channel-5", "uatom"), ChannelState { outstanding: 0, total_sent: 0 });
    assert!(reg.is_tracked(&"channel-5".to_string(), 1));
    assert!(reg.is_tracked(&"channel-5".to_string(), 2));
}

#[test]
fn duplicate_sequence_is_refused() {
    let mut reg = setup(&["channel-5"]);
    let send = |reg: &mut Registry| {
        execute_transfer(
            reg,
            &config(),
            BLOCK_TIME,
            transfer_msg("channel-5", None),
            native(100, "ucosm"),
            "foobar".to_string(),
            1,
        )
    };
    send(&mut reg).unwrap();
    assert_eq!(send(&mut reg).unwrap_err(), ContractError::UnknownOrDuplicatePacket);
    assert_eq!(state(&reg, "channel-5", "ucosm"), ChannelState { outstanding: 100, total_sent: 100 });
}

#[test]
fn ack_success_then_replay_is_refused() {
    let mut reg = setup(&["channel-5"]);
    execute_transfer(
        &mut reg,
        &config(),
        BLOCK_TIME,
        transfer_msg("channel-5", None),
        native(100, "ucosm"),
        "foobar".to_string(),
        7,
    )
    .unwrap();
    let ch = "channel-5".to_string();
    assert_eq!(reg.reconcile(&ch, 7, Outcome::Success), Ok(()));
    assert_eq!(state(&reg, "channel-5", "ucosm"), ChannelState { outstanding: 0, total_sent: 100 });
    assert_eq!(reg.reconcile(&ch, 7, Outcome::Success), Err(ContractError::UnknownOrDuplicatePacket));
    assert_eq!(reg.reconcile(&ch, 7, Outcome::Timeout), Err(ContractError::UnknownOrDuplicatePacket));
    assert_eq!(state(&reg, "channel-5", "ucosm"), ChannelState { outstanding: 0, total_sent: 100 });
}

#[test]
fn unknown_packet_is_refused() {
    let mut reg = setup(&["channel-5"]);
    assert_eq!(
        reg.reconcile(&"channel-5".to_string(), 3, Outcome::Failure),
        Err(ContractError::UnknownOrDuplicatePacket)
    );
}

#[test]
fn failure_or_timeout_reverts_send() {
    for outcome in [Outcome::Failure, Outcome::Timeout] {
        let mut reg = setup(&["channel-5"]);
        execute_transfer(
            &mut reg,
            &config(),
            BLOCK_TIME,
            transfer_msg("channel-5", None),
            native(40, "ucosm"),
            "foobar".to_string(),
            1,
        )
        .unwrap();
        let before = state(&reg, "channel-5", "ucosm");
        execute_transfer(
            &mut reg,
            &config(),
            BLOCK_TIME,
            transfer_msg("channel-5", None),
            native(100, "ucosm"),
            "foobar".to_string(),
            2,
        )
        .unwrap();
        assert_eq!(reg.reconcile(&"channel-5".to_string(), 2, outcome), Ok(()));
        assert_eq!(state(&reg, "channel-5", "ucosm"), before);
    }
}

#[test]
fn native_transfer_needs_one_coin() {
    let mut reg = setup(&["channel-5"]);
    let msg = || ExecuteMsg::Transfer(transfer_msg("channel-5", None));
    let err = execute(&mut reg, &config(), BLOCK_TIME, info("foobar", vec![]), msg(), 1).unwrap_err();
    assert_eq!(err, ContractError::Payment(PaymentError::NoFunds));
    let err = execute(&mut reg, &config(), BLOCK_TIME, info("foobar", vec![(0, "ucosm")]), msg(), 1)
        .unwrap_err();
    assert_eq!(err, ContractError::Payment(PaymentError::NoFunds));
    let err = execute(
        &mut reg,
        &config(),
        BLOCK_TIME,
        info("foobar", vec![(1234567, "ucosm"), (54321, "uatom")]),
        msg(),
        1,
    )
    .unwrap_err();
    assert_eq!(err, ContractError::Payment(PaymentError::MultipleDenoms));
    let res = execute(&mut reg, &config(), BLOCK_TIME, info("foobar", vec![(1234567, "ucosm")]), msg(), 1)
        .unwrap();
    let (_, packet, _) = only_packet(&res);
    assert_eq!(packet.denom, "ucosm");
    assert_eq!(packet.amount, 1234567);
    assert_eq!(packet.sender, "foobar");
}

#[test]
fn token_deposit_transfers_tokens() {
    let mut reg = setup(&["channel-3", "channel-15"]);
    let receive = || {
        ExecuteMsg::Receive(ReceiveMsg {
            sender: "my-account".to_string(),
            amount: 888777666,
            msg: Some(transfer_msg("channel-15", Some(7777))),
        })
    };
    let res = execute(&mut reg, &config(), BLOCK_TIME, info("my-token", vec![]), receive(), 1).unwrap();
    let (ch, packet, timeout) = only_packet(&res);
    assert_eq!(ch, "channel-15");
    assert_eq!(timeout / 1_000_000_000, BLOCK_TIME + 7777);
    assert_eq!(packet.amount, 888777666);
    assert_eq!(packet.denom, "cw20:my-token");
    assert_eq!(packet.sender, "my-account");
    assert_eq!(packet.receiver, "foreign-address");

    let err = execute(&mut reg, &config(), BLOCK_TIME, info("foobar", vec![(1234567, "ucosm")]), receive(), 2)
        .unwrap_err();
    assert_eq!(err, ContractError::Payment(PaymentError::NonPayable));

    let no_data = ExecuteMsg::Receive(ReceiveMsg { sender: "my-account".to_string(), amount: 5, msg: None });
    let err = execute(&mut reg, &config(), BLOCK_TIME, info("my-token", vec![]), no_data, 3).unwrap_err();
    assert_eq!(err, ContractError::NoData);
}

#[test]
fn registry_lookups() {
    let mut reg = setup(&["channel-3", "channel-7"]);
    assert!(reg.has_channel_info(&"channel-3".to_string()));
    assert!(!reg.has_channel_info(&"channel-10".to_string()));
    assert_eq!(reg.get_info(&"channel-7".to_string()).unwrap().id, "channel-7");
    assert!(reg.get_info(&"channel-10".to_string()).is_none());
    assert!(reg.is_well_formed());
    let ch = "channel-3".to_string();
    let d = "ucosm".to_string();
    assert_eq!(reg.record_sent_packet(&ch, 1, &d, 10), Ok(()));
    assert_eq!(reg.record_sent_packet(&ch, 2, &d, 4), Ok(()));
    assert_eq!(reg.record_sent_packet(&ch, 2, &d, 4), Err(ContractError::UnknownOrDuplicatePacket));
    assert_eq!(reg.reconcile(&ch, 2, Outcome::Success), Ok(()));
    assert_eq!(reg.get_state(&ch, &d), ChannelState { outstanding: 10, total_sent: 14 });
    assert_eq!(reg.reconcile(&ch, 1, Outcome::Timeout), Ok(()));
    assert_eq!(reg.get_state(&ch, &d), ChannelState { outstanding: 0, total_sent: 4 });
    assert_eq!(reg.record_sent_packet(&ch, 3, &d, u128::MAX), Err(ContractError::CounterOverflow));
    assert_eq!(reg.get_state(&ch, &d), ChannelState { outstanding: 0, total_sent: 4 });
    assert!(!reg.is_tracked(&ch, 3));
    assert!(reg.is_well_formed());
}

#[test]
fn channel_query_lists_balances() {
    let mut reg = setup(&["channel-3", "channel-7"]);
    let empty = reg.query_channel(&"channel-3".to_string()).unwrap();
    assert_eq!(empty.info.id, "channel-3");
    assert_eq!(empty.balances.len(), 0);
    assert_eq!(empty.total_sent.len(), 0);
    assert!(reg.query_channel(&"channel-10".to_string()).is_none());

    execute_transfer(&mut reg, &config(), BLOCK_TIME, transfer_msg("channel-3", None), native(100, "ucosm"), "a".to_string(), 1)
        .unwrap();
    let token = Amount::Cw20(Cw20Coin { address: "my-token".to_string(), amount: 30 });
    execute_transfer(&mut reg, &config(), BLOCK_TIME, transfer_msg("channel-3", None), token, "a".to_string(), 2).unwrap();
    execute_transfer(&mut reg, &config(), BLOCK_TIME, transfer_msg("channel-7", None), native(9, "uatom"), "a".to_string(), 1)
        .unwrap();
    assert_eq!(reg.reconcile(&"channel-3".to_string(), 1, Outcome::Success), Ok(()));

    let res = reg.query_channel(&"channel-3".to_string()).unwrap();
    assert_eq!(res.balances.len(), 2);
    assert_eq!(res.total_sent.len(), 2);
    assert_eq!((res.balances[0].denom(), res.balances[0].amount()), ("ucosm".to_string(), 0));
    assert_eq!((res.total_sent[0].denom(), res.total_sent[0].amount()), ("ucosm".to_string(), 100));
    match &res.balances[1] {
        Amount::Cw20(c) => {
            assert_eq!(c.address, "my-token");
            assert_eq!(c.amount, 30);
        }
        Amount::Native(_) => panic!("expected a token amount"),
    }
    assert_eq!(res.total_sent[1].amount(), 30);
}

#[test]
fn corrupt_registry_is_detected() {
    let mut reg = setup(&["channel-3"]);
    let ch = "channel-3".to_string();
    let d = "ucosm".to_string();
    reg.record_sent_packet(&ch, 1, &d, 10).unwrap();
    assert!(reg.is_well_formed());
    reg.states[0].state = ChannelState { outstanding: 5, total_sent: 10 };
    assert!(!reg.is_well_formed());
    reg.states[0].state = ChannelState { outstanding: 11, total_sent: 10 };
    assert!(!reg.is_well_formed());
}
