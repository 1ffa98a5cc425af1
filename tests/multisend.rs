use multisender::amount::NativeCoin;
use multisender::msg::Instruction;
use multisender::multisender::{
    execute, execute_send, send_tokens, Balance, ContractError, Cw20Entry, HandleMsg, Recipient,
};

fn recipient(address: &str, native: Vec<NativeCoin>, cw20: Vec<Cw20Entry>) -> Recipient {
    Recipient { address: address.to_string(), amount: Balance { native, cw20 } }
}

fn coin(amount: u128, denom: &str) -> NativeCoin {
    NativeCoin { denom: denom.to_string(), amount }
}

fn token(address: Option<&str>, amount: u128) -> Cw20Entry {
    Cw20Entry { address: address.map(|a| a.to_string()), amount }
}

#[test]
fn native_then_token_in_order() {
    let rs = vec![
        recipient("A", vec![coin(10, "X")], vec![]),
        recipient("B", vec![], vec![token(Some("T"), 5)]),
    ];
    let msgs = send_tokens(&rs).ok().unwrap();
    assert_eq!(msgs.len(), 2);
    match &msgs[0] {
        Instruction::BankSend { to_address, amount } => {
            assert_eq!(to_address, "A");
            assert_eq!(amount, &vec![coin(10, "X")]);
        }
        _ => panic!("expected a bank send"),
    }
    match &msgs[1] {
        Instruction::WasmExecute { contract_addr, msg } => {
            assert_eq!(contract_addr, "T");
            assert_eq!(
                String::from_utf8(msg.clone()).unwrap(),
                r#"{"transfer":{"recipient":"B","amount":"5"}}"#
            );
        }
        _ => panic!("expected a token transfer"),
    }
}

#[test]
fn unresolved_token_contract_fails_whole_call() {
    let rs = vec![
        recipient("A", vec![coin(10, "X")], vec![]),
        recipient("B", vec![], vec![token(None, 5)]),
    ];
    match send_tokens(&rs) {
        Err(ContractError::InvalidRecipient { index }) => assert_eq!(index, 1),
        Ok(_) => panic!("expected a failure"),
    }
}

#[test]
fn first_unresolved_recipient_is_named() {
    let rs = vec![
        recipient("A", vec![], vec![token(Some("T"), 1), token(None, 2)]),
        recipient("B", vec![], vec![token(None, 5)]),
    ];
    match send_tokens(&rs) {
        Err(ContractError::InvalidRecipient { index }) => assert_eq!(index, 0),
        Ok(_) => panic!("expected a failure"),
    }
}

#[test]
fn all_native_coins_in_one_send() {
    let rs = vec![recipient("A", vec![coin(1, "X"), coin(2, "Y")], vec![token(Some("T"), 3), token(Some("U"), 4)])];
    let msgs = send_tokens(&rs).ok().unwrap();
    assert_eq!(msgs.len(), 3);
    match &msgs[0] {
        Instruction::BankSend { amount, .. } => assert_eq!(amount.len(), 2),
        _ => panic!("expected a bank send"),
    }
    match (&msgs[1], &msgs[2]) {
        (
            Instruction::WasmExecute { contract_addr: a, .. },
            Instruction::WasmExecute { contract_addr: b, .. },
        ) => {
            assert_eq!(a, "T");
            assert_eq!(b, "U");
        }
        _ => panic!("expected two token transfers"),
    }
}

#[test]
fn empty_recipient_gets_nothing() {
    let rs = vec![recipient("A", vec![], vec![])];
    assert_eq!(send_tokens(&rs).ok().unwrap().len(), 0);
    assert_eq!(send_tokens(&vec![]).ok().unwrap().len(), 0);
}

#[test]
fn send_reports_action() {
    let rs = vec![recipient("A", vec![coin(10, "X")], vec![])];
    let res = execute_send(rs).ok().unwrap();
    assert_eq!(res.messages.len(), 1);
    assert_eq!(res.attributes.len(), 1);
    assert_eq!(res.attributes[0].key, "action");
    assert_eq!(res.attributes[0].value, "send");
    let res = execute(HandleMsg::Send { recipients: vec![recipient("A", vec![coin(1, "X")], vec![])] })
        .ok()
        .unwrap();
    assert_eq!(res.messages.len(), 1);
}
