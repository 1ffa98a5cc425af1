use multisender::amount::{Amount, Cw20Coin, NativeCoin};
use multisender::packet::TransferPacket;
use multisender::error::ContractError;

fn native(denom: &str, amount: u128) -> Amount {
    Amount::Native(NativeCoin { denom: denom.to_string(), amount })
}

#[test]
fn native_amount_parts() {
    let a = native("ucosm", 1234567);
    assert_eq!(a.denom(), "ucosm");
    assert_eq!(a.amount(), 1234567);
    assert!(!a.is_empty());
}

#[test]
fn cw20_amount_denom_has_prefix() {
    let a = Amount::Cw20(Cw20Coin { address: "my-token".to_string(), amount: 888777666 });
    assert_eq!(a.denom(), "cw20:my-token");
    assert_eq!(a.amount(), 888777666);
}

#[test]
fn zero_amount_is_empty() {
    assert!(native("ucosm", 0).is_empty());
    assert!(Amount::Cw20(Cw20Coin { address: "t".to_string(), amount: 0 }).is_empty());
}

#[test]
fn from_parts_round_trips_native() {
    let a = native("uatom", 42);
    match Amount::from_parts(a.denom(), a.amount()) {
        Amount::Native(c) => {
            assert_eq!(c.denom, "uatom");
            assert_eq!(c.amount, 42);
        }
        Amount::Cw20(_) => panic!("expected a native amount"),
    }
}

#[test]
fn from_parts_round_trips_cw20() {
    let a = Amount::Cw20(Cw20Coin { address: "my-token".to_string(), amount: 7 });
    match Amount::from_parts(a.denom(), a.amount()) {
        Amount::Cw20(c) => {
            assert_eq!(c.address, "my-token");
            assert_eq!(c.amount, 7);
        }
        Amount::Native(_) => panic!("expected a token amount"),
    }
}

#[test]
fn from_parts_reads_cw20_prefix() {
    match Amount::from_parts("cw20:abc".to_string(), 3) {
        Amount::Cw20(c) => assert_eq!(c.address, "abc"),
        Amount::Native(_) => panic!("expected a token amount"),
    }
    match Amount::from_parts("cw20".to_string(), 3) {
        Amount::Native(c) => assert_eq!(c.denom, "cw20"),
        Amount::Cw20(_) => panic!("expected a native amount"),
    }
}

#[test]
fn packet_validation() {
    let ok = TransferPacket::new(5, "ucosm".to_string(), &"a".to_string(), &"b".to_string());
    assert_eq!(ok.validate(), Ok(()));
    let zero = TransferPacket::new(0, "ucosm".to_string(), &"a".to_string(), &"b".to_string());
    assert_eq!(zero.validate(), Err(ContractError::InvalidPacket));
    let no_sender = TransferPacket::new(5, "ucosm".to_string(), &"".to_string(), &"b".to_string());
    assert_eq!(no_sender.validate(), Err(ContractError::InvalidPacket));
    let no_receiver = TransferPacket::new(5, "ucosm".to_string(), &"a".to_string(), &"".to_string());
    assert_eq!(no_receiver.validate(), Err(ContractError::InvalidPacket));
    let no_denom = TransferPacket::new(5, "".to_string(), &"a".to_string(), &"b".to_string());
    assert_eq!(no_denom.validate(), Err(ContractError::InvalidPacket));
}
