use vstd::prelude::*;

use crate::amount::NativeCoin;
use crate::error::PaymentError;

verus! {

/// Relies on cw0::one_coin: the single coin attached, unless no coin, a zero coin, or
/// coins of several denominations were attached.
#[verifier::external_body]
pub(crate) fn one_coin(sender: &String, funds: &Vec<NativeCoin>) -> (r: Result<NativeCoin, PaymentError>)
    ensures
        funds@.len() == 0 ==> r matches Err(PaymentError::NoFunds),
        funds@.len() == 1 && funds@[0].amount == 0 ==> r matches Err(PaymentError::NoFunds),
        funds@.len() == 1 && funds@[0].amount != 0 ==> r is Ok,
        r matches Ok(c) ==> c == funds@[0],
        funds@.len() > 1 ==> r matches Err(PaymentError::MultipleDenoms),
{
    let info = cosmwasm_std::MessageInfo {
        sender: cosmwasm_std::Addr::unchecked(sender.as_str()),
        funds: funds.iter().map(|c| cosmwasm_std::coin(c.amount, c.denom.as_str())).collect(),
    };
    match cw0::one_coin(&info) {
        Ok(c) => Ok(NativeCoin { denom: c.denom, amount: c.amount.u128() }),
        Err(cw0::PaymentError::MissingDenom(d)) => Err(PaymentError::MissingDenom(d)),
        Err(cw0::PaymentError::ExtraDenom(d)) => Err(PaymentError::ExtraDenom(d)),
        Err(cw0::PaymentError::MultipleDenoms {}) => Err(PaymentError::MultipleDenoms),
        Err(cw0::PaymentError::NoFunds {}) => Err(PaymentError::NoFunds),
        Err(cw0::PaymentError::NonPayable {}) => Err(PaymentError::NonPayable),
    }
}

/// Relies on cw0::nonpayable: refuses exactly when any coin was attached.
#[verifier::external_body]
pub(crate) fn nonpayable(sender: &String, funds: &Vec<NativeCoin>) -> (r: Result<(), PaymentError>)
    ensures
        funds@.len() == 0 ==> r is Ok,
        funds@.len() != 0 ==> r matches Err(PaymentError::NonPayable),
{
    let info = cosmwasm_std::MessageInfo {
        sender: cosmwasm_std::Addr::unchecked(sender.as_str()),
        funds: funds.iter().map(|c| cosmwasm_std::coin(c.amount, c.denom.as_str())).collect(),
    };
    match cw0::nonpayable(&info) {
        Ok(()) => Ok(()),
        Err(_) => Err(PaymentError::NonPayable),
    }
}

} // verus!
