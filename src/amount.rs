use vstd::prelude::*;

verus! {

/// A quantity of a native asset of the chain.
#[derive(Debug, PartialEq)]
pub struct NativeCoin {
    pub denom: String,
    pub amount: u128,
}

/// A quantity of a token held by a token contract, named by the contract's address.
#[derive(Debug)]
pub struct Cw20Coin {
    pub address: String,
    pub amount: u128,
}

/// A quantity of either a native asset or a token-contract asset.
#[derive(Debug)]
pub enum Amount {
    Native(NativeCoin),
    Cw20(Cw20Coin),
}

/// What an amount denotes.
pub enum AmountModel {
    Native { denom: Seq<char>, amount: u128 },
    Cw20 { address: Seq<char>, amount: u128 },
}

/// The prefix that marks a denomination as a token contract's.
pub open spec fn cw20_prefix() -> Seq<char> {
    seq!['c', 'w', '2', '0', ':']
}

/// Whether `s` begins with `p`.
pub open spec fn has_prefix(s: Seq<char>, p: Seq<char>) -> bool {
    p.len() <= s.len() && s.subrange(0, p.len() as int) == p
}

impl AmountModel {
    /// The denomination: the native one, or the token contract's address after `cw20:`.
    pub open spec fn denom(self) -> Seq<char> {
        match self {
            AmountModel::Native { denom, .. } => denom,
            AmountModel::Cw20 { address, .. } => cw20_prefix() + address,
        }
    }

    pub open spec fn amount(self) -> u128 {
        match self {
            AmountModel::Native { amount, .. } => amount,
            AmountModel::Cw20 { amount, .. } => amount,
        }
    }
}

/// The amount that a denomination and a quantity denote: a denomination that begins with
/// `cw20:` names a token contract, any other a native asset.
pub open spec fn from_parts_spec(denom: Seq<char>, amount: u128) -> AmountModel {
    if has_prefix(denom, cw20_prefix()) {
        AmountModel::Cw20 { address: denom.skip(cw20_prefix().len() as int), amount }
    } else {
        AmountModel::Native { denom, amount }
    }
}

impl View for Amount {
    type V = AmountModel;

    open spec fn view(&self) -> AmountModel {
        match self {
            Amount::Native(c) => AmountModel::Native { denom: c.denom@, amount: c.amount },
            Amount::Cw20(c) => AmountModel::Cw20 { address: c.address@, amount: c.amount },
        }
    }
}

/// Relies on str::strip_prefix: `Some` of what follows `p` exactly when `s` begins with `p`.
#[verifier::external_body]
fn strip_prefix<'a>(s: &'a str, p: &str) -> (r: Option<&'a str>)
    ensures
        r is Some <==> has_prefix(s@, p@),
        r matches Some(rest) ==> rest@ == s@.skip(p@.len() as int),
{
    s.strip_prefix(p)
}

impl Amount {
    pub fn amount(&self) -> (r: u128)
        ensures
            r == self@.amount(),
    {
        match self {
            Amount::Native(c) => c.amount,
            Amount::Cw20(c) => c.amount,
        }
    }

    pub fn denom(&self) -> (r: String)
        ensures
            r@ == self@.denom(),
    {
        match self {
            Amount::Native(c) => c.denom.clone(),
            Amount::Cw20(c) => {
                let prefix = "cw20:".to_owned();
                proof {
                    reveal_strlit("cw20:");
                }
                assert(prefix@ =~= cw20_prefix());
                prefix.concat(c.address.as_str())
            },
        }
    }

    pub fn is_empty(&self) -> (r: bool)
        ensures
            r == (self@.amount() == 0),
    {
        self.amount() == 0
    }

    pub fn from_parts(denom: String, amount: u128) -> (r: Amount)
        ensures
            r@ == from_parts_spec(denom@, amount),
    {
        proof {
            reveal_strlit("cw20:");
        }
        let stripped = strip_prefix(denom.as_str(), "cw20:");
        match stripped {
            Some(rest) => {
                let address = rest.to_owned();
                assert("cw20:"@ =~= cw20_prefix());
                Amount::Cw20(Cw20Coin { address, amount })
            },
            None => {
                assert("cw20:"@ =~= cw20_prefix());
                Amount::Native(NativeCoin { denom, amount })
            },
        }
    }
}

/// Taking an amount apart into its denomination and quantity and rebuilding it with
/// `from_parts` gives the same amount, unless it is a native amount whose denomination
/// itself begins with `cw20:`.
pub proof fn lemma_from_parts_round_trip(a: AmountModel)
    requires
        a is Native ==> !has_prefix(a.denom(), cw20_prefix()),
    ensures
        from_parts_spec(a.denom(), a.amount()) == a,
{
    if let AmountModel::Cw20 { address, amount } = a {
        assert(a.denom().subrange(0, 5) =~= cw20_prefix());
        assert(a.denom().skip(5) =~= address);
    }
}

} // verus!
