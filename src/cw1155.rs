use vstd::prelude::*;

verus! {

/// When an approval lapses.
pub enum Expiration {
    /// At this block height.
    AtHeight(u64),
    /// At this block time, in nanoseconds.
    AtTime(u64),
    Never,
}

/// The messages of a multi-token contract.
pub enum Cw1155HandleMsg {
    /// Moves tokens, if the caller is the owner or has sufficient approval.
    SendFrom {
        from: String,
        /// Where `to` is not a contract, `msg` should be `None`.
        to: String,
        token_id: String,
        value: u128,
        /// `None` skips the receiver's hook.
        msg: Option<Vec<u8>>,
    },
    /// Moves several kinds of tokens at once, if the caller is the owner or has sufficient
    /// approval.
    BatchSendFrom {
        from: String,
        /// Where `to` is not a contract, `msg` should be `None`.
        to: String,
        batch: Vec<(String, u128)>,
        /// `None` skips the receiver's hook.
        msg: Option<Vec<u8>>,
    },
    /// Mints tokens.
    Mint {
        /// Where `to` is not a contract, `msg` should be `None`.
        to: String,
        token_id: String,
        value: u128,
        /// `None` skips the receiver's hook.
        msg: Option<Vec<u8>>,
    },
    /// Mints several kinds of tokens at once.
    BatchMint {
        /// Where `to` is not a contract, `msg` should be `None`.
        to: String,
        batch: Vec<(String, u128)>,
        /// `None` skips the receiver's hook.
        msg: Option<Vec<u8>>,
    },
    /// Burns tokens.
    Burn { from: String, token_id: String, value: u128 },
    /// Burns several kinds of tokens at once.
    BatchBurn { from: String, batch: Vec<(String, u128)> },
    /// Lets an operator move any token of the owner, until the approval expires.
    ApproveAll { operator: String, expires: Option<Expiration> },
    /// Withdraws an approval given with `ApproveAll`.
    RevokeAll { operator: String },
}

} // verus!
