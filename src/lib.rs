//! Token transfer handlers: a multisender that fans one call out into many transfers, and a
//! bridge that sends deposits over inter-chain channels and settles them on the other
//! chain's answer.

pub mod amount;
pub mod bridge;
pub mod cw1155;
pub mod error;
mod funds;
pub mod msg;
pub mod multisender;
pub mod packet;
pub mod registry;
