//! Verified pieces of a shielded-chain node, wallet and custody service:
//!
//! - `dao`: the DAO treasury's balances and parameters, and how deposits,
//!   withdrawals and parameter changes act on them;
//! - `threshold`: the messages of threshold signing and their wire forms;
//! - `keys`: which proving key a client names;
//! - `pcli`: the command-line client's DAO query.
pub mod dao;
pub mod keys;
pub mod pcli;
pub mod threshold;
