//! Decision logic of a pool miner for the Aleo network: share accounting,
//! share judging, the prover's message routing and shutdown, the pool client's
//! reactions, and the account report.
pub mod text;
pub mod binary64;
pub mod paint;
pub mod statistic;
pub mod worker;
pub mod account;
pub mod prover;
pub mod client;

pub use account::create_key;
