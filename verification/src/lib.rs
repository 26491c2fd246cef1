//! Seal node library: governance, delegation, fees, fork choice, the
//! Narwhal-style mempool, RPC policy, state sync, private tables and node
//! bookkeeping, with their contracts.

pub mod aggregate;
pub mod bridge_admin;
pub mod cli;
pub mod committee;
pub mod council;
pub mod delegation;
pub mod exposition;
pub mod faucet;
pub mod fees;
pub mod governance;
pub mod hash;
pub mod mempool;
pub mod namespaces;
pub mod metrics;
pub mod pq_rpc;
pub mod private_tables;
pub mod rpc;
pub mod runner;
pub mod snapshot;
pub mod text;
