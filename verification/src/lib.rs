//! A deterministic marketplace for compute resources: users reserve
//! capacity on nodes, funds are escrowed per reservation, and farmers are
//! paid at a per-second rate derived from their published resource prices.
//! Contracts are indexed by expiration second and decommissioned when their
//! prepaid balance runs out.

pub mod account;
pub mod decimal;
pub mod errors;
pub mod foreign;
pub mod laws;
pub mod market;
pub mod oracle;
pub mod pricing;
pub mod scale;
pub mod store;
