//! A verified core of a UTXO-chain index and query engine: byte-level row
//! codecs for the index families, an ordered key/value store with a map
//! contract, reader-side helpers that turn addresses and scripthash strings
//! into index keys, and the composition layer that unifies the confirmed
//! view with the mempool mirror.

pub mod bytes;
pub mod elements;
pub mod query;
pub mod rest;
pub mod schema;
pub mod store;
