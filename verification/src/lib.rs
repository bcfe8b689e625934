//! Synchronises published IP and CIDR blocklists into firewall set updates.
//!
//! The crate holds the decisions of one synchronisation pass: how list text
//! becomes canonical addresses, when a cached copy is fresh enough to skip a
//! download, how batches from several URLs are merged under an entry limit,
//! which entries an exclusion list removes, and which commands reach the
//! firewall. Every function carries a contract that Verus proves.

pub mod cache;
pub mod commands;
pub mod config;
pub mod filter;
pub mod ip;
pub mod list;
pub mod nfset;
pub mod provider;
pub mod relative_time;
pub mod source;
pub mod timestamp;
