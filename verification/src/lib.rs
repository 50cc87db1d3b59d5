//! Egrex: a local SOCKS5 forwarder that rotates requests through a pool of
//! verified upstream SOCKS5 nodes. This crate holds the logic: the pools and
//! their maintenance, the SOCKS5 client exchange, configuration, the daemon
//! bookkeeping and the FOFA discovery loop.

pub mod checker;
pub mod cli;
pub mod config;
pub mod daemon;
pub mod display;
pub mod fofa;
pub mod hosts;
pub mod order;
pub mod pool;
pub mod socks5;
pub mod text;
pub mod traffic;
pub mod urls;
