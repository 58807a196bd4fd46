pub mod protocol;
pub mod filter;
pub mod backend;
pub mod config;
pub mod connection;
