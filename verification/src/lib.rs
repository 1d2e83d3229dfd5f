//! Verified core of a headless service that reads local QQ NT chat records.

pub mod cli;
pub mod config;
pub mod db;
pub mod keystore;
pub mod order;
pub mod parser;
pub mod pathname;
pub mod pathsafe;
pub mod server;
pub mod store;
pub mod strmap;
pub mod sync;
pub mod text;
