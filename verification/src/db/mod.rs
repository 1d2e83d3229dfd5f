//! Database layer: account and database discovery, live-reader states, the header offset
//! and the cipher settings.

pub mod decrypt;
pub mod live;
pub mod mirror;
pub mod scan;
pub mod vfs;
