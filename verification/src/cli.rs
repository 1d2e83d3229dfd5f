//! Command-line options of a service that takes its keys at startup.

use vstd::prelude::*;

verus! {

/// Options. Keys are not extracted: each is obtained elsewhere and passed in.
#[derive(Debug)]
pub struct Args {
    /// Listen port.
    pub port: u16,
    /// Bind address.
    pub host: String,
    /// API access token; generated and stored if omitted.
    pub token: Option<String>,
    /// Database keys (16 printable ASCII bytes), one per account.
    pub key: Vec<String>,
    /// Path to a keys file.
    pub keys_file: Option<String>,
    /// Ask for missing keys on standard input.
    pub ask_key: bool,
    /// Restrict to these accounts; all that are found by default.
    pub qq: Vec<String>,
    /// Polling interval for new messages, in milliseconds.
    pub poll_interval: u64,
    /// Data directory.
    pub data_dir: Option<String>,
    /// Log level: error | warn | info | debug.
    pub log: String,
}

impl Default for Args {
    fn default() -> (r: Self)
        ensures
            r.port == 5031,
            r.host@ == "127.0.0.1"@,
            r.token is None,
            r.key@.len() == 0,
            r.keys_file is None,
            !r.ask_key,
            r.qq@.len() == 0,
            r.poll_interval == 1500,
            r.data_dir is None,
            r.log@ == "info"@,
    {
        Args {
            port: 5031,
            host: "127.0.0.1".to_owned(),
            token: None,
            key: Vec::new(),
            keys_file: None,
            ask_key: false,
            qq: Vec::new(),
            poll_interval: 1500,
            data_dir: None,
            log: "info".to_owned(),
        }
    }
}

} // verus!
