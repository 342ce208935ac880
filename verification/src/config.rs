//! The configuration of the client.

use vstd::prelude::*;

verus! {

/// The configuration of the client.
#[derive(Debug)]
pub struct Config {
    pub key: Option<String>,
    pub account_token: Option<String>,
    pub max_threads: Option<u32>,
    pub server_address: String,
    pub client_address: String,
    pub network_only: bool,
    pub insecure: bool,
    pub benchmark: bool,
    pub clear_key: bool,
    pub api_url: String,
}

} // verus!
