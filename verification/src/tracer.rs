//! The set-up of logging.

use vstd::prelude::*;

use crate::config::Config;

verus! {

/// The configuration that logging is set up with where no other is at hand.
pub fn init() -> (r: Config)
    ensures
        r.key is None,
        r.account_token is None,
        r.max_threads is None,
        r.server_address@ == "quiver.nockpool.com:27016"@,
        r.client_address@ == "0.0.0.0:27017"@,
        !r.network_only,
        !r.insecure,
        !r.benchmark,
        !r.clear_key,
        r.api_url@ == "https://nockpool.com"@,
{
    Config {
        key: None,
        account_token: None,
        max_threads: None,
        server_address: "quiver.nockpool.com:27016".to_owned(),
        client_address: "0.0.0.0:27017".to_owned(),
        network_only: false,
        insecure: false,
        benchmark: false,
        clear_key: false,
        api_url: "https://nockpool.com".to_owned(),
    }
}

} // verus!
