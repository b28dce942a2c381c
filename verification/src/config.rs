use vstd::prelude::*;

verus! {

/// How to reach one LND node: its alias, its TLS certificate (hex), its
/// macaroon (hex) and its `host:port` socket.
#[derive(Clone, Debug, PartialEq, Eq)]
pub struct LndNodeConfig {
    pub alias: String,
    pub cert: String,
    pub macaroon: String,
    pub socket: String,
}

impl LndNodeConfig {
    /// Builds a configuration from its four parts, each copied as given.
    pub fn new(alias: &str, cert: &str, macaroon: &str, socket: &str) -> (config: Self)
        ensures
            config.alias@ == alias@,
            config.cert@ == cert@,
            config.macaroon@ == macaroon@,
            config.socket@ == socket@,
    {
        LndNodeConfig {
            alias: alias.to_owned(),
            cert: cert.to_owned(),
            macaroon: macaroon.to_owned(),
            socket: socket.to_owned(),
        }
    }
}

} // verus!
