use vstd::prelude::*;
use vstd::string::StringExecFns;

verus! {

/// Where the server listens.
#[derive(Debug, PartialEq, Eq, Clone)]
pub struct Config {
    /// Server address
    pub address: String,
    /// Server port
    pub port: u16,
}

impl Default for Config {
    /// All addresses of the machine, port 8080.
    fn default() -> (config: Config)
        ensures
            config.address@ == "0.0.0.0"@,
            config.port == 8080,
    {
        Config { address: String::from_str("0.0.0.0"), port: 8080 }
    }
}

} // verus!
