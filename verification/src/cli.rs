//! The command line the gateway accepts: a configuration file, a port, and a
//! validate-only mode. Argument parsing itself happens at the program's edge;
//! this type carries the parsed values.

use vstd::prelude::*;

verus! {

/// The gateway's invocation: where the configuration lives, which port to
/// listen on, and whether to only validate the configuration and exit.
pub struct Cli {
    pub config: String,
    pub port: u16,
    pub validate_config: bool,
}

impl Cli {
    /// The defaults the command line starts from: `config.yml` on port 8080,
    /// serving rather than only validating.
    pub fn default_values() -> (r: Cli)
        ensures
            r.config@ == "config.yml"@,
            r.port == 8080,
            !r.validate_config,
    {
        Cli { config: "config.yml".to_owned(), port: 8080, validate_config: false }
    }
}

} // verus!
