//! Small pieces of the outer program logic that are pure: choosing the
//! configuration path from an already-read environment value.

use vstd::prelude::*;
use vstd::string::*;

verus! {

/// The path of the configuration file: the value of the `BONNIE_CONF`
/// environment variable when one was read, else `./bonnie.toml`. The caller
/// reads the variable and hands the outcome in.
pub fn get_cfg_path(env_var: Option<String>) -> (r: String)
    ensures
        match env_var {
            Option::Some(p) => r@ == p@,
            Option::None => r@ == "./bonnie.toml"@,
        },
{
    match env_var {
        Option::Some(p) => p,
        Option::None => "./bonnie.toml".to_owned(),
    }
}

} // verus!
