//! The help page of the command-line surface.

use vstd::prelude::*;
use vstd::string::*;
use crate::version::BONNIE_VERSION;

verus! {

/// The help summary, naming the current version.
pub fn help() -> (r: String)
    ensures
        r@ == "Bonnie v"@ + BONNIE_VERSION@ + " help page:
------------------------

Bonnie is a command aliasing tool that supports extremely simple and extremely advanced syntax.

-h, --help                                      prints this help page
-v, --version                                   prints the current version of Bonnie
-i, --init [-t, --template <template-file>]     creates a new `bonnie.toml` configuration (or whatever's set in `BONNIE_CONF`), using the specified template file if provided
-c, --cache                                     caches the Bonnie configuration file to `.bonnie.cache.json` for performance (this cache must be MANUALLY updated by re-running this command!)

The expected location of a Bonnie configuration file can be changed from the default `./bonnie.toml` by setting the `BONNIE_CONF` environment variable.
The expected location of a Bonnie cache file can be changed from the default `./.bonnie.cache.json` by setting the `BONNIE_CACHE` environment variable.
The expected location of your default template can be changed from the default `~/.bonnie/template.toml` by setting the `BONNIE_TEMPLATE` environment variable."@,
{
    let mut out = "Bonnie v".to_owned();
    out.append(BONNIE_VERSION);
    out.append(
        " help page:
------------------------

Bonnie is a command aliasing tool that supports extremely simple and extremely advanced syntax.

-h, --help                                      prints this help page
-v, --version                                   prints the current version of Bonnie
-i, --init [-t, --template <template-file>]     creates a new `bonnie.toml` configuration (or whatever's set in `BONNIE_CONF`), using the specified template file if provided
-c, --cache                                     caches the Bonnie configuration file to `.bonnie.cache.json` for performance (this cache must be MANUALLY updated by re-running this command!)

The expected location of a Bonnie configuration file can be changed from the default `./bonnie.toml` by setting the `BONNIE_CONF` environment variable.
The expected location of a Bonnie cache file can be changed from the default `./.bonnie.cache.json` by setting the `BONNIE_CACHE` environment variable.
The expected location of your default template can be changed from the default `~/.bonnie/template.toml` by setting the `BONNIE_TEMPLATE` environment variable.",
    );
    out
}

} // verus!
