//! The example-driven help page served for a configuration.

use vstd::prelude::*;
use vstd::string::*;
use crate::version::BONNIE_VERSION;

verus! {

/// The example usage page, naming the current version.
pub fn get_help_page() -> (r: String)
    ensures
        r@ == "
Example Usage:
    Commands can be specified in bonnie.toml:

        version = \""@ + BONNIE_VERSION@ + "\"
        [scripts]
        greet = \"echo Hello World\"

    To run that in the terminal:
        'bonnie greet'

    Arguments can be interpolated into a command:

        [scripts]
        greet.cmd = \"echo \\\"Greetings %lastname. I see your first name is %firstname?\\\"\"
        greet.args = [\"firstname\", \"lastname\"]

    To append all remaining arguments at the end of a script, add a '%%' to the end of the command:

        [scripts]
        dc = \"docker-compose --env-file .my.env %%\"

    Environment variables can also be inserted from custom files, like .env:

        env_files = [\".env\"]

        [scripts]
        interpolation.cmd = \"echo \\\"%GREETING %firstname!\\\"\"
        interpolation.args = [\"firstname\"]
        interpolation.env_vars = [\"GREETING\"]
"@,
{
    let mut out = "
Example Usage:
    Commands can be specified in bonnie.toml:

        version = \"".to_owned();
    out.append(BONNIE_VERSION);
    out.append(
        "\"
        [scripts]
        greet = \"echo Hello World\"

    To run that in the terminal:
        'bonnie greet'

    Arguments can be interpolated into a command:

        [scripts]
        greet.cmd = \"echo \\\"Greetings %lastname. I see your first name is %firstname?\\\"\"
        greet.args = [\"firstname\", \"lastname\"]

    To append all remaining arguments at the end of a script, add a '%%' to the end of the command:

        [scripts]
        dc = \"docker-compose --env-file .my.env %%\"

    Environment variables can also be inserted from custom files, like .env:

        env_files = [\".env\"]

        [scripts]
        interpolation.cmd = \"echo \\\"%GREETING %firstname!\\\"\"
        interpolation.args = [\"firstname\"]
        interpolation.env_vars = [\"GREETING\"]
",
    );
    out
}

} // verus!
