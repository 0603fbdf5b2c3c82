use vstd::prelude::*;

use crate::strings::concat_str;
use crate::text::str_equal;

verus! {

/// Name of the language server binary.
pub const SERVER_NAME: &'static str = "qlsp";

/// Version of the language server.
pub const SERVER_VERSION: &'static str = "0.1.0";

/// The command-line words that ask for the version.
pub fn is_version_command(command: &str) -> (version: bool)
    ensures
        version == (command@ == "--version"@ || command@ == "-V"@ || command@ == "version"@),
{
    str_equal(command, "--version") || str_equal(command, "-V") || str_equal(command, "version")
}

/// `<binary name> <version>`.
pub fn version_text(binary_name: &str) -> (text: String)
    ensures
        text@ == binary_name@ + " "@ + SERVER_VERSION@,
{
    let with_space = concat_str(binary_name, " ");
    concat_str(with_space.as_str(), SERVER_VERSION)
}

} // verus!
