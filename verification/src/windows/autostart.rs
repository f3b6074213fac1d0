//! Starting with Windows.

use vstd::prelude::*;

verus! {

/// The command that Windows runs at startup: the window, with the same
/// configuration. Paths may hold spaces, so they stand in quotation marks.
pub fn startup_command(exe: &str, config: &str) -> (r: String)
    ensures
        r@ == "\""@ + exe@ + "\" gui --config \""@ + config@ + "\""@,
{
    "\"".to_owned().concat(exe).concat("\" gui --config \"").concat(config).concat("\"")
}

} // verus!
