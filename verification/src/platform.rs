//! What depends on the system that the server runs on.

use vstd::prelude::*;

verus! {

/// The system that the server runs on.
#[derive(Debug, Clone, Copy, PartialEq, Eq, Structural)]
pub enum HostOs {
    Linux,
    MacOs,
    Windows,
    Other,
}

/// Whether the console has to be told to show colours.
pub fn init(host: HostOs) -> (r: bool)
    ensures
        r == host is Windows,
{
    matches!(host, HostOs::Windows)
}

} // verus!
