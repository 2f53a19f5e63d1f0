//! The operating systems that the companion runs on.

use vstd::prelude::*;

verus! {

/// The operating system the program was built for.
#[derive(Clone, Copy, Debug, PartialEq, Eq, Structural)]
pub enum Platform {
    MacOs,
    Windows,
    Linux,
    /// Any other system.
    Other,
}

} // verus!
