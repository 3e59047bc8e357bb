//! The host platform, chosen once by the surrounding program.

use vstd::prelude::*;

verus! {

/// The platforms the cleaner knows. Every platform-conditional table in
/// this crate is a function of this tag, so the choice of platform is
/// made at exactly one place, by the caller.
#[derive(Clone, Copy, PartialEq, Eq, Structural, Debug)]
pub enum Platform {
    MacOs,
    Windows,
    Linux,
}

/// The path separator of each platform.
pub open spec fn spec_separator(p: Platform) -> char {
    match p {
        Platform::Windows => '\\',
        _ => '/',
    }
}

impl Platform {
    /// The path separator of this platform.
    pub fn separator(&self) -> (r: char)
        ensures
            r == spec_separator(*self),
    {
        match self {
            Platform::Windows => '\\',
            _ => '/',
        }
    }
}

} // verus!
