//! Small platform helpers for front ends.

use vstd::prelude::*;

verus! {

/// The kind of desktop system a front end runs on.
#[derive(Clone, Copy, Debug, PartialEq, Eq, Structural)]
pub enum Platform {
    MacOs,
    Windows,
    Unix,
}

/// The program that opens a folder in the platform's file manager.
pub fn file_manager(platform: Platform) -> (r: &'static str)
    ensures
        platform == Platform::MacOs ==> r@ == "open"@,
        platform == Platform::Windows ==> r@ == "explorer"@,
        platform == Platform::Unix ==> r@ == "xdg-open"@,
{
    match platform {
        Platform::MacOs => "open",
        Platform::Windows => "explorer",
        Platform::Unix => "xdg-open",
    }
}

} // verus!
