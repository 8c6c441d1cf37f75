//! Core of a personal journaling tool: notebooks of text posts, with
//! filename slugs, post path templates, an append-only post index, full-text
//! search and hashtag tallies.

pub mod text;
pub mod slug;
pub mod time;
pub mod path;
pub mod index;
pub mod search;
pub mod config;
pub mod notebooks;
pub mod utils;

pub use config::Config;
pub use notebooks::Notebook;

use vstd::prelude::*;

verus! {

/// What can go wrong in the library's operations.
#[derive(Clone, Copy, Debug, PartialEq, Eq, Structural)]
pub enum Error {
    /// Reading, writing, creating or listing on the file system failed.
    IO,
    /// A configuration file could not be parsed.
    Deserialize,
    /// A configuration could not be written out.
    Serialize,
    /// The platform's configuration directory could not be determined.
    Dirs,
    /// The notebook to be created exists already.
    Exists,
}

} // verus!
