//! The global configuration: where the notebooks live.
//!
//! Finding and reading the configuration file is up to the caller, which
//! hands the `root` value it holds, and the home directory, to
//! [`Config::from_root`].

use vstd::prelude::*;

verus! {

/// The global configuration.
pub struct Config {
    /// The directory where notebooks are stored
    pub root: String,
}

/// `input` with a leading `~` (alone, or before a `/`) replaced by `home`;
/// unchanged when there is no such tilde or no home directory.
pub open spec fn tilde_expanded(input: Seq<char>, home: Option<String>) -> Seq<char> {
    if input.len() > 0 && input[0] == '~' && (input.len() == 1 || input[1] == '/') && home is Some {
        home->0@ + input.skip(1)
    } else {
        input
    }
}

/// Relies on `shellexpand::tilde_with_context`: a leading `~` followed by
/// `/` or by nothing is replaced with the home directory when there is one;
/// any other input is returned as it is. (On Windows `~\` is expanded too,
/// so that case is left open.)
#[verifier::external_body]
fn expand_tilde(input: &str, home: Option<String>) -> (r: String)
    ensures
        !(input@.len() > 1 && input@[0] == '~' && input@[1] == '\\') ==> r@ == tilde_expanded(input@, home),
{
    shellexpand::tilde_with_context(input, move || home).into_owned()
}

impl Config {
    /// The configuration whose notebook directory is `root`, with a leading
    /// `~` expanded to `home`.
    pub fn from_root(root: &str, home: Option<String>) -> (r: Config)
        ensures
            !(root@.len() > 1 && root@[0] == '~' && root@[1] == '\\') ==> r.root@ == tilde_expanded(root@, home),
    {
        Config { root: expand_tilde(root, home) }
    }
}

} // verus!
