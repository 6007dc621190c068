//! Deployment configuration carried by the hosts.

use crate::fs::git::Creds;
use vstd::prelude::*;

verus! {

/// Where a git-backed deployment reads from.
#[derive(Debug)]
pub struct RepoConfig {
    /// The repository URL.
    pub url: String,
    /// The branch fetched on reload.
    pub branch: String,
    /// Credentials, where the remote needs them.
    pub creds: Option<Creds>,
}

} // verus!
