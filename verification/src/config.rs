//! Configuration of the engine: the owners to scan and the per-owner
//! repository limit.

use crate::error::Error;
use vstd::prelude::*;
use vstd::string::StringExecFns;

verus! {

/// The engine's configuration.
#[derive(Debug, Clone)]
pub struct Config {
    pub version: String,
    pub github: GitHubConfig,
}

/// Remote-scan settings: the owners whose repositories are tracked, and
/// how many repositories to fetch per owner.
#[derive(Debug, Clone)]
pub struct GitHubConfig {
    pub owners: Vec<String>,
    pub repo_limit: usize,
}

impl Default for Config {
    fn default() -> (r: Self)
        ensures
            r.version@ == "1.0"@,
            r.github.owners@.len() == 1,
            r.github.owners@[0]@ == "softwarewrighter"@,
            r.github.repo_limit == 50,
    {
        let mut owners: Vec<String> = Vec::new();
        owners.push(String::from_str("softwarewrighter"));
        Config {
            version: String::from_str("1.0"),
            github: GitHubConfig { owners, repo_limit: 50 },
        }
    }
}

impl Config {
    /// The active configuration; today the built-in default.
    pub fn load() -> (r: Result<Config, Error>)
        ensures
            r is Ok,
            r->Ok_0.version@ == "1.0"@,
            r->Ok_0.github.owners@.len() == 1,
            r->Ok_0.github.owners@[0]@ == "softwarewrighter"@,
            r->Ok_0.github.repo_limit == 50,
    {
        Ok(Self::default())
    }
}

} // verus!
