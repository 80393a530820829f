//! Where the package manager keeps its own files, and the two roots that an
//! installation works between.

use crate::text::join2;
use vstd::prelude::*;

verus! {

/// The directory of the package manager under the user's home directory.
pub open spec fn qipi_root(home: Seq<char>) -> Seq<char> {
    home + "/.qipi"@
}

/// The configuration file.
pub open spec fn config_file(home: Seq<char>) -> Seq<char> {
    qipi_root(home) + "/config.toml"@
}

/// The root of the tarball cache.
pub open spec fn cache_root(home: Seq<char>) -> Seq<char> {
    qipi_root(home) + "/cache"@
}

/// The path of the package manager's directory under `home`.
pub fn get_qipi_root_path(home: &str) -> (r: String)
    ensures
        r@ == qipi_root(home@),
{
    join2(home, "/.qipi")
}

/// The path of the configuration file under `home`.
pub fn get_config_path(home: &str) -> (r: String)
    ensures
        r@ == config_file(home@),
{
    let root = get_qipi_root_path(home);
    join2(root.as_str(), "/config.toml")
}

/// The path of the cache root under `home`.
pub fn get_cache_path(home: &str) -> (r: String)
    ensures
        r@ == cache_root(home@),
{
    let root = get_qipi_root_path(home);
    join2(root.as_str(), "/cache")
}

/// The roots of one run: resolved once, and handed to whatever needs them.
#[derive(Debug)]
pub struct Config {
    /// The root of the tarball cache.
    pub cache_root: String,
    /// The directory that holds the lockfile and `node_modules`.
    pub project_root: String,
}

/// A `Config` as plain values.
pub struct ConfigView {
    pub cache_root: Seq<char>,
    pub project_root: Seq<char>,
}

impl View for Config {
    type V = ConfigView;

    open spec fn view(&self) -> ConfigView {
        ConfigView { cache_root: self.cache_root@, project_root: self.project_root@ }
    }
}

impl Config {
    /// The roots for a user whose home directory is `home`, working in
    /// `project_root`.
    pub fn new(home: &str, project_root: &str) -> (r: Config)
        ensures
            r@ == (ConfigView { cache_root: cache_root(home@), project_root: project_root@ }),
    {
        Config { cache_root: get_cache_path(home), project_root: String::from_str(project_root) }
    }
}

} // verus!
