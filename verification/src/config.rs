//! Configuration of the archive reader and of the build-time bundler.

use vstd::prelude::*;

verus! {

/// Runtime configuration of the archive reader: the stem of the archive
/// file name, looked up as `<name>.bin` beside the running executable.
#[derive(Debug, Clone)]
pub struct AssetsTarZstdConfig {
    pub name: String,
}

impl Default for AssetsTarZstdConfig {
    /// The default configuration reads `assets.bin`.
    fn default() -> (c: Self)
        ensures
            c.name@ == "assets"@,
    {
        AssetsTarZstdConfig { name: "assets".to_owned() }
    }
}

/// The host-integration anchor: it carries the configuration the embedder
/// starts the query worker with.  Registering with a host framework and
/// spawning the worker thread are the embedder's part.
#[derive(Debug, Clone)]
pub struct AssetsTarZstdPlugin {
    pub config: AssetsTarZstdConfig,
}

impl AssetsTarZstdPlugin {
    /// A plugin value carrying the given configuration.
    pub fn new(config: AssetsTarZstdConfig) -> (r: Self)
        ensures
            r.config.name@ == config.name@,
    {
        AssetsTarZstdPlugin { config }
    }
}

impl Default for AssetsTarZstdPlugin {
    /// The default plugin reads `assets.bin`.
    fn default() -> (r: Self)
        ensures
            r.config.name@ == "assets"@,
    {
        AssetsTarZstdPlugin { config: AssetsTarZstdConfig { name: "assets".to_owned() } }
    }
}

/// Build-time configuration of the bundler: the source directory to
/// compress (also the stem of the output file), and the directory the
/// archive is written to, relative to the build output directory.
#[derive(Debug, Clone)]
pub struct Config {
    pub name: String,
    pub target_dir: String,
}

impl Default for Config {
    /// The default bundles `./assets` into `assets.bin` next to the
    /// executable that the build produces.
    fn default() -> (c: Self)
        ensures
            c.name@ == "assets"@,
            c.target_dir@ == "../../.."@,
    {
        Config { name: "assets".to_owned(), target_dir: "../../..".to_owned() }
    }
}

} // verus!
