//! The host's configuration and where it is found.
use std::path::PathBuf;
use crate::xdg_paths::{xdg_config_file, xdg_with_prefix, XdgConfigFile, XdgDirs};
use vstd::prelude::*;

verus! {

#[verifier::external_type_specification]
#[verifier::external_body]
pub struct ExPathBuf(std::path::PathBuf);

/// A configuration file path and where it came from.
pub enum ConfigPath {
    /// The path given on the command line.
    Given(PathBuf),
    /// A file in the user's XDG configuration home (`$XDG_CONFIG_HOME`, or
    /// `$HOME/.config`).
    Default(XdgConfigFile),
}

impl ConfigPath {
    /// The path itself.
    pub fn into_path(self) -> (r: PathBuf)
        ensures
            r == match self {
                ConfigPath::Given(p) => p,
                ConfigPath::Default(f) => f.path(),
            },
    {
        match self {
            ConfigPath::Given(p) => p,
            ConfigPath::Default(f) => f.into_path(),
        }
    }
}

/// The host's configuration.
#[derive(Clone, Debug)]
pub struct Conf {
    /// A list of absolute paths to plugin .wasm files to load.
    pub plugins: Vec<PathBuf>,
    /// The bot token used to connect to Discord.
    pub discord_token: String,
}

/// Why no configuration path could be found.
#[derive(Clone, Copy, Debug, PartialEq, Eq)]
pub enum ConfError {
    /// The XDG base directories could not be determined: there is no home
    /// directory.
    NoBaseDirectories,
}

/// The default configuration file, given what looking up the user's XDG
/// base directories gave: `config.yml` in the directories found, or
/// `NoBaseDirectories` when none were.
pub fn default_config_path(dirs: Result<XdgDirs, xdg::BaseDirectoriesError>) -> (r: Result<ConfigPath, ConfError>)
    ensures
        dirs matches Ok(d) ==> (r matches Ok(c) && (c matches ConfigPath::Default(f)
            && f.prefix() == d.prefix() && f.file() == "config.yml"@)),
        dirs is Err ==> r == Err::<ConfigPath, ConfError>(ConfError::NoBaseDirectories),
{
    match dirs {
        Ok(d) => Ok(ConfigPath::Default(xdg_config_file(&d, "config.yml"))),
        Err(_) => Err(ConfError::NoBaseDirectories),
    }
}

/// The configuration file to use: the one given, or else `config.yml` in the
/// `hank` directory under the user's XDG configuration home. Fails only when
/// no path is given and the XDG directories cannot be determined; whether
/// they can depends on the environment, and what is done with each outcome
/// is `default_config_path`.
pub fn get_config_path(config_path: Option<PathBuf>) -> (r: Result<ConfigPath, ConfError>)
    ensures
        config_path matches Some(p) ==> r == Ok::<ConfigPath, ConfError>(ConfigPath::Given(p)),
        config_path is None ==> (r matches Ok(c) ==> (c matches ConfigPath::Default(f)
            && f.prefix() == "hank"@ && f.file() == "config.yml"@)),
        config_path is None ==> (r is Err ==> r == Err::<ConfigPath, ConfError>(ConfError::NoBaseDirectories)),
{
    match config_path {
        Some(path) => Ok(ConfigPath::Given(path)),
        None => default_config_path(xdg_with_prefix("hank")),
    }
}

} // verus!
