//! The command line of the host.
use std::path::PathBuf;
use vstd::prelude::*;

verus! {

/// The arguments of a plain run of the host.
#[derive(Clone, Debug)]
pub struct HankArgs {
    /// Load configuration from a custom location. Defaults to: $XDG_CONFIG/hank/config.yml
    pub config_path: Option<PathBuf>,
}

/// The subcommands of the host.
#[derive(Clone, Debug)]
pub enum Commands {
    /// Print a config template
    ConfigTemplate,
    /// Create a config file. Defaults to: $XDG_CONFIG/hank/config.yml
    Init {
        /// Create configuration at a custom location.
        config_path: Option<PathBuf>,
    },
}

/// The whole command line: either a subcommand or the arguments of a run.
#[derive(Clone, Debug)]
pub struct Cli {
    pub args: HankArgs,
    pub command: Option<Commands>,
}

/// What the host is asked to do.
#[derive(Clone, Debug)]
pub enum Mode {
    /// Print a configuration template.
    PrintTemplate,
    /// Write a configuration template, at the given place or the default one.
    WriteTemplate(Option<PathBuf>),
    /// Connect and serve with these arguments.
    Serve(HankArgs),
}

impl Cli {
    /// What the command line asks for: the subcommand if there is one, and
    /// otherwise a run with the arguments.
    pub fn mode(self) -> (r: Mode)
        ensures
            match self.command {
                Some(Commands::ConfigTemplate) => r is PrintTemplate,
                Some(Commands::Init { config_path }) => r == Mode::WriteTemplate(config_path),
                None => r == Mode::Serve(self.args),
            },
    {
        match self.command {
            Some(Commands::ConfigTemplate) => Mode::PrintTemplate,
            Some(Commands::Init { config_path }) => Mode::WriteTemplate(config_path),
            None => Mode::Serve(self.args),
        }
    }
}

} // verus!
