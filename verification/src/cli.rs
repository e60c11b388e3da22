//! Command line arguments.

use vstd::prelude::*;

verus! {

/// Command line arguments.
pub struct Options {
    /// Links which will be opened at startup.
    pub links: Vec<String>,
    pub subcommands: Option<Subcommands>,
}

/// Subcommands of the browser binary.
pub enum Subcommands {
    /// Change configuration through IPC.
    Config(ConfigOptions),
}

/// Configuration requests sent to running browsers.
pub enum ConfigOptions {
    /// Get the current value of an option
    Get(GetConfig),
    /// Set a runtime override for an option
    SetValue(SetConfig),
    /// Reset an option to its config file value
    Reset(ResetConfig),
}

/// Arguments of a configuration read.
pub struct GetConfig {
    /// Config option path [example: 'colors.fg'].
    pub path: Option<String>,
}

/// Arguments of a configuration override.
pub struct SetConfig {
    /// Config option path [example: 'colors.fg'].
    pub path: String,
    /// New config value.
    pub value: String,
}

/// Arguments of a configuration reset.
pub struct ResetConfig {
    /// Config option path [example: 'colors.fg'].
    pub path: String,
}

} // verus!
