//! Application configuration: the workspace a vault session is opened
//! on, and where the configuration file itself lives.
//!
//! Reading and deserializing the configuration file is I/O and stays
//! outside the library; the types here carry the values, and the path
//! logic is verified.

use vstd::prelude::*;
use crate::util;

verus! {

/// The application configuration.
#[derive(Debug, Clone, PartialEq)]
pub struct AppConfig {
    pub workspace: Workspace,
}

/// The configured workspace: the vault root path as written by the
/// user, possibly tilde-prefixed.
#[derive(Debug, Clone, PartialEq)]
pub struct Workspace {
    pub root: String,
}

/// The configuration file's location under the user's home directory.
///
/// Returns `None` when the home directory cannot be determined.
pub fn get_config_path() -> (r: Option<String>)
    ensures
        match r {
            Some(s) => exists|h: Seq<char>|
                s@ == util::spec_join_path(h, ".config/obsidian-rs/config.toml"@),
            None => true,
        },
{
    match util::get_home_dir() {
        Some(home) => Some(util::join_path(home.as_str(), ".config/obsidian-rs/config.toml")),
        None => None,
    }
}

/// The vault root named by the configuration, with a tilde prefix
/// expanded against the user's home directory.
///
/// Returns `None` when the root needs expansion but the home directory
/// cannot be determined.
pub fn get_root_workspace_path(config: &AppConfig) -> (r: Option<String>)
    ensures
        match r {
            Some(s) => if util::tilde_prefixed(config.workspace.root@) {
                exists|h: Seq<char>| s@ == util::spec_expand_tilde(config.workspace.root@, h)
            } else {
                s@ == config.workspace.root@
            },
            None => util::tilde_prefixed(config.workspace.root@),
        },
{
    util::expand_tilde(config.workspace.root.as_str())
}

} // verus!
