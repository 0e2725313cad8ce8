//! Settings the engine consumes, with their defaults, and the location of
//! the configuration file.  Loading, saving and watching the file are I/O
//! and happen outside the crate, which receives a plain settings value.

use vstd::prelude::*;

use crate::text::{chars_of, string_from_chars};

verus! {

/// Settings of the filesystem index and the file-opening helpers.
#[derive(Clone, Debug)]
pub struct FilesConfig {
    pub include_hidden: bool,
    pub max_depth: usize,
    pub file_manager: String,
    pub file_editor: String,
    pub open_docs_in_manager: bool,
}

/// The walk depth used when none is configured.
pub fn default_max_depth() -> (r: usize)
    ensures
        r == 3,
{
    3
}

/// The opener used when none is configured.
pub fn default_opener() -> (r: String)
    ensures
        r@ == "default"@,
{
    "default".to_owned()
}

/// The theme used when none is configured.
pub fn default_theme() -> (r: String)
    ensures
        r@ == "default"@,
{
    "default".to_owned()
}

impl Default for FilesConfig {
    /// The stock file settings: a shallow walk, hidden files excluded,
    /// system-default openers.
    fn default() -> (r: FilesConfig)
        ensures
            r.include_hidden == false,
            r.max_depth == 3,
            r.file_manager@ == "default"@,
            r.file_editor@ == "default"@,
            r.open_docs_in_manager == false,
    {
        FilesConfig {
            include_hidden: false,
            max_depth: 3,
            file_manager: "default".to_owned(),
            file_editor: "default".to_owned(),
            open_docs_in_manager: false,
        }
    }
}

/// General launcher settings.
#[derive(Clone, Debug)]
pub struct GeneralConfig {
    pub hotkey: String,
    pub max_results: usize,
    pub launch_on_login: bool,
}

/// The color palette handed to the shell.
#[derive(Clone, Debug)]
pub struct ColorsConfig {
    pub background: String,
    pub surface: String,
    pub accent: String,
    pub accent_glow: String,
    pub text_primary: String,
    pub text_secondary: String,
    pub border: String,
}

/// Script execution settings.
#[derive(Clone, Debug)]
pub struct ScriptsConfig {
    pub directory: String,
    pub timeout_ms: u64,
}

/// Relies on dirs::config_dir: the platform configuration directory, if
/// the platform reports one.  The answer depends on the environment, so
/// nothing more is assumed of it.
#[verifier::external_body]
fn config_base_dir() -> Option<String> {
    dirs::config_dir().map(|p| p.to_string_lossy().into_owned())
}

/// Relies on dirs::home_dir: the user's home directory, if the platform
/// reports one.  The answer depends on the environment, so nothing more
/// is assumed of it.
#[verifier::external_body]
fn home_base_dir() -> Option<String> {
    dirs::home_dir().map(|p| p.to_string_lossy().into_owned())
}

/// The launcher's own configuration directory: the platform configuration
/// directory — or `.config` under home, or `/tmp` as a last resort — with
/// `/vanta` appended.
pub fn config_dir() -> (r: String)
    ensures
        exists|b: Seq<char>| r@ == b + "/vanta"@,
{
    let base: String = match config_base_dir() {
        Some(b) => b,
        None => match home_base_dir() {
            Some(h) => {
                let mut v = chars_of(h.as_str());
                v.extend_from_slice(chars_of("/.config").as_slice());
                string_from_chars(v.as_slice())
            },
            None => "/tmp".to_owned(),
        },
    };
    let mut v = chars_of(base.as_str());
    v.extend_from_slice(chars_of("/vanta").as_slice());
    let r = string_from_chars(v.as_slice());
    proof {
        assert(r@ == base@ + "/vanta"@);
    }
    r
}

/// The path of the configuration file inside [`config_dir`].
pub fn config_path() -> (r: String)
    ensures
        exists|b: Seq<char>| r@ == b + "/vanta/config.json"@,
{
    let d = config_dir();
    let ghost b0 = choose|b: Seq<char>| d@ == b + "/vanta"@;
    let mut v = chars_of(d.as_str());
    v.extend_from_slice(chars_of("/config.json").as_slice());
    let r = string_from_chars(v.as_slice());
    proof {
        assert(r@ == (b0 + "/vanta"@) + "/config.json"@);
        reveal_strlit("/vanta");
        reveal_strlit("/config.json");
        reveal_strlit("/vanta/config.json");
        assert((b0 + "/vanta"@) + "/config.json"@ =~= b0 + "/vanta/config.json"@);
    }
    r
}

} // verus!
