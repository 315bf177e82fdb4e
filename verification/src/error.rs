//! The failure conditions the library surfaces: environment errors, lookup
//! errors on command ids, I/O errors reported by the caller, and format
//! errors from the persisted records.

use vstd::prelude::*;
use vstd::string::*;

verus! {

/// Every failure condition of the library. I/O payloads are plain text
/// supplied by the caller that performed the filesystem operation.
#[derive(Debug, Clone, PartialEq)]
pub enum HookmanError {
    /// The working directory is not inside a Git repository.
    NotInGitRepo,
    /// The configuration store was never initialized.
    NotInitialized,
    /// No hook is configured under the given name.
    HookNotFound(String),
    /// No command with the given id exists in the named hook.
    CommandNotFound(String, String),
    /// A command with the given id already exists in the named hook.
    CommandAlreadyExists(String, String),
    /// A configuration file could not be read.
    ConfigReadError(String),
    /// A configuration file could not be written.
    ConfigWriteError(String),
    /// A hook's command list could not be rendered as a script.
    ScriptGenerationError(String),
    /// Any other filesystem failure.
    IoError(String),
    /// A persisted record was malformed.
    TomlError(String),
    /// A record could not be serialized.
    TomlSerError(String),
}

/// The user-readable text of each error.
pub open spec fn spec_message(e: HookmanError) -> Seq<char> {
    match e {
        HookmanError::NotInGitRepo => "Not in a Git repository"@,
        HookmanError::NotInitialized => "Hookman not initialized. Run 'hookman init' first"@,
        HookmanError::HookNotFound(h) => "Hook type '"@ + h@ + "' not found"@,
        HookmanError::CommandNotFound(id, h) =>
            "Command with ID '"@ + id@ + "' not found in hook '"@ + h@ + "'"@,
        HookmanError::CommandAlreadyExists(id, h) =>
            "Command with ID '"@ + id@ + "' already exists in hook '"@ + h@ + "'"@,
        HookmanError::ConfigReadError(s) => "Failed to read configuration: "@ + s@,
        HookmanError::ConfigWriteError(s) => "Failed to write configuration: "@ + s@,
        HookmanError::ScriptGenerationError(s) => "Failed to generate hook script: "@ + s@,
        HookmanError::IoError(s) => "IO error: "@ + s@,
        HookmanError::TomlError(s) => "TOML parsing error: "@ + s@,
        HookmanError::TomlSerError(s) => "TOML serialization error: "@ + s@,
    }
}

impl HookmanError {
    /// Renders the error as the user-readable message shown on failure.
    pub fn message(&self) -> (r: String)
        ensures
            r@ == spec_message(*self),
    {
        match self {
            HookmanError::NotInGitRepo => "Not in a Git repository".to_owned(),
            HookmanError::NotInitialized =>
                "Hookman not initialized. Run 'hookman init' first".to_owned(),
            HookmanError::HookNotFound(h) =>
                "Hook type '".to_owned().concat(h.as_str()).concat("' not found"),
            HookmanError::CommandNotFound(id, h) =>
                "Command with ID '".to_owned()
                    .concat(id.as_str())
                    .concat("' not found in hook '")
                    .concat(h.as_str())
                    .concat("'"),
            HookmanError::CommandAlreadyExists(id, h) =>
                "Command with ID '".to_owned()
                    .concat(id.as_str())
                    .concat("' already exists in hook '")
                    .concat(h.as_str())
                    .concat("'"),
            HookmanError::ConfigReadError(s) =>
                "Failed to read configuration: ".to_owned().concat(s.as_str()),
            HookmanError::ConfigWriteError(s) =>
                "Failed to write configuration: ".to_owned().concat(s.as_str()),
            HookmanError::ScriptGenerationError(s) =>
                "Failed to generate hook script: ".to_owned().concat(s.as_str()),
            HookmanError::IoError(s) => "IO error: ".to_owned().concat(s.as_str()),
            HookmanError::TomlError(s) => "TOML parsing error: ".to_owned().concat(s.as_str()),
            HookmanError::TomlSerError(s) =>
                "TOML serialization error: ".to_owned().concat(s.as_str()),
        }
    }
}

} // verus!
