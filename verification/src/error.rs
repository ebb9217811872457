//! Error taxonomy of the store. Every error is terminal for the
//! invoking operation; none is retried internally.

use vstd::prelude::*;
use vstd::string::StringExecFns;

verus! {

/// All failures a store operation can report. Lookup failures carry
/// the missing key; infrastructure failures carry a message.
#[derive(Debug)]
pub enum AppError {
    ProjectNotFound(String),
    EnvironmentNotFound(String),
    VariableNotFound(String),
    ProjectAlreadyExists(String),
    DatabaseError(String),
    IoError(String),
    JsonError(String),
    InvalidInput(String),
    ConfigError(String),
}

impl AppError {
    /// The human-readable message of this error.
    pub fn message(&self) -> (r: String)
        ensures
            match self {
                AppError::ProjectNotFound(n) => r@ == "Project not found: "@ + n@,
                AppError::EnvironmentNotFound(n) => r@ == "Environment not found: "@ + n@,
                AppError::VariableNotFound(n) => r@ == "Variable not found: "@ + n@,
                AppError::ProjectAlreadyExists(n) => r@ == "Project already exists: "@ + n@,
                AppError::DatabaseError(m) => r@ == "Database error: "@ + m@,
                AppError::IoError(m) => r@ == "IO error: "@ + m@,
                AppError::JsonError(m) => r@ == "JSON error: "@ + m@,
                AppError::InvalidInput(m) => r@ == "Invalid input: "@ + m@,
                AppError::ConfigError(m) => r@ == "Configuration error: "@ + m@,
            },
    {
        match self {
            AppError::ProjectNotFound(n) => "Project not found: ".to_owned().concat(n.as_str()),
            AppError::EnvironmentNotFound(n) => "Environment not found: ".to_owned().concat(
                n.as_str(),
            ),
            AppError::VariableNotFound(n) => "Variable not found: ".to_owned().concat(n.as_str()),
            AppError::ProjectAlreadyExists(n) => "Project already exists: ".to_owned().concat(
                n.as_str(),
            ),
            AppError::DatabaseError(m) => "Database error: ".to_owned().concat(m.as_str()),
            AppError::IoError(m) => "IO error: ".to_owned().concat(m.as_str()),
            AppError::JsonError(m) => "JSON error: ".to_owned().concat(m.as_str()),
            AppError::InvalidInput(m) => "Invalid input: ".to_owned().concat(m.as_str()),
            AppError::ConfigError(m) => "Configuration error: ".to_owned().concat(m.as_str()),
        }
    }
}

} // verus!
