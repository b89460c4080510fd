//! The closed error type: one variant per failure kind, with the path and
//! the underlying cause where the operation has them.

use vstd::prelude::*;

verus! {

/// The required entry field that failed validation.
#[derive(Debug, Clone, Copy, PartialEq, Eq, Structural)]
pub enum EntryField {
    Name,
    ConnectionString,
    DbType,
}

/// Every failure an operation can report.
#[derive(Debug, Clone)]
pub enum ConfigError {
    /// The path registry's lock could not be acquired.
    StateUnavailable,
    /// No configuration file path has been set yet.
    NoPathConfigured,
    /// The supplied path is empty after trimming.
    InvalidArgument,
    /// A required entry field is empty after trimming.
    Validation(EntryField),
    /// The file could not be read; carries the path and the cause.
    Read { path: String, cause: String },
    /// The file content is not a well-formed document; carries the path and
    /// the cause.
    Parse { path: String, cause: String },
    /// The file or its directory could not be written; carries the path and
    /// the cause.
    Write { path: String, cause: String },
    /// A delete targeted a name that no entry carries.
    NotFound,
}

impl ConfigError {
    /// The human-readable report of the failure.
    pub fn message(&self) -> (r: String)
        ensures
            r@ == self.message_spec(),
    {
        match self {
            ConfigError::StateUnavailable => String::from_str("path state is unavailable"),
            ConfigError::NoPathConfigured => String::from_str(
                "set the configuration file path first",
            ),
            ConfigError::InvalidArgument => String::from_str("the path must not be empty"),
            ConfigError::Validation(EntryField::Name) => String::from_str(
                "the database name must not be empty",
            ),
            ConfigError::Validation(EntryField::ConnectionString) => String::from_str(
                "the connection string must not be empty",
            ),
            ConfigError::Validation(EntryField::DbType) => String::from_str(
                "the database type must not be empty",
            ),
            ConfigError::Read { path, cause } => String::from_str(
                "failed to read the configuration file: ",
            ).concat(path.as_str()).concat(" (").concat(cause.as_str()).concat(")"),
            ConfigError::Parse { path, cause } => String::from_str(
                "failed to parse the configuration file: ",
            ).concat(path.as_str()).concat(" (").concat(cause.as_str()).concat(")"),
            ConfigError::Write { path, cause } => String::from_str(
                "failed to write the configuration file: ",
            ).concat(path.as_str()).concat(" (").concat(cause.as_str()).concat(")"),
            ConfigError::NotFound => String::from_str("no entry has the given name"),
        }
    }

    /// The exact text of `message`, as a function of the error value.
    pub open spec fn message_spec(&self) -> Seq<char> {
        match self {
            ConfigError::StateUnavailable => "path state is unavailable"@,
            ConfigError::NoPathConfigured => "set the configuration file path first"@,
            ConfigError::InvalidArgument => "the path must not be empty"@,
            ConfigError::Validation(EntryField::Name) => "the database name must not be empty"@,
            ConfigError::Validation(EntryField::ConnectionString) => "the connection string must not be empty"@,
            ConfigError::Validation(EntryField::DbType) => "the database type must not be empty"@,
            ConfigError::Read { path, cause } => "failed to read the configuration file: "@ + path@
                + " ("@ + cause@ + ")"@,
            ConfigError::Parse { path, cause } => "failed to parse the configuration file: "@
                + path@ + " ("@ + cause@ + ")"@,
            ConfigError::Write { path, cause } => "failed to write the configuration file: "@
                + path@ + " ("@ + cause@ + ")"@,
            ConfigError::NotFound => "no entry has the given name"@,
        }
    }
}

} // verus!
