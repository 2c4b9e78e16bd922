//! The error kinds that abort a resolution run, with their messages.

use vstd::prelude::*;

verus! {

/// Spec-level mirror of [`ConfigError`], with every text as a character
/// sequence.
pub enum ErrorModel {
    Io { message: Seq<char> },
    Parse { message: Seq<char> },
    KeyNotFound { key: Seq<char> },
    Exec { message: Seq<char> },
    Command { stderr: Seq<char> },
    Encoding,
}

/// An error that aborts a run. Every kind is fatal: nothing is retried and
/// no partial output is produced.
#[derive(Debug)]
pub enum ConfigError {
    /// The descriptor file could not be opened or read.
    Io { message: String },
    /// The descriptor file is not valid, or does not have the expected shape.
    Parse { message: String },
    /// A requested key is absent from the descriptor mapping.
    KeyNotFound { key: String },
    /// A command descriptor's program could not be launched.
    Exec { message: String },
    /// A command descriptor's process wrote to its error stream.
    Command { stderr: String },
    /// A command descriptor's process wrote output that is not valid UTF-8.
    Encoding,
}

impl View for ConfigError {
    type V = ErrorModel;

    open spec fn view(&self) -> ErrorModel {
        match self {
            ConfigError::Io { message } => ErrorModel::Io { message: message@ },
            ConfigError::Parse { message } => ErrorModel::Parse { message: message@ },
            ConfigError::KeyNotFound { key } => ErrorModel::KeyNotFound { key: key@ },
            ConfigError::Exec { message } => ErrorModel::Exec { message: message@ },
            ConfigError::Command { stderr } => ErrorModel::Command { stderr: stderr@ },
            ConfigError::Encoding => ErrorModel::Encoding,
        }
    }
}

/// The human-readable message reported for each error kind.
pub open spec fn message_model(e: ErrorModel) -> Seq<char> {
    match e {
        ErrorModel::Io { message } => message,
        ErrorModel::Parse { message } => message,
        ErrorModel::KeyNotFound { key } => "Key '"@ + key + "' not found in source config"@,
        ErrorModel::Exec { message } => message,
        ErrorModel::Command { stderr } => "Error running command: "@ + stderr,
        ErrorModel::Encoding => "Command output is not valid UTF-8"@,
    }
}

impl ConfigError {
    /// The message that the run reports on its error stream.
    pub fn message(&self) -> (r: String)
        ensures
            r@ == message_model(self@),
    {
        match self {
            ConfigError::Io { message } => message.clone(),
            ConfigError::Parse { message } => message.clone(),
            ConfigError::KeyNotFound { key } => {
                let mut r = String::from_str("Key '");
                r.append(key.as_str());
                r.append("' not found in source config");
                r
            },
            ConfigError::Exec { message } => message.clone(),
            ConfigError::Command { stderr } => {
                let mut r = String::from_str("Error running command: ");
                r.append(stderr.as_str());
                r
            },
            ConfigError::Encoding => String::from_str("Command output is not valid UTF-8"),
        }
    }
}

} // verus!
