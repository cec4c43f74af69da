//! The three ways in which the extension fails.

use vstd::prelude::*;

verus! {

/// A required identifier is missing at startup. The process does not start.
#[derive(Debug, Clone, Copy, PartialEq, Eq, Structural)]
pub enum StartupConfigurationError {
    /// No function name was configured.
    MissingFunctionName,
    /// No bucket name was configured.
    MissingBucketName,
}

/// A record could not be encoded as JSON.
#[derive(Debug)]
pub struct SerializationError {
    /// The error that serde_json reported.
    pub source: serde_json::Error,
}

/// The storage service rejected or failed a write.
#[derive(Debug, Clone, PartialEq, Eq)]
pub struct StorageWriteError<E> {
    /// The error of the storage service, as it was reported.
    pub source: E,
}

/// The name of the setting that holds the function name.
pub open spec fn function_name_setting() -> Seq<char> {
    "FUNCTION_NAME"@
}

/// The name of the setting that holds the bucket name.
pub open spec fn bucket_name_setting() -> Seq<char> {
    "BUCKET_NAME"@
}

impl StartupConfigurationError {
    /// The name of the setting that is missing.
    pub open spec fn setting_spec(self) -> Seq<char> {
        match self {
            StartupConfigurationError::MissingFunctionName => function_name_setting(),
            StartupConfigurationError::MissingBucketName => bucket_name_setting(),
        }
    }

    /// The name of the setting that is missing.
    pub fn setting(&self) -> (name: &'static str)
        ensures
            name@ == self.setting_spec(),
    {
        match self {
            StartupConfigurationError::MissingFunctionName => "FUNCTION_NAME",
            StartupConfigurationError::MissingBucketName => "BUCKET_NAME",
        }
    }

    /// The message with which startup fails.
    pub fn message(&self) -> (text: String)
        ensures
            text@ == self.setting_spec() + " name must be set"@,
    {
        let mut text = String::from_str(self.setting());
        text.append(" name must be set");
        text
    }
}

} // verus!
