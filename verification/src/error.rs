//! What can go wrong while a document is loaded.

use vstd::prelude::*;
use vstd::string::{to_string_from_display_ensures, StringExecFns};

verus! {

/// `std::io::Error`, as reading a document's text reports it. It is carried
/// and printed, never looked into.
#[verifier::external_type_specification]
#[verifier::external_body]
pub struct ExIoError(std::io::Error);

/// `serde_yaml::Error`, as parsing a document's text reports it. It is
/// carried and printed, never looked into.
#[verifier::external_type_specification]
#[verifier::external_body]
pub struct ExYamlError(serde_yaml::Error);

/// Why a document could not be loaded.
#[derive(Debug)]
pub enum KubeConfigError {
    /// The text could not be read.
    IoError(std::io::Error),
    /// The text is no kubeconfig document.
    ParseError(serde_yaml::Error),
    /// The document breaks a rule; the message says which.
    ValidationError(String),
}

impl KubeConfigError {
    /// The error in words, for the user: the kind of the error, then what
    /// the cause prints of itself or the rule that is broken.
    pub fn message(&self) -> (text: String)
        ensures
            match self {
                KubeConfigError::IoError(error) => exists|detail: String|
                    #[trigger] to_string_from_display_ensures::<std::io::Error>(error, detail)
                        && text@ == "IO error: "@ + detail@,
                KubeConfigError::ParseError(error) => exists|detail: String|
                    #[trigger] to_string_from_display_ensures::<serde_yaml::Error>(error, detail)
                        && text@ == "Parse error: "@ + detail@,
                KubeConfigError::ValidationError(message) => text@ == "Validation error: "@ + message@,
            },
{
        match self {
            KubeConfigError::IoError(error) => {
                let detail = error.to_string();
                String::from_str("IO error: ").concat(detail.as_str())
            },
            KubeConfigError::ParseError(error) => {
                let detail = error.to_string();
                String::from_str("Parse error: ").concat(detail.as_str())
            },
            KubeConfigError::ValidationError(message) => String::from_str("Validation error: ").concat(
                message.as_str(),
            ),
        }
    }
}

} // verus!
