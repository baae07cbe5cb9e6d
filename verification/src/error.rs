//! The one error type of the library.

use vstd::prelude::*;

verus! {

/// `serde_json::Error`, the error of reading and writing JSON. Nothing is
/// said of what it holds: it is taken and let go.
#[verifier::external_type_specification]
#[verifier::external_body]
pub struct ExJsonError(serde_json::Error);

/// `std::io::Error`, the error of an I/O operation. Nothing is said of what
/// it holds: it is carried as it came.
#[verifier::external_type_specification]
#[verifier::external_body]
pub struct ExIoError(std::io::Error);

/// Why a value could not be read from the environment.
#[derive(Debug, Clone, Copy, PartialEq, Eq, Structural)]
pub enum EnvFailure {
    /// The variable is not set.
    NotPresent,
    /// The variable holds what is not valid Unicode.
    NotUnicode,
}

/// Everything that can go wrong in this library.
#[derive(Debug)]
pub enum MescError {
    /// A configuration was asked for while the mode is `Disabled`.
    MescNotEnabled,
    /// The mode selector is absent or not one of the known modes.
    InvalidConfigMode,
    /// The text, given back as it came, is not a string of decimal digits.
    InvalidChainId(String),
    /// The configuration refers to what it does not hold.
    IntegrityError(String),
    /// No endpoint answers the request.
    MissingEndpoint(String),
    /// Reading the configuration file failed.
    IOError(std::io::Error),
    /// The configuration text is not well-formed.
    InvalidJson,
    /// Reading the configuration from the environment failed.
    EnvReadError(EnvFailure),
    /// The input has a form that is known and not supported.
    NotImplemented(String),
    /// The input is malformed in some other way.
    InvalidInput,
}

impl From<std::io::Error> for MescError {
    fn from(value: std::io::Error) -> (r: MescError) {
        MescError::IOError(value)
    }
}

impl vstd::std_specs::convert::FromSpecImpl<std::io::Error> for MescError {
    open spec fn obeys_from_spec() -> bool {
        true
    }

    open spec fn from_spec(value: std::io::Error) -> MescError {
        MescError::IOError(value)
    }
}

impl From<serde_json::Error> for MescError {
    /// A text that does not parse is `InvalidJson`: the cause is not handed
    /// on.
    fn from(value: serde_json::Error) -> (r: MescError) {
        MescError::InvalidJson
    }
}

impl vstd::std_specs::convert::FromSpecImpl<serde_json::Error> for MescError {
    open spec fn obeys_from_spec() -> bool {
        true
    }

    open spec fn from_spec(value: serde_json::Error) -> MescError {
        MescError::InvalidJson
    }
}

impl From<EnvFailure> for MescError {
    fn from(value: EnvFailure) -> (r: MescError) {
        MescError::EnvReadError(value)
    }
}

impl vstd::std_specs::convert::FromSpecImpl<EnvFailure> for MescError {
    open spec fn obeys_from_spec() -> bool {
        true
    }

    open spec fn from_spec(value: EnvFailure) -> MescError {
        MescError::EnvReadError(value)
    }
}

} // verus!
