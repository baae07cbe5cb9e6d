//! Where the configuration comes from: the decisions between the reads, and
//! the errors that failed reads become. The reads themselves are made by the
//! caller.

use crate::document::read_outcome;
use crate::document::ConfigDocument;
use crate::error::EnvFailure;
use crate::error::MescError;
use crate::text::str_equal;
use crate::types::ConfigMode;
use crate::types::RpcConfig;
use crate::validate::config_valid;
use crate::validate::first_violation;
use crate::validate::is_violation;
use crate::validate::validate_config;
use vstd::prelude::*;

verus! {

/// The mode that the selector text `selector` names.
pub open spec fn mode_named(selector: Seq<char>) -> Option<ConfigMode> {
    if selector == "PATH"@ {
        Some(ConfigMode::Path)
    } else if selector == "ENV"@ {
        Some(ConfigMode::Env)
    } else if selector == "DISABLED"@ {
        Some(ConfigMode::Disabled)
    } else {
        None
    }
}

/// The mode that the selector names. A selector that is absent or names no
/// mode is `InvalidConfigMode`: `Disabled` has to be chosen.
pub fn select_mode(selector: Option<&str>) -> (r: Result<ConfigMode, MescError>)
    ensures
        match selector {
            Some(text) => match mode_named(text@) {
                Some(mode) => r == Ok::<ConfigMode, MescError>(mode),
                None => r matches Err(MescError::InvalidConfigMode),
            },
            None => r matches Err(MescError::InvalidConfigMode),
        },
{
    match selector {
        None => Err(MescError::InvalidConfigMode),
        Some(text) => {
            if str_equal(text, "PATH") {
                Ok(ConfigMode::Path)
            } else if str_equal(text, "ENV") {
                Ok(ConfigMode::Env)
            } else if str_equal(text, "DISABLED") {
                Ok(ConfigMode::Disabled)
            } else {
                Err(MescError::InvalidConfigMode)
            }
        },
    }
}

/// What holds the document.
#[derive(Debug, Clone, Copy, PartialEq, Eq, Structural)]
pub enum ConfigSource {
    /// A file, whose path the path indicator gives.
    File,
    /// The text that the inline indicator gives.
    Inline,
}

/// What has to be done next to come to the document.
#[derive(Debug)]
pub enum LoadStep {
    /// Read the file at this path.
    ReadFile(String),
    /// Parse this text.
    Parse(String),
}

/// What holds the document in the mode `mode`. In the mode `Disabled`
/// nothing does, and nothing is to be read: the answer is `MescNotEnabled`.
pub fn config_source(mode: ConfigMode) -> (r: Result<ConfigSource, MescError>)
    ensures
        match mode {
            ConfigMode::Path => r == Ok::<ConfigSource, MescError>(ConfigSource::File),
            ConfigMode::Env => r == Ok::<ConfigSource, MescError>(ConfigSource::Inline),
            ConfigMode::Disabled => r matches Err(MescError::MescNotEnabled),
        },
{
    match mode {
        ConfigMode::Path => Ok(ConfigSource::File),
        ConfigMode::Env => Ok(ConfigSource::Inline),
        ConfigMode::Disabled => Err(MescError::MescNotEnabled),
    }
}

/// The step that follows the reading of the indicator of `source`: with
/// its value, the file to read or the text to parse; without it,
/// `EnvReadError` with the cause.
pub fn after_indicator(source: ConfigSource, value: Result<String, EnvFailure>) -> (r: Result<
    LoadStep,
    MescError,
>)
    ensures
        match value {
            Ok(text) => match source {
                ConfigSource::File => r == Ok::<LoadStep, MescError>(LoadStep::ReadFile(text)),
                ConfigSource::Inline => r == Ok::<LoadStep, MescError>(LoadStep::Parse(text)),
            },
            Err(failure) => r == Err::<LoadStep, MescError>(MescError::EnvReadError(failure)),
        },
{
    match value {
        Ok(text) => match source {
            ConfigSource::File => Ok(LoadStep::ReadFile(text)),
            ConfigSource::Inline => Ok(LoadStep::Parse(text)),
        },
        Err(failure) => Err(MescError::EnvReadError(failure)),
    }
}

/// The step that follows the reading of the file: with its text, to parse
/// it; without it, `IOError` with the cause.
pub fn after_file(read: Result<String, std::io::Error>) -> (r: Result<LoadStep, MescError>)
    ensures
        match read {
            Ok(text) => r == Ok::<LoadStep, MescError>(LoadStep::Parse(text)),
            Err(cause) => r == Err::<LoadStep, MescError>(MescError::IOError(cause)),
        },
{
    match read {
        Ok(text) => Ok(LoadStep::Parse(text)),
        Err(cause) => Err(MescError::IOError(cause)),
    }
}

/// What follows the parsing of the text: a text that did not parse is
/// `InvalidJson`; a document that was parsed is read, and gives the
/// configuration that holds what it holds, or `InvalidChainId` with the
/// first of its texts that stands for a chain id and is none.
pub fn after_parse(parsed: Result<ConfigDocument, serde_json::Error>) -> (r: Result<
    RpcConfig,
    MescError,
>)
    ensures
        match parsed {
            Ok(document) => read_outcome(&document, r),
            Err(_) => r matches Err(MescError::InvalidJson),
        },
{
    match parsed {
        Err(cause) => Err(MescError::from(cause)),
        Ok(document) => RpcConfig::from_document(&document),
    }
}

/// What follows the reading of the document: a configuration that is sound
/// is the configuration; one that is unsound is an `IntegrityError` that
/// names the first thing that is unsound in it.
pub fn after_read(config: RpcConfig) -> (r: Result<RpcConfig, MescError>)
    ensures
        if config_valid(config@, false) {
            r == Ok::<RpcConfig, MescError>(config)
        } else {
            r matches Err(MescError::IntegrityError(detail)) && is_violation(
                config@,
                false,
                detail@,
            ) && first_violation(&config, false, detail@)
        },
{
    match validate_config(&config) {
        Ok(()) => Ok(config),
        Err(error) => Err(error),
    }
}

} // verus!
