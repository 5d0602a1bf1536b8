//! Error types for settings resolution and payload arbitration.

use vstd::prelude::*;

verus! {

/// Failures of configuration validation and settings resolution.
#[derive(Debug, PartialEq, Eq)]
pub enum ConfigError {
    /// The named profile is not present in the configuration.
    ProfileNotFound { name: String },
    /// The numeric part of a size string did not parse.
    InvalidSizeNumber { input: String },
    /// The unit part of a size string is not a known unit.
    InvalidSizeUnit { unit: String },
    /// The token_store value names no known backend.
    InvalidTokenStore { value: String },
    /// The token_store value names the platform secure store, but the
    /// platform has none.
    TokenStoreUnsupported { value: String },
    /// An output value outside table/tsv/json, with the section that holds it.
    InvalidOutput { section: String, value: String },
    /// A search type outside the valid set in the configuration file, with
    /// the section that holds it.
    InvalidSearchType { section: String, value: String },
    /// A search type outside the valid set in a comma-separated override.
    InvalidSearchTypeValue { value: String },
    /// No layer configured a destination channel.
    DestinationNotConfigured,
    /// No source supplied a credential.
    CredentialNotConfigured,
    /// Headless resolution requires the channel environment variable.
    HeadlessChannelMissing,
    /// Headless resolution requires the token environment variable.
    HeadlessTokenMissing,
    /// A profile name unusable as a token-file name.
    InvalidProfileName { name: String },
}

impl ConfigError {
    /// The exact text of each failure's description.
    pub open spec fn message_view(self) -> Seq<char> {
        match self {
            ConfigError::ProfileNotFound { name } => "profile '"@ + name@
                + "' not found in config"@,
            ConfigError::InvalidSizeNumber { input } => "invalid number in file size: '"@ + input@
                + "'"@,
            ConfigError::InvalidSizeUnit { unit } => "unknown file size unit: '"@ + unit@
                + "' (use KB, MB, or GB)"@,
            ConfigError::InvalidTokenStore { value } => "invalid token_store '"@ + value@
                + "' (valid: keychain, file)"@,
            ConfigError::TokenStoreUnsupported { value } => "token_store '"@ + value@
                + "' is only supported on macOS"@,
            ConfigError::InvalidOutput { section, value } => "invalid output '"@ + value@
                + "' in ["@ + section@ + "] (valid: table, tsv, json)"@,
            ConfigError::InvalidSearchType { section, value } => "invalid search_types '"@ + value@
                + "' in ["@ + section@
                + "] (valid: public_channel, private_channel, im, mpim)"@,
            ConfigError::InvalidSearchTypeValue { value } => "invalid search type '"@ + value@
                + "' (valid: public_channel, private_channel, im, mpim)"@,
            ConfigError::DestinationNotConfigured => "channel is not configured"@,
            ConfigError::CredentialNotConfigured => "token is not configured (use `slafling token set` or set SLAFLING_TOKEN)"@,
            ConfigError::HeadlessChannelMissing => "in headless mode, SLAFLING_CHANNEL must be set"@,
            ConfigError::HeadlessTokenMissing => "in headless mode, SLAFLING_TOKEN must be set"@,
            ConfigError::InvalidProfileName { name } => "invalid profile name '"@ + name@
                + "' (must not be empty or contain /, \\, .., or null)"@,
        }
    }

    /// A human-readable description of the failure.
    pub fn message(&self) -> (r: String)
        ensures
            r@ == self.message_view(),
    {
        match self {
            ConfigError::ProfileNotFound { name } => {
                let mut m = String::from_str("profile '");
                m.append(name.as_str());
                m.append("' not found in config");
                m
            },
            ConfigError::InvalidSizeNumber { input } => {
                let mut m = String::from_str("invalid number in file size: '");
                m.append(input.as_str());
                m.append("'");
                m
            },
            ConfigError::InvalidSizeUnit { unit } => {
                let mut m = String::from_str("unknown file size unit: '");
                m.append(unit.as_str());
                m.append("' (use KB, MB, or GB)");
                m
            },
            ConfigError::InvalidTokenStore { value } => {
                let mut m = String::from_str("invalid token_store '");
                m.append(value.as_str());
                m.append("' (valid: keychain, file)");
                m
            },
            ConfigError::TokenStoreUnsupported { value } => {
                let mut m = String::from_str("token_store '");
                m.append(value.as_str());
                m.append("' is only supported on macOS");
                m
            },
            ConfigError::InvalidOutput { section, value } => {
                let mut m = String::from_str("invalid output '");
                m.append(value.as_str());
                m.append("' in [");
                m.append(section.as_str());
                m.append("] (valid: table, tsv, json)");
                m
            },
            ConfigError::InvalidSearchType { section, value } => {
                let mut m = String::from_str("invalid search_types '");
                m.append(value.as_str());
                m.append("' in [");
                m.append(section.as_str());
                m.append("] (valid: public_channel, private_channel, im, mpim)");
                m
            },
            ConfigError::InvalidSearchTypeValue { value } => {
                let mut m = String::from_str("invalid search type '");
                m.append(value.as_str());
                m.append("' (valid: public_channel, private_channel, im, mpim)");
                m
            },
            ConfigError::DestinationNotConfigured => String::from_str("channel is not configured"),
            ConfigError::CredentialNotConfigured => String::from_str(
                "token is not configured (use `slafling token set` or set SLAFLING_TOKEN)",
            ),
            ConfigError::HeadlessChannelMissing => String::from_str(
                "in headless mode, SLAFLING_CHANNEL must be set",
            ),
            ConfigError::HeadlessTokenMissing => String::from_str(
                "in headless mode, SLAFLING_TOKEN must be set",
            ),
            ConfigError::InvalidProfileName { name } => {
                let mut m = String::from_str("invalid profile name '");
                m.append(name.as_str());
                m.append("' (must not be empty or contain /, \\, .., or null)");
                m
            },
        }
    }
}

/// Failures of payload arbitration.
#[derive(Debug, PartialEq, Eq)]
pub enum PayloadError {
    /// No flag given and standard input is a terminal.
    NoInputProvided,
    /// Both flags request standard input, which can be read once.
    AmbiguousStdin,
    /// The text flag requests standard input, but it is a terminal.
    TextStdinUnavailable,
    /// The file flag requests standard input, but it is a terminal.
    FileStdinUnavailable,
    /// Standard input was read as text but is not valid UTF-8.
    StdinNotUtf8,
    /// The named file could not be read.
    FileRead { path: String },
    /// The file path has no usable final segment.
    InvalidFilePath,
}

impl PayloadError {
    /// The exact text of each failure's description.
    pub open spec fn message_view(self) -> Seq<char> {
        match self {
            PayloadError::NoInputProvided => "no input provided (use -t, -f, or pipe via stdin)"@,
            PayloadError::AmbiguousStdin => "both --text and --file require stdin; provide a value for at least one"@,
            PayloadError::TextStdinUnavailable => "--text requires stdin input but stdin is a terminal"@,
            PayloadError::FileStdinUnavailable => "--file requires stdin input but stdin is a terminal"@,
            PayloadError::StdinNotUtf8 => "stdin is not valid UTF-8 text"@,
            PayloadError::FileRead { path } => "failed to read file: "@ + path@,
            PayloadError::InvalidFilePath => "invalid file path"@,
        }
    }

    /// A human-readable description of the failure.
    pub fn message(&self) -> (r: String)
        ensures
            r@ == self.message_view(),
    {
        match self {
            PayloadError::NoInputProvided => String::from_str(
                "no input provided (use -t, -f, or pipe via stdin)",
            ),
            PayloadError::AmbiguousStdin => String::from_str(
                "both --text and --file require stdin; provide a value for at least one",
            ),
            PayloadError::TextStdinUnavailable => String::from_str(
                "--text requires stdin input but stdin is a terminal",
            ),
            PayloadError::FileStdinUnavailable => String::from_str(
                "--file requires stdin input but stdin is a terminal",
            ),
            PayloadError::StdinNotUtf8 => String::from_str("stdin is not valid UTF-8 text"),
            PayloadError::FileRead { path } => {
                let mut m = String::from_str("failed to read file: ");
                m.append(path.as_str());
                m
            },
            PayloadError::InvalidFilePath => String::from_str("invalid file path"),
        }
    }
}

/// Failures between an accepted payload and its transmission.
#[derive(Debug, PartialEq, Eq)]
pub enum SendError {
    /// The payload is longer than the configured ceiling.
    FileTooLarge { actual: u64, limit: u64 },
    /// A text-only send with nothing to say.
    EmptyMessage,
    /// Confirmation is required but standard input is not a terminal.
    ConfirmationUnavailable,
    /// The user declined at the confirmation prompt.
    Aborted,
}

impl SendError {
    /// The exact text of each failure's description, with both sizes
    /// rendered as `format_size` renders them.
    pub open spec fn message_view(self) -> Seq<char> {
        match self {
            SendError::FileTooLarge { actual, limit } => "file size ("@
                + crate::config::format_size_spec(actual as int) + ") exceeds limit ("@
                + crate::config::format_size_spec(limit as int) + ")"@,
            SendError::EmptyMessage => "message is empty"@,
            SendError::ConfirmationUnavailable => "confirm is enabled but stdin is not a TTY (pass -y to skip confirmation)"@,
            SendError::Aborted => "aborted"@,
        }
    }

    /// A human-readable description of the failure.
    pub fn message(&self) -> (r: String)
        ensures
            r@ == self.message_view(),
    {
        match self {
            SendError::FileTooLarge { actual, limit } => {
                let mut m = String::from_str("file size (");
                m.append(crate::config::format_size(*actual).as_str());
                m.append(") exceeds limit (");
                m.append(crate::config::format_size(*limit).as_str());
                m.append(")");
                m
            },
            SendError::EmptyMessage => String::from_str("message is empty"),
            SendError::ConfirmationUnavailable => String::from_str(
                "confirm is enabled but stdin is not a TTY (pass -y to skip confirmation)",
            ),
            SendError::Aborted => String::from_str("aborted"),
        }
    }
}

} // verus!
