//! The recorder's configuration, as read from its JSON configuration file.

use vstd::prelude::*;

verus! {

/// Application configuration.
pub struct Configuration {
    pub connection: Connection,
    pub logging: Logging,
    pub output: Output,
    pub filter: Filter,
}

/// Cluster servers to connect to, and how to retry.
pub struct Connection {
    /// Connection strings of the form `call@host:port`.
    pub constrings: Vec<String>,
    /// Reconnect a listener whose connection was lost.
    pub reconnect: bool,
    /// Connection attempts before a listener is given up.
    pub retries: u64,
    /// Delay between two connection attempts, in seconds.
    pub backoff: u64,
}

/// Output channels for the parsed spots.
pub struct Output {
    pub console: bool,
    pub file: OutputFile,
}

/// Output of the spots to a file.
pub struct OutputFile {
    pub enabled: bool,
    /// Add the date to the file name, directly in front of its extension.
    pub date: bool,
    /// Rotate the file daily.
    pub rotate: bool,
    /// Compress a file once it has been rotated.
    pub compress: bool,
    /// File name; every `{DATE}` in it stands for the current date.
    pub filename: String,
}

/// Output channels for the log.
pub struct Logging {
    pub console: bool,
    pub file: LoggingFile,
}

/// Output of the log to a file.
pub struct LoggingFile {
    pub enabled: bool,
    pub filename: String,
}

/// Filters applied to every received spot.
pub struct Filter {
    /// Kinds of spot to keep (the `type` key of the configuration file).
    pub spot_type: Type,
    /// Bands to keep for DX spots; an empty list keeps every band. A DX spot
    /// whose frequency lies in no band is never kept.
    pub band: Vec<String>,
}

/// Kinds of spot to keep.
pub struct Type {
    pub dx: bool,
    pub wx: bool,
    pub wwv: bool,
    pub wcy: bool,
    pub toall: bool,
    pub tolocal: bool,
}

} // verus!
