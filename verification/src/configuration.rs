//! Process configuration values, as plain data.
//!
//! Argument parsing and configuration-file reading are I/O and live outside
//! the library; these types carry the parsed result into it.

use vstd::prelude::*;

verus! {

/// Declares std's `PathBuf` (which vstd gives no specification) so that it
/// can stand in fields here. Values of it are opaque to the library.
#[verifier::external_type_specification]
#[verifier::external_body]
pub struct ExPathBuf(std::path::PathBuf);

/// Command-line options: an optional configuration-file path and the path of
/// the raw-map extract to ingest.
pub struct CliCommand {
    pub config_file: Option<std::path::PathBuf>,
    pub pbf_file: String,
}

/// Settings assembled from the configuration sources.
pub struct Settings {
    pub log_level: String,
    pub pbf_file: String,
}

} // verus!
