//! Filesystem locations the server works with.
use std::path::PathBuf;
use vstd::prelude::*;

verus! {

#[verifier::external_type_specification]
#[verifier::external_body]
pub struct ExPathBuf(PathBuf);

/// Where the catalog, media, web app, persisted playlist and logs live.
pub struct Paths {
    /// The path to the sqlite database with the song information.
    pub database: PathBuf,
    /// Path to the directory structure for the covers.
    pub media: PathBuf,
    /// Path to the web app (directory containing index.html).
    pub web_app: PathBuf,
    /// The path to the persisted playlist file. Will be created if it doesn't exist.
    pub playlist: PathBuf,
    /// Path to the file that should contain the history of what was played.
    pub song_log: Option<PathBuf>,
    /// Path to the file that should contain the song suggestions that were made.
    pub suggestion_log: PathBuf,
    /// Path to the file that should contain the song bug reports that were made.
    pub bug_log: PathBuf,
}

} // verus!
