//! The options of one run.

use crate::config::{DownloaderPreference, Positive};
use crate::paths::FilePath;
use vstd::prelude::*;

verus! {

/// What the user asked for on the command line.
#[derive(Debug, PartialEq, Eq)]
pub struct Cli {
    /// The search query.
    pub query: String,
    /// The directory into which the torrent client downloads.
    pub output: Option<FilePath>,
    /// The most results to show.
    pub results: Option<Positive>,
    /// Select the highest-ranked result without asking.
    pub auto: bool,
    /// Stop after selecting a result.
    pub dry_run: bool,
    /// Show the browser window.
    pub headful: bool,
    /// The torrent client to use.
    pub client: Option<DownloaderPreference>,
    /// The configuration file to use.
    pub config: Option<FilePath>,
}

} // verus!
