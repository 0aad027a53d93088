//! The command line: what the user asked the tool to do.
use vstd::prelude::*;

verus! {

/// The parsed command line.
pub struct Cli {
    pub command: Commands,
}

/// The commands the tool offers.
pub enum Commands {
    /// Run the git analytics and the security audit.
    Scan {
        /// Path to the git repository.
        path: String,
        /// Only run the security audit.
        security_only: bool,
        /// Only run the analytics.
        analytics_only: bool,
        /// Where to export the report as PDF.
        pdf: Option<String>,
        /// Where to export the report as HTML.
        html: Option<String>,
        /// Where to export the report as JSON.
        json: Option<String>,
        /// Where to export the report as Markdown.
        markdown: Option<String>,
        /// Where to export the dependency graph as DOT.
        dot: Option<String>,
        /// The SQLite history database to store the scan in.
        history_db: Option<String>,
        /// Show trend charts from the history.
        show_trends: bool,
        /// Directories to ignore during scanning.
        ignore_dirs: Vec<String>,
    },
    /// Start an HTTP server exposing git operations.
    Serve {
        /// Port to listen on.
        port: u16,
    },
}

} // verus!
