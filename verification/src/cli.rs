//! The command line as plain values: what each subcommand was asked to do.
use vstd::prelude::*;

use crate::commands::add::AddArgs;

verus! {

/// The whole invocation.
#[derive(Debug)]
pub struct Cli {
    /// Override the config file path (default: $XDG_CONFIG_HOME/localbills/config.yaml)
    pub config: Option<String>,
    pub command: Command,
}

#[derive(Debug)]
pub enum Command {
    /// Create a new entry from the configured schema
    Add(AddArgs),
    /// Parse an invoice URL and save it to the transaction directory
    Insert(InsertArgs),
    /// Manage the invoice processing queue
    Queue(QueueArgs),
    /// Validate invoice files against the data schema
    Validate(ValidateArgs),
    /// Generate spending reports
    Report(ReportArgs),
    /// Search transactions
    Search(SearchArgs),
    /// Commit and sync the data directory with its git remote
    Sync(SyncArgs),
}

#[derive(Debug)]
pub struct InsertArgs {
    /// Serbian fiscal invoice URL
    pub url: Option<String>,
    /// A file of invoice URLs, one per line
    pub file: Option<String>,
    /// Print parsed files to stdout; do not write to disk
    pub dry_run: bool,
    /// Skip git sync after writing files
    pub no_sync: bool,
    /// Insert even if the URL has already been recorded
    pub force: bool,
}

#[derive(Debug)]
pub struct QueueArgs {
    pub command: QueueCommand,
}

#[derive(Debug)]
pub enum QueueCommand {
    /// Add a URL to the local queue
    Add { url: String },
    /// Process every URL in the queue (local file or remote API)
    Process { remote: bool, no_sync: bool },
    /// List queued URLs
    List,
    /// Remove a URL from the local queue
    Remove { url: String },
}

#[derive(Debug)]
pub struct ValidateArgs {
    /// File or directory to validate (defaults to TRANSACTION_DIR from config)
    pub path: Option<String>,
    /// Continue after the first validation error
    pub continue_on_error: bool,
    /// Print only files that contain errors (implies --continue-on-error)
    pub errors_only: bool,
}

#[derive(Debug)]
pub struct ReportArgs {
    pub command: ReportCommand,
}

#[derive(Debug)]
pub enum ReportCommand {
    /// Summarise spending month by month
    Monthly { year: Option<u32>, month: Option<u32> },
}

#[derive(Debug)]
pub struct SearchArgs {
    pub command: SearchCommand,
}

#[derive(Debug)]
pub enum SearchCommand {
    /// Find transactions by product name (case-insensitive substring)
    Name { query: String },
    /// Report invoice URLs that appear in more than one transaction file
    Duplicates,
}

#[derive(Debug)]
pub struct SyncArgs {
    /// Custom suffix appended to the auto-generated commit message
    pub message: Option<String>,
    /// Stage and commit changes without pushing to the remote
    pub no_push: bool,
}

} // verus!
