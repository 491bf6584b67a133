use vstd::prelude::*;

verus! {

/// Error taxonomy of the library.
///
/// `InvalidRange` is a recoverable selection-expression error; `YtDlp` is a
/// fatal diagnostic from a catalog or section fetch; `EmptyPlaylist` marks a
/// fetch that produced zero items; `DownloadFailed` is one job's terminal
/// failure, never fatal to a whole run; `Cancelled` marks an aborted
/// interactive prompt; `Io` and `Json` wrap lower-level failures as plain
/// messages so no raw system error reaches a report.
#[derive(Debug)]
pub enum AppError {
    InvalidRange(String),
    YtDlp(String),
    EmptyPlaylist,
    DownloadFailed { title: String, reason: String },
    Cancelled,
    Io(String),
    Json(String),
}

} // verus!
