use vstd::prelude::*;
use crate::format::MediaFormat;

verus! {

/// Immutable configuration shared read-only by every job of a run.
#[derive(Clone, Debug)]
pub struct DownloadConfig {
    pub format: MediaFormat,
    /// Destination directory, as a path text.
    pub output_dir: String,
    /// Global cap on simultaneously active jobs; at least 1.
    pub concurrency: usize,
}

impl DownloadConfig {
    /// A configuration is well-formed when its concurrency limit admits
    /// at least one job.
    pub open spec fn wf(self) -> bool {
        self.concurrency >= 1
    }
}

} // verus!
