pub mod args;
pub mod patterns;
pub mod render;
pub mod utils;
pub mod walker;

use vstd::prelude::*;

verus! {

/// Running totals for one invocation of the pipeline: how many files were
/// rendered into the output, how many were skipped because they could not be
/// read, and how many bytes of rendered text were produced.  A run that only
/// skips files still reports the exact count of what was actually rendered.
pub struct Summary {
    pub rendered: u64,
    pub skipped: u64,
    pub bytes: u64,
}

impl Summary {
    /// A fresh summary with all counts at zero.
    pub fn new() -> (r: Summary)
        ensures
            r.rendered == 0,
            r.skipped == 0,
            r.bytes == 0,
    {
        Summary { rendered: 0, skipped: 0, bytes: 0 }
    }

    /// Records one file rendered into the output, with the byte length of
    /// its rendered block.
    pub fn record_rendered(&mut self, block_bytes: u64)
        requires
            old(self).rendered < u64::MAX,
            old(self).bytes + block_bytes <= u64::MAX,
        ensures
            final(self).rendered == old(self).rendered + 1,
            final(self).skipped == old(self).skipped,
            final(self).bytes == old(self).bytes + block_bytes,
    {
        self.rendered = self.rendered + 1;
        self.bytes = self.bytes + block_bytes;
    }

    /// Records one selected file that had to be skipped because its content
    /// could not be read; it is counted rather than silently dropped.
    pub fn record_skipped(&mut self)
        requires
            old(self).skipped < u64::MAX,
        ensures
            final(self).rendered == old(self).rendered,
            final(self).skipped == old(self).skipped + 1,
            final(self).bytes == old(self).bytes,
    {
        self.skipped = self.skipped + 1;
    }
}

} // verus!
