//! What can go wrong while attribution is worked out.

use vstd::prelude::*;

verus! {

/// A failure of the checkpoint store, with what it said.
#[derive(Debug, PartialEq, Eq)]
pub struct StoreError {
    pub detail: String,
}

/// Why no attribution could be given. Neither kind is ever passed over in
/// silence: an answer made from corrupt input would look plausible and be wrong.
#[derive(Debug, PartialEq, Eq)]
pub enum AttributionError {
    /// The ranges of an entry are out of order, overlap, name lines that the
    /// file does not have at that point of the replay, or make the file
    /// longer than a file can be. The entry is named by the place of its
    /// checkpoint in the log, its own place in the checkpoint, and its file.
    CorruptCheckpoint { checkpoint: usize, entry: usize, file: String },
    /// The checkpoint store could not be read or written.
    StoreUnavailable { detail: String },
}

impl AttributionError {
    /// The failure that stands for a failure of the store.
    pub fn from_store(e: StoreError) -> (r: AttributionError)
        ensures
            r == (AttributionError::StoreUnavailable { detail: e.detail }),
    {
        AttributionError::StoreUnavailable { detail: e.detail }
    }
}

} // verus!
