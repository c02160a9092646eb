//! The standalone file log: a flat list of (path, digest) records, one per
//! capture, kept without a daemon.

use vstd::prelude::*;
use crate::digest::{content_digest, digest, digestible};

verus! {

/// One capture of a file: its path and the digest of its contents.
pub struct FSnapShot {
    pub fpath: String,
    pub hash: Vec<u8>,
}

/// The log: every capture, oldest first.
pub struct State {
    pub files: Vec<FSnapShot>,
}

impl State {
    /// An empty log.
    pub fn new() -> (r: State)
        ensures
            r.files@.len() == 0,
    {
        State { files: Vec::new() }
    }

    /// Records a capture of `fpath` whose contents are `contents`.
    pub fn append(&mut self, fpath: String, contents: &[u8])
        requires
            digestible(contents@),
        ensures
            final(self).files@.len() == old(self).files@.len() + 1,
            forall|i: int| 0 <= i < old(self).files@.len() ==> #[trigger] final(self).files@[i] == old(self).files@[i],
            final(self).files@.last().fpath@ == fpath@,
            final(self).files@.last().hash@ == content_digest(contents@),
    {
        let hash = digest(contents);
        self.files.push(FSnapShot { fpath, hash });
    }
}

} // verus!
