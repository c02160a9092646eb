//! Core of a file-watching daemon: content digests, a content-addressed
//! snapshot store, the per-file watch state machine and the control protocol.

pub mod bytes;
pub mod daemon;
pub mod digest;
pub mod glob;
pub mod journal;
pub mod store;
pub mod watch;
pub mod wire;

use vstd::prelude::*;

verus! {

} // verus!
