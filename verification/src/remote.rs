//! One agent for a client elsewhere: the protocol, the client's side and the server's side.
use vstd::prelude::*;

pub mod client;
pub mod codec;
pub mod protocol;
pub mod server;

verus! {

/// A stream to read from and a stream to write to, as one.
#[derive(Debug)]
pub struct SplitDuplex<R, W> {
    pub read: R,
    pub write: W,
}

impl<R, W> SplitDuplex<R, W> {
    /// Puts the two together.
    pub fn new(read: R, write: W) -> (r: Self)
        ensures
            r.read == read,
            r.write == write,
    {
        SplitDuplex { read, write }
    }
}

} // verus!
