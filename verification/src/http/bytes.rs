//! A growable receive buffer for framing bytes read from a connection.

use vstd::prelude::*;

verus! {

/// Owns the bytes received so far on one connection.
pub struct Framer {
    buf: Vec<u8>,
}

impl Framer {
    /// The bytes currently buffered.
    pub closed spec fn buffer(&self) -> Seq<u8> {
        self.buf@
    }

    pub fn new() -> (r: Framer)
        ensures
            r.buffer() == Seq::<u8>::empty(),
    {
        Framer { buf: Vec::new() }
    }
}

} // verus!
