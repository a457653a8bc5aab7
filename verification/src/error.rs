//! The codec's error type.

use vstd::prelude::*;

verus! {

/// Why encoding a message failed.
///
/// The two variants call for different reactions. After `Inner` nothing has
/// been written and the session has not moved, so another message may be
/// tried. After `Snow` the session can no longer be assumed to be in step
/// with the peer, and the connection has to be set up anew.
#[derive(Debug)]
pub enum CodecError<E> {
    /// The wrapped message encoder could not encode the item.
    Inner(E),
    /// The Noise session refused to encrypt a frame.
    Snow(snow::Error),
}

} // verus!
