//! The length prefix that precedes every chunk on the wire.

use vstd::prelude::*;

verus! {

/// Largest number of plaintext bytes that one chunk may carry: the Noise
/// message limit of 65535 bytes less the authentication tag.
pub const MAX_PAYLOAD_LENGTH: usize = 65519;

/// The two bytes that announce a chunk of `size` bytes: `size` as a 16-bit
/// unsigned integer, most significant byte first.
pub open spec fn size_prefix(size: nat) -> Seq<u8> {
    seq![(size / 256) as u8, (size % 256) as u8]
}

/// The byte length of the chunk that follows, in its wire representation.
pub struct PayloadSize {
    bytes: [u8; 2],
}

impl PayloadSize {
    /// The length that this prefix announces.
    pub closed spec fn value(&self) -> nat {
        (self.bytes@[0] * 256 + self.bytes@[1]) as nat
    }

    /// The wire representation: two bytes, most significant first.
    pub closed spec fn wire(&self) -> Seq<u8> {
        self.bytes@
    }

    /// A prefix is always two bytes long.
    pub proof fn wire_len(&self)
        ensures
            self.wire().len() == 2,
    {
    }

    #[verifier::type_invariant]
    spec fn in_range(&self) -> bool {
        self.value() <= MAX_PAYLOAD_LENGTH
    }

    /// The prefix for a chunk of `size` bytes.
    pub fn from(size: usize) -> (prefix: PayloadSize)
        requires
            size <= MAX_PAYLOAD_LENGTH,
        ensures
            prefix.value() == size,
            prefix.wire() == size_prefix(size as nat),
    {
        let high: u8 = (size / 256) as u8;
        let low: u8 = (size % 256) as u8;
        PayloadSize { bytes: [high, low] }
    }

    /// The wire representation, as it is handed to the session.
    pub fn as_bytes(&self) -> (bytes: &[u8])
        ensures
            bytes@ == self.wire(),
    {
        self.bytes.as_slice()
    }

    /// The announced length as a number. It never exceeds
    /// `MAX_PAYLOAD_LENGTH`.
    pub fn to_usize(&self) -> (size: usize)
        ensures
            size == self.value(),
            size <= MAX_PAYLOAD_LENGTH,
            self.wire() == size_prefix(size as nat),
    {
        proof {
            use_type_invariant(self);
        }
        let high: usize = self.bytes[0] as usize;
        let low: usize = self.bytes[1] as usize;
        high * 256 + low
    }
}

} // verus!
