//! The framing encoder.

use crate::buffer::{byte_count, contents};
use crate::chunking::{first_chunk_len, units, units_step};
use crate::error::CodecError;
use crate::framing::{framed, framed_len, framed_len_step, frames_fit, seal, seal_first};
use crate::payload_size::{size_prefix, PayloadSize, MAX_PAYLOAD_LENGTH};
use crate::session::{write_message, written, NOISE_TAG_LENGTH};
use bytes::BytesMut;
use snow::TransportState;
use vstd::prelude::*;

verus! {

/// A plaintext that can be handed to the session: it knows its bytes and how
/// many they are. Both a length prefix and a chunk are such plaintexts, so
/// the size of a frame is worked out in one place.
pub trait Len {
    /// The bytes that are encrypted for this value.
    spec fn bytes(&self) -> Seq<u8>;

    /// The number of those bytes.
    fn len(&self) -> (n: usize)
        ensures
            n == self.bytes().len(),
    ;

    /// Those bytes.
    fn as_bytes(&self) -> (bytes: &[u8])
        ensures
            bytes@ == self.bytes(),
    ;
}

impl Len for PayloadSize {
    open spec fn bytes(&self) -> Seq<u8> {
        self.wire()
    }

    fn len(&self) -> (n: usize) {
        proof {
            self.wire_len();
        }
        2
    }

    fn as_bytes(&self) -> (bytes: &[u8]) {
        PayloadSize::as_bytes(self)
    }
}

impl Len for BytesMut {
    open spec fn bytes(&self) -> Seq<u8> {
        contents(*self)
    }

    fn len(&self) -> (n: usize) {
        byte_count(self)
    }

    fn as_bytes(&self) -> (bytes: &[u8]) {
        self.as_ref()
    }
}

/// Length of the chunk that is carved off next when `remaining` bytes of a
/// message are left: all of them if they fit into one chunk, else a full
/// chunk of `max_payload_length` bytes.
pub fn next_payload_size(remaining: usize, max_payload_length: usize) -> (payload_size: usize)
    ensures
        payload_size == first_chunk_len(remaining as nat, max_payload_length as nat),
        payload_size <= remaining,
        payload_size <= max_payload_length,
        remaining > 0 && max_payload_length > 0 ==> payload_size > 0,
{
    if remaining <= max_payload_length {
        remaining
    } else {
        max_payload_length
    }
}

/// Number of bytes that a message of `len` bytes takes once it is encoded
/// with chunks of at most `max_payload_length` bytes, or `None` if that
/// number does not fit into `usize`.
pub fn framed_length(len: usize, max_payload_length: usize) -> (total: Option<usize>)
    requires
        max_payload_length > 0,
    ensures
        match total {
            Some(n) => n == framed_len(len as nat, max_payload_length as nat),
            None => framed_len(len as nat, max_payload_length as nat) > usize::MAX,
        },
{
    let count: usize = if len == 0 {
        0
    } else {
        (len - 1) / max_payload_length + 1
    };
    let each: usize = 2 + 2 * NOISE_TAG_LENGTH;
    match count.checked_mul(each) {
        None => None,
        Some(overhead) => len.checked_add(overhead),
    }
}

/// Encrypts the frames of a connection under its Noise transport session.
///
/// The codec owns the session. Every encryption moves the session on by one
/// step, so a codec must have a single writer, and the frames must reach the
/// peer in the order in which they were produced.
pub struct NoiseCodec {
    noise: TransportState,
}

impl NoiseCodec {
    /// The state that the session is in.
    pub closed spec fn session(&self) -> TransportState {
        self.noise
    }

    /// A codec for a session that has finished its handshake.
    pub fn new(noise: TransportState) -> (codec: NoiseCodec)
        ensures
            codec.session() == noise,
    {
        NoiseCodec { noise }
    }

    /// Encrypts one plaintext into a frame of its own.
    ///
    /// The frame is the message that the session writes for the plaintext,
    /// and it is longer than the plaintext by the authentication tag. The
    /// session moves on by one step. If the session refuses, its error is
    /// returned and the session has not moved.
    pub fn encrypt<S: Len>(&mut self, plain_text: S) -> (r: Result<(usize, Vec<u8>), snow::Error>)
        requires
            plain_text.bytes().len() + NOISE_TAG_LENGTH <= isize::MAX,
        ensures
            match r {
                Ok((length, cipher_text)) => {
                    &&& written(old(self).session(), plain_text.bytes()) == Ok::<_, snow::Error>(
                        (cipher_text@, final(self).session()),
                    )
                    &&& length == plain_text.bytes().len() + NOISE_TAG_LENGTH
                    &&& cipher_text@.len() == length
                },
                Err(e) => {
                    &&& written(old(self).session(), plain_text.bytes()) == Err::<
                        (Seq<u8>, TransportState),
                        _,
                    >(e)
                    &&& final(self).session() == old(self).session()
                },
            },
    {
        let cipher_text_length = plain_text.len() + NOISE_TAG_LENGTH;
        let mut cipher_text = vec![0u8; cipher_text_length];
        match write_message(&mut self.noise, plain_text.as_bytes(), &mut cipher_text) {
            Ok(_) => Ok((cipher_text_length, cipher_text)),
            Err(e) => Err(e),
        }
    }

    /// Cuts `item_bytes` into chunks of at most `max_payload_length` bytes
    /// and appends, for each chunk in order, the frame of its length prefix
    /// and the frame of the chunk to `cipher_text`.
    ///
    /// The frames are exactly those that the session yields when it is given
    /// the prefix and the body of each chunk in wire order, and each is
    /// longer than its plaintext by the authentication tag. An empty message
    /// appends nothing. If the session refuses a plaintext, the frames made
    /// before it stay appended, the session stays where they left it, and the
    /// session's error is returned.
    pub fn frame(
        &mut self,
        item_bytes: BytesMut,
        max_payload_length: usize,
        cipher_text: &mut BytesMut,
    ) -> (r: Result<(), snow::Error>)
        requires
            0 < max_payload_length <= MAX_PAYLOAD_LENGTH,
            contents(*old(cipher_text)).len() + framed_len(
                contents(item_bytes).len(),
                max_payload_length as nat,
            ) <= isize::MAX,
        ensures
            ({
                let plaintexts = units(contents(item_bytes), max_payload_length as nat);
                let sealed = framed(
                    old(self).session(),
                    contents(item_bytes),
                    max_payload_length as nat,
                );
                &&& final(self).session() == sealed.session
                &&& contents(*final(cipher_text)) == contents(*old(cipher_text))
                    + sealed.frames.flatten()
                &&& r == match sealed.failure {
                    None => Ok::<(), snow::Error>(()),
                    Some(e) => Err::<(), snow::Error>(e),
                }
                &&& frames_fit(sealed.frames, plaintexts)
                &&& r is Ok ==> sealed.frames.len() == plaintexts.len()
                &&& r is Ok ==> contents(*final(cipher_text)).len() == contents(
                    *old(cipher_text),
                ).len() + framed_len(contents(item_bytes).len(), max_payload_length as nat)
                &&& contents(item_bytes).len() == 0 ==> r is Ok && contents(*final(cipher_text))
                    == contents(*old(cipher_text)) && final(self).session() == old(
                    self,
                ).session()
            }),
    {
        let mut remaining_bytes = item_bytes;
        let ghost max = max_payload_length as nat;
        let ghost start = self.session();
        let ghost before = contents(*cipher_text);
        let ghost all = units(contents(remaining_bytes), max);
        let ghost total = framed_len(contents(remaining_bytes).len(), max);
        let ghost mut done: Seq<Seq<u8>> = Seq::empty();
        while !remaining_bytes.is_empty()
            invariant
                0 < max_payload_length <= MAX_PAYLOAD_LENGTH,
                start == old(self).session(),
                before == contents(*old(cipher_text)),
                all == units(contents(item_bytes), max),
                total == framed_len(contents(item_bytes).len(), max),
                max == max_payload_length,
                done.len() <= all.len(),
                all.skip(done.len() as int) == units(contents(remaining_bytes), max),
                seal(start, all).session == seal(
                    self.session(),
                    units(contents(remaining_bytes), max),
                ).session,
                seal(start, all).failure == seal(
                    self.session(),
                    units(contents(remaining_bytes), max),
                ).failure,
                seal(start, all).frames == done + seal(
                    self.session(),
                    units(contents(remaining_bytes), max),
                ).frames,
                contents(*cipher_text) == before + done.flatten(),
                forall|k: int|
                    0 <= k < done.len() ==> (#[trigger] done[k]).len() == all[k].len()
                        + NOISE_TAG_LENGTH,
                contents(*cipher_text).len() + framed_len(contents(remaining_bytes).len(), max)
                    == before.len() + total,
                before.len() + total <= isize::MAX,
            decreases contents(remaining_bytes).len(),
        {
            let ghost rest = contents(remaining_bytes);
            let ghost earlier = done;
            let payload_size = next_payload_size(
                Len::len(&remaining_bytes),
                max_payload_length,
            );
            let ghost prefix = size_prefix(payload_size as nat);
            let ghost body = rest.take(payload_size as int);
            let ghost later = units(rest.skip(payload_size as int), max);
            proof {
                // What is left to encrypt starts with this chunk's prefix and
                // body; the session's answer to the prefix decides the run.
                units_step(rest, max);
                framed_len_step(rest.len(), max);
                assert(units(rest, max) =~= seq![prefix] + (seq![body] + later));
                assert(all[earlier.len() as int + 1] == units(rest, max)[1]);
                assert(units(rest, max).skip(2) =~= later);
                seal_first(self.session(), prefix, seq![body] + later);
            }

            let payload_size_plain_text = PayloadSize::from(payload_size);
            let (_length, payload_size_encrypted) = self.encrypt(payload_size_plain_text)?;
            cipher_text.extend_from_slice(payload_size_encrypted.as_slice());
            proof {
                // The prefix's frame is out; next the body decides.
                earlier.lemma_flatten_push(payload_size_encrypted@);
                done = earlier.push(payload_size_encrypted@);
                seal_first(self.session(), body, later);
                assert(earlier + (seq![payload_size_encrypted@] + Seq::<Seq<u8>>::empty())
                    =~= done);
            }

            let payload_plain_text = remaining_bytes.split_to(payload_size);
            let (_length, payload_encrypted) = self.encrypt(payload_plain_text)?;
            cipher_text.extend_from_slice(payload_encrypted.as_slice());
            proof {
                done.lemma_flatten_push(payload_encrypted@);
                done = done.push(payload_encrypted@);
            }
        }
        proof {
            // Nothing is left, so every plaintext has its frame.
            assert(framed_len(0, max) == 0) by (nonlinear_arith)
                requires
                    framed_len(0, max) == 0 + 0 * (2 + 2 * NOISE_TAG_LENGTH as nat),
            ;
        }
        Ok(())
    }

    /// Encodes one message: `encoded` is what the inner encoder made of the
    /// item, either its bytes or its error.
    ///
    /// If the inner encoder failed, nothing happens: `cipher_text` and the
    /// session are as they were, and the inner error is returned. Otherwise
    /// the bytes are framed with chunks of at most `MAX_PAYLOAD_LENGTH`
    /// bytes, as `frame` does.
    pub fn encode<E>(&mut self, encoded: Result<BytesMut, E>, cipher_text: &mut BytesMut) -> (r:
        Result<(), CodecError<E>>)
        requires
            encoded matches Ok(item_bytes) ==> contents(*old(cipher_text)).len() + framed_len(
                contents(item_bytes).len(),
                MAX_PAYLOAD_LENGTH as nat,
            ) <= isize::MAX,
        ensures
            match encoded {
                Err(inner) => {
                    &&& r matches Err(CodecError::Inner(e)) && e == inner
                    &&& *final(cipher_text) == *old(cipher_text)
                    &&& contents(*final(cipher_text)) == contents(*old(cipher_text))
                    &&& final(self).session() == old(self).session()
                },
                Ok(item_bytes) => {
                    let plaintexts = units(contents(item_bytes), MAX_PAYLOAD_LENGTH as nat);
                    let sealed = framed(
                        old(self).session(),
                        contents(item_bytes),
                        MAX_PAYLOAD_LENGTH as nat,
                    );
                    &&& final(self).session() == sealed.session
                    &&& contents(*final(cipher_text)) == contents(*old(cipher_text))
                        + sealed.frames.flatten()
                    &&& match sealed.failure {
                        None => r is Ok,
                        Some(refusal) => r matches Err(CodecError::Snow(e)) && e == refusal,
                    }
                    &&& frames_fit(sealed.frames, plaintexts)
                    &&& r is Ok ==> sealed.frames.len() == plaintexts.len()
                    &&& r is Ok ==> contents(*final(cipher_text)).len() == contents(
                        *old(cipher_text),
                    ).len() + framed_len(contents(item_bytes).len(), MAX_PAYLOAD_LENGTH as nat)
                    &&& contents(item_bytes).len() == 0 ==> r is Ok && contents(
                        *final(cipher_text),
                    ) == contents(*old(cipher_text)) && final(self).session() == old(
                        self,
                    ).session()
                },
            },
    {
        let item_bytes = match encoded {
            Ok(item_bytes) => item_bytes,
            Err(inner) => {
                return Err(CodecError::Inner(inner));
            },
        };
        match self.frame(item_bytes, MAX_PAYLOAD_LENGTH, cipher_text) {
            Ok(()) => Ok(()),
            Err(e) => Err(CodecError::Snow(e)),
        }
    }
}

} // verus!
