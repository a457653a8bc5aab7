//! What the codec relies on from the Noise transport session of `snow`.
//!
//! None of this is proved: the contract of `write_message` restates what the
//! source of `snow::TransportState::write_message` does.

use snow::TransportState;
use vstd::prelude::*;

verus! {

/// Length of the authentication tag that the session adds to every message.
pub const NOISE_TAG_LENGTH: usize = 16;

#[verifier::external_type_specification]
#[verifier::external_body]
pub struct ExTransportState(TransportState);

#[verifier::external_type_specification]
#[verifier::external_body]
pub struct ExSessionError(snow::Error);

/// What `TransportState::write_message` does with `payload` when the session
/// is in state `session` and the message buffer has room for exactly the
/// payload and its tag: the message it writes together with the state it
/// moves to, or the error it refuses with.
///
/// The session encrypts under the key and the counter that it holds, and
/// draws on nothing else, so the outcome is determined by its state and the
/// payload. This is read off the ciphers that `snow` itself supplies; a
/// session built on a cipher of the user's own is held to the same.
pub uninterp spec fn written(session: TransportState, payload: Seq<u8>) -> Result<
    (Seq<u8>, TransportState),
    snow::Error,
>;

/// `TransportState::write_message`, called with a message buffer that has
/// room for exactly the payload and its tag.
///
/// On success the session has filled the whole buffer with the message and
/// moved on by one step, and the count it returns is the length of the
/// message. It refuses when it is the receiving side of a one-way pattern,
/// when the message would exceed the protocol's limit of 65535 bytes, when it
/// has no key, and when its counter is used up; in each of these cases it
/// returns before it touches the buffer or its own state.
#[verifier::external_body]
pub(crate) fn write_message(
    session: &mut TransportState,
    payload: &[u8],
    message: &mut Vec<u8>,
) -> (r: Result<usize, snow::Error>)
    requires
        old(message)@.len() == payload@.len() + NOISE_TAG_LENGTH,
    ensures
        final(message)@.len() == old(message)@.len(),
        match r {
            Ok(n) => {
                &&& written(*old(session), payload@) == Ok::<_, snow::Error>(
                    (final(message)@, *final(session)),
                )
                &&& n == final(message)@.len()
            },
            Err(e) => {
                &&& written(*old(session), payload@) == Err::<(Seq<u8>, TransportState), _>(e)
                &&& final(message)@ == old(message)@
                &&& *final(session) == *old(session)
            },
        },
{
    session.write_message(payload, message.as_mut_slice())
}

} // verus!
