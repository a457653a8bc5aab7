//! What a session makes of the plaintexts of a message: the model that the
//! encoder's contracts are stated over.
//!
//! The session is a state machine. Each plaintext it accepts yields one frame
//! and moves the session on; the first one it refuses ends the run. So the
//! frames depend on the order in which the plaintexts are handed over, and
//! the model threads the session's state through them in that order.

use crate::chunking::{chunk_count, chunk_count_step, first_chunk_len, units};
use crate::session::{written, NOISE_TAG_LENGTH};
use snow::TransportState;
use vstd::prelude::*;

verus! {

/// Where a run of encryptions ends.
pub struct Sealed {
    /// The session's state after the run.
    pub session: TransportState,
    /// The frames produced, in order.
    pub frames: Seq<Seq<u8>>,
    /// The error of the plaintext that the session refused, if it refused one.
    pub failure: Option<snow::Error>,
}

/// `head` followed by `tail`, where `tail` started in the state that `head`
/// ended in.
pub open spec fn then_sealed(head: Sealed, tail: Sealed) -> Sealed {
    Sealed { session: tail.session, frames: head.frames + tail.frames, failure: tail.failure }
}

/// Hands `plaintexts` to the session one by one, starting in state `session`,
/// and stops at the first that the session refuses.
pub open spec fn seal(session: TransportState, plaintexts: Seq<Seq<u8>>) -> Sealed
    decreases plaintexts.len(),
{
    if plaintexts.len() == 0 {
        Sealed { session, frames: Seq::empty(), failure: None }
    } else {
        match written(session, plaintexts[0]) {
            Err(e) => Sealed { session, frames: Seq::empty(), failure: Some(e) },
            Ok((frame, next)) => then_sealed(
                Sealed { session: next, frames: seq![frame], failure: None },
                seal(next, plaintexts.skip(1)),
            ),
        }
    }
}

/// What encoding the message `plain` does to a session in state `session`,
/// with chunks of at most `max` bytes.
pub open spec fn framed(session: TransportState, plain: Seq<u8>, max: nat) -> Sealed {
    seal(session, units(plain, max))
}

/// What encoding `messages` one after the other does, where a failure ends
/// the run.
pub open spec fn framed_all(session: TransportState, messages: Seq<Seq<u8>>, max: nat) -> Sealed
    decreases messages.len(),
{
    if messages.len() == 0 {
        Sealed { session, frames: Seq::empty(), failure: None }
    } else {
        let first = framed(session, messages[0], max);
        if first.failure is Some {
            first
        } else {
            then_sealed(first, framed_all(first.session, messages.skip(1), max))
        }
    }
}

/// Number of bytes that a fully encoded message of `len` bytes takes on the
/// wire: the message itself, and for each chunk a two-byte prefix and two
/// authentication tags.
pub open spec fn framed_len(len: nat, max: nat) -> nat {
    len + chunk_count(len, max) * (2 + 2 * NOISE_TAG_LENGTH as nat)
}

/// Every frame is longer than the plaintext it was made from by exactly the
/// authentication tag, and there is at most one frame for each plaintext.
pub open spec fn frames_fit(frames: Seq<Seq<u8>>, plaintexts: Seq<Seq<u8>>) -> bool {
    &&& frames.len() <= plaintexts.len()
    &&& forall|k: int|
        0 <= k < frames.len() ==> (#[trigger] frames[k]).len() == plaintexts[k].len()
            + NOISE_TAG_LENGTH
}

/// The first plaintext of a run decides how the run goes on: if the session
/// refuses it, the run ends there with nothing produced; otherwise its frame
/// comes first and the rest is sealed from the state the session moved to.
pub proof fn seal_first(session: TransportState, first: Seq<u8>, rest: Seq<Seq<u8>>)
    ensures
        seal(session, seq![first] + rest) == match written(session, first) {
            Err(e) => Sealed { session, frames: Seq::empty(), failure: Some(e) },
            Ok((frame, next)) => then_sealed(
                Sealed { session: next, frames: seq![frame], failure: None },
                seal(next, rest),
            ),
        },
{
    let all = seq![first] + rest;
    assert(all.skip(1) =~= rest);
}

/// A message that is not empty takes its first chunk, the chunk's prefix and
/// two tags, and then what the rest of the message takes.
pub proof fn framed_len_step(len: nat, max: nat)
    requires
        max > 0,
        len > 0,
    ensures
        framed_len(len, max) == first_chunk_len(len, max) + 2 + 2 * NOISE_TAG_LENGTH + framed_len(
            (len - first_chunk_len(len, max)) as nat,
            max,
        ),
{
    chunk_count_step(len, max);
    let rest = chunk_count((len - first_chunk_len(len, max)) as nat, max);
    let each = 2 + 2 * NOISE_TAG_LENGTH as nat;
    assert((1 + rest) * each == each + rest * each) by (nonlinear_arith);
}

/// A run yields one frame for each plaintext that the session accepted: as
/// many frames as plaintexts if it refused none, fewer if it refused one.
pub proof fn seal_frame_count(session: TransportState, plaintexts: Seq<Seq<u8>>)
    ensures
        seal(session, plaintexts).failure is None ==> seal(session, plaintexts).frames.len()
            == plaintexts.len(),
        seal(session, plaintexts).failure is Some ==> seal(session, plaintexts).frames.len()
            < plaintexts.len(),
    decreases plaintexts.len(),
{
    if plaintexts.len() > 0 {
        match written(session, plaintexts[0]) {
            Err(e) => {},
            Ok((frame, next)) => {
                seal_frame_count(next, plaintexts.skip(1));
            },
        }
    }
}

/// An empty message is encoded to nothing: no frame is produced and the
/// session does not move.
pub proof fn framed_empty(session: TransportState, max: nat)
    ensures
        framed(session, Seq::empty(), max) == (Sealed {
            session,
            frames: Seq::empty(),
            failure: None,
        }),
{
}

/// Encoding is a function of the session's state and of the messages: two
/// sessions in the same state that are given the same messages produce the
/// same frames, end in the same state and fail alike.
pub proof fn framing_is_deterministic(
    a: TransportState,
    b: TransportState,
    messages: Seq<Seq<u8>>,
    max: nat,
)
    requires
        a == b,
    ensures
        framed_all(a, messages, max) == framed_all(b, messages, max),
{
}

} // verus!
