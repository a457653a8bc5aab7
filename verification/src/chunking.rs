//! How a message is cut into chunks, and what is encrypted for each chunk.
//!
//! Everything here is specification: the chunks of a message are given in
//! closed form, and the lemmas relate that form to carving the chunks off the
//! front one at a time, which is how the encoder proceeds.

use crate::payload_size::size_prefix;
use vstd::prelude::*;

verus! {

/// Number of chunks that a message of `len` bytes is cut into when no chunk
/// may exceed `max` bytes: `len / max` rounded up.
pub open spec fn chunk_count(len: nat, max: nat) -> nat {
    if len == 0 {
        0
    } else {
        ((len - 1) / (max as int) + 1) as nat
    }
}

/// Where chunk `i` of a message of `len` bytes ends: `max` bytes after its
/// start, or at the end of the message if that comes first.
pub open spec fn chunk_end(len: nat, max: nat, i: int) -> int {
    if (i + 1) * max <= len {
        (i + 1) * max
    } else {
        len as int
    }
}

/// Chunk `i` of `plain`: the bytes from `i * max` up to `chunk_end`.
pub open spec fn chunk(plain: Seq<u8>, max: nat, i: int) -> Seq<u8> {
    plain.subrange(i * max, chunk_end(plain.len(), max, i))
}

/// All chunks of `plain`, in order.
pub open spec fn chunks(plain: Seq<u8>, max: nat) -> Seq<Seq<u8>> {
    Seq::new(chunk_count(plain.len(), max), |i: int| chunk(plain, max, i))
}

/// The plaintexts that are encrypted for `plain`, in wire order: for each
/// chunk its length prefix, then the chunk.
pub open spec fn units(plain: Seq<u8>, max: nat) -> Seq<Seq<u8>> {
    Seq::new(
        2 * chunks(plain, max).len(),
        |k: int|
            if k % 2 == 0 {
                size_prefix(chunks(plain, max)[k / 2].len())
            } else {
                chunks(plain, max)[k / 2]
            },
    )
}

/// Length of the first chunk of a non-empty message: the whole message if it
/// fits, else `max`.
pub open spec fn first_chunk_len(len: nat, max: nat) -> nat {
    if len <= max {
        len
    } else {
        max
    }
}

/// The chunk count is the ceiling of `len / max`: that many chunks of `max`
/// bytes cover the message, and one fewer would not.
pub proof fn chunk_count_is_ceiling(len: nat, max: nat)
    requires
        max > 0,
    ensures
        len == 0 ==> chunk_count(len, max) == 0,
        len > 0 ==> chunk_count(len, max) > 0,
        (chunk_count(len, max) - 1) * max < len || len == 0,
        len <= chunk_count(len, max) * max,
{
    if len > 0 {
        let q = (len - 1) / (max as int);
        let r = (len - 1) % (max as int);
        assert(len - 1 == max * q + r && 0 <= r < max && q >= 0) by (nonlinear_arith)
            requires
                len >= 1,
                max > 0,
                q == (len - 1) / (max as int),
                r == (len - 1) % (max as int),
        ;
        assert((q + 1) * max == max * q + max) by (nonlinear_arith);
        assert((q + 1 - 1) * max == max * q) by (nonlinear_arith);
    }
}

/// Taking the first chunk away leaves one chunk fewer.
pub proof fn chunk_count_step(len: nat, max: nat)
    requires
        max > 0,
        len > 0,
    ensures
        chunk_count(len, max) == 1 + chunk_count((len - first_chunk_len(len, max)) as nat, max),
{
    if len <= max {
        assert((len - 1) / (max as int) == 0) by (nonlinear_arith)
            requires
                0 <= len - 1 < max,
        ;
    } else {
        assert((len - 1) / (max as int) == (len - max - 1) / (max as int) + 1)
            by (nonlinear_arith)
            requires
                max > 0,
                len > max,
        ;
    }
}

/// Every chunk lies inside the message and is not empty.
pub proof fn chunk_bounds(len: nat, max: nat, i: int)
    requires
        max > 0,
        0 <= i < chunk_count(len, max),
    ensures
        0 <= i * max < chunk_end(len, max, i) <= len,
        chunk_end(len, max, i) - i * max <= max,
        i < chunk_count(len, max) - 1 ==> chunk_end(len, max, i) == (i + 1) * max,
        i == chunk_count(len, max) - 1 ==> chunk_end(len, max, i) == len,
{
    chunk_count_is_ceiling(len, max);
    let count = chunk_count(len, max) as int;
    assert((i + 1) * max == i * max + max) by (nonlinear_arith);
    if i < count - 1 {
        assert((i + 1) * max <= (count - 1) * max) by (nonlinear_arith)
            requires
                i + 1 <= count - 1,
                max > 0,
        ;
    }
}

/// The chunks of a non-empty message are its first chunk followed by the
/// chunks of what remains.
pub proof fn chunks_step(plain: Seq<u8>, max: nat)
    requires
        max > 0,
        plain.len() > 0,
    ensures
        ({
            let n = first_chunk_len(plain.len(), max) as int;
            &&& chunk(plain, max, 0) == plain.take(n)
            &&& chunks(plain, max) == seq![plain.take(n)] + chunks(plain.skip(n), max)
        }),
{
    let len = plain.len();
    let n = first_chunk_len(len, max) as int;
    let rest = plain.skip(n);
    chunk_count_step(len, max);
    assert(chunk(plain, max, 0) =~= plain.take(n));
    let left = chunks(plain, max);
    let right = seq![plain.take(n)] + chunks(rest, max);
    assert forall|i: int| 0 <= i < left.len() implies left[i] == right[i] by {
        if i > 0 {
            let j = i - 1;
            chunk_bounds(len, max, i);
            chunk_bounds(rest.len(), max, j);
            assert((i + 1) * max == i * max + max) by (nonlinear_arith);
            assert(i * max == j * max + max) by (nonlinear_arith)
                requires
                    i == j + 1,
            ;
        }
    }
}

/// The plaintexts encrypted for a non-empty message are the prefix and the
/// body of its first chunk, followed by those of what remains.
pub proof fn units_step(plain: Seq<u8>, max: nat)
    requires
        max > 0,
        plain.len() > 0,
    ensures
        ({
            let n = first_chunk_len(plain.len(), max);
            units(plain, max) == seq![size_prefix(n), plain.take(n as int)] + units(
                plain.skip(n as int),
                max,
            )
        }),
{
    let n = first_chunk_len(plain.len(), max);
    let rest = plain.skip(n as int);
    chunk_count_step(plain.len(), max);
    chunks_step(plain, max);
    let left = units(plain, max);
    let right = seq![size_prefix(n), plain.take(n as int)] + units(rest, max);
    assert forall|k: int| 0 <= k < left.len() implies left[k] == right[k] by {
        assert(chunks(plain, max)[k / 2] == chunk(plain, max, k / 2));
    }
}

/// The chunks cover the message exactly: there are `len / max` of them,
/// rounded up; every chunk but the last has `max` bytes, the last has
/// between 1 and `max`; and joined in order they give the message back.
pub proof fn chunks_partition(plain: Seq<u8>, max: nat)
    requires
        max > 0,
    ensures
        chunks(plain, max).len() == chunk_count(plain.len(), max),
        plain.len() == 0 ==> chunks(plain, max).len() == 0,
        (chunks(plain, max).len() - 1) * max < plain.len() <= chunks(plain, max).len() * max
            || plain.len() == 0,
        forall|i: int|
            0 <= i < chunks(plain, max).len() - 1 ==> (#[trigger] chunks(plain, max)[i]).len()
                == max,
        plain.len() > 0 ==> 0 < chunks(plain, max).last().len() <= max,
        chunks(plain, max).flatten() == plain,
    decreases plain.len(),
{
    let len = plain.len();
    let all = chunks(plain, max);
    chunk_count_is_ceiling(len, max);
    assert forall|i: int| 0 <= i < all.len() - 1 implies (#[trigger] all[i]).len() == max by {
        chunk_bounds(len, max, i);
        assert((i + 1) * max == i * max + max) by (nonlinear_arith);
    }
    if len > 0 {
        let last = all.len() - 1;
        chunk_bounds(len, max, last);
        let n = first_chunk_len(len, max) as int;
        let rest = plain.skip(n);
        chunks_step(plain, max);
        chunks_partition(rest, max);
        assert(all.drop_first() =~= chunks(rest, max));
    }
}

} // verus!
