//! Transport framing: a message travels as chunks of at most 65535 bytes,
//! each behind its length, and ends with a chunk of length zero.

use crate::errors::{Error, Violation};
use crate::packstream::de::lemma_skip_skip;
use crate::packstream::ser::append;
use vstd::prelude::*;
use vstd::slice::slice_subrange;

verus! {

/// The most bytes that one chunk holds.
pub const MAX_CHUNK: usize = 65535;

/// The two bytes of a chunk length, big end first.
pub open spec fn length_bytes(n: nat) -> Seq<u8> {
    seq![(n / 256) as u8, (n % 256) as u8]
}

/// The bytes that carry the message `payload`: chunks as long as can be,
/// then the end mark.
pub open spec fn framed(payload: Seq<u8>) -> Seq<u8>
    decreases payload.len(),
{
    if payload.len() == 0 {
        length_bytes(0)
    } else {
        let n = if payload.len() < MAX_CHUNK {
            payload.len()
        } else {
            MAX_CHUNK as nat
        };
        length_bytes(n) + payload.take(n as int) + framed(payload.skip(n as int))
    }
}

/// The message at the start of `s`, put together from its chunks, and the
/// number of bytes that it takes with its end mark. Bytes that end before
/// the end mark are no message.
pub open spec fn unframed(s: Seq<u8>) -> Result<(Seq<u8>, nat), Violation>
    decreases s.len(),
{
    if s.len() < 2 {
        Err(Violation::UnexpectedEnd)
    } else {
        let n = (s[0] as nat) * 256 + s[1] as nat;
        if n == 0 {
            Ok((Seq::empty(), 2))
        } else if s.len() < 2 + n {
            Err(Violation::UnexpectedEnd)
        } else {
            match unframed(s.skip((2 + n) as int)) {
                Err(e) => Err(e),
                Ok((rest, k)) => Ok((s.subrange(2, (2 + n) as int) + rest, 2 + n + k)),
            }
        }
    }
}

/// The bytes that carry `payload` on the wire.
pub fn chunk(payload: &[u8]) -> (r: Vec<u8>)
    ensures
        r@ == framed(payload@),
{
    let mut out: Vec<u8> = Vec::new();
    let len: usize = payload.len();
    let mut pos: usize = 0;
    assert(payload@.skip(0) =~= payload@);
    assert(out@ + framed(payload@) =~= framed(payload@));
    while pos < len
        invariant
            len == payload@.len(),
            pos <= len,
            out@ + framed(payload@.skip(pos as int)) == framed(payload@),
        decreases len - pos,
    {
        let left: usize = len - pos;
        let n: usize = if left < MAX_CHUNK {
            left
        } else {
            MAX_CHUNK
        };
        let ghost before = out@;
        let ghost tail = payload@.skip(pos as int);
        out.push((n / 256) as u8);
        out.push((n % 256) as u8);
        let part: &[u8] = slice_subrange(payload, pos, pos + n);
        append(&mut out, part);
        proof {
            assert(part@ =~= tail.take(n as int));
            lemma_skip_skip(payload@, pos as int, n as int);
            assert(out@ =~= before + (length_bytes(n as nat) + tail.take(n as int)));
            assert(out@ + framed(payload@.skip(pos + n)) =~= before + framed(tail));
        }
        pos = pos + n;
    }
    let ghost before = out@;
    out.push(0);
    out.push(0);
    proof {
        assert(payload@.skip(pos as int).len() == 0);
        assert(out@ =~= before + framed(payload@.skip(pos as int)));
    }
    out
}

/// What `dechunk` returned, with the length as a number.
pub open spec fn unframed_of(r: Result<(Vec<u8>, usize), Error>) -> Result<
    (Seq<u8>, nat),
    Violation,
> {
    match r {
        Ok((message, used)) => Ok((message@, used as nat)),
        Err(Error::ProtocolViolation { detail }) => Err(detail),
        Err(_) => Err(Violation::UnexpectedMessage),
    }
}

/// The message at the start of `input`, and the number of bytes that it
/// takes with its end mark. Fails with `ProtocolViolation` for an unexpected
/// end where `input` ends before the end mark: more bytes must be received
/// first, and if the socket has closed the stream is broken.
pub fn dechunk(input: &[u8]) -> (r: Result<(Vec<u8>, usize), Error>)
    ensures
        unframed_of(r) == unframed(input@),
        r is Err ==> r == Err::<(Vec<u8>, usize), Error>(
            Error::ProtocolViolation { detail: Violation::UnexpectedEnd },
        ),
{
    let mut out: Vec<u8> = Vec::new();
    let len: usize = input.len();
    let mut pos: usize = 0;
    assert(input@.skip(0) =~= input@);
    loop
        invariant
            len == input@.len(),
            pos <= len,
            unframed(input@) == match unframed(input@.skip(pos as int)) {
                Err(e) => Err(e),
                Ok((rest, k)) => Ok((out@ + rest, (pos + k) as nat)),
            },
        decreases len - pos,
    {
        let ghost tail = input@.skip(pos as int);
        if len - pos < 2 {
            return Err(Error::ProtocolViolation { detail: Violation::UnexpectedEnd });
        }
        let n: usize = input[pos] as usize * 256 + input[pos + 1] as usize;
        assert(n == (tail[0] as nat) * 256 + tail[1] as nat);
        if n == 0 {
            assert(out@ + Seq::<u8>::empty() =~= out@);
            return Ok((out, pos + 2));
        }
        if len - pos - 2 < n {
            return Err(Error::ProtocolViolation { detail: Violation::UnexpectedEnd });
        }
        let part: &[u8] = slice_subrange(input, pos + 2, pos + 2 + n);
        let ghost before = out@;
        append(&mut out, part);
        proof {
            assert(part@ =~= tail.subrange(2, 2 + n));
            lemma_skip_skip(input@, pos as int, 2 + n);
            match unframed(input@.skip(pos + 2 + n)) {
                Ok((rest, k)) => {
                    assert(before + (tail.subrange(2, 2 + n) + rest) =~= out@ + rest);
                },
                Err(_) => {},
            }
        }
        pos = pos + 2 + n;
    }
}

/// A message that was framed is read back as it was, whatever follows it,
/// and the reading takes exactly the bytes of the frame.
pub proof fn lemma_unframe_framed(payload: Seq<u8>, rest: Seq<u8>)
    ensures
        unframed(framed(payload) + rest) == Ok::<(Seq<u8>, nat), Violation>(
            (payload, framed(payload).len()),
        ),
    decreases payload.len(),
{
    let s = framed(payload) + rest;
    if payload.len() == 0 {
        assert(s[0] == 0u8 && s[1] == 0u8);
        assert(payload =~= Seq::<u8>::empty());
    } else {
        let n = if payload.len() < MAX_CHUNK {
            payload.len()
        } else {
            MAX_CHUNK as nat
        };
        let head = length_bytes(n) + payload.take(n as int);
        let tail = framed(payload.skip(n as int)) + rest;
        assert(s =~= head + tail);
        assert(s[0] == (n / 256) as u8);
        assert(s[1] == (n % 256) as u8);
        assert((s[0] as nat) * 256 + s[1] as nat == n);
        assert(s.skip((2 + n) as int) =~= tail);
        assert(s.subrange(2, (2 + n) as int) =~= payload.take(n as int));
        lemma_unframe_framed(payload.skip(n as int), rest);
        assert(payload.take(n as int) + payload.skip(n as int) =~= payload);
    }
}

} // verus!
