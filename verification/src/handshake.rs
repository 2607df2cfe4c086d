//! The handshake: the client proposes versions of the protocol, the server
//! picks one or none.

use crate::errors::{Error, Violation};
use crate::version::Version;
use vstd::prelude::*;

verus! {

/// A version that the client proposes, with the number of minor versions
/// below it that it accepts as well.
#[derive(Clone, Copy, Debug, PartialEq, Eq, Structural)]
pub struct Proposal {
    pub version: Version,
    pub range: u8,
}

/// The four bytes that open every connection.
pub open spec fn preamble() -> Seq<u8> {
    seq![0x60u8, 0x60u8, 0xB0u8, 0x17u8]
}

/// The four bytes of a proposal: a reserved zero, the range, the minor and
/// the major version.
pub open spec fn proposal_bytes(p: Proposal) -> Seq<u8> {
    seq![0u8, p.range, p.version.minor, p.version.major]
}

/// The bytes that the client sends first: the preamble, then four proposals
/// in the order of preference.
pub open spec fn opening(proposals: Seq<Proposal>) -> Seq<u8> {
    preamble() + proposal_bytes(proposals[0]) + proposal_bytes(proposals[1]) + proposal_bytes(
        proposals[2],
    ) + proposal_bytes(proposals[3])
}

/// Whether the proposal covers the version.
pub open spec fn covers(p: Proposal, v: Version) -> bool {
    p.version.major == v.major && v.minor <= p.version.minor && p.version.minor - p.range
        <= v.minor
}

/// What the server's answer to the proposals means: the version that it
/// picked. Four zero bytes mean that it accepts none of the proposals; an answer of
/// another length, or a version that was not proposed, is a violation.
pub open spec fn agreed(proposals: Seq<Proposal>, reply: Seq<u8>) -> Result<Version, Error> {
    if reply.len() < 4 {
        Err(Error::ProtocolViolation { detail: Violation::UnexpectedEnd })
    } else if reply.len() > 4 {
        Err(Error::ProtocolViolation { detail: Violation::TrailingBytes })
    } else if reply[0] == 0 && reply[1] == 0 && reply[2] == 0 && reply[3] == 0 {
        Err(Error::UnsupportedVersion)
    } else {
        let v = Version { major: reply[3], minor: reply[2] };
        if exists|i: int| 0 <= i < proposals.len() && covers(#[trigger] proposals[i], v) {
            Ok(v)
        } else {
            Err(Error::ProtocolViolation { detail: Violation::UnexpectedMessage })
        }
    }
}

/// The bytes that the client sends first.
pub fn open_handshake(proposals: &[Proposal; 4]) -> (r: Vec<u8>)
    ensures
        r@ == opening(proposals@),
{
    let mut out: Vec<u8> = Vec::new();
    out.push(0x60);
    out.push(0x60);
    out.push(0xB0);
    out.push(0x17);
    let mut i: usize = 0;
    while i < 4
        invariant
            i <= 4,
            out@.len() == 4 + 4 * i,
            out@.take(4) == preamble(),
            forall|j: int|
                0 <= j < i ==> out@.subrange(4 + 4 * j, 8 + 4 * j) == proposal_bytes(
                    #[trigger] proposals@[j],
                ),
        decreases 4 - i,
    {
        let p: Proposal = proposals[i];
        let ghost before = out@;
        out.push(0);
        out.push(p.range);
        out.push(p.version.minor);
        out.push(p.version.major);
        proof {
            assert(out@.take(4) =~= before.take(4));
            assert(out@.subrange(4 + 4 * i, 8 + 4 * i) =~= proposal_bytes(p));
            assert forall|j: int| 0 <= j < i implies out@.subrange(4 + 4 * j, 8 + 4 * j)
                == proposal_bytes(#[trigger] proposals@[j]) by {
                assert(out@.subrange(4 + 4 * j, 8 + 4 * j) =~= before.subrange(
                    4 + 4 * j,
                    8 + 4 * j,
                ));
            }
        }
        i += 1;
    }
    proof {
        let s = out@;
        assert(s =~= s.take(4) + s.subrange(4, 8) + s.subrange(8, 12) + s.subrange(12, 16)
            + s.subrange(16, 20));
    }
    out
}

/// The version that the server picked with its answer `reply` to the
/// proposals. Fails with `UnsupportedVersion` where the server accepts none.
pub fn close_handshake(proposals: &[Proposal; 4], reply: &[u8]) -> (r: Result<Version, Error>)
    ensures
        r == agreed(proposals@, reply@),
{
    if reply.len() < 4 {
        return Err(Error::ProtocolViolation { detail: Violation::UnexpectedEnd });
    }
    if reply.len() > 4 {
        return Err(Error::ProtocolViolation { detail: Violation::TrailingBytes });
    }
    if reply[0] == 0 && reply[1] == 0 && reply[2] == 0 && reply[3] == 0 {
        return Err(Error::UnsupportedVersion);
    }
    let v = Version { major: reply[3], minor: reply[2] };
    let mut i: usize = 0;
    while i < 4
        invariant
            i <= 4,
            reply@.len() == 4,
            !(reply@[0] == 0 && reply@[1] == 0 && reply@[2] == 0 && reply@[3] == 0),
            v == (Version { major: reply@[3], minor: reply@[2] }),
            forall|j: int| 0 <= j < i ==> !covers(#[trigger] proposals@[j], v),
        decreases 4 - i,
    {
        let p: Proposal = proposals[i];
        if p.version.major == v.major && v.minor <= p.version.minor && p.version.minor - v.minor
            <= p.range {
            assert(covers(proposals@[i as int], v));
            return Ok(v);
        }
        i += 1;
    }
    Err(Error::ProtocolViolation { detail: Violation::UnexpectedMessage })
}

} // verus!
