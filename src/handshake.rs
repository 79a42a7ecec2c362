//! The RTMP handshake: the server's answer to the client's first blocks.
use vstd::prelude::*;
use crate::boxes::{push_zeros, zeros};
use crate::wire::{be32, push_bytes, push_u32};

verus! {

/// The RTMP version byte of C0 and S0.
pub const RTMP_VERSION: u8 = 3;

/// Bytes of each of C1, C2, S1 and S2.
pub const HANDSHAKE_BLOCK: usize = 1536;

/// Bytes of random data in C1 and S1, after time and zero fields.
pub const HANDSHAKE_RANDOM: usize = 1528;

#[derive(Clone, Copy, Debug, PartialEq, Eq, Structural)]
pub enum HandshakeError {
    /// Fewer than the 1537 bytes of C0 and C1.
    Truncated,
    /// A C0 other than version 3; holds it.
    UnsupportedVersion(u8),
}

/// S0, S1 and S2: the version; our time, four zero bytes and our random
/// bytes; then C1 echoed with its second field set to our time.
pub open spec fn handshake_answer(c0c1: Seq<u8>, server_time: u32, random: Seq<u8>) -> Seq<u8> {
    seq![RTMP_VERSION] + be32(server_time) + zeros(4) + random + c0c1.subrange(1, 5) + be32(
        server_time,
    ) + c0c1.subrange(9, 1 + HANDSHAKE_BLOCK as int)
}

/// Answers C0 and C1 with S0, S1 and S2.
pub fn handshake_response(c0c1: &[u8], server_time: u32, random: &[u8]) -> (r: Result<
    Vec<u8>,
    HandshakeError,
>)
    requires
        random@.len() == HANDSHAKE_RANDOM,
    ensures
        c0c1@.len() < 1 + HANDSHAKE_BLOCK ==> r == Err::<Vec<u8>, HandshakeError>(
            HandshakeError::Truncated,
        ),
        c0c1@.len() >= 1 + HANDSHAKE_BLOCK && c0c1@[0] != RTMP_VERSION ==> r == Err::<
            Vec<u8>,
            HandshakeError,
        >(HandshakeError::UnsupportedVersion(c0c1@[0])),
        r is Ok <==> c0c1@.len() >= 1 + HANDSHAKE_BLOCK && c0c1@[0] == RTMP_VERSION,
        r is Ok ==> r->Ok_0@ == handshake_answer(c0c1@, server_time, random@),
        r is Ok ==> r->Ok_0@.len() == 1 + 2 * HANDSHAKE_BLOCK,
{
    if c0c1.len() < 1 + HANDSHAKE_BLOCK {
        return Err(HandshakeError::Truncated);
    }
    if c0c1[0] != RTMP_VERSION {
        return Err(HandshakeError::UnsupportedVersion(c0c1[0]));
    }
    let mut out: Vec<u8> = Vec::new();
    out.push(RTMP_VERSION);
    push_u32(&mut out, server_time);
    push_zeros(&mut out, 4);
    push_bytes(&mut out, random);
    let mut i: usize = 1;
    while i < 5
        invariant
            1 <= i <= 5,
            c0c1@.len() >= 1 + HANDSHAKE_BLOCK,
            out@ == seq![RTMP_VERSION] + be32(server_time) + zeros(4) + random@ + c0c1@.subrange(
                1,
                i as int,
            ),
        decreases 5 - i,
    {
        out.push(c0c1[i]);
        i = i + 1;
        assert(out@ =~= seq![RTMP_VERSION] + be32(server_time) + zeros(4) + random@
            + c0c1@.subrange(1, i as int));
    }
    push_u32(&mut out, server_time);
    let ghost head = out@;
    let mut j: usize = 9;
    while j < 1 + HANDSHAKE_BLOCK
        invariant
            9 <= j <= 1 + HANDSHAKE_BLOCK,
            c0c1@.len() >= 1 + HANDSHAKE_BLOCK,
            out@ == head + c0c1@.subrange(9, j as int),
        decreases 1 + HANDSHAKE_BLOCK - j,
    {
        out.push(c0c1[j]);
        j = j + 1;
        assert(out@ =~= head + c0c1@.subrange(9, j as int));
    }
    assert(out@ =~= handshake_answer(c0c1@, server_time, random@));
    Ok(out)
}

} // verus!
