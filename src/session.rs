//! The command side of an RTMP session: what each command leads to, and the
//! bytes of the server's messages.
use vstd::prelude::*;
use crate::amf::{parse_command, publish_stream_key, string_after, command_of};
use crate::wire::{be16, be32, push_bytes, push_u16, push_u32, push_u64, push_u8, be64};

verus! {

/// Chunk stream the server sends its command messages on.
pub const COMMAND_CHUNK_STREAM: u8 = 3;

/// Message type of AMF0 commands.
pub const MESSAGE_COMMAND: u8 = 20;

/// Message type of a chunk size announcement.
pub const MESSAGE_SET_CHUNK_SIZE: u8 = 1;

/// Chunk size the server announces before its other messages.
pub const SERVER_CHUNK_SIZE: u32 = 4096;

/// The bits of the double 1.0: the id of the one stream a session publishes on.
pub const STREAM_ID_ONE: u64 = 0x3ff0_0000_0000_0000;

#[derive(Clone, Copy, Debug, PartialEq, Eq, Structural)]
pub enum SessionState {
    AwaitingConnect,
    Connected,
    Publishing,
}

pub enum SessionAction {
    /// Answer `connect` with `_result`.
    AcceptConnect { transaction_id: u64 },
    /// Answer `createStream` with `_result` and stream 1.
    AcceptCreateStream { transaction_id: u64 },
    /// Look the key up and start the broadcast.
    Publish { key: Vec<u8> },
    /// Nothing to answer.
    Nothing,
}

pub open spec fn accepts_connect(a: SessionAction, txid: u64) -> bool {
    match a {
        SessionAction::AcceptConnect { transaction_id } => transaction_id == txid,
        _ => false,
    }
}

pub open spec fn accepts_create_stream(a: SessionAction, txid: u64) -> bool {
    match a {
        SessionAction::AcceptCreateStream { transaction_id } => transaction_id == txid,
        _ => false,
    }
}

pub open spec fn publishes(a: SessionAction, stream_key: Seq<u8>) -> bool {
    match a {
        SessionAction::Publish { key } => key@ == stream_key,
        _ => false,
    }
}

pub open spec fn connect_name() -> Seq<u8> {
    seq![99u8, 111, 110, 110, 101, 99, 116]
}

pub open spec fn create_stream_name() -> Seq<u8> {
    seq![99u8, 114, 101, 97, 116, 101, 83, 116, 114, 101, 97, 109]
}

pub open spec fn publish_name() -> Seq<u8> {
    seq![112u8, 117, 98, 108, 105, 115, 104]
}

fn is_name(name: &Vec<u8>, expected: &[u8]) -> (r: bool)
    ensures
        r == (name@ == expected@),
{
    if name.len() != expected.len() {
        return false;
    }
    let mut i: usize = 0;
    while i < name.len()
        invariant
            name@.len() == expected@.len(),
            i <= name@.len(),
            forall|j: int| 0 <= j < i ==> name@[j] == expected@[j],
        decreases name@.len() - i,
    {
        if name[i] != expected[i] {
            return false;
        }
        i = i + 1;
    }
    assert(name@ =~= expected@);
    true
}

/// What a command message leads to: `connect` connects, `createStream` is
/// answered once connected, `publish` with a key starts publishing; anything
/// else, or a command out of turn, changes nothing.
pub fn on_command(state: SessionState, payload: &[u8]) -> (r: (SessionState, SessionAction))
    ensures
        command_of(payload@) is None ==> r.0 == state && r.1 is Nothing,
        command_of(payload@) matches Some((name, txid, rest)) ==> {
            if name == connect_name() && state == SessionState::AwaitingConnect {
                r.0 == SessionState::Connected && accepts_connect(r.1, txid)
            } else if name == create_stream_name() && state == SessionState::Connected {
                r.0 == state && accepts_create_stream(r.1, txid)
            } else if name == publish_name() && state == SessionState::Connected && string_after(
                payload@,
                rest,
            ) is Some {
                r.0 == SessionState::Publishing && publishes(r.1, string_after(payload@, rest)->Some_0)
            } else {
                r.0 == state && r.1 is Nothing
            }
        },
{
    let c = match parse_command(payload) {
        Ok(c) => c,
        Err(_) => {
            return (state, SessionAction::Nothing);
        },
    };
    if is_name(&c.name, &[99u8, 111, 110, 110, 101, 99, 116]) && state
        == SessionState::AwaitingConnect {
        assert(seq![99u8, 111, 110, 110, 101, 99, 116] =~= connect_name());
        (SessionState::Connected, SessionAction::AcceptConnect { transaction_id: c.transaction_id })
    } else if is_name(&c.name, &[99u8, 114, 101, 97, 116, 101, 83, 116, 114, 101, 97, 109])
        && state == SessionState::Connected {
        assert(seq![99u8, 114, 101, 97, 116, 101, 83, 116, 114, 101, 97, 109]
            =~= create_stream_name());
        (state, SessionAction::AcceptCreateStream { transaction_id: c.transaction_id })
    } else if is_name(&c.name, &[112u8, 117, 98, 108, 105, 115, 104]) && state
        == SessionState::Connected {
        assert(seq![112u8, 117, 98, 108, 105, 115, 104] =~= publish_name());
        match publish_stream_key(payload, &c) {
            Ok(key) => (SessionState::Publishing, SessionAction::Publish { key }),
            Err(_) => (state, SessionAction::Nothing),
        }
    } else {
        proof {
            assert(seq![99u8, 111, 110, 110, 101, 99, 116] =~= connect_name());
            assert(seq![99u8, 114, 101, 97, 116, 101, 83, 116, 114, 101, 97, 109]
                =~= create_stream_name());
            assert(seq![112u8, 117, 98, 108, 105, 115, 104] =~= publish_name());
        }
        (state, SessionAction::Nothing)
    }
}

/// An AMF0 string value.
pub open spec fn amf_string(s: Seq<u8>) -> Seq<u8> {
    seq![2u8] + be16(s.len() as u16) + s
}

/// An AMF0 number value from the bits of its double.
pub open spec fn amf_number(bits: u64) -> Seq<u8> {
    seq![0u8] + be64(bits)
}

/// An object property with a string value.
pub open spec fn string_property_bytes(key: Seq<u8>, value: Seq<u8>) -> Seq<u8> {
    be16(key.len() as u16) + key + amf_string(value)
}

fn push_amf_string(out: &mut Vec<u8>, s: &[u8])
    requires
        s@.len() <= u16::MAX,
    ensures
        final(out)@ == old(out)@ + amf_string(s@),
{
    push_u8(out, 2);
    push_u16(out, s.len() as u16);
    push_bytes(out, s);
    assert(final(out)@ =~= old(out)@ + amf_string(s@));
}

fn push_amf_number(out: &mut Vec<u8>, bits: u64)
    ensures
        final(out)@ == old(out)@ + amf_number(bits),
{
    push_u8(out, 0);
    push_u64(out, bits);
    assert(final(out)@ =~= old(out)@ + amf_number(bits));
}

fn push_string_property(out: &mut Vec<u8>, key: &[u8], value: &[u8])
    requires
        key@.len() <= u16::MAX,
        value@.len() <= u16::MAX,
    ensures
        final(out)@ == old(out)@ + string_property_bytes(key@, value@),
{
    push_u16(out, key.len() as u16);
    push_bytes(out, key);
    push_amf_string(out, value);
    assert(final(out)@ =~= old(out)@ + string_property_bytes(key@, value@));
}

/// The body of an `onStatus` command about the stream: level `status` (or
/// `error`), the status code and a description.
pub open spec fn on_status_body(error: bool, code: Seq<u8>, description: Seq<u8>) -> Seq<u8> {
    amf_string(seq![111u8, 110, 83, 116, 97, 116, 117, 115]) + amf_number(0) + seq![5u8, 3u8]
        + string_property_bytes(
        seq![108u8, 101, 118, 101, 108],
        if error {
            seq![101u8, 114, 114, 111, 114]
        } else {
            seq![115u8, 116, 97, 116, 117, 115]
        },
    ) + string_property_bytes(seq![99u8, 111, 100, 101], code) + string_property_bytes(
        seq![100u8, 101, 115, 99, 114, 105, 112, 116, 105, 111, 110],
        description,
    ) + seq![0u8, 0u8, 9u8]
}

/// The body of an `onStatus` command, `NetStream.Publish.Start` or
/// `NetStream.Publish.BadName` for one.
pub fn on_status(error: bool, code: &[u8], description: &[u8]) -> (r: Vec<u8>)
    requires
        code@.len() <= u16::MAX,
        description@.len() <= u16::MAX,
    ensures
        r@ == on_status_body(error, code@, description@),
{
    let mut out: Vec<u8> = Vec::new();
    push_amf_string(&mut out, &[111u8, 110, 83, 116, 97, 116, 117, 115]);
    push_amf_number(&mut out, 0);
    push_u8(&mut out, 5);
    push_u8(&mut out, 3);
    if error {
        push_string_property(&mut out, &[108u8, 101, 118, 101, 108], &[101u8, 114, 114, 111, 114]);
    } else {
        push_string_property(
            &mut out,
            &[108u8, 101, 118, 101, 108],
            &[115u8, 116, 97, 116, 117, 115],
        );
    }
    push_string_property(&mut out, &[99u8, 111, 100, 101], code);
    push_string_property(
        &mut out,
        &[100u8, 101, 115, 99, 114, 105, 112, 116, 105, 111, 110],
        description,
    );
    push_u8(&mut out, 0);
    push_u8(&mut out, 0);
    push_u8(&mut out, 9);
    proof {
        assert(seq![111u8, 110, 83, 116, 97, 116, 117, 115] =~= [
            111u8,
            110,
            83,
            116,
            97,
            116,
            117,
            115,
        ]@);
    }
    assert(out@ =~= on_status_body(error, code@, description@));
    out
}

/// The body of a `_result` answer: the transaction id, a null command object,
/// then either the stream id (for `createStream`) or a status object with the
/// code `NetConnection.Connect.Success` (for `connect`).
pub open spec fn result_body(transaction_id: u64, stream_id: Option<u64>) -> Seq<u8> {
    amf_string(seq![95u8, 114, 101, 115, 117, 108, 116]) + amf_number(transaction_id) + seq![5u8]
        + match stream_id {
        Some(id) => amf_number(id),
        None => seq![3u8] + string_property_bytes(
            seq![99u8, 111, 100, 101],
            seq![
                78u8, 101, 116, 67, 111, 110, 110, 101, 99, 116, 105, 111, 110, 46, 67, 111, 110,
                110, 101, 99, 116, 46, 83, 117, 99, 99, 101, 115, 115,
            ],
        ) + seq![0u8, 0u8, 9u8],
    }
}

/// The `_result` answer to `connect` (no stream id) or `createStream`.
pub fn result(transaction_id: u64, stream_id: Option<u64>) -> (r: Vec<u8>)
    ensures
        r@ == result_body(transaction_id, stream_id),
{
    let mut out: Vec<u8> = Vec::new();
    push_amf_string(&mut out, &[95u8, 114, 101, 115, 117, 108, 116]);
    push_amf_number(&mut out, transaction_id);
    push_u8(&mut out, 5);
    match stream_id {
        Some(id) => push_amf_number(&mut out, id),
        None => {
            push_u8(&mut out, 3);
            push_string_property(
                &mut out,
                &[99u8, 111, 100, 101],
                &[
                    78u8, 101, 116, 67, 111, 110, 110, 101, 99, 116, 105, 111, 110, 46, 67, 111,
                    110, 110, 101, 99, 116, 46, 83, 117, 99, 99, 101, 115, 115,
                ],
            );
            push_u8(&mut out, 0);
            push_u8(&mut out, 0);
            push_u8(&mut out, 9);
        },
    }
    assert(out@ =~= result_body(transaction_id, stream_id));
    out
}

/// A whole message in one type 0 chunk: basic header, timestamp, length, type
/// and little-endian stream id, then the payload.
pub open spec fn single_chunk(csid: u8, type_id: u8, stream_id: u32, payload: Seq<u8>) -> Seq<u8> {
    seq![csid] + seq![0u8, 0u8, 0u8] + be32(payload.len() as u32).subrange(1, 4) + seq![type_id]
        + seq![
        (stream_id % 0x100) as u8,
        ((stream_id / 0x100) % 0x100) as u8,
        ((stream_id / 0x1_0000) % 0x100) as u8,
        (stream_id / 0x100_0000) as u8,
    ] + payload
}

/// A message that fits in one chunk, on a chunk stream id from 2 to 63.
pub fn write_single_chunk(csid: u8, type_id: u8, stream_id: u32, payload: &[u8]) -> (r: Vec<u8>)
    requires
        2 <= csid < 64,
        payload@.len() < 0x100_0000,
    ensures
        r@ == single_chunk(csid, type_id, stream_id, payload@),
{
    let mut out: Vec<u8> = Vec::new();
    push_u8(&mut out, csid);
    push_u8(&mut out, 0);
    push_u8(&mut out, 0);
    push_u8(&mut out, 0);
    let ghost before = out@;
    let mut len_bytes: Vec<u8> = Vec::new();
    push_u32(&mut len_bytes, payload.len() as u32);
    push_u8(&mut out, len_bytes[1]);
    push_u8(&mut out, len_bytes[2]);
    push_u8(&mut out, len_bytes[3]);
    assert(out@ =~= before + be32(payload@.len() as u32).subrange(1, 4));
    push_u8(&mut out, type_id);
    push_u8(&mut out, (stream_id % 0x100) as u8);
    push_u8(&mut out, ((stream_id / 0x100) % 0x100) as u8);
    push_u8(&mut out, ((stream_id / 0x1_0000) % 0x100) as u8);
    push_u8(&mut out, (stream_id / 0x100_0000) as u8);
    push_bytes(&mut out, payload);
    assert(out@ =~= single_chunk(csid, type_id, stream_id, payload@));
    out
}

} // verus!
