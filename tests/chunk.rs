use scuffed::chunk::{parse_chunk_header, ChunkAssembler, ChunkError, DEFAULT_CHUNK_SIZE};

fn fmt0(csid: u8, ts: u32, len: u32, type_id: u8, stream_id: u32) -> Vec<u8> {
    let mut v = vec![csid];
    v.extend_from_slice(&ts.to_be_bytes()[1..]);
    v.extend_from_slice(&len.to_be_bytes()[1..]);
    v.push(type_id);
    v.extend_from_slice(&stream_id.to_le_bytes());
    v
}

#[test]
fn chunk_header_types() {
    let h = parse_chunk_header(&fmt0(3, 1000, 300, 9, 1), false).unwrap();
    assert_eq!((h.fmt, h.csid, h.timestamp, h.length, h.type_id, h.stream_id, h.header_len), (0, 3, 1000, 300, 9, 1, 12));
    let h = parse_chunk_header(&[0x44, 0, 0, 40, 0, 0, 10, 8], false).unwrap();
    assert_eq!((h.fmt, h.csid, h.timestamp, h.length, h.type_id, h.header_len), (1, 4, 40, 10, 8, 8));
    let h = parse_chunk_header(&[0x84, 0, 0, 33], false).unwrap();
    assert_eq!((h.fmt, h.csid, h.timestamp, h.header_len), (2, 4, 33, 4));
    let h = parse_chunk_header(&[0xc4], false).unwrap();
    assert_eq!((h.fmt, h.csid, h.header_len), (3, 4, 1));
    assert_eq!(parse_chunk_header(&[0x00, 10], false).err(), Some(ChunkError::Truncated));
}

#[test]
fn chunk_header_ids_and_extended_time() {
    let h = parse_chunk_header(&[0xc1, 0x10, 0x01], false).unwrap();
    assert_eq!((h.csid, h.header_len), (64 + 0x10 + 256, 3));
    let h = parse_chunk_header(&[0xc0, 5], false).unwrap();
    assert_eq!(h.csid, 69);
    let mut ext = fmt0(3, 0xff_ffff, 1, 8, 1);
    ext.extend_from_slice(&0x0100_0000u32.to_be_bytes());
    let h = parse_chunk_header(&ext, false).unwrap();
    assert!(h.extended);
    assert_eq!((h.timestamp, h.header_len), (0x0100_0000, 16));
    let h = parse_chunk_header(&[0xc3, 0, 0, 0, 7], true).unwrap();
    assert_eq!((h.timestamp, h.header_len), (7, 5));
    assert_eq!(parse_chunk_header(&[0x03, 0, 0], false).err(), Some(ChunkError::Truncated));
    assert_eq!(parse_chunk_header(&[], false).err(), Some(ChunkError::Truncated));
}

#[test]
fn message_reassembled_from_chunks() {
    let mut a = ChunkAssembler::new();
    assert_eq!(a.chunk_size(), DEFAULT_CHUNK_SIZE);
    let payload: Vec<u8> = (0..300u32).map(|i| i as u8).collect();
    let mut first = fmt0(6, 500, 300, 9, 1);
    first.extend_from_slice(&payload[..128]);
    let (n, m) = a.read_chunk(&first).unwrap();
    assert_eq!(n, first.len());
    assert!(m.is_none());
    let mut second = vec![0xc6];
    second.extend_from_slice(&payload[128..256]);
    let (_, m) = a.read_chunk(&second).unwrap();
    assert!(m.is_none());
    let mut third = vec![0xc6];
    third.extend_from_slice(&payload[256..]);
    third.extend_from_slice(&[1, 2, 3]);
    let (n, m) = a.read_chunk(&third).unwrap();
    assert_eq!(n, 1 + 44);
    let m = m.unwrap();
    assert_eq!((m.csid, m.timestamp, m.type_id, m.stream_id), (6, 500, 9, 1));
    assert_eq!(m.payload, payload);
    // a type 2 header starts the next message with a timestamp delta
    let mut next = vec![0x86, 0, 0, 40];
    next.extend_from_slice(&payload[..128]);
    let (_, m) = a.read_chunk(&next).unwrap();
    assert!(m.is_none());
}

#[test]
fn chunk_size_and_errors() {
    let mut a = ChunkAssembler::new();
    assert_eq!(a.set_chunk_size(0).err(), Some(ChunkError::InvalidChunkSize(0)));
    assert!(a.set_chunk_size(4096).is_ok());
    assert_eq!(a.chunk_size(), 4096);
    assert_eq!(a.read_chunk(&[0xc9, 1, 2]).err(), Some(ChunkError::UnknownChunkStream(9)));
    let mut short = fmt0(3, 0, 10, 8, 1);
    short.extend_from_slice(&[1, 2, 3]);
    assert_eq!(a.read_chunk(&short).err(), Some(ChunkError::Truncated));
    let mut whole = fmt0(3, 0, 3, 8, 1);
    whole.extend_from_slice(&[1, 2, 3]);
    let m = a.read_chunk(&whole).unwrap().1.unwrap();
    assert_eq!(m.payload, vec![1, 2, 3]);
    let mut delta = vec![0x83, 0, 0, 21];
    delta.extend_from_slice(&[4, 5, 6]);
    let m = a.read_chunk(&delta).unwrap().1.unwrap();
    assert_eq!((m.timestamp, m.payload), (21, vec![4, 5, 6]));
}
