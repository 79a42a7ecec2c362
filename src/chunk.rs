//! RTMP chunk streams: chunk headers, and messages reassembled from chunks.
use vstd::prelude::*;

verus! {

/// Chunk size in force until the peer sets another.
pub const DEFAULT_CHUNK_SIZE: u32 = 128;

/// A timestamp field of this value means a four-byte timestamp follows.
pub const EXTENDED_TIMESTAMP: u32 = 0xff_ffff;

#[derive(Clone, Copy, Debug, PartialEq, Eq, Structural)]
pub enum ChunkError {
    /// The bytes end inside the chunk.
    Truncated,
    /// A header that leans on an earlier message of a chunk stream that has none.
    UnknownChunkStream(u32),
    /// A chunk size of 0 or above `0x7fff_ffff`.
    InvalidChunkSize(u32),
}

/// A chunk header as it stands in the bytes. Fields that the header type
/// leaves out are 0; `timestamp` is a delta for types 1 and 2.
#[derive(Clone, Copy, Debug, PartialEq, Eq, Structural)]
pub struct ChunkHeader {
    pub fmt: u8,
    pub csid: u32,
    pub timestamp: u32,
    pub length: u32,
    pub type_id: u8,
    pub stream_id: u32,
    /// The timestamp came as an extended timestamp.
    pub extended: bool,
    /// Bytes of the header, extended timestamp included.
    pub header_len: usize,
}

pub open spec fn be24(s: Seq<u8>, i: int) -> nat {
    s[i] as nat * 0x1_0000 + s[i + 1] as nat * 0x100 + s[i + 2] as nat
}

pub open spec fn be32_at(s: Seq<u8>, i: int) -> nat {
    s[i] as nat * 0x100_0000 + s[i + 1] as nat * 0x1_0000 + s[i + 2] as nat * 0x100 + s[i + 3] as nat
}

pub open spec fn le32_at(s: Seq<u8>, i: int) -> nat {
    s[i] as nat + s[i + 1] as nat * 0x100 + s[i + 2] as nat * 0x1_0000 + s[i + 3] as nat * 0x100_0000
}

/// Bytes of the basic header: chunk stream ids 0 and 1 announce one or two
/// more bytes of id.
pub open spec fn basic_header_len(b: u8) -> nat {
    if b % 64 == 0 {
        2
    } else if b % 64 == 1 {
        3
    } else {
        1
    }
}

pub open spec fn message_header_len(fmt: nat) -> nat {
    if fmt == 0 {
        11
    } else if fmt == 1 {
        7
    } else if fmt == 2 {
        3
    } else {
        0
    }
}

/// What reading a chunk header from the start of `s` gives. A type 3 header
/// carries an extended timestamp where the chunk stream's last header did.
pub open spec fn chunk_header_of(s: Seq<u8>, prev_extended: bool) -> Result<ChunkHeader, ChunkError> {
    if s.len() < 1 || s.len() < basic_header_len(s[0]) {
        Err(ChunkError::Truncated)
    } else {
        let fmt = s[0] / 64;
        let b = basic_header_len(s[0]) as int;
        let csid: nat = if s[0] % 64 == 0 {
            s[1] as nat + 64
        } else if s[0] % 64 == 1 {
            s[1] as nat + s[2] as nat * 256 + 64
        } else {
            (s[0] % 64) as nat
        };
        let m = message_header_len(fmt as nat) as int;
        if s.len() < b + m {
            Err(ChunkError::Truncated)
        } else {
            let field: nat = if fmt < 3 {
                be24(s, b)
            } else {
                0
            };
            let extended = (fmt < 3 && field == EXTENDED_TIMESTAMP) || (fmt == 3 && prev_extended);
            let total = b + m + if extended {
                4int
            } else {
                0
            };
            if s.len() < total {
                Err(ChunkError::Truncated)
            } else {
                Ok(
                    ChunkHeader {
                        fmt: fmt as u8,
                        csid: csid as u32,
                        timestamp: if extended {
                            be32_at(s, b + m) as u32
                        } else {
                            field as u32
                        },
                        length: if fmt <= 1 {
                            be24(s, b + 3) as u32
                        } else {
                            0
                        },
                        type_id: if fmt <= 1 {
                            s[b + 6]
                        } else {
                            0
                        },
                        stream_id: if fmt == 0 {
                            le32_at(s, b + 7) as u32
                        } else {
                            0
                        },
                        extended,
                        header_len: total as usize,
                    },
                )
            }
        }
    }
}

fn read_be24(s: &[u8], i: usize) -> (r: u32)
    requires
        i + 3 <= s@.len(),
    ensures
        r == be24(s@, i as int),
{
    (s[i] as u32) * 0x1_0000 + (s[i + 1] as u32) * 0x100 + (s[i + 2] as u32)
}

/// Reads a chunk header from the start of `s`.
pub fn parse_chunk_header(s: &[u8], prev_extended: bool) -> (r: Result<ChunkHeader, ChunkError>)
    ensures
        r == chunk_header_of(s@, prev_extended),
{
    if s.len() < 1 {
        return Err(ChunkError::Truncated);
    }
    let c = s[0] % 64;
    let b: usize = if c == 0 {
        2
    } else if c == 1 {
        3
    } else {
        1
    };
    if s.len() < b {
        return Err(ChunkError::Truncated);
    }
    let fmt = s[0] / 64;
    let csid: u32 = if c == 0 {
        s[1] as u32 + 64
    } else if c == 1 {
        s[1] as u32 + (s[2] as u32) * 256 + 64
    } else {
        c as u32
    };
    let m: usize = if fmt == 0 {
        11
    } else if fmt == 1 {
        7
    } else if fmt == 2 {
        3
    } else {
        0
    };
    if s.len() - b < m {
        return Err(ChunkError::Truncated);
    }
    let field: u32 = if fmt < 3 {
        read_be24(s, b)
    } else {
        0
    };
    let extended = (fmt < 3 && field == EXTENDED_TIMESTAMP) || (fmt == 3 && prev_extended);
    let ext_len: usize = if extended {
        4
    } else {
        0
    };
    if s.len() - b - m < ext_len {
        return Err(ChunkError::Truncated);
    }
    let timestamp: u32 = if extended {
        let p = b + m;
        (s[p] as u32) * 0x100_0000 + (s[p + 1] as u32) * 0x1_0000 + (s[p + 2] as u32) * 0x100 + (
        s[p + 3] as u32)
    } else {
        field
    };
    let length: u32 = if fmt <= 1 {
        read_be24(s, b + 3)
    } else {
        0
    };
    let type_id: u8 = if fmt <= 1 {
        s[b + 6]
    } else {
        0
    };
    let stream_id: u32 = if fmt == 0 {
        (s[b + 7] as u32) + (s[b + 8] as u32) * 0x100 + (s[b + 9] as u32) * 0x1_0000 + (
        s[b + 10] as u32) * 0x100_0000
    } else {
        0
    };
    Ok(
        ChunkHeader {
            fmt,
            csid,
            timestamp,
            length,
            type_id,
            stream_id,
            extended,
            header_len: b + m + ext_len,
        },
    )
}

fn append_range(body: &mut Vec<u8>, s: &[u8], start: usize, end: usize)
    requires
        start <= end <= s@.len(),
    ensures
        final(body)@ == old(body)@ + s@.subrange(start as int, end as int),
{
    let mut k: usize = start;
    while k < end
        invariant
            start <= k <= end <= s@.len(),
            body@ == old(body)@ + s@.subrange(start as int, k as int),
        decreases end - k,
    {
        body.push(s[k]);
        k = k + 1;
        assert(body@ =~= old(body)@ + s@.subrange(start as int, k as int));
    }
}

/// The message a chunk stream is receiving and the fields of its last header.
pub struct ChunkStreamState {
    pub csid: u32,
    pub timestamp: u32,
    pub length: u32,
    pub type_id: u8,
    pub stream_id: u32,
    pub extended: bool,
    /// Bytes of the current message received so far.
    pub body: Vec<u8>,
}

/// A whole message.
pub struct RtmpMessage {
    pub csid: u32,
    pub timestamp: u32,
    pub type_id: u8,
    pub stream_id: u32,
    pub payload: Vec<u8>,
}

/// The fields a chunk stream's message takes from a new header: a type 0
/// header gives all of them; type 1 a timestamp delta, length and type; type 2
/// a timestamp delta; type 3 none. A delta counts only where a message starts.
pub open spec fn header_fields(
    prev: (u32, u32, u8, u32),
    h: ChunkHeader,
    starting: bool,
) -> (u32, u32, u8, u32) {
    let (ts, len, ty, sid) = prev;
    if h.fmt == 0 {
        (h.timestamp, h.length, h.type_id, h.stream_id)
    } else if h.fmt == 1 {
        (((ts as nat + h.timestamp as nat) % 0x1_0000_0000) as u32, h.length, h.type_id, sid)
    } else if h.fmt == 2 && starting {
        (((ts as nat + h.timestamp as nat) % 0x1_0000_0000) as u32, len, ty, sid)
    } else {
        prev
    }
}

/// Splits the byte stream of a connection into messages, chunk by chunk.
pub struct ChunkAssembler {
    chunk_size: u32,
    streams: Vec<ChunkStreamState>,
}

pub open spec fn is_stream_state(streams: Seq<ChunkStreamState>, csid: u32, i: int) -> bool {
    &&& 0 <= i < streams.len()
    &&& streams[i].csid == csid
    &&& forall|j: int| 0 <= j < i ==> (#[trigger] streams[j]).csid != csid
}

pub open spec fn csids_unique(streams: Seq<ChunkStreamState>) -> bool {
    forall|i: int, j: int|
        0 <= i < streams.len() && 0 <= j < streams.len() && i != j ==> (#[trigger] streams[i]).csid
            != (#[trigger] streams[j]).csid
}

/// Position of the state of chunk stream `csid`, if it has one.
pub open spec fn stream_pos(streams: Seq<ChunkStreamState>, csid: u32) -> Option<int> {
    if exists|i: int| is_stream_state(streams, csid, i) {
        Some(choose|i: int| is_stream_state(streams, csid, i))
    } else {
        None
    }
}

proof fn lemma_stream_pos(streams: Seq<ChunkStreamState>, csid: u32, found: Option<usize>)
    requires
        found is None ==> forall|i: int| !is_stream_state(streams, csid, i),
        found is Some ==> is_stream_state(streams, csid, found->Some_0 as int),
    ensures
        found is None ==> stream_pos(streams, csid) is None,
        found is Some ==> stream_pos(streams, csid) == Some(found->Some_0 as int),
{
    if let Some(i) = found {
        let k = choose|k: int| is_stream_state(streams, csid, k);
        let j = i as int;
        if k < j {
            assert(streams[k].csid != csid);
        } else if j < k {
            assert(streams[j].csid != csid);
        }
    }
}

/// The header of the chunk at the start of `s`: a type 3 header carries an
/// extended timestamp where its stream's last header did.
pub open spec fn effective_header(streams: Seq<ChunkStreamState>, s: Seq<u8>) -> Result<
    ChunkHeader,
    ChunkError,
> {
    match chunk_header_of(s, false) {
        Err(e) => Err(e),
        Ok(first) => {
            let ext = match stream_pos(streams, first.csid) {
                Some(i) => streams[i].extended,
                None => false,
            };
            if first.fmt == 3 && ext {
                chunk_header_of(s, true)
            } else {
                Ok(first)
            }
        },
    }
}

/// What reading the chunk at the start of `s` gives: its header, the bytes of
/// the message received before it that it continues, the bytes it carries (as
/// many as the message still needs, at most the chunk size), and the message's
/// length; or the error. Types 0 and 1 start a message; types 2 and 3 continue
/// the stream's message, or start one of the same length.
pub open spec fn chunk_read_of(streams: Seq<ChunkStreamState>, chunk_size: u32, s: Seq<u8>) -> Result<
    (ChunkHeader, Seq<u8>, Seq<u8>, nat),
    ChunkError,
> {
    match effective_header(streams, s) {
        Err(e) => Err(e),
        Ok(h) => {
            let pos = stream_pos(streams, h.csid);
            if pos is None && h.fmt != 0 {
                Err(ChunkError::UnknownChunkStream(h.csid))
            } else {
                let prev_len: nat = match pos {
                    Some(i) => streams[i].length as nat,
                    None => 0,
                };
                let body: Seq<u8> = match pos {
                    Some(i) => streams[i].body@,
                    None => Seq::empty(),
                };
                let len: nat = if h.fmt <= 1 {
                    h.length as nat
                } else {
                    prev_len
                };
                let kept: Seq<u8> = if h.fmt <= 1 {
                    Seq::empty()
                } else {
                    body
                };
                let need: nat = if len > kept.len() {
                    (len - kept.len()) as nat
                } else {
                    0
                };
                let take: nat = if need < chunk_size {
                    need
                } else {
                    chunk_size as nat
                };
                if s.len() < h.header_len + take {
                    Err(ChunkError::Truncated)
                } else {
                    Ok(
                        (
                            h,
                            kept,
                            s.subrange(h.header_len as int, h.header_len + take),
                            len,
                        ),
                    )
                }
            }
        },
    }
}

impl ChunkAssembler {
    /// A chunk size of at least one byte, and one state per chunk stream.
    pub closed spec fn wf(&self) -> bool {
        &&& self.chunk_size >= 1
        &&& csids_unique(self.streams@)
        &&& forall|i: int|
            0 <= i < self.streams@.len() ==> (#[trigger] self.streams@[i]).body@.len() == 0
                || self.streams@[i].body@.len() < self.streams@[i].length
    }

    pub closed spec fn chunk_size_spec(&self) -> u32 {
        self.chunk_size
    }

    pub closed spec fn streams(&self) -> Seq<ChunkStreamState> {
        self.streams@
    }

    pub fn new() -> (r: ChunkAssembler)
        ensures
            r.wf(),
            r.chunk_size_spec() == DEFAULT_CHUNK_SIZE,
            r.streams().len() == 0,
    {
        ChunkAssembler { chunk_size: DEFAULT_CHUNK_SIZE, streams: Vec::new() }
    }

    pub fn chunk_size(&self) -> (r: u32)
        ensures
            r == self.chunk_size_spec(),
    {
        self.chunk_size
    }

    /// Takes the size the peer announced for its later chunks.
    pub fn set_chunk_size(&mut self, size: u32) -> (r: Result<(), ChunkError>)
        requires
            old(self).wf(),
        ensures
            final(self).wf(),
            r is Ok <==> 1 <= size <= 0x7fff_ffff,
            r is Ok ==> final(self).chunk_size_spec() == size,
            r is Err ==> r->Err_0 == ChunkError::InvalidChunkSize(size) && final(self).chunk_size_spec() == old(self).chunk_size_spec(),
            final(self).streams() == old(self).streams(),
    {
        if size == 0 || size > 0x7fff_ffff {
            return Err(ChunkError::InvalidChunkSize(size));
        }
        self.chunk_size = size;
        Ok(())
    }

    fn find(&self, csid: u32) -> (r: Option<usize>)
        ensures
            r is None ==> forall|i: int| !is_stream_state(self.streams(), csid, i),
            r is Some ==> is_stream_state(self.streams(), csid, r->Some_0 as int),
    {
        let mut i: usize = 0;
        while i < self.streams.len()
            invariant
                i <= self.streams@.len(),
                forall|j: int| 0 <= j < i ==> (#[trigger] self.streams@[j]).csid != csid,
            decreases self.streams@.len() - i,
        {
            if self.streams[i].csid == csid {
                return Some(i);
            }
            i = i + 1;
        }
        None
    }

    /// Reads one chunk from the start of `s`: its header, then as many bytes of
    /// the message as the chunk size allows. Returns how many bytes the chunk
    /// took, and the message where the chunk completed one. Where the bytes end
    /// inside the chunk nothing changes.
    pub fn read_chunk(&mut self, s: &[u8]) -> (r: Result<(usize, Option<RtmpMessage>), ChunkError>)
        requires
            old(self).wf(),
        ensures
            final(self).wf(),
            r is Ok <==> chunk_read_of(old(self).streams(), old(self).chunk_size_spec(), s@) is Ok,
            r is Err ==> r->Err_0 == chunk_read_of(
                old(self).streams(),
                old(self).chunk_size_spec(),
                s@,
            )->Err_0,
            r is Ok ==> r->Ok_0.0 == chunk_read_of(
                old(self).streams(),
                old(self).chunk_size_spec(),
                s@,
            )->Ok_0.0.header_len + chunk_read_of(
                old(self).streams(),
                old(self).chunk_size_spec(),
                s@,
            )->Ok_0.2.len(),
            r is Ok ==> (r->Ok_0.1 is Some <==> {
                let c = chunk_read_of(old(self).streams(), old(self).chunk_size_spec(), s@)->Ok_0;
                c.1.len() + c.2.len() >= c.3
            }),
            r is Ok && r->Ok_0.1 is Some ==> r->Ok_0.1->Some_0.payload@ == chunk_read_of(
                old(self).streams(),
                old(self).chunk_size_spec(),
                s@,
            )->Ok_0.1 + chunk_read_of(old(self).streams(), old(self).chunk_size_spec(), s@)->Ok_0.2,
            r is Err ==> final(self).streams() == old(self).streams() && final(self).chunk_size_spec() == old(self).chunk_size_spec(),
            r is Ok ==> final(self).chunk_size_spec() == old(self).chunk_size_spec(),
            r is Ok ==> 0 < r->Ok_0.0 <= s@.len(),
            r is Ok ==> exists|i: int|
                #![trigger final(self).streams()[i]]
                is_stream_state(final(self).streams(), chunk_header_of(s@, false)->Ok_0.csid, i)
                    && {
                    let st = final(self).streams()[i];
                    let msg = r->Ok_0.1;
                    &&& msg is Some ==> msg->Some_0.payload@.len() == st.length
                        && msg->Some_0.csid == st.csid && msg->Some_0.timestamp
                        == st.timestamp && msg->Some_0.type_id == st.type_id
                        && msg->Some_0.stream_id == st.stream_id && st.body@.len() == 0
                    &&& msg is None ==> 0 < st.body@.len() < st.length
                },
    {
        let first = match parse_chunk_header(s, false) {
            Ok(h) => h,
            Err(e) => {
                return Err(e);
            },
        };
        let csid = first.csid;
        let found = self.find(csid);
        proof {
            lemma_stream_pos(self.streams@, csid, found);
        }
        let prev_extended = match found {
            Some(i) => self.streams[i].extended,
            None => false,
        };
        let h = if first.fmt == 3 && prev_extended {
            match parse_chunk_header(s, true) {
                Ok(h) => h,
                Err(e) => {
                    return Err(e);
                },
            }
        } else {
            first
        };
        assert(h.csid == csid);
        let (ts, len, ty, sid, body_len) = match found {
            Some(i) => {
                let st = &self.streams[i];
                (st.timestamp, st.length, st.type_id, st.stream_id, st.body.len())
            },
            None => {
                if h.fmt != 0 {
                    return Err(ChunkError::UnknownChunkStream(csid));
                }
                (0, 0, 0, 0, 0)
            },
        };
        let starting = body_len == 0;
        let (ts, len, ty, sid) = if h.fmt == 0 {
            (h.timestamp, h.length, h.type_id, h.stream_id)
        } else if h.fmt == 1 {
            (ts.wrapping_add(h.timestamp), h.length, h.type_id, sid)
        } else if h.fmt == 2 && starting {
            (ts.wrapping_add(h.timestamp), len, ty, sid)
        } else {
            (ts, len, ty, sid)
        };
        let have: usize = if h.fmt <= 1 {
            0
        } else {
            body_len
        };
        let need: u32 = if (len as usize) > have {
            len - have as u32
        } else {
            0
        };
        let take: u32 = if need < self.chunk_size {
            need
        } else {
            self.chunk_size
        };
        if s.len() - h.header_len < take as usize {
            return Err(ChunkError::Truncated);
        }
        let end: usize = h.header_len + take as usize;
        match found {
            Some(i) => {
                let mut st = self.streams.remove(i);
                let mut body = if have > 0 {
                    st.body
                } else {
                    Vec::new()
                };
                assert(body@.len() == have);
                append_range(&mut body, s, h.header_len, end);
                proof {
                    let o = old(self).streams@[i as int];
                    assert(o.body@.len() == 0 || o.body@.len() < o.length);
                    assert(have > 0 ==> have < len);
                    assert(body@.len() <= len);
                    assert(body@.len() < len ==> body@.len() > 0);
                }
                st.timestamp = ts;
                st.length = len;
                st.type_id = ty;
                st.stream_id = sid;
                st.extended = h.extended;
                let message = if body.len() >= len as usize {
                    st.body = Vec::new();
                    Some(RtmpMessage { csid, timestamp: ts, type_id: ty, stream_id: sid, payload: body })
                } else {
                    st.body = body;
                    None
                };
                self.streams.insert(i, st);
                proof {
                    let o = old(self).streams@;
                    assert(self.streams@ =~= o.update(i as int, st));
                    assert(csids_unique(self.streams@)) by {
                        assert forall|x: int, y: int|
                            0 <= x < self.streams@.len() && 0 <= y < self.streams@.len() && x != y
                                implies (#[trigger] self.streams@[x]).csid
                            != (#[trigger] self.streams@[y]).csid by {
                            assert(o[x].csid == self.streams@[x].csid);
                            assert(o[y].csid == self.streams@[y].csid);
                        }
                    }
                    assert forall|j: int| 0 <= j < self.streams@.len() implies (
                    #[trigger] self.streams@[j]).body@.len() == 0 || self.streams@[j].body@.len()
                        < self.streams@[j].length by {
                        if j != i {
                            assert(self.streams@[j] == o[j]);
                        }
                    }
                    assert forall|j: int| 0 <= j < i implies (#[trigger] self.streams@[j]).csid
                        != csid by {
                        assert(self.streams@[j] == o[j]);
                    }
                    assert(is_stream_state(self.streams@, csid, i as int));
                    assert(self.streams()[i as int] == self.streams@[i as int]);
                }
                Ok((end, message))
            },
            None => {
                let mut body: Vec<u8> = Vec::new();
                append_range(&mut body, s, h.header_len, end);
                assert(body@.len() <= len);
                assert(body@.len() < len ==> body@.len() > 0);
                let complete = body.len() >= len as usize;
                let (message, rest) = if complete {
                    (
                        Some(RtmpMessage { csid, timestamp: ts, type_id: ty, stream_id: sid, payload: body }),
                        Vec::new(),
                    )
                } else {
                    (None, body)
                };
                let n = self.streams.len();
                self.streams.push(
                    ChunkStreamState {
                        csid,
                        timestamp: ts,
                        length: len,
                        type_id: ty,
                        stream_id: sid,
                        extended: h.extended,
                        body: rest,
                    },
                );
                proof {
                    let o = old(self).streams@;
                    assert forall|j: int| 0 <= j < n implies (#[trigger] self.streams@[j]).csid
                        != csid by {
                        assert(self.streams@[j] == o[j]);
                        if o[j].csid == csid {
                            assert forall|k: int| 0 <= k < j implies (#[trigger] o[k]).csid != csid by {
                                assert(o[k].csid != o[j].csid);
                            }
                            assert(is_stream_state(o, csid, j));
                            assert(is_stream_state(old(self).streams(), csid, j));
                        }
                    }
                    assert(is_stream_state(self.streams@, csid, n as int));
                    assert(self.streams()[n as int] == self.streams@[n as int]);
                    assert(csids_unique(self.streams@)) by {
                        assert forall|x: int, y: int|
                            0 <= x < self.streams@.len() && 0 <= y < self.streams@.len() && x != y
                                implies (#[trigger] self.streams@[x]).csid
                            != (#[trigger] self.streams@[y]).csid by {
                            if x < n && y < n {
                                assert(self.streams@[x] == o[x] && self.streams@[y] == o[y]);
                            }
                        }
                    }
                    assert forall|j: int| 0 <= j < self.streams@.len() implies (
                    #[trigger] self.streams@[j]).body@.len() == 0 || self.streams@[j].body@.len()
                        < self.streams@[j].length by {
                        if j < n {
                            assert(self.streams@[j] == o[j]);
                        }
                    }
                }
                Ok((end, message))
            },
        }
    }
}

} // verus!
