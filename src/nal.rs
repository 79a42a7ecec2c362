//! H.264 NAL unit framing: Annex B start codes, or big-endian length prefixes.
use vstd::prelude::*;
use crate::span::{chunk_views, Span};
use crate::wire::{
    be16, be32, lemma_read_be16, lemma_read_be32, push_bytes, push_u16, push_u32, read_be16,
    read_be32,
};

verus! {

/// How the NAL units of a bitstream are delimited.
#[derive(Clone, Copy, Debug, PartialEq, Eq, Structural)]
pub enum BitstreamFraming {
    /// Each unit follows a `00 00 00 01` (or `00 00 01`) start code.
    AnnexB,
    /// Each unit follows its length as a big-endian 32-bit integer.
    FourByteLength,
    /// Each unit follows its length as a big-endian 16-bit integer.
    TwoByteLength,
}

#[derive(Clone, Copy, Debug, PartialEq, Eq, Structural)]
pub enum BitstreamError {
    /// A length prefix announces more bytes than remain, or is itself cut short.
    MalformedLength,
    /// Annex B data that does not begin with a start code.
    MissingStartCode,
    /// A unit too long for the length prefix of the requested framing.
    UnitTooLong,
}

pub open spec fn start_code() -> Seq<u8> {
    seq![0u8, 0u8, 0u8, 1u8]
}

/// The bytes of one unit in the given framing.
pub open spec fn frame_unit(u: Seq<u8>, framing: BitstreamFraming) -> Seq<u8> {
    match framing {
        BitstreamFraming::AnnexB => start_code() + u,
        BitstreamFraming::FourByteLength => be32(u.len() as u32) + u,
        BitstreamFraming::TwoByteLength => be16(u.len() as u16) + u,
    }
}

/// The bytes of all units, each in the given framing, in order.
pub open spec fn frame_all(units: Seq<Seq<u8>>, framing: BitstreamFraming) -> Seq<u8>
    decreases units.len(),
{
    if units.len() == 0 {
        Seq::empty()
    } else {
        frame_all(units.drop_last(), framing) + frame_unit(units.last(), framing)
    }
}

/// The unit's length fits in the framing's prefix.
pub open spec fn fits_length(u: Seq<u8>, framing: BitstreamFraming) -> bool {
    match framing {
        BitstreamFraming::AnnexB => true,
        BitstreamFraming::FourByteLength => u.len() <= u32::MAX,
        BitstreamFraming::TwoByteLength => u.len() <= u16::MAX,
    }
}

/// A unit that Annex B framing delimits unambiguously: it is not empty, does
/// not end in a zero byte, and holds no `00 00 01`.
pub open spec fn annexb_clean(u: Seq<u8>) -> bool {
    &&& u.len() > 0
    &&& u.last() != 0
    &&& forall|j: int| 0 <= j && j + 2 < u.len() ==> !(#[trigger] u[j] == 0 && u[j + 1] == 0 && u[j + 2] == 1)
}

/// A unit that can be written in the framing and read back from it.
pub open spec fn valid_unit(u: Seq<u8>, framing: BitstreamFraming) -> bool {
    match framing {
        BitstreamFraming::AnnexB => annexb_clean(u),
        _ => fits_length(u, framing),
    }
}

pub open spec fn valid_units(units: Seq<Seq<u8>>, framing: BitstreamFraming) -> bool {
    forall|i: int| 0 <= i < units.len() ==> valid_unit(#[trigger] units[i], framing)
}

pub open spec fn prefix_len(framing: BitstreamFraming) -> nat {
    match framing {
        BitstreamFraming::TwoByteLength => 2,
        _ => 4,
    }
}

pub open spec fn read_prefix(s: Seq<u8>, framing: BitstreamFraming) -> nat {
    match framing {
        BitstreamFraming::TwoByteLength => read_be16(s, 0),
        _ => read_be32(s, 0),
    }
}

/// The units of a length-prefixed bitstream, or `None` where a prefix is cut
/// short or announces more bytes than remain.
pub open spec fn parse_length_prefixed(s: Seq<u8>, framing: BitstreamFraming) -> Option<
    Seq<Seq<u8>>,
>
    decreases s.len(),
{
    if s.len() == 0 {
        Some(Seq::empty())
    } else if s.len() < prefix_len(framing) {
        None
    } else {
        let n = prefix_len(framing);
        let l = read_prefix(s, framing);
        if s.len() - n < l {
            None
        } else {
            match parse_length_prefixed(s.subrange((n + l) as int, s.len() as int), framing) {
                Some(rest) => Some(seq![s.subrange(n as int, (n + l) as int)] + rest),
                None => None,
            }
        }
    }
}

/// The first position at or after `i` where `00 00 01` starts, or the length of
/// `s` where there is none.
pub open spec fn find_start(s: Seq<u8>, i: int) -> int
    decreases s.len() - i,
{
    if i < 0 || i + 3 > s.len() {
        s.len() as int
    } else if s[i] == 0 && s[i + 1] == 0 && s[i + 2] == 1 {
        i
    } else {
        find_start(s, i + 1)
    }
}

/// `u` without its trailing zero bytes.
pub open spec fn strip_zeros(u: Seq<u8>) -> Seq<u8>
    decreases u.len(),
{
    if u.len() > 0 && u.last() == 0 {
        strip_zeros(u.drop_last())
    } else {
        u
    }
}

/// The units of Annex B data whose first unit starts at `i`: each unit runs up
/// to the next start code, without trailing zeros; empty units are skipped.
pub open spec fn annexb_units_from(s: Seq<u8>, i: int) -> Seq<Seq<u8>>
    decreases s.len() - i
    via annexb_units_from_decreases
{
    if i < 0 || i > s.len() {
        Seq::empty()
    } else {
        let q = find_start(s, i);
        let u = strip_zeros(s.subrange(i, q));
        let rest = if q < s.len() {
            annexb_units_from(s, q + 3)
        } else {
            Seq::empty()
        };
        if u.len() > 0 {
            seq![u] + rest
        } else {
            rest
        }
    }
}

#[via_fn]
proof fn annexb_units_from_decreases(s: Seq<u8>, i: int) {
    lemma_find_start_bounds(s, i);
}

/// The units of Annex B data, or `None` where data that is not empty does not
/// start with a start code (zero bytes, then `00 00 01`).
pub open spec fn parse_annexb(s: Seq<u8>) -> Option<Seq<Seq<u8>>> {
    let p = find_start(s, 0);
    if s.len() == 0 {
        Some(Seq::empty())
    } else if p == s.len() || exists|j: int| 0 <= j < p && s[j] != 0 {
        None
    } else {
        Some(annexb_units_from(s, p + 3))
    }
}

pub open spec fn parse_units(s: Seq<u8>, framing: BitstreamFraming) -> Option<Seq<Seq<u8>>> {
    match framing {
        BitstreamFraming::AnnexB => parse_annexb(s),
        _ => parse_length_prefixed(s, framing),
    }
}

pub open spec fn span_views(units: Seq<Span>) -> Seq<Seq<u8>> {
    units.map_values(|u: Span| u@)
}

pub open spec fn all_fit(units: Seq<Seq<u8>>, framing: BitstreamFraming) -> bool {
    forall|i: int| 0 <= i < units.len() ==> fits_length(#[trigger] units[i], framing)
}

fn frame_one(out: &mut Vec<u8>, u: &[u8], framing: BitstreamFraming)
    requires
        fits_length(u@, framing),
    ensures
        final(out)@ == old(out)@ + frame_unit(u@, framing),
{
    match framing {
        BitstreamFraming::AnnexB => {
            push_bytes(out, &[0u8, 0u8, 0u8, 1u8]);
            assert(seq![0u8, 0u8, 0u8, 1u8] =~= start_code());
        },
        BitstreamFraming::FourByteLength => push_u32(out, u.len() as u32),
        BitstreamFraming::TwoByteLength => push_u16(out, u.len() as u16),
    }
    push_bytes(out, u);
    assert(final(out)@ =~= old(out)@ + frame_unit(u@, framing));
}

fn frame_vec(units: &Vec<Vec<u8>>, framing: BitstreamFraming) -> (r: Result<Vec<u8>, BitstreamError>)
    ensures
        r is Ok <==> all_fit(chunk_views(units@), framing),
        r is Ok ==> r->Ok_0@ == frame_all(chunk_views(units@), framing),
        r is Err ==> r->Err_0 == BitstreamError::UnitTooLong,
{
    let mut out: Vec<u8> = Vec::new();
    let mut i: usize = 0;
    while i < units.len()
        invariant
            i <= units@.len(),
            all_fit(chunk_views(units@).take(i as int), framing),
            out@ == frame_all(chunk_views(units@).take(i as int), framing),
        decreases units@.len() - i,
    {
        let u = units[i].as_slice();
        let fits = match framing {
            BitstreamFraming::AnnexB => true,
            BitstreamFraming::FourByteLength => u.len() as u64 <= u32::MAX as u64,
            BitstreamFraming::TwoByteLength => u.len() as u64 <= u16::MAX as u64,
        };
        if !fits {
            assert(!fits_length(chunk_views(units@)[i as int], framing));
            return Err(BitstreamError::UnitTooLong);
        }
        frame_one(&mut out, u, framing);
        proof {
            let vs = chunk_views(units@);
            assert(vs.take(i + 1).drop_last() =~= vs.take(i as int));
            assert(vs.take(i + 1).last() == u@);
        }
        i = i + 1;
    }
    assert(chunk_views(units@).take(i as int) =~= chunk_views(units@));
    Ok(out)
}

/// Concatenates the units, each preceded by the delimiter of `framing`.
pub fn frame_nal_units(units: &Vec<Span>, framing: BitstreamFraming) -> (r: Result<Span, BitstreamError>)
    ensures
        r is Ok <==> all_fit(span_views(units@), framing),
        r is Ok ==> r->Ok_0@ == frame_all(span_views(units@), framing),
{
    let mut plain: Vec<Vec<u8>> = Vec::new();
    let mut i: usize = 0;
    while i < units.len()
        invariant
            i <= units@.len(),
            chunk_views(plain@) == span_views(units@).take(i as int),
        decreases units@.len() - i,
    {
        let v = units[i].to_vec();
        let ghost prev = plain@;
        plain.push(v);
        i = i + 1;
        assert(chunk_views(plain@) =~= chunk_views(prev).push(units@[i - 1]@));
        assert(chunk_views(plain@) =~= span_views(units@).take(i as int));
    }
    assert(span_views(units@).take(i as int) =~= span_views(units@));
    match frame_vec(&plain, framing) {
        Ok(bytes) => Ok(Span::from_vec(bytes)),
        Err(e) => Err(e),
    }
}

fn parse_length_vec(s: &Vec<u8>, framing: BitstreamFraming) -> (r: Result<Vec<Vec<u8>>, BitstreamError>)
    requires
        framing != BitstreamFraming::AnnexB,
    ensures
        r is Ok <==> parse_length_prefixed(s@, framing) is Some,
        r is Ok ==> chunk_views(r->Ok_0@) == parse_length_prefixed(s@, framing)->Some_0,
        r is Err ==> r->Err_0 == BitstreamError::MalformedLength,
{
    let n: usize = if framing == BitstreamFraming::TwoByteLength { 2 } else { 4 };
    let mut units: Vec<Vec<u8>> = Vec::new();
    let mut pos: usize = 0;
    proof {
        assert(s@.subrange(0, s@.len() as int) =~= s@);
        match parse_length_prefixed(s@, framing) {
            Some(all) => {
                assert(chunk_views(units@) + all =~= all);
            },
            None => {},
        }
    }
    while pos < s.len()
        invariant
            pos <= s@.len(),
            n == prefix_len(framing),
            framing != BitstreamFraming::AnnexB,
            parse_length_prefixed(s@, framing) == match parse_length_prefixed(
                s@.subrange(pos as int, s@.len() as int),
                framing,
            ) {
                Some(rest) => Some(chunk_views(units@) + rest),
                None => None::<Seq<Seq<u8>>>,
            },
        decreases s@.len() - pos,
    {
        let ghost rest = s@.subrange(pos as int, s@.len() as int);
        if s.len() - pos < n {
            return Err(BitstreamError::MalformedLength);
        }
        let l: usize = if n == 2 {
            (s[pos] as usize) * 0x100 + (s[pos + 1] as usize)
        } else {
            ((s[pos] as u32) * 0x100_0000 + (s[pos + 1] as u32) * 0x1_0000 + (s[pos + 2] as u32)
                * 0x100 + (s[pos + 3] as u32)) as usize
        };
        assert(l == read_prefix(rest, framing));
        if s.len() - pos - n < l {
            return Err(BitstreamError::MalformedLength);
        }
        let mut u: Vec<u8> = Vec::new();
        let end: usize = pos + n + l;
        let mut j: usize = pos + n;
        while j < end
            invariant
                end == pos + n + l,
                pos + n <= j <= pos + n + l <= s@.len(),
                u@ == s@.subrange(pos + n, j as int),
                decreases end - j,
        {
            u.push(s[j]);
            j = j + 1;
            assert(u@ =~= s@.subrange(pos + n, j as int));
        }
        proof {
            assert(rest.subrange(n as int, n + l) =~= u@);
            assert(rest.subrange(n + l, rest.len() as int) =~= s@.subrange(
                pos + n + l,
                s@.len() as int,
            ));
        }
        let ghost prev = units@;
        units.push(u);
        proof {
            assert(chunk_views(units@) =~= chunk_views(prev).push(u@));
            match parse_length_prefixed(s@.subrange(pos + n + l, s@.len() as int), framing) {
                Some(tail) => {
                    assert(chunk_views(prev) + (seq![u@] + tail) =~= chunk_views(units@) + tail);
                },
                None => {},
            }
        }
        pos = pos + n + l;
    }
    proof {
        let e = s@.subrange(pos as int, s@.len() as int);
        assert(e.len() == 0);
        assert(chunk_views(units@) + Seq::<Seq<u8>>::empty() =~= chunk_views(units@));
    }
    Ok(units)
}

fn find_start_code(s: &Vec<u8>, from: usize) -> (r: usize)
    requires
        from <= s@.len(),
    ensures
        r == find_start(s@, from as int),
        from <= r <= s@.len(),
{
    let mut j: usize = from;
    while j < s.len() && s.len() - j >= 3
        invariant
            from <= j <= s@.len(),
            find_start(s@, from as int) == find_start(s@, j as int),
            forall|k: int| from <= k < j ==> find_start(s@, k) == find_start(s@, j as int),
        decreases s@.len() - j,
    {
        if s[j] == 0 && s[j + 1] == 0 && s[j + 2] == 1 {
            return j;
        }
        j = j + 1;
    }
    j = s.len();
    proof {
        lemma_find_start_bounds(s@, from as int);
    }
    j
}

pub proof fn lemma_find_start_bounds(s: Seq<u8>, i: int)
    ensures
        0 <= i <= s.len() ==> i <= find_start(s, i) <= s.len(),
        find_start(s, i) < s.len() ==> find_start(s, i) + 3 <= s.len(),
        find_start(s, i) < s.len() ==> s[find_start(s, i)] == 0 && s[find_start(s, i) + 1] == 0
            && s[find_start(s, i) + 2] == 1,
    decreases s.len() - i,
{
    if !(i < 0 || i + 3 > s.len()) && !(s[i] == 0 && s[i + 1] == 0 && s[i + 2] == 1) {
        lemma_find_start_bounds(s, i + 1);
    }
}

fn strip_end(s: &Vec<u8>, start: usize, end: usize) -> (r: usize)
    requires
        start <= end <= s@.len(),
    ensures
        start <= r <= end,
        s@.subrange(start as int, r as int) == strip_zeros(s@.subrange(start as int, end as int)),
{
    let mut e: usize = end;
    while e > start && s[e - 1] == 0
        invariant
            start <= e <= end <= s@.len(),
            strip_zeros(s@.subrange(start as int, e as int)) == strip_zeros(
                s@.subrange(start as int, end as int),
            ),
        decreases e,
    {
        assert(s@.subrange(start as int, e as int).drop_last() =~= s@.subrange(
            start as int,
            e - 1,
        ));
        e = e - 1;
    }
    e
}

fn parse_annexb_vec(s: &Vec<u8>) -> (r: Result<Vec<Vec<u8>>, BitstreamError>)
    ensures
        r is Ok <==> parse_annexb(s@) is Some,
        r is Ok ==> chunk_views(r->Ok_0@) == parse_annexb(s@)->Some_0,
        r is Err ==> r->Err_0 == BitstreamError::MissingStartCode,
{
    if s.len() == 0 {
        let none: Vec<Vec<u8>> = Vec::new();
        assert(chunk_views(none@) =~= Seq::<Seq<u8>>::empty());
        return Ok(none);
    }
    let p = find_start_code(s, 0);
    proof {
        lemma_find_start_bounds(s@, 0);
    }
    if p == s.len() {
        return Err(BitstreamError::MissingStartCode);
    }
    let mut k: usize = 0;
    while k < p
        invariant
            k <= p < s@.len(),
            s@.len() > 0,
            p == find_start(s@, 0),
            forall|j: int| 0 <= j < k ==> s@[j] == 0,
        decreases p - k,
    {
        if s[k] != 0 {
            assert(0 <= k < p && s@[k as int] != 0);
            return Err(BitstreamError::MissingStartCode);
        }
        k = k + 1;
    }
    let mut units: Vec<Vec<u8>> = Vec::new();
    let mut pos: usize = p + 3;
    assert(chunk_views(units@) + annexb_units_from(s@, p + 3) =~= annexb_units_from(s@, p + 3));
    assert(!(exists|j: int| 0 <= j < p && s@[j] != 0));
    loop
        invariant
            pos <= s@.len(),
            s@.len() > 0,
            p < s@.len(),
            p == find_start(s@, 0),
            forall|j: int| 0 <= j < p ==> s@[j] == 0,
            annexb_units_from(s@, p + 3) == chunk_views(units@) + annexb_units_from(
                s@,
                pos as int,
            ),
        decreases s@.len() - pos,
    {
        let q = find_start_code(s, pos);
        proof {
            lemma_find_start_bounds(s@, pos as int);
        }
        let e = strip_end(s, pos, q);
        let ghost prev = units@;
        if e > pos {
            let mut u: Vec<u8> = Vec::new();
            let mut j: usize = pos;
            while j < e
                invariant
                    pos <= j <= e <= s@.len(),
                    u@ == s@.subrange(pos as int, j as int),
                decreases e - j,
            {
                u.push(s[j]);
                j = j + 1;
                assert(u@ =~= s@.subrange(pos as int, j as int));
            }
            units.push(u);
            assert(chunk_views(units@) =~= chunk_views(prev).push(u@));
        }
        proof {
            let u = strip_zeros(s@.subrange(pos as int, q as int));
            let rest = if q < s@.len() {
                annexb_units_from(s@, q + 3)
            } else {
                Seq::empty()
            };
            if u.len() > 0 {
                assert(chunk_views(prev) + (seq![u] + rest) =~= chunk_views(units@) + rest);
            } else {
                assert(chunk_views(units@) =~= chunk_views(prev));
            }
        }
        if q == s.len() {
            assert(chunk_views(units@) + Seq::<Seq<u8>>::empty() =~= chunk_views(units@));
            return Ok(units);
        }
        pos = q + 3;
    }
}

/// The NAL units of a bitstream in the given framing.
pub fn parse_nal_units(data: &Span, framing: BitstreamFraming) -> (r: Result<Vec<Vec<u8>>, BitstreamError>)
    ensures
        r is Ok <==> parse_units(data@, framing) is Some,
        r is Ok ==> chunk_views(r->Ok_0@) == parse_units(data@, framing)->Some_0,
        r is Err ==> r->Err_0 == (if framing == BitstreamFraming::AnnexB {
            BitstreamError::MissingStartCode
        } else {
            BitstreamError::MalformedLength
        }),
{
    let bytes = data.to_vec();
    match framing {
        BitstreamFraming::AnnexB => parse_annexb_vec(&bytes),
        _ => parse_length_vec(&bytes, framing),
    }
}

/// The bitstream after conversion: `Ok(data)` where the framings agree, else
/// the units of `data` in framing `to`, or the error met on the way.
pub open spec fn converted(data: Seq<u8>, from: BitstreamFraming, to: BitstreamFraming) -> Result<
    Seq<u8>,
    BitstreamError,
> {
    if from == to {
        Ok(data)
    } else {
        match parse_units(data, from) {
            None => Err(
                if from == BitstreamFraming::AnnexB {
                    BitstreamError::MissingStartCode
                } else {
                    BitstreamError::MalformedLength
                },
            ),
            Some(units) => if all_fit(units, to) {
                Ok(frame_all(units, to))
            } else {
                Err(BitstreamError::UnitTooLong)
            },
        }
    }
}

/// Re-frames a bitstream from one framing into another without touching the
/// unit payloads. Where the framings agree the input comes back unchanged.
pub fn convert_bitstream(data: &Span, from: BitstreamFraming, to: BitstreamFraming) -> (r: Result<
    Span,
    BitstreamError,
>)
    ensures
        r is Ok <==> converted(data@, from, to) is Ok,
        r is Ok ==> r->Ok_0@ == converted(data@, from, to)->Ok_0,
        r is Err ==> r->Err_0 == converted(data@, from, to)->Err_0,
{
    if from == to {
        return Ok(data.share());
    }
    let units = match parse_nal_units(data, from) {
        Ok(u) => u,
        Err(e) => {
            return Err(e);
        },
    };
    match frame_vec(&units, to) {
        Ok(bytes) => Ok(Span::from_vec(bytes)),
        Err(e) => Err(e),
    }
}

pub proof fn lemma_frame_all_cons(u: Seq<u8>, rest: Seq<Seq<u8>>, framing: BitstreamFraming)
    ensures
        frame_all(seq![u] + rest, framing) == frame_unit(u, framing) + frame_all(rest, framing),
    decreases rest.len(),
{
    if rest.len() == 0 {
        assert(seq![u] + rest =~= seq![u]);
        assert(seq![u].drop_last() =~= Seq::<Seq<u8>>::empty());
        assert(frame_unit(u, framing) + frame_all(rest, framing) =~= frame_unit(u, framing));
        assert(frame_all(Seq::<Seq<u8>>::empty(), framing) + frame_unit(u, framing) =~= frame_unit(
            u,
            framing,
        ));
    } else {
        lemma_frame_all_cons(u, rest.drop_last(), framing);
        assert((seq![u] + rest).drop_last() =~= seq![u] + rest.drop_last());
        assert((seq![u] + rest).last() == rest.last());
        assert(frame_unit(u, framing) + frame_all(rest, framing) =~= frame_unit(u, framing)
            + frame_all(rest.drop_last(), framing) + frame_unit(rest.last(), framing));
    }
}

/// Length-prefixed framing reads back as the units it was made of.
pub proof fn lemma_parse_length_framed(units: Seq<Seq<u8>>, framing: BitstreamFraming)
    requires
        framing != BitstreamFraming::AnnexB,
        all_fit(units, framing),
    ensures
        parse_length_prefixed(frame_all(units, framing), framing) == Some(units),
    decreases units.len(),
{
    if units.len() == 0 {
        assert(frame_all(units, framing).len() == 0);
        assert(units =~= Seq::<Seq<u8>>::empty());
    } else {
        let u = units[0];
        let rest = units.drop_first();
        assert(units =~= seq![u] + rest);
        lemma_frame_all_cons(u, rest, framing);
        assert(fits_length(units[0], framing));
        assert(all_fit(rest, framing)) by {
            assert forall|i: int| 0 <= i < rest.len() implies fits_length(
                #[trigger] rest[i],
                framing,
            ) by {
                assert(rest[i] == units[i + 1]);
            }
        }
        lemma_parse_length_framed(rest, framing);
        let s = frame_all(units, framing);
        let n = prefix_len(framing);
        if framing == BitstreamFraming::TwoByteLength {
            lemma_read_be16(u.len() as u16);
            let h = be16(u.len() as u16);
            assert(s =~= h + u + frame_all(rest, framing));
            assert(read_be16(s, 0) == read_be16(h, 0));
        } else {
            lemma_read_be32(u.len() as u32);
            let h = be32(u.len() as u32);
            assert(s =~= h + u + frame_all(rest, framing));
            assert(read_be32(s, 0) == read_be32(h, 0));
        }
        assert(read_prefix(s, framing) == u.len());
        assert(s.subrange(n as int, (n + u.len()) as int) =~= u);
        assert(s.subrange((n + u.len()) as int, s.len() as int) =~= frame_all(rest, framing));
    }
}

pub open spec fn is_start_code_at(s: Seq<u8>, k: int) -> bool {
    s[k] == 0 && s[k + 1] == 0 && s[k + 2] == 1
}

proof fn lemma_find_start_at(s: Seq<u8>, i: int, j: int)
    requires
        0 <= i <= j,
        j + 3 <= s.len(),
        is_start_code_at(s, j),
        forall|k: int| i <= k < j ==> !is_start_code_at(s, k),
    ensures
        find_start(s, i) == j,
    decreases j - i,
{
    if i < j {
        assert(!is_start_code_at(s, i));
        lemma_find_start_at(s, i + 1, j);
    }
}

proof fn lemma_find_start_none(s: Seq<u8>, i: int)
    requires
        0 <= i,
        forall|k: int| i <= k && k + 3 <= s.len() ==> !is_start_code_at(s, k),
    ensures
        find_start(s, i) == s.len(),
    decreases s.len() - i,
{
    if i + 3 <= s.len() {
        assert(!is_start_code_at(s, i));
        lemma_find_start_none(s, i + 1);
    }
}

proof fn lemma_find_start_shift(a: Seq<u8>, b: Seq<u8>, i: int)
    requires
        0 <= i,
    ensures
        find_start(a + b, a.len() + i) == a.len() + find_start(b, i),
    decreases b.len() - i,
{
    let s = a + b;
    if i + 3 <= b.len() {
        assert(s[a.len() + i] == b[i]);
        assert(s[a.len() + i + 1] == b[i + 1]);
        assert(s[a.len() + i + 2] == b[i + 2]);
        if !(b[i] == 0 && b[i + 1] == 0 && b[i + 2] == 1) {
            lemma_find_start_shift(a, b, i + 1);
        }
    }
}

proof fn lemma_units_from_shift(a: Seq<u8>, b: Seq<u8>, i: int)
    requires
        0 <= i <= b.len(),
    ensures
        annexb_units_from(a + b, a.len() + i) == annexb_units_from(b, i),
    decreases b.len() - i,
{
    let s = a + b;
    lemma_find_start_shift(a, b, i);
    lemma_find_start_bounds(b, i);
    let q = find_start(b, i);
    assert(s.subrange(a.len() + i, a.len() + q) =~= b.subrange(i, q));
    if q < b.len() {
        lemma_units_from_shift(a, b, q + 3);
    }
}

proof fn lemma_strip_clean(u: Seq<u8>)
    requires
        u.len() > 0,
        u.last() != 0,
    ensures
        strip_zeros(u) == u,
        strip_zeros(u.push(0)) == u,
{
    assert(u.push(0).drop_last() =~= u);
}

/// Annex B framing of clean units reads back as those units.
pub proof fn lemma_annexb_units(units: Seq<Seq<u8>>)
    requires
        units.len() > 0,
        valid_units(units, BitstreamFraming::AnnexB),
    ensures
        annexb_units_from(frame_all(units, BitstreamFraming::AnnexB), 4) == units,
    decreases units.len(),
{
    let f = BitstreamFraming::AnnexB;
    let u = units[0];
    let rest = units.drop_first();
    assert(units =~= seq![u] + rest);
    lemma_frame_all_cons(u, rest, f);
    assert(valid_unit(units[0], f));
    let r = frame_all(rest, f);
    let s = frame_all(units, f);
    let head = start_code() + u;
    assert(s =~= head + r);
    let l = u.len() as int;
    lemma_strip_clean(u);
    assert forall|k: int| 4 <= k && k + 2 < 4 + l implies !is_start_code_at(s, k) by {
        assert(s[k] == u[k - 4] && s[k + 1] == u[k - 3] && s[k + 2] == u[k - 2]);
        assert(!(u[k - 4] == 0 && u[(k - 4) + 1] == 0 && u[(k - 4) + 2] == 1));
    }
    if rest.len() == 0 {
        assert(r.len() == 0);
        assert(s =~= head);
        lemma_find_start_none(s, 4);
        assert(s.subrange(4, s.len() as int) =~= u);
        assert(seq![u] + Seq::<Seq<u8>>::empty() =~= units);
    } else {
        assert(valid_units(rest, f)) by {
            assert forall|i: int| 0 <= i < rest.len() implies valid_unit(#[trigger] rest[i], f) by {
                assert(rest[i] == units[i + 1]);
            }
        }
        let u1 = rest[0];
        assert(rest =~= seq![u1] + rest.drop_first());
        lemma_frame_all_cons(u1, rest.drop_first(), f);
        assert(r[0] == 0 && r[1] == 0 && r[2] == 0 && r[3] == 1);
        assert(s[4 + l] == 0 && s[5 + l] == 0 && s[6 + l] == 0 && s[7 + l] == 1);
        assert(s[3 + l] == u.last());
        assert forall|k: int| 4 <= k < 5 + l implies !is_start_code_at(s, k) by {
            if k + 2 >= 4 + l {
                if k == 2 + l {
                    assert(s[k + 1] == u.last());
                } else if k == 3 + l {
                    assert(s[k] == u.last());
                }
            }
        }
        lemma_find_start_at(s, 4, 5 + l);
        assert(s.subrange(4, 5 + l) =~= u.push(0));
        lemma_annexb_units(rest);
        lemma_units_from_shift(head, r, 4);
        assert(annexb_units_from(s, 8 + l) == rest);
    }
}

/// Each framing reads back as the units it was made of.
pub proof fn lemma_parse_framed(units: Seq<Seq<u8>>, framing: BitstreamFraming)
    requires
        valid_units(units, framing),
    ensures
        parse_units(frame_all(units, framing), framing) == Some(units),
{
    if framing == BitstreamFraming::AnnexB {
        let s = frame_all(units, framing);
        if units.len() == 0 {
            assert(s.len() == 0);
            assert(units =~= Seq::<Seq<u8>>::empty());
        } else {
            lemma_annexb_units(units);
            lemma_frame_all_cons(units[0], units.drop_first(), framing);
            assert(units =~= seq![units[0]] + units.drop_first());
            assert(s[0] == 0 && s[1] == 0 && s[2] == 0 && s[3] == 1);
            assert(!is_start_code_at(s, 0));
            lemma_find_start_at(s, 0, 1);
            assert(!(exists|j: int| 0 <= j < 1 && s[j] != 0));
        }
    } else {
        assert(all_fit(units, framing)) by {
            assert forall|i: int| 0 <= i < units.len() implies fits_length(
                #[trigger] units[i],
                framing,
            ) by {
                assert(valid_unit(units[i], framing));
            }
        }
        lemma_parse_length_framed(units, framing);
    }
}

/// Re-framing a bitstream from `f` to `g` and back gives the bitstream again,
/// for any units that both framings can carry.
pub proof fn lemma_reframe_round_trip(
    units: Seq<Seq<u8>>,
    f: BitstreamFraming,
    g: BitstreamFraming,
)
    requires
        valid_units(units, f),
        valid_units(units, g),
    ensures
        converted(frame_all(units, f), f, g) == Ok::<Seq<u8>, BitstreamError>(frame_all(units, g)),
        converted(converted(frame_all(units, f), f, g)->Ok_0, g, f) == Ok::<
            Seq<u8>,
            BitstreamError,
        >(frame_all(units, f)),
{
    lemma_parse_framed(units, f);
    lemma_parse_framed(units, g);
    assert forall|i: int| 0 <= i < units.len() implies fits_length(#[trigger] units[i], g) by {
        assert(valid_unit(units[i], g));
    }
    assert forall|i: int| 0 <= i < units.len() implies fits_length(#[trigger] units[i], f) by {
        assert(valid_unit(units[i], f));
    }
}

} // verus!
