//! H.264 emulation prevention: the `03` byte inserted after two zero bytes so
//! that no start code appears inside a NAL unit, and its removal.
use vstd::prelude::*;
use crate::nal::{
    annexb_clean, frame_all, lemma_parse_framed, parse_units, valid_unit, BitstreamFraming,
};

verus! {

pub open spec fn next_zeros(b: u8, zeros: nat) -> nat {
    if b == 0 {
        if zeros >= 2 {
            2
        } else {
            zeros + 1
        }
    } else {
        0
    }
}

/// `p` escaped, after `zeros` (at most two counted) zero bytes already
/// written: after two zeros, a byte of at most 3 is preceded by a `03`.
pub open spec fn escape_from(p: Seq<u8>, zeros: nat) -> Seq<u8>
    decreases p.len(),
{
    if p.len() == 0 {
        Seq::empty()
    } else if zeros >= 2 && p[0] <= 3 {
        seq![3u8, p[0]] + escape_from(p.drop_first(), next_zeros(p[0], 0))
    } else {
        seq![p[0]] + escape_from(p.drop_first(), next_zeros(p[0], zeros))
    }
}

/// `e` with every `03` that follows two zero bytes removed.
pub open spec fn unescape_from(e: Seq<u8>, zeros: nat) -> Seq<u8>
    decreases e.len(),
{
    if e.len() == 0 {
        Seq::empty()
    } else if zeros >= 2 && e[0] == 3 {
        unescape_from(e.drop_first(), 0)
    } else {
        seq![e[0]] + unescape_from(e.drop_first(), next_zeros(e[0], zeros))
    }
}

pub open spec fn escape(p: Seq<u8>) -> Seq<u8> {
    escape_from(p, 0)
}

pub open spec fn unescape(e: Seq<u8>) -> Seq<u8> {
    unescape_from(e, 0)
}

proof fn lemma_unescape_escape(p: Seq<u8>, z: nat)
    requires
        z <= 2,
    ensures
        unescape_from(escape_from(p, z), z) == p,
    decreases p.len(),
{
    if p.len() > 0 {
        let b = p[0];
        let rest = p.drop_first();
        if z >= 2 && b <= 3 {
            let e2 = escape_from(rest, next_zeros(b, 0));
            lemma_unescape_escape(rest, next_zeros(b, 0));
            let e = seq![3u8, b] + e2;
            assert(e == escape_from(p, z));
            assert(e.drop_first() =~= seq![b] + e2);
            assert((seq![b] + e2).drop_first() =~= e2);
            assert(unescape_from(e, z) == unescape_from(seq![b] + e2, 0));
            assert(unescape_from(seq![b] + e2, 0) == seq![b] + unescape_from(e2, next_zeros(b, 0)));
            assert(seq![b] + rest =~= p);
        } else {
            let e2 = escape_from(rest, next_zeros(b, z));
            lemma_unescape_escape(rest, next_zeros(b, z));
            assert(seq![b] + e2 == escape_from(p, z));
            assert((seq![b] + e2).drop_first() =~= e2);
            assert(unescape_from(seq![b] + e2, z) == seq![b] + unescape_from(e2, next_zeros(b, z)));
            assert(seq![b] + rest =~= p);
        }
    }
}

pub open spec fn has_start_code(e: Seq<u8>, j: int) -> bool {
    e[j] == 0 && e[j + 1] == 0 && e[j + 2] == 1
}

proof fn lemma_escape_no_start_code(p: Seq<u8>, z: nat)
    requires
        z <= 2,
    ensures
        forall|j: int|
            0 <= j && j + 2 < escape_from(p, z).len() ==> !has_start_code(
                #[trigger] escape_from(p, z),
                j,
            ),
        z >= 2 && escape_from(p, z).len() > 0 ==> escape_from(p, z)[0] != 1,
        z >= 1 && escape_from(p, z).len() > 1 ==> !(escape_from(p, z)[0] == 0 && escape_from(
            p,
            z,
        )[1] == 1),
    decreases p.len(),
{
    if p.len() > 0 {
        let b = p[0];
        let rest = p.drop_first();
        let e = escape_from(p, z);
        if z >= 2 && b <= 3 {
            let z2 = next_zeros(b, 0);
            lemma_escape_no_start_code(rest, z2);
            let e2 = escape_from(rest, z2);
            assert(e == seq![3u8, b] + e2);
            assert forall|j: int| 0 <= j && j + 2 < e.len() implies !has_start_code(e, j) by {
                if j >= 2 {
                    assert(e[j] == e2[j - 2] && e[j + 1] == e2[j - 1] && e[j + 2] == e2[j]);
                    assert(!has_start_code(e2, j - 2));
                } else if j == 1 {
                    assert(e[1] == b && e[2] == e2[0]);
                    if b == 0 {
                        assert(e[3] == e2[1]);
                    }
                }
            }
        } else {
            let z2 = next_zeros(b, z);
            lemma_escape_no_start_code(rest, z2);
            let e2 = escape_from(rest, z2);
            assert(e == seq![b] + e2);
            assert forall|j: int| 0 <= j && j + 2 < e.len() implies !has_start_code(e, j) by {
                if j >= 1 {
                    assert(e[j] == e2[j - 1] && e[j + 1] == e2[j] && e[j + 2] == e2[j + 1]);
                    assert(!has_start_code(e2, j - 1));
                } else {
                    assert(e[1] == e2[0] && e[2] == e2[1]);
                }
            }
            if z >= 1 && e.len() > 1 && b == 0 {
                assert(e[1] == e2[0]);
            }
        }
    }
}

proof fn lemma_escape_last(p: Seq<u8>, z: nat)
    requires
        p.len() > 0,
    ensures
        escape_from(p, z).len() > 0,
        escape_from(p, z).last() == p.last(),
    decreases p.len(),
{
    let b = p[0];
    let rest = p.drop_first();
    let z2 = if z >= 2 && b <= 3 {
        next_zeros(b, 0)
    } else {
        next_zeros(b, z)
    };
    if rest.len() > 0 {
        lemma_escape_last(rest, z2);
        assert(rest.last() == p.last());
    } else {
        assert(escape_from(rest, z2).len() == 0);
        assert(p.last() == b);
    }
}

/// An escaped payload that does not end in a zero byte is a unit that Annex B
/// framing delimits unambiguously.
pub proof fn lemma_escaped_is_clean(p: Seq<u8>)
    requires
        p.len() > 0,
        p.last() != 0,
    ensures
        annexb_clean(escape(p)),
{
    lemma_escape_no_start_code(p, 0);
    lemma_escape_last(p, 0);
    let e = escape(p);
    assert forall|j: int| 0 <= j && j + 2 < e.len() implies !(#[trigger] e[j] == 0 && e[j + 1]
        == 0 && e[j + 2] == 1) by {
        assert(!has_start_code(e, j));
    }
}

pub open spec fn escape_all(payloads: Seq<Seq<u8>>) -> Seq<Seq<u8>> {
    payloads.map_values(|p: Seq<u8>| escape(p))
}

/// Whatever bytes the payloads hold, `00 00 01` included: escaped and framed
/// with start codes, they read back as the escaped payloads, and removing the
/// escapes gives the payloads again. A payload ends in a non-zero byte, as an
/// H.264 RBSP does with its stop bit.
pub proof fn lemma_annexb_emulation_safe(payloads: Seq<Seq<u8>>)
    requires
        forall|i: int|
            0 <= i < payloads.len() ==> (#[trigger] payloads[i]).len() > 0 && payloads[i].last()
                != 0,
    ensures
        parse_units(frame_all(escape_all(payloads), BitstreamFraming::AnnexB), BitstreamFraming::AnnexB)
            == Some(escape_all(payloads)),
        escape_all(payloads).map_values(|e: Seq<u8>| unescape(e)) == payloads,
{
    let escaped = escape_all(payloads);
    assert forall|i: int| 0 <= i < escaped.len() implies valid_unit(
        #[trigger] escaped[i],
        BitstreamFraming::AnnexB,
    ) by {
        lemma_escaped_is_clean(payloads[i]);
    }
    lemma_parse_framed(escaped, BitstreamFraming::AnnexB);
    assert forall|i: int| 0 <= i < payloads.len() implies unescape(
        #[trigger] escaped[i],
    ) == payloads[i] by {
        lemma_unescape_escape(payloads[i], 0);
    }
    assert(escaped.map_values(|e: Seq<u8>| unescape(e)) =~= payloads);
}

proof fn lemma_escape_step(p: Seq<u8>, i: int, z: nat)
    requires
        0 <= i < p.len(),
    ensures
        escape_from(p.skip(i), z) == if z >= 2 && p[i] <= 3 {
            seq![3u8, p[i]] + escape_from(p.skip(i + 1), next_zeros(p[i], 0))
        } else {
            seq![p[i]] + escape_from(p.skip(i + 1), next_zeros(p[i], z))
        },
{
    assert(p.skip(i).drop_first() =~= p.skip(i + 1));
}

proof fn lemma_unescape_step(e: Seq<u8>, i: int, z: nat)
    requires
        0 <= i < e.len(),
    ensures
        unescape_from(e.skip(i), z) == if z >= 2 && e[i] == 3 {
            unescape_from(e.skip(i + 1), 0)
        } else {
            seq![e[i]] + unescape_from(e.skip(i + 1), next_zeros(e[i], z))
        },
{
    assert(e.skip(i).drop_first() =~= e.skip(i + 1));
}

/// Inserts emulation prevention bytes into a NAL unit payload.
pub fn escape_emulation(payload: &[u8]) -> (r: Vec<u8>)
    ensures
        r@ == escape(payload@),
{
    let mut out: Vec<u8> = Vec::new();
    let mut zeros: u8 = 0;
    let mut i: usize = 0;
    assert(payload@.skip(0) =~= payload@);
    while i < payload.len()
        invariant
            i <= payload@.len(),
            zeros <= 2,
            escape(payload@) == out@ + escape_from(payload@.skip(i as int), zeros as nat),
        decreases payload@.len() - i,
    {
        let b = payload[i];
        proof {
            lemma_escape_step(payload@, i as int, zeros as nat);
        }
        let ghost before = out@;
        if zeros >= 2 && b <= 3 {
            out.push(3);
            out.push(b);
            zeros = if b == 0 { 1 } else { 0 };
            assert(before + (seq![3u8, b] + escape_from(payload@.skip(i + 1), zeros as nat))
                =~= out@ + escape_from(payload@.skip(i + 1), zeros as nat));
        } else {
            out.push(b);
            zeros = if b == 0 {
                if zeros >= 2 { 2 } else { zeros + 1 }
            } else {
                0
            };
            assert(before + (seq![b] + escape_from(payload@.skip(i + 1), zeros as nat)) =~= out@
                + escape_from(payload@.skip(i + 1), zeros as nat));
        }
        i = i + 1;
    }
    assert(payload@.skip(i as int).len() == 0);
    assert(out@ + Seq::<u8>::empty() =~= out@);
    out
}

/// Removes emulation prevention bytes from a NAL unit.
pub fn unescape_emulation(data: &[u8]) -> (r: Vec<u8>)
    ensures
        r@ == unescape(data@),
{
    let mut out: Vec<u8> = Vec::new();
    let mut zeros: u8 = 0;
    let mut i: usize = 0;
    assert(data@.skip(0) =~= data@);
    while i < data.len()
        invariant
            i <= data@.len(),
            zeros <= 2,
            unescape(data@) == out@ + unescape_from(data@.skip(i as int), zeros as nat),
        decreases data@.len() - i,
    {
        let b = data[i];
        proof {
            lemma_unescape_step(data@, i as int, zeros as nat);
        }
        let ghost before = out@;
        if zeros >= 2 && b == 3 {
            zeros = 0;
        } else {
            out.push(b);
            zeros = if b == 0 {
                if zeros >= 2 { 2 } else { zeros + 1 }
            } else {
                0
            };
            assert(before + (seq![b] + unescape_from(data@.skip(i + 1), zeros as nat)) =~= out@
                + unescape_from(data@.skip(i + 1), zeros as nat));
        }
        i = i + 1;
    }
    assert(data@.skip(i as int).len() == 0);
    assert(out@ + Seq::<u8>::empty() =~= out@);
    out
}

} // verus!
