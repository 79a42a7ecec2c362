//! Matroska (EBML) variable-length integers and element ids.
use vstd::prelude::*;

verus! {

/// The id of the EBML header element.
pub const EBML_HEADER: u32 = 0x1a45dfa3;

#[derive(Clone, Copy, Debug, PartialEq, Eq, Structural)]
pub enum MkvError {
    /// The input ends inside the number.
    NotEnoughData,
    /// A length marker announcing more than eight bytes; holds the count of
    /// extra bytes it announced.
    UnsupportedVint(u8),
    /// An id marker announcing more than four bytes; holds the count of extra
    /// bytes it announced.
    UnsupportedVid(u8),
    /// Expected id, then the id found.
    UnexpectedId(u32, u32),
}

/// Leading zero bits of a byte.
pub open spec fn leading_zeros(b: u8) -> nat {
    if b >= 0x80 {
        0
    } else if b >= 0x40 {
        1
    } else if b >= 0x20 {
        2
    } else if b >= 0x10 {
        3
    } else if b >= 0x08 {
        4
    } else if b >= 0x04 {
        5
    } else if b >= 0x02 {
        6
    } else if b >= 0x01 {
        7
    } else {
        8
    }
}

/// The value of the bytes read as one big-endian number.
pub open spec fn be_value(s: Seq<u8>) -> nat
    decreases s.len(),
{
    if s.len() == 0 {
        0
    } else {
        be_value(s.drop_last()) * 256 + s.last() as nat
    }
}

/// `2^(7 - extra)`: the first byte's bits below the length marker are taken
/// modulo this.
pub open spec fn marker_modulus(extra: nat) -> nat {
    if extra == 0 {
        128
    } else if extra == 1 {
        64
    } else if extra == 2 {
        32
    } else if extra == 3 {
        16
    } else if extra == 4 {
        8
    } else if extra == 5 {
        4
    } else if extra == 6 {
        2
    } else {
        1
    }
}

/// The number a variable-length integer of `extra + 1` bytes holds: its bytes
/// as one big-endian number, without the length marker.
pub open spec fn vint_value(s: Seq<u8>, extra: nat) -> nat {
    be_value(seq![(s[0] as nat % marker_modulus(extra)) as u8] + s.subrange(1, (extra + 1) as int))
}

/// What reading a variable-length integer from the start of `s` gives: the
/// number and the count of bytes it took, or why it cannot be read.
pub open spec fn vint_result(s: Seq<u8>) -> Result<(u64, usize), MkvError> {
    if s.len() == 0 {
        Err(MkvError::NotEnoughData)
    } else if leading_zeros(s[0]) > 7 {
        Err(MkvError::UnsupportedVint(leading_zeros(s[0]) as u8))
    } else if s.len() < leading_zeros(s[0]) + 1 {
        Err(MkvError::NotEnoughData)
    } else {
        Ok((vint_value(s, leading_zeros(s[0])) as u64, (leading_zeros(s[0]) + 1) as usize))
    }
}

/// What reading an element id from the start of `s` gives.
pub open spec fn vid_result(s: Seq<u8>) -> Result<(u32, usize), MkvError> {
    if s.len() == 0 {
        Err(MkvError::NotEnoughData)
    } else if leading_zeros(s[0]) > 3 {
        Err(MkvError::UnsupportedVid(leading_zeros(s[0]) as u8))
    } else if s.len() < leading_zeros(s[0]) + 1 {
        Err(MkvError::NotEnoughData)
    } else {
        Ok(
            (
                be_value(s.subrange(0, (leading_zeros(s[0]) + 1) as int)) as u32,
                (leading_zeros(s[0]) + 1) as usize,
            ),
        )
    }
}

pub open spec fn pow256(n: nat) -> nat
    decreases n,
{
    if n == 0 {
        1
    } else {
        256 * pow256((n - 1) as nat)
    }
}

fn count_leading_zeros(b: u8) -> (r: u8)
    ensures
        r == leading_zeros(b),
{
    if b >= 0x80 {
        0
    } else if b >= 0x40 {
        1
    } else if b >= 0x20 {
        2
    } else if b >= 0x10 {
        3
    } else if b >= 0x08 {
        4
    } else if b >= 0x04 {
        5
    } else if b >= 0x02 {
        6
    } else if b >= 0x01 {
        7
    } else {
        8
    }
}

proof fn lemma_be_value_push(s: Seq<u8>, b: u8)
    ensures
        be_value(s.push(b)) == be_value(s) * 256 + b as nat,
{
    assert(s.push(b).drop_last() =~= s);
}

proof fn lemma_be_value_bound(s: Seq<u8>)
    requires
        s.len() > 0,
        s[0] < 128,
    ensures
        be_value(s) < 128 * pow256((s.len() - 1) as nat),
    decreases s.len(),
{
    if s.len() == 1 {
        assert(s.drop_last().len() == 0);
        assert(be_value(s) == be_value(s.drop_last()) * 256 + s.last() as nat);
    } else {
        assert(s.drop_last()[0] == s[0]);
        lemma_be_value_bound(s.drop_last());
        let v = be_value(s.drop_last());
        let p = pow256((s.len() - 2) as nat);
        assert(pow256((s.len() - 1) as nat) == 256 * p);
        assert(v * 256 + (s.last() as nat) < 128 * (256 * p)) by (nonlinear_arith)
            requires
                v < 128 * p,
                s.last() < 256,
        ;
    }
}

/// Reads an EBML variable-length integer from the start of `bytes`: the count
/// of leading zero bits of the first byte is the count of bytes that follow.
/// Returns the number and how many bytes it took.
pub fn vint(bytes: &[u8]) -> (r: Result<(u64, usize), MkvError>)
    ensures
        r == vint_result(bytes@),
{
    if bytes.len() == 0 {
        return Err(MkvError::NotEnoughData);
    }
    let first = bytes[0];
    let extra = count_leading_zeros(first);
    if extra > 7 {
        return Err(MkvError::UnsupportedVint(extra));
    }
    let len: usize = 1 + extra as usize;
    if bytes.len() < len {
        return Err(MkvError::NotEnoughData);
    }
    let modulus: u8 = if extra == 0 {
        128
    } else if extra == 1 {
        64
    } else if extra == 2 {
        32
    } else if extra == 3 {
        16
    } else if extra == 4 {
        8
    } else if extra == 5 {
        4
    } else if extra == 6 {
        2
    } else {
        1
    };
    let head: u8 = first % modulus;
    let ghost digits = seq![head] + bytes@.subrange(1, len as int);
    let mut value: u64 = head as u64;
    let mut i: usize = 1;
    proof {
        assert(digits.take(1) =~= seq![head]);
        assert(seq![head].drop_last() =~= Seq::<u8>::empty());
        assert(be_value(seq![head]) == be_value(Seq::<u8>::empty()) * 256 + head as nat);
        reveal_with_fuel(pow256, 8);
        assert(pow256(7) == 0x100_0000_0000_0000);
    }
    while i < len
        invariant
            1 <= i <= len <= 8,
            len <= bytes@.len(),
            digits.len() == len,
            digits[0] == head,
            head < 128,
            forall|k: int| 1 <= k < len ==> digits[k] == bytes@[k],
            value == be_value(digits.take(i as int)),
            pow256(7) == 0x100_0000_0000_0000,
        decreases len - i,
    {
        proof {
            lemma_be_value_push(digits.take(i as int), bytes@[i as int]);
            assert(digits.take(i + 1) =~= digits.take(i as int).push(bytes@[i as int]));
            lemma_be_value_bound(digits.take(i + 1));
            lemma_pow256_mono((i) as nat, 7);
        }
        value = value * 256 + bytes[i] as u64;
        i = i + 1;
    }
    assert(digits.take(len as int) =~= digits);
    Ok((value, len))
}

proof fn lemma_pow256_mono(a: nat, b: nat)
    requires
        a <= b,
    ensures
        pow256(a) <= pow256(b),
    decreases b,
{
    if a < b {
        lemma_pow256_mono(a, (b - 1) as nat);
    }
}

/// Reads an EBML element id from the start of `bytes`: like a variable-length
/// integer of at most four bytes, but keeping the length marker. Returns the
/// id and how many bytes it took.
pub fn vid(bytes: &[u8]) -> (r: Result<(u32, usize), MkvError>)
    ensures
        r == vid_result(bytes@),
{
    if bytes.len() == 0 {
        return Err(MkvError::NotEnoughData);
    }
    let extra = count_leading_zeros(bytes[0]);
    if extra > 3 {
        return Err(MkvError::UnsupportedVid(extra));
    }
    let len: usize = 1 + extra as usize;
    if bytes.len() < len {
        return Err(MkvError::NotEnoughData);
    }
    let mut value: u32 = 0;
    let mut i: usize = 0;
    proof {
        assert(bytes@.subrange(0, 0) =~= Seq::<u8>::empty());
        reveal_with_fuel(pow256, 5);
        assert(pow256(4) == 0x1_0000_0000);
        assert(pow256(0) == 1);
    }
    while i < len
        invariant
            i <= len <= 4,
            len <= bytes@.len(),
            value == be_value(bytes@.subrange(0, i as int)),
            value < pow256(i as nat),
            pow256(4) == 0x1_0000_0000,
        decreases len - i,
    {
        proof {
            lemma_be_value_push(bytes@.subrange(0, i as int), bytes@[i as int]);
            assert(bytes@.subrange(0, i + 1) =~= bytes@.subrange(0, i as int).push(bytes@[i as int]));
            lemma_pow256_mono((i + 1) as nat, 4);
            assert(value * 256 + bytes@[i as int] < 256 * pow256(i as nat)) by (nonlinear_arith)
                requires
                    value < pow256(i as nat),
                    bytes@[i as int] < 256,
            ;
        }
        value = value * 256 + bytes[i] as u32;
        i = i + 1;
    }
    Ok((value, len))
}

/// What reading the EBML header's id and size from the start of `s` gives.
pub open spec fn ebml_header_result(s: Seq<u8>) -> Result<(u64, usize), MkvError> {
    match vid_result(s) {
        Err(e) => Err(e),
        Ok((id, n)) => if id != EBML_HEADER {
            Err(MkvError::UnexpectedId(EBML_HEADER, id))
        } else {
            match vint_result(s.subrange(n as int, s.len() as int)) {
                Ok((size, m)) => Ok((size, (n + m) as usize)),
                Err(e) => Err(e),
            }
        },
    }
}

/// The bytes of `bytes` from position `n` on.
fn tail(bytes: &[u8], n: usize) -> (r: Vec<u8>)
    requires
        n <= bytes@.len(),
    ensures
        r@ == bytes@.subrange(n as int, bytes@.len() as int),
{
    let mut r: Vec<u8> = Vec::new();
    let mut i: usize = n;
    while i < bytes.len()
        invariant
            n <= i <= bytes@.len(),
            r@ == bytes@.subrange(n as int, i as int),
        decreases bytes@.len() - i,
    {
        r.push(bytes[i]);
        i = i + 1;
        assert(r@ =~= bytes@.subrange(n as int, i as int));
    }
    r
}

/// Reads the EBML header's id and size from the start of `bytes`: the id must
/// be the EBML header's. Returns the size of the header's body and how many
/// bytes the id and the size took.
pub fn parse_ebml_header(bytes: &[u8]) -> (r: Result<(u64, usize), MkvError>)
    ensures
        r == ebml_header_result(bytes@),
{
    let (id, n) = match vid(bytes) {
        Ok(v) => v,
        Err(e) => {
            return Err(e);
        },
    };
    if id != EBML_HEADER {
        return Err(MkvError::UnexpectedId(EBML_HEADER, id));
    }
    let rest = tail(bytes, n);
    match vint(rest.as_slice()) {
        Ok((size, m)) => Ok((size, n + m)),
        Err(e) => Err(e),
    }
}

} // verus!
