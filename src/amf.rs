//! AMF0 values of RTMP command messages. Numbers are kept as the bits of their
//! IEEE 754 double; object properties may hold numbers, booleans, strings,
//! null or undefined.
use vstd::prelude::*;
use crate::wire::read_be16;

verus! {

pub const AMF_NUMBER: u8 = 0x00;
pub const AMF_BOOLEAN: u8 = 0x01;
pub const AMF_STRING: u8 = 0x02;
pub const AMF_OBJECT: u8 = 0x03;
pub const AMF_NULL: u8 = 0x05;
pub const AMF_UNDEFINED: u8 = 0x06;
pub const AMF_ECMA_ARRAY: u8 = 0x08;

#[derive(Clone, Copy, Debug, PartialEq, Eq, Structural)]
pub enum AmfError {
    /// The bytes end inside a value.
    Truncated,
    /// A type marker this reader does not take; holds it.
    UnsupportedType(u8),
    /// A value of another type than the one the command needs there.
    UnexpectedType(u8),
}

/// Where the primitive value at `pos` ends, or `None` where it is cut short or
/// is not a primitive.
pub open spec fn primitive_end(s: Seq<u8>, pos: int) -> Option<int> {
    if pos < 0 || pos >= s.len() {
        None
    } else {
        let m = s[pos];
        let end = if m == AMF_NUMBER {
            pos + 9
        } else if m == AMF_BOOLEAN {
            pos + 2
        } else if m == AMF_STRING {
            if pos + 3 > s.len() {
                s.len() + 1int
            } else {
                pos + 3 + read_be16(s, pos + 1)
            }
        } else if m == AMF_NULL || m == AMF_UNDEFINED {
            pos + 1
        } else {
            -1
        };
        if pos < end <= s.len() {
            Some(end)
        } else {
            None
        }
    }
}

/// Where the properties that start at `pos` end, the end marker `00 00 09`
/// included.
pub open spec fn properties_end(s: Seq<u8>, pos: int) -> Option<int>
    decreases s.len() - pos,
{
    if pos < 0 || pos + 3 > s.len() {
        None
    } else if s[pos] == 0 && s[pos + 1] == 0 && s[pos + 2] == 9 {
        Some(pos + 3)
    } else {
        let key_end = pos + 2 + read_be16(s, pos);
        match primitive_end(s, key_end) {
            Some(v) => if v > pos {
                properties_end(s, v)
            } else {
                None
            },
            None => None,
        }
    }
}

/// Where the value at `pos` ends: a primitive, an object or an ECMA array of
/// primitive properties.
pub open spec fn value_end(s: Seq<u8>, pos: int) -> Option<int> {
    if 0 <= pos < s.len() && s[pos] == AMF_OBJECT {
        properties_end(s, pos + 1)
    } else if 0 <= pos && pos + 5 <= s.len() && s[pos] == AMF_ECMA_ARRAY {
        properties_end(s, pos + 5)
    } else {
        primitive_end(s, pos)
    }
}

/// The bytes of the string value at `pos`.
pub open spec fn string_at(s: Seq<u8>, pos: int) -> Seq<u8> {
    s.subrange(pos + 3, pos + 3 + read_be16(s, pos + 1))
}

/// The bits of the number value at `pos`.
pub open spec fn number_at(s: Seq<u8>, pos: int) -> u64 {
    (s[pos + 1] as nat * 0x100_0000_0000_0000 + s[pos + 2] as nat * 0x1_0000_0000_0000
        + s[pos + 3] as nat * 0x100_0000_0000 + s[pos + 4] as nat * 0x1_0000_0000 + s[pos + 5] as nat
        * 0x100_0000 + s[pos + 6] as nat * 0x1_0000 + s[pos + 7] as nat * 0x100
        + s[pos + 8] as nat) as u64
}

fn primitive_end_exec(s: &[u8], pos: usize) -> (r: Option<usize>)
    ensures
        r is None <==> primitive_end(s@, pos as int) is None,
        r is Some ==> primitive_end(s@, pos as int) == Some(r->Some_0 as int),
{
    if pos >= s.len() {
        return None;
    }
    let m = s[pos];
    let left = s.len() - pos;
    let size: usize = if m == AMF_NUMBER {
        9
    } else if m == AMF_BOOLEAN {
        2
    } else if m == AMF_STRING {
        if left < 3 {
            return None;
        }
        3 + (s[pos + 1] as usize) * 0x100 + (s[pos + 2] as usize)
    } else if m == AMF_NULL || m == AMF_UNDEFINED {
        1
    } else {
        return None;
    };
    if size > left {
        None
    } else {
        Some(pos + size)
    }
}

/// Where the value at `pos` ends.
pub fn skip_value(s: &[u8], pos: usize) -> (r: Option<usize>)
    ensures
        r is None <==> value_end(s@, pos as int) is None,
        r is Some ==> value_end(s@, pos as int) == Some(r->Some_0 as int),
{
    if pos < s.len() && s[pos] == AMF_OBJECT {
        skip_properties(s, pos + 1)
    } else if pos < s.len() && s.len() - pos >= 5 && s[pos] == AMF_ECMA_ARRAY {
        skip_properties(s, pos + 5)
    } else {
        primitive_end_exec(s, pos)
    }
}

fn skip_properties(s: &[u8], pos: usize) -> (r: Option<usize>)
    requires
        pos <= s@.len(),
    ensures
        r is None <==> properties_end(s@, pos as int) is None,
        r is Some ==> properties_end(s@, pos as int) == Some(r->Some_0 as int),
{
    let mut p: usize = pos;
    loop
        invariant
            pos <= p <= s@.len(),
            properties_end(s@, pos as int) == properties_end(s@, p as int),
        decreases s@.len() - p,
    {
        if s.len() - p < 3 {
            return None;
        }
        if s[p] == 0 && s[p + 1] == 0 && s[p + 2] == 9 {
            return Some(p + 3);
        }
        let key_len: usize = (s[p] as usize) * 0x100 + (s[p + 1] as usize);
        if s.len() - p - 2 < key_len {
            return None;
        }
        let key_end: usize = p + 2 + key_len;
        match primitive_end_exec(s, key_end) {
            Some(v) => {
                p = v;
            },
            None => {
                return None;
            },
        }
    }
}

fn read_string(s: &[u8], pos: usize) -> (r: Result<(Vec<u8>, usize), AmfError>)
    ensures
        r is Ok <==> pos < s@.len() && s@[pos as int] == AMF_STRING && primitive_end(s@, pos as int) is Some,
        r is Ok ==> r->Ok_0.0@ == string_at(s@, pos as int) && Some(r->Ok_0.1 as int)
            == primitive_end(s@, pos as int),
{
    if pos >= s.len() {
        return Err(AmfError::Truncated);
    }
    if s[pos] != AMF_STRING {
        return Err(AmfError::UnexpectedType(s[pos]));
    }
    let end = match primitive_end_exec(s, pos) {
        Some(e) => e,
        None => {
            return Err(AmfError::Truncated);
        },
    };
    let mut out: Vec<u8> = Vec::new();
    let mut i: usize = pos + 3;
    while i < end
        invariant
            pos + 3 <= i <= end <= s@.len(),
            out@ == s@.subrange(pos + 3, i as int),
        decreases end - i,
    {
        out.push(s[i]);
        i = i + 1;
        assert(out@ =~= s@.subrange(pos + 3, i as int));
    }
    Ok((out, end))
}

fn read_number(s: &[u8], pos: usize) -> (r: Result<(u64, usize), AmfError>)
    ensures
        r is Ok <==> pos < s@.len() && s@[pos as int] == AMF_NUMBER && primitive_end(s@, pos as int) is Some,
        r is Ok ==> r->Ok_0.0 == number_at(s@, pos as int) && r->Ok_0.1 == pos + 9,
{
    if pos >= s.len() {
        return Err(AmfError::Truncated);
    }
    if s[pos] != AMF_NUMBER {
        return Err(AmfError::UnexpectedType(s[pos]));
    }
    if s.len() - pos < 9 {
        return Err(AmfError::Truncated);
    }
    let n = s.len();
    let mut v: u64 = 0;
    let mut i: usize = 1;
    while i < 9
        invariant
            1 <= i <= 9,
            n == s@.len(),
            pos + 9 <= s@.len(),
            v < pow256_to(i as nat),
            v == number_prefix(s@, pos as int, i as nat),
        decreases 9 - i,
    {
        proof {
            lemma_pow256_to_step(i as nat);
            lemma_pow256_to_bound(i as nat);
        }
        assert(v * 256 + s@[pos + i] < pow256_to((i + 1) as nat)) by (nonlinear_arith)
            requires
                v < pow256_to(i as nat),
                s@[pos + i] < 256,
                pow256_to((i + 1) as nat) == pow256_to(i as nat) * 256,
        ;
        assert(v < 0x100_0000_0000_0000);
        assert(v * 256 + s@[pos + i] <= u64::MAX);
        v = v * 256 + s[pos + i] as u64;
        i = i + 1;
    }
    proof {
        lemma_number_prefix_full(s@, pos as int);
    }
    Ok((v, pos + 9))
}

/// `256^(n - 1)`: the bound of a number read from `n - 1` bytes.
pub open spec fn pow256_to(n: nat) -> nat
    decreases n,
{
    if n <= 1 {
        1
    } else {
        256 * pow256_to((n - 1) as nat)
    }
}

proof fn lemma_pow256_to_bound(n: nat)
    requires
        1 <= n <= 8,
    ensures
        pow256_to(n) <= 0x100_0000_0000_0000,
    decreases 8 - n,
{
    if n < 8 {
        lemma_pow256_to_bound(n + 1);
        assert(pow256_to(n + 1) == 256 * pow256_to(n));
    } else {
        reveal_with_fuel(pow256_to, 9);
    }
}

proof fn lemma_pow256_to_step(n: nat)
    requires
        n >= 1,
    ensures
        pow256_to(n + 1) == pow256_to(n) * 256,
{
}

/// The number read from the bytes `pos + 1 .. pos + n`.
pub open spec fn number_prefix(s: Seq<u8>, pos: int, n: nat) -> nat
    decreases n,
{
    if n <= 1 {
        0
    } else {
        number_prefix(s, pos, (n - 1) as nat) * 256 + s[pos + n - 1] as nat
    }
}

proof fn lemma_number_prefix_full(s: Seq<u8>, pos: int)
    ensures
        number_prefix(s, pos, 9) == s[pos + 1] as nat * 0x100_0000_0000_0000 + s[pos + 2] as nat
            * 0x1_0000_0000_0000 + s[pos + 3] as nat * 0x100_0000_0000 + s[pos + 4] as nat
            * 0x1_0000_0000 + s[pos + 5] as nat * 0x100_0000 + s[pos + 6] as nat * 0x1_0000
            + s[pos + 7] as nat * 0x100 + s[pos + 8] as nat,
{
    reveal_with_fuel(number_prefix, 10);
}

/// The name and transaction id that open a command message, and where the
/// command object starts.
pub struct Command {
    pub name: Vec<u8>,
    /// The bits of the transaction id's double.
    pub transaction_id: u64,
    pub rest: usize,
}

/// A command's name, the bits of its transaction id, and where its command
/// object starts: a string, then a number.
pub open spec fn command_of(s: Seq<u8>) -> Option<(Seq<u8>, u64, int)> {
    if s.len() > 0 && s[0] == AMF_STRING {
        match primitive_end(s, 0) {
            Some(e) => if e < s.len() && s[e] == AMF_NUMBER && primitive_end(s, e) is Some {
                Some((string_at(s, 0), number_at(s, e), e + 9))
            } else {
                None
            },
            None => None,
        }
    } else {
        None
    }
}

/// Reads the name and transaction id of a command message.
pub fn parse_command(s: &[u8]) -> (r: Result<Command, AmfError>)
    ensures
        r is Ok <==> command_of(s@) is Some,
        r is Ok ==> r->Ok_0.name@ == command_of(s@)->Some_0.0 && r->Ok_0.transaction_id
            == command_of(s@)->Some_0.1 && r->Ok_0.rest == command_of(s@)->Some_0.2,
{
    let (name, e) = match read_string(s, 0) {
        Ok(v) => v,
        Err(err) => {
            return Err(err);
        },
    };
    let (transaction_id, rest) = match read_number(s, e) {
        Ok(v) => v,
        Err(err) => {
            return Err(err);
        },
    };
    Ok(Command { name, transaction_id, rest })
}

/// The string value that follows the value at `pos`.
pub open spec fn string_after(s: Seq<u8>, pos: int) -> Option<Seq<u8>> {
    match value_end(s, pos) {
        Some(k) => if k < s.len() && s[k] == AMF_STRING && primitive_end(s, k) is Some {
            Some(string_at(s, k))
        } else {
            None
        },
        None => None,
    }
}

/// The stream key of a `publish` command: the string after the command's
/// null object.
pub fn publish_stream_key(s: &[u8], command: &Command) -> (r: Result<Vec<u8>, AmfError>)
    ensures
        r is Ok <==> string_after(s@, command.rest as int) is Some,
        r is Ok ==> r->Ok_0@ == string_after(s@, command.rest as int)->Some_0,
{
    let k = match skip_value(s, command.rest) {
        Some(k) => k,
        None => {
            return Err(AmfError::Truncated);
        },
    };
    match read_string(s, k) {
        Ok((key, _)) => Ok(key),
        Err(e) => Err(e),
    }
}

/// The string value of the first property named `key` of the object at `pos`,
/// where it is a string.
pub open spec fn string_property(s: Seq<u8>, pos: int, key: Seq<u8>) -> Option<Seq<u8>>
    decreases s.len() - pos,
{
    if pos < 0 || pos + 3 > s.len() || (s[pos] == 0 && s[pos + 1] == 0 && s[pos + 2] == 9) {
        None
    } else {
        let key_end = pos + 2 + read_be16(s, pos);
        match primitive_end(s, key_end) {
            Some(v) => if v <= pos {
                None
            } else if s.subrange(pos + 2, key_end) == key {
                if s[key_end] == AMF_STRING {
                    Some(string_at(s, key_end))
                } else {
                    None
                }
            } else {
                string_property(s, v, key)
            },
            None => None,
        }
    }
}

fn same_bytes(s: &[u8], start: usize, end: usize, key: &[u8]) -> (r: bool)
    requires
        start <= end <= s@.len(),
    ensures
        r == (s@.subrange(start as int, end as int) == key@),
{
    if end - start != key.len() {
        assert(s@.subrange(start as int, end as int).len() != key@.len());
        return false;
    }
    let mut i: usize = 0;
    while i < key.len()
        invariant
            end - start == key@.len(),
            start <= end <= s@.len(),
            i <= key@.len(),
            forall|j: int| 0 <= j < i ==> s@[start + j] == key@[j],
        decreases key@.len() - i,
    {
        if s[start + i] != key[i] {
            assert(s@.subrange(start as int, end as int)[i as int] != key@[i as int]);
            return false;
        }
        i = i + 1;
    }
    assert(s@.subrange(start as int, end as int) =~= key@);
    true
}

/// The string value of the property `key` of the command object (an AMF0
/// object) at `pos`; `app` of a `connect` command, for one.
pub fn find_string_property(s: &[u8], pos: usize, key: &[u8]) -> (r: Option<Vec<u8>>)
    ensures
        r is Some <==> pos < s@.len() && s@[pos as int] == AMF_OBJECT && string_property(
            s@,
            pos + 1,
            key@,
        ) is Some,
        r is Some ==> r->Some_0@ == string_property(s@, pos + 1, key@)->Some_0,
{
    if pos >= s.len() || s[pos] != AMF_OBJECT {
        return None;
    }
    let mut p: usize = pos + 1;
    loop
        invariant
            pos + 1 <= p <= s@.len(),
            pos < s@.len(),
            s@[pos as int] == AMF_OBJECT,
            string_property(s@, pos + 1, key@) == string_property(s@, p as int, key@),
        decreases s@.len() - p,
    {
        if s.len() - p < 3 || (s[p] == 0 && s[p + 1] == 0 && s[p + 2] == 9) {
            return None;
        }
        let key_len: usize = (s[p] as usize) * 0x100 + (s[p + 1] as usize);
        if s.len() - p - 2 < key_len {
            return None;
        }
        let key_end: usize = p + 2 + key_len;
        let v = match primitive_end_exec(s, key_end) {
            Some(v) => v,
            None => {
                return None;
            },
        };
        if same_bytes(s, p + 2, key_end, key) {
            if s[key_end] == AMF_STRING {
                return match read_string(s, key_end) {
                    Ok((value, _)) => Some(value),
                    Err(_) => None,
                };
            }
            return None;
        }
        p = v;
    }
}

/// The bits of the number value of the first property named `key` of the
/// properties at `pos`, where it is a number.
pub open spec fn number_property(s: Seq<u8>, pos: int, key: Seq<u8>) -> Option<u64>
    decreases s.len() - pos,
{
    if pos < 0 || pos + 3 > s.len() || (s[pos] == 0 && s[pos + 1] == 0 && s[pos + 2] == 9) {
        None
    } else {
        let key_end = pos + 2 + read_be16(s, pos);
        match primitive_end(s, key_end) {
            Some(v) => if v <= pos {
                None
            } else if s.subrange(pos + 2, key_end) == key {
                if s[key_end] == AMF_NUMBER {
                    Some(number_at(s, key_end))
                } else {
                    None
                }
            } else {
                number_property(s, v, key)
            },
            None => None,
        }
    }
}

/// The number (as the bits of its double) of the property `key` of the
/// properties that start at `pos`: those of an `onMetaData` array, `width`
/// for one.
pub fn find_number_property(s: &[u8], pos: usize, key: &[u8]) -> (r: Option<u64>)
    requires
        pos <= s@.len(),
    ensures
        r == number_property(s@, pos as int, key@),
{
    let mut p: usize = pos;
    loop
        invariant
            pos <= p <= s@.len(),
            number_property(s@, pos as int, key@) == number_property(s@, p as int, key@),
        decreases s@.len() - p,
    {
        if s.len() - p < 3 || (s[p] == 0 && s[p + 1] == 0 && s[p + 2] == 9) {
            return None;
        }
        let key_len: usize = (s[p] as usize) * 0x100 + (s[p + 1] as usize);
        if s.len() - p - 2 < key_len {
            return None;
        }
        let key_end: usize = p + 2 + key_len;
        let v = match primitive_end_exec(s, key_end) {
            Some(v) => v,
            None => {
                return None;
            },
        };
        if same_bytes(s, p + 2, key_end, key) {
            if s[key_end] == AMF_NUMBER {
                return match read_number(s, key_end) {
                    Ok((bits, _)) => Some(bits),
                    Err(_) => None,
                };
            }
            return None;
        }
        p = v;
    }
}

} // verus!
