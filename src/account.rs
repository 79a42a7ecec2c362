//! Broadcaster accounts: stream keys and web-push key pairs.
use vstd::prelude::*;

verus! {

/// Bytes of randomness in a stream key.
pub const STREAM_KEY_BYTES: usize = 32;

/// An account as the API shows it.
pub struct AccountInfo {
    pub name: String,
    pub stream_key: String,
}

/// The key pair for signing web-push notifications, in base64.
pub struct WebPushKeys {
    pub public_key: String,
    pub private_key: String,
}

impl WebPushKeys {
    /// The key pair, where both halves are configured.
    pub fn from_values(public_key: Option<String>, private_key: Option<String>) -> (r: Option<
        WebPushKeys,
    >)
        ensures
            r is Some <==> public_key is Some && private_key is Some,
            r is Some ==> r->Some_0.public_key == public_key->Some_0 && r->Some_0.private_key
                == private_key->Some_0,
    {
        match (public_key, private_key) {
            (Some(public_key), Some(private_key)) => Some(WebPushKeys { public_key, private_key }),
            _ => None,
        }
    }
}

/// A digit of the standard base64 alphabet: `A`-`Z`, `a`-`z`, `0`-`9`, `+`, `/`.
pub open spec fn base64_digit(v: nat) -> char {
    if v < 26 {
        (65 + v) as char
    } else if v < 52 {
        (97 + v - 26) as char
    } else if v < 62 {
        (48 + v - 52) as char
    } else if v == 62 {
        '+'
    } else {
        '/'
    }
}

/// The standard base64 encoding, with `=` padding, of a byte sequence: each
/// three bytes become four digits of six bits each.
pub open spec fn base64_of(bytes: Seq<u8>) -> Seq<char>
    decreases bytes.len(),
{
    if bytes.len() == 0 {
        Seq::empty()
    } else if bytes.len() == 1 {
        let x = bytes[0] as nat;
        seq![base64_digit(x / 4), base64_digit((x % 4) * 16), '=', '=']
    } else if bytes.len() == 2 {
        let x = bytes[0] as nat;
        let y = bytes[1] as nat;
        seq![base64_digit(x / 4), base64_digit((x % 4) * 16 + y / 16), base64_digit((y % 16) * 4), '=']
    } else {
        let x = bytes[0] as nat;
        let y = bytes[1] as nat;
        let z = bytes[2] as nat;
        seq![
            base64_digit(x / 4),
            base64_digit((x % 4) * 16 + y / 16),
            base64_digit((y % 16) * 4 + z / 64),
            base64_digit(z % 64),
        ] + base64_of(bytes.subrange(3, bytes.len() as int))
    }
}

/// Relies on `base64::encode` (0.13): the standard alphabet with `=` padding,
/// four characters for every three bytes or part of three. It panics only
/// where that length overflows `usize`.
#[verifier::external_body]
fn base64_encode(bytes: &[u8]) -> (r: String)
    requires
        bytes@.len() <= usize::MAX / 2,
    ensures
        r@ == base64_of(bytes@),
        r@.len() == 4 * ((bytes@.len() + 2) / 3),
{
    base64::encode(bytes)
}

/// Relies on `rand::random` for `[u8; 32]`: bytes from the thread-local
/// generator, which the operating system seeds. Nothing is promised of them.
/// It panics only where the operating system gives no entropy at all.
#[verifier::external_body]
fn random_key_bytes() -> (r: Vec<u8>)
    ensures
        r@.len() == STREAM_KEY_BYTES,
{
    rand::random::<[u8; 32]>().to_vec()
}

/// The stream key made of the given secret bytes: their base64 encoding.
pub fn encode_stream_key(secret: &[u8]) -> (r: String)
    requires
        secret@.len() <= usize::MAX / 2,
    ensures
        r@ == base64_of(secret@),
        r@.len() == 4 * ((secret@.len() + 2) / 3),
{
    base64_encode(secret)
}

/// A fresh stream key: 32 random bytes in base64, 44 characters.
pub fn get_new_stream_key() -> (r: String)
    ensures
        exists|secret: Seq<u8>| secret.len() == STREAM_KEY_BYTES && r@ == base64_of(secret),
        r@.len() == 44,
{
    let secret = random_key_bytes();
    encode_stream_key(secret.as_slice())
}

} // verus!
