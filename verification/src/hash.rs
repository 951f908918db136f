//! The hashed form of an identity: the SHA-256 digest of its text, in hexadecimal,
//! after the prefix `sha256$`. The digest is the work of the `sha2` crate.

use sha2::Digest;
use vstd::prelude::*;
use vstd::string::StrSliceExecFns;
use vstd::string::StringExecFns;
use vstd::utf8::encode_utf8;

verus! {

/// The SHA-256 digest of a sequence of bytes.
pub uninterp spec fn sha256_digest(data: Seq<u8>) -> Seq<u8>;

/// `sha2::Sha256::new`, `update` with the data, and `finalize`: the digest of the
/// data, which has 32 bytes.
#[verifier::external_body]
fn digest(data: &[u8]) -> (r: Vec<u8>)
    ensures
        r@ == sha256_digest(data@),
        r@.len() == 32,
{
    let mut hasher = sha2::Sha256::new();
    hasher.update(data);
    hasher.finalize().to_vec()
}

/// The hexadecimal digits, in order of their value.
pub open spec fn hex_digits() -> Seq<char> {
    "0123456789abcdef"@
}

/// The bytes in hexadecimal: for each byte two digits, the high one first, with small
/// letters.
pub open spec fn hex(data: Seq<u8>) -> Seq<char>
    decreases data.len(),
{
    if data.len() == 0 {
        Seq::empty()
    } else {
        hex(data.drop_last()).push(hex_digits()[data.last() as int / 16]).push(
            hex_digits()[data.last() as int % 16],
        )
    }
}

/// The hashed form of a text: `sha256$` and the digest of its UTF-8 bytes in
/// hexadecimal.
pub open spec fn sha256_text(input: Seq<char>) -> Seq<char> {
    "sha256$"@ + hex(sha256_digest(encode_utf8(input)))
}

/// Hexadecimal takes two characters for each byte.
pub proof fn lemma_hex_len(data: Seq<u8>)
    ensures
        hex(data).len() == 2 * data.len(),
    decreases data.len(),
{
    if data.len() > 0 {
        lemma_hex_len(data.drop_last());
    }
}

/// The hexadecimal digit of a value below 16.
fn hex_digit(value: u8) -> (r: &'static str)
    requires
        value < 16,
    ensures
        r@ == seq![hex_digits()[value as int]],
{
    proof {
        reveal_strlit("0123456789abcdef");
    }
    let digits: &'static str = "0123456789abcdef";
    let r = digits.substring_ascii(value as usize, value as usize + 1);
    assert(r@ == seq![hex_digits()[value as int]]);
    r
}

/// The bytes in hexadecimal.
pub fn to_hex(data: &[u8]) -> (r: String)
    ensures
        r@ == hex(data@),
{
    let mut out = String::new();
    let mut i: usize = 0;
    assert(data@.take(0) == Seq::<u8>::empty());
    while i < data.len()
        invariant
            i <= data.len(),
            out@ == hex(data@.take(i as int)),
        decreases data.len() - i,
    {
        let byte = data[i];
        assert(data@.take(i + 1).drop_last() == data@.take(i as int));
        assert(data@.take(i + 1).last() == byte);
        out.append(hex_digit(byte / 16));
        out.append(hex_digit(byte % 16));
        assert(out@ == hex(data@.take(i as int)).push(hex_digits()[byte as int / 16]).push(
            hex_digits()[byte as int % 16],
        ));
        i = i + 1;
    }
    assert(data@.take(i as int) == data@);
    out
}

/// The hashed form of `input`: 71 characters, the prefix and 64 hexadecimal digits.
pub fn sha256(input: &str) -> (r: String)
    ensures
        r@ == sha256_text(input@),
        r@.len() == 71,
{
    let digest = digest(input.as_bytes());
    proof {
        reveal_strlit("sha256$");
        lemma_hex_len(digest@);
    }
    let mut out = String::from_str("sha256$");
    let hex = to_hex(digest.as_slice());
    out.append(hex.as_str());
    out
}

/// The hashed form of `input` with `salt` directly after it.
pub fn sha256_with_salt(input: &str, salt: &str) -> (r: String)
    ensures
        r@ == sha256_text(input@ + salt@),
        r@.len() == 71,
{
    let mut salted = input.to_owned();
    salted.append(salt);
    sha256(salted.as_str())
}

} // verus!
