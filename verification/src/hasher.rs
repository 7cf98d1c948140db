//! Stable identifiers derived from file names.

use vstd::prelude::*;
use crate::text::{base_name, base_name_chars, lowercase, lowercased, string_of};

verus! {

/// The BLAKE3 digest of a byte string, as `blake3::hash` computes it.
pub uninterp spec fn blake3_digest(input: Seq<u8>) -> Seq<u8>;

/// Hashes bytes with `blake3::hash`. The digest is a function of the input
/// alone and has 32 bytes.
#[verifier::external_body]
fn blake3_hash(input: &[u8]) -> (r: Vec<u8>)
    ensures
        r@ == blake3_digest(input@),
        r@.len() == 32,
{
    blake3::hash(input).as_bytes().to_vec()
}

/// The lowercase hexadecimal digit for a value below 16.
pub open spec fn hex_digit(n: int) -> char {
    if n < 10 {
        (48 + n) as char
    } else {
        (87 + n) as char
    }
}

/// The lowercase hexadecimal text of a byte string, two digits per byte.
pub open spec fn hex_lower(bytes: Seq<u8>) -> Seq<char> {
    Seq::new(
        2 * bytes.len(),
        |i: int|
            if i % 2 == 0 {
                hex_digit(bytes[i / 2] as int / 16)
            } else {
                hex_digit(bytes[i / 2] as int % 16)
            },
    )
}

/// The number of digest bytes that an identifier is made of.
pub const ID_BYTES: usize = 6;

/// The identifier that a digest gives: the hexadecimal text of its first
/// six bytes, or of all its bytes if it has fewer.
pub open spec fn id_text(digest: Seq<u8>) -> Seq<char> {
    if digest.len() >= ID_BYTES {
        hex_lower(digest.take(ID_BYTES as int))
    } else {
        hex_lower(digest)
    }
}

/// The identifier of a text: the first twelve hexadecimal digits of the
/// BLAKE3 digest of its UTF-8 bytes.
pub open spec fn id_of(input: Seq<char>) -> Seq<char> {
    id_text(blake3_digest(vstd::utf8::encode_utf8(input)))
}

/// Whether a character is a digit or one of the letters `a` to `f`.
pub open spec fn is_lower_hex_digit(c: char) -> bool {
    ('0' <= c <= '9') || ('a' <= c <= 'f')
}

/// Whether a text is made of lowercase hexadecimal digits alone.
pub open spec fn is_lower_hex(s: Seq<char>) -> bool {
    forall|i: int| 0 <= i < s.len() ==> is_lower_hex_digit(#[trigger] s[i])
}

/// A path reduced to what identifies its file: the last component, in
/// lowercase.
pub open spec fn normalized(path: Seq<char>) -> Seq<char> {
    lowercased(base_name(path))
}

fn hex_digit_of(n: u8) -> (r: char)
    requires
        n < 16,
    ensures
        r == hex_digit(n as int),
        is_lower_hex_digit(r),
{
    if n < 10 {
        (48 + n) as char
    } else {
        (87 + n) as char
    }
}

/// The lowercase hexadecimal text of the first `count` bytes.
fn hex_of_prefix(bytes: &Vec<u8>, count: usize) -> (r: Vec<char>)
    requires
        count <= bytes.len(),
    ensures
        r@ == hex_lower(bytes@.take(count as int)),
        r@.len() == 2 * count,
        is_lower_hex(r@),
{
    let mut out: Vec<char> = Vec::new();
    let mut i: usize = 0;
    while i < count
        invariant
            i <= count <= bytes.len(),
            out@ == hex_lower(bytes@.take(i as int)),
            is_lower_hex(out@),
        decreases count - i,
    {
        let b = bytes[i];
        out.push(hex_digit_of(b / 16));
        out.push(hex_digit_of(b % 16));
        i += 1;
        assert(out@ =~= hex_lower(bytes@.take(i as int)));
    }
    out
}

/// The identifier that a digest gives: two lowercase hexadecimal digits
/// for each of its first six bytes.
pub fn id_of_digest(digest: &Vec<u8>) -> (r: String)
    ensures
        r@ == id_text(digest@),
        is_lower_hex(r@),
        digest@.len() >= ID_BYTES ==> r@.len() == 2 * ID_BYTES,
        digest@.len() < ID_BYTES ==> r@.len() == 2 * digest@.len(),
{
    let count: usize = if digest.len() >= ID_BYTES {
        ID_BYTES
    } else {
        digest.len()
    };
    let hex = hex_of_prefix(digest, count);
    assert(digest@.take(digest@.len() as int) == digest@);
    string_of(&hex)
}

/// Derives identifiers from file names.
pub struct Hasher;

impl Hasher {
    /// The last component of a path, in lowercase.
    pub fn normalize(path: &str) -> (r: String)
        ensures
            r@ == normalized(path@),
    {
        let name = base_name_chars(path);
        let name_text = string_of(&name);
        lowercase(name_text.as_str())
    }

    /// A stable identifier for a text: twelve lowercase hexadecimal digits
    /// taken from its BLAKE3 digest.
    pub fn generate_id_from_str(input: &str) -> (r: String)
        ensures
            r@ == id_of(input@),
            r@.len() == 12,
            is_lower_hex(r@),
    {
        let digest = blake3_hash(input.as_bytes());
        id_of_digest(&digest)
    }

    /// A stable identifier for a file, derived from its normalized name:
    /// the same file name always gives the same identifier.
    pub fn generate_id_from_path(path: &str) -> (r: String)
        ensures
            r@ == id_of(normalized(path@)),
            r@.len() == 12,
            is_lower_hex(r@),
    {
        let normalized = Self::normalize(path);
        Self::generate_id_from_str(normalized.as_str())
    }
}

} // verus!
