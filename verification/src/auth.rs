//! How the server stores passwords: the Base64 text of their SHA-256 digest.
use base64ct::Encoding;
use sha2::Digest;
use vstd::prelude::*;
use vstd::string::StringSliceAdditionalSpecFns;

verus! {

/// The SHA-256 digest of `data`.
pub uninterp spec fn sha256(data: Seq<u8>) -> Seq<u8>;

/// The character standing for the 6-bit value `v` in the standard Base64
/// alphabet: `A`-`Z`, `a`-`z`, `0`-`9`, `+`, `/`.
pub open spec fn base64_char(v: int) -> char {
    if v < 26 {
        (65 + v) as char
    } else if v < 52 {
        (97 + (v - 26)) as char
    } else if v < 62 {
        (48 + (v - 52)) as char
    } else if v == 62 {
        '+'
    } else {
        '/'
    }
}

/// Standard Base64 (RFC 4648) with `=` padding: every 3 bytes become 4
/// characters of 6 bits each, and a last group of 1 or 2 bytes is padded.
pub open spec fn base64(bytes: Seq<u8>) -> Seq<char>
    decreases bytes.len(),
{
    if bytes.len() == 0 {
        seq![]
    } else if bytes.len() == 1 {
        let b0 = bytes[0] as int;
        seq![base64_char(b0 / 4), base64_char((b0 % 4) * 16), '=', '=']
    } else if bytes.len() == 2 {
        let b0 = bytes[0] as int;
        let b1 = bytes[1] as int;
        seq![base64_char(b0 / 4), base64_char((b0 % 4) * 16 + b1 / 16), base64_char((b1 % 16) * 4), '=']
    } else {
        let b0 = bytes[0] as int;
        let b1 = bytes[1] as int;
        let b2 = bytes[2] as int;
        seq![
            base64_char(b0 / 4),
            base64_char((b0 % 4) * 16 + b1 / 16),
            base64_char((b1 % 16) * 4 + b2 / 64),
            base64_char(b2 % 64),
        ] + base64(bytes.skip(3))
    }
}

/// `sha2::Sha256::digest`: the SHA-256 digest of `data`, 32 bytes long.
#[verifier::external_body]
fn sha256_digest(data: &[u8]) -> (d: Vec<u8>)
    ensures
        d@ == sha256(data@),
        d@.len() == 32,
{
    sha2::Sha256::digest(data).to_vec()
}

/// `base64ct::Base64::encode_string`: standard padded Base64 of `bytes`.
/// base64ct panics on input longer than `usize::MAX / 4`; `requires` leaves
/// it out.
#[verifier::external_body]
fn base64_encode(bytes: &[u8]) -> (s: String)
    requires
        bytes@.len() <= usize::MAX / 4,
    ensures
        s@ == base64(bytes@),
{
    base64ct::Base64::encode_string(bytes)
}

/// The stored form of a password.
pub open spec fn password_hash(password: Seq<u8>) -> Seq<char> {
    base64(sha256(password))
}

/// Whether `stored` is the stored form of `password`.
pub open spec fn matches_stored(stored: Seq<char>, password: Seq<u8>) -> bool {
    stored == password_hash(password)
}

/// The form in which the server stores a password: the Base64 text of the
/// SHA-256 digest of its UTF-8 bytes, 44 characters long.
pub fn hash_password(password: &str) -> (h: String)
    ensures
        h@ == password_hash(password.spec_bytes()),
        h@.len() == 44,
{
    let digest = sha256_digest(password.as_bytes());
    proof { lemma_base64_len(digest@); }
    base64_encode(digest.as_slice())
}

/// Whether `password` is the password whose stored form is `stored`.
pub fn password_matches(stored: &str, password: &str) -> (r: bool)
    ensures
        r == matches_stored(stored@, password.spec_bytes()),
{
    let hashed = hash_password(password);
    crate::text::str_eq(stored, hashed.as_str())
}

/// A password always matches the form stored for it, and the stored form
/// of a password matches no password with another stored form.
pub proof fn law_password_round_trip(password: Seq<u8>, other: Seq<u8>, stored: Seq<char>)
    requires
        stored == password_hash(password),
    ensures
        matches_stored(stored, password),
        password_hash(other) != password_hash(password) ==> !matches_stored(stored, other),
{
}

/// Base64 text has four characters for every started group of three bytes.
pub proof fn lemma_base64_len(bytes: Seq<u8>)
    ensures
        base64(bytes).len() == 4 * ((bytes.len() + 2) / 3),
    decreases bytes.len(),
{
    if bytes.len() >= 3 {
        lemma_base64_len(bytes.skip(3));
    }
}

} // verus!
