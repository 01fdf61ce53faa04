//! Whether a file is the one that was expected.

use crate::number;
use crate::scan;
use crate::text;
use sha2::{Digest, Sha256};
use vstd::prelude::*;

verus! {

/// The SHA-256 digest of some bytes.
pub uninterp spec fn sha256_of(bytes: Seq<u8>) -> Seq<u8>;

/// `Sha256::digest` gives the 32 bytes of the SHA-256 digest, which depend on the bytes alone.
#[verifier::external_body]
fn sha256(bytes: &[u8]) -> (res: Vec<u8>)
    ensures
        res@ == sha256_of(bytes@),
        res@.len() == 32,
{
    Sha256::digest(bytes).to_vec()
}

/// A digit of base 16, in lower case.
pub open spec fn hex_digit(d: int) -> char {
    if d < 10 {
        number::digit(d)
    } else {
        (87 + d) as char
    }
}

/// The bytes in base 16, two digits each, in lower case.
pub open spec fn hex_of(bytes: Seq<u8>) -> Seq<char>
    decreases bytes.len(),
{
    if bytes.len() == 0 {
        Seq::empty()
    } else {
        hex_of(bytes.drop_last()) + seq![
            hex_digit(bytes.last() as int / 16),
            hex_digit(bytes.last() as int % 16),
        ]
    }
}

/// `hex::encode` writes each byte as two digits of base 16 in lower case.
#[verifier::external_body]
fn hex_encode(bytes: &Vec<u8>) -> (res: String)
    ensures
        res@ == hex_of(bytes@),
{
    hex::encode(bytes)
}

/// A file has the digest that was expected; letter case does not count.
pub open spec fn digest_matches(actual: Seq<char>, expected: Seq<char>) -> bool {
    scan::unicode_lower(actual) == scan::unicode_lower(expected)
}

/// The digest of some bytes, in base 16.
pub fn digest_text(bytes: &[u8]) -> (res: String)
    ensures
        res@ == hex_of(sha256_of(bytes@)),
{
    hex_encode(&sha256(bytes))
}

/// What is said where a digest is not the one that was expected.
pub open spec fn mismatch_text(expected: Seq<char>, actual: Seq<char>) -> Seq<char> {
    "Checksum mismatch: expected "@ + expected + ", got "@ + actual
}

/// Compares a digest in lower case with the expected one in lower case.
pub fn same_digest(actual_lower: &str, expected_lower: &str) -> (res: bool)
    ensures
        res == (actual_lower@ == expected_lower@),
{
    text::eq(actual_lower, expected_lower)
}

/// Compares the digest of some bytes with the expected one, and says what is wrong where it is
/// another.
pub fn verify_checksum(bytes: &[u8], expected: &str) -> (res: Result<(), String>)
    ensures
        match res {
            Ok(_) => digest_matches(hex_of(sha256_of(bytes@)), expected@),
            Err(message) => !digest_matches(hex_of(sha256_of(bytes@)), expected@) && message@
                == mismatch_text(expected@, hex_of(sha256_of(bytes@))),
        },
{
    let actual = digest_text(bytes);
    let a = scan::to_lowercase(actual.as_str());
    let e = scan::to_lowercase(expected);
    if same_digest(a.as_str(), e.as_str()) {
        Ok(())
    } else {
        let mut message = "Checksum mismatch: expected ".to_owned();
        message.append(expected);
        message.append(", got ");
        message.append(actual.as_str());
        Err(message)
    }
}

/// What is wrong with a file for which a digest is expected, if anything: a file that cannot be read
/// is no more the expected one than a file with another digest.
pub open spec fn checksum_failure(
    expected: Option<Seq<char>>,
    content: Option<Seq<u8>>,
) -> Option<Seq<char>> {
    match (expected, content) {
        (None, _) => None,
        (Some(_), None) => Some("Failed to read file for checksum"@),
        (Some(e), Some(bytes)) => if digest_matches(hex_of(sha256_of(bytes)), e) {
            None
        } else {
            Some(mismatch_text(e, hex_of(sha256_of(bytes))))
        },
    }
}

/// Says what is wrong with a finished file, where `expected` is the digest that its entry asks for
/// and `content` what was read of it.
pub fn checksum_error(expected: Option<&str>, content: Option<&[u8]>) -> (res: Option<String>)
    ensures
        match (res, checksum_failure(
            match expected {
                Some(e) => Some(e@),
                None => None,
            },
            match content {
                Some(bytes) => Some(bytes@),
                None => None,
            },
        )) {
            (None, None) => true,
            (Some(message), Some(said)) => message@ == said,
            _ => false,
        },
{
    match expected {
        None => None,
        Some(e) => match content {
            None => Some("Failed to read file for checksum".to_owned()),
            Some(bytes) => match verify_checksum(bytes, e) {
                Ok(_) => None,
                Err(message) => Some(message),
            },
        },
    }
}

/// A file for which a digest is expected passes only where it was read and has that digest.
pub proof fn law_only_the_expected_file_passes(expected: Seq<char>, content: Option<Seq<u8>>)
    ensures
        checksum_failure(Some(expected), content) is None <==> content is Some && digest_matches(
            hex_of(sha256_of(content->0)),
            expected,
        ),
{
}

/// A file always has its own digest.
pub proof fn law_own_digest_matches(bytes: Seq<u8>)
    ensures
        digest_matches(hex_of(sha256_of(bytes)), hex_of(sha256_of(bytes))),
{
}

/// Letter case does not count in a digest; everything else does. Without an expected digest nothing is
/// wrong, and a failure tells both digests.
pub proof fn law_failures_tell_both_digests(
    expected: Seq<char>,
    bytes: Seq<u8>,
    content: Option<Seq<u8>>,
)
    ensures
        digest_matches(hex_of(sha256_of(bytes)), expected) <==> scan::unicode_lower(
            hex_of(sha256_of(bytes)),
        ) == scan::unicode_lower(expected),
        checksum_failure(None, content) is None,
        checksum_failure(Some(expected), None) == Some("Failed to read file for checksum"@),
        checksum_failure(Some(expected), Some(bytes)) is Some ==> checksum_failure(
            Some(expected),
            Some(bytes),
        ) == Some(
            "Checksum mismatch: expected "@ + expected + ", got "@ + hex_of(sha256_of(bytes)),
        ),
{
}

} // verus!
