//! What the library takes from outside crates: random identifiers, the
//! clock, the host's name, SHA-256, hexadecimal encoding and MIME type
//! guessing. Each item here is trusted: its contract is what the outside
//! crate's source or documentation shows, and nothing more is proved of it.

use vstd::prelude::*;
use sha2::Digest;
use crate::text::hex_lower;

verus! {

/// A point in time: whole seconds since the Unix epoch and the nanoseconds
/// past that second.
#[derive(Clone, Copy, Debug, PartialEq, Eq)]
pub struct Timestamp {
    pub secs: i64,
    pub nanos: u32,
}

/// Lowercase hexadecimal digit.
pub open spec fn is_lower_hex_digit(c: char) -> bool {
    ('0' <= c && c <= '9') || ('a' <= c && c <= 'f')
}

/// The hyphenated lowercase text of a random (version 4, RFC 9562 variant)
/// UUID: 36 characters, hyphens at 8, 13, 18 and 23, lowercase hex digits
/// elsewhere, version digit '4' at 14 and a variant digit 8, 9, a or b at 19.
pub open spec fn is_v4_uuid_text(t: Seq<char>) -> bool {
    &&& t.len() == 36
    &&& forall|i: int|
        0 <= i < 36 ==> if i == 8 || i == 13 || i == 18 || i == 23 {
            #[trigger] t[i] == '-'
        } else {
            is_lower_hex_digit(t[i])
        }
    &&& t[14] == '4'
    &&& (t[19] == '8' || t[19] == '9' || t[19] == 'a' || t[19] == 'b')
}

/// A fresh random identifier: `uuid::Uuid::new_v4()` rendered by its
/// `Display` impl. The crate masks in the version and variant bits and
/// formats the hyphenated lowercase form, so every outcome meets
/// `is_v4_uuid_text`; which one comes out is chance. The crate panics when
/// the operating system cannot supply random bytes; that case is not
/// stated here.
#[verifier::external_body]
pub(crate) fn new_uuid_text() -> (r: String)
    ensures
        is_v4_uuid_text(r@),
{
    uuid::Uuid::new_v4().to_string()
}

/// The current time: `chrono::Utc::now()`, read as its Unix timestamp and
/// sub-second nanoseconds. chrono builds it from `SystemTime`'s duration
/// since the epoch, whose sub-second part is below one second; the value
/// itself depends on the clock. chrono panics when the system clock is set
/// before 1970; that case is not stated here.
#[verifier::external_body]
pub(crate) fn current_time() -> (r: Timestamp)
    ensures
        r.nanos < 1_000_000_000,
{
    let now = chrono::Utc::now();
    Timestamp { secs: now.timestamp(), nanos: now.timestamp_subsec_nanos() }
}

/// No ASCII capital letter occurs in `t`.
pub open spec fn has_no_ascii_uppercase(t: Seq<char>) -> bool {
    forall|i: int| 0 <= i < t.len() ==> !('A' <= #[trigger] t[i] && t[i] <= 'Z')
}

/// The host's name as `whoami::hostname()` gives it. The crate lowercases
/// the ASCII letters of the name it reads from the system (or of its
/// fallback name); the name itself depends on the machine.
#[verifier::external_body]
#[allow(deprecated)]
pub(crate) fn host_name() -> (r: String)
    ensures
        has_no_ascii_uppercase(r@),
{
    whoami::hostname()
}

/// The SHA-256 digest of some bytes.
pub uninterp spec fn sha256_digest(data: Seq<u8>) -> Seq<u8>;

/// `sha2::Sha256::digest`: the digest of `data`, 32 bytes long (the
/// output size of `Sha256`).
#[verifier::external_body]
pub(crate) fn sha256(data: &[u8]) -> (r: Vec<u8>)
    ensures
        r@ == sha256_digest(data@),
        r@.len() == 32,
{
    sha2::Sha256::digest(data).to_vec()
}

/// `hex::encode`: lowercase hexadecimal, two digits per byte, high nibble
/// first (the crate's `HEX_CHARS_LOWER` table).
#[verifier::external_body]
pub(crate) fn hex_encode(data: &[u8]) -> (r: String)
    ensures
        r@ == hex_lower(data@),
{
    hex::encode(data)
}

/// The MIME type guessed from a file name.
pub uninterp spec fn guessed_mime_type(path: Seq<char>) -> Seq<char>;

/// `mime_guess::from_path(path).first_or_text_plain()`, rendered: the first
/// MIME type that the crate's table lists for the extension of `path`, or
/// `text/plain` when there is none. The table is the crate's; the result is
/// named, not described.
#[verifier::external_body]
pub(crate) fn guess_mime_type(path: &str) -> (r: String)
    ensures
        r@ == guessed_mime_type(path@),
{
    mime_guess::from_path(path).first_or_text_plain().to_string()
}

} // verus!
