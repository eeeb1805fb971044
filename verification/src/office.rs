//! The content-addressed cache plan for office-document conversion. The
//! cache key is the SHA-256 of the raw input bytes, rendered as lowercase
//! hex; the converted document lives as `<key>.pdf` in the cache
//! directory, and its presence alone decides whether the external
//! converter runs again. The caller does the file I/O and runs the
//! converter; this module fixes the key, the file names and the decision.
use vstd::prelude::*;
use vstd::string::StringExecFns;

use crate::CacheMode;

verus! {

/// The SHA-256 digest of a byte sequence, as sha2 computes it. The result
/// depends on the bytes alone.
pub uninterp spec fn sha256_of(bytes: Seq<u8>) -> Seq<u8>;

/// Relies on sha2's Sha256: the digest is 32 bytes and depends on the
/// input bytes alone.
#[verifier::external_body]
fn sha256_digest(data: &[u8]) -> (r: Vec<u8>)
    ensures
        r@ == sha256_of(data@),
        r@.len() == 32,
{
    <sha2::Sha256 as sha2::Digest>::digest(data).to_vec()
}

/// The lowercase hex character of a nibble value.
pub open spec fn hex_char(v: int) -> char {
    if v == 0 {
        '0'
    } else if v == 1 {
        '1'
    } else if v == 2 {
        '2'
    } else if v == 3 {
        '3'
    } else if v == 4 {
        '4'
    } else if v == 5 {
        '5'
    } else if v == 6 {
        '6'
    } else if v == 7 {
        '7'
    } else if v == 8 {
        '8'
    } else if v == 9 {
        '9'
    } else if v == 10 {
        'a'
    } else if v == 11 {
        'b'
    } else if v == 12 {
        'c'
    } else if v == 13 {
        'd'
    } else if v == 14 {
        'e'
    } else {
        'f'
    }
}

/// The lowercase hex rendering of bytes: two characters per byte, high
/// nibble first.
pub open spec fn hex_chars_of(bytes: Seq<u8>) -> Seq<char> {
    Seq::new(2 * bytes.len(), |i: int| if i % 2 == 0 {
        hex_char(bytes[i / 2] as int / 16)
    } else {
        hex_char(bytes[i / 2] as int % 16)
    })
}

/// Relies on hex::encode: two lowercase hex digits per byte, high nibble
/// first.
#[verifier::external_body]
fn hex_encode(data: &[u8]) -> (r: String)
    ensures
        r@ == hex_chars_of(data@),
{
    hex::encode(data)
}

/// The content-addressed cache key of an input: the lowercase hex SHA-256
/// of its raw bytes. Equal bytes always yield equal keys, which is the
/// reuse guarantee of the cache.
pub fn office_cache_key(data: &[u8]) -> (r: String)
    ensures
        r@ == hex_chars_of(sha256_of(data@)),
        r@.len() == 64,
{
    let digest = sha256_digest(data);
    hex_encode(digest.as_slice())
}

/// The two file names a conversion touches under the cache directory: the
/// converted `<key>.pdf`, and the source written as `<key>.<extension>`.
pub fn office_file_names(key: &str, extension: &str) -> (r: (String, String))
    ensures
        r.0@ == key@ + seq!['.', 'p', 'd', 'f'],
        r.1@ == key@ + seq!['.'] + extension@,
{
    let pdf_name = key.to_owned().concat(".pdf");
    let src_name = key.to_owned().concat(".").concat(extension);
    proof {
        reveal_strlit(".pdf");
        reveal_strlit(".");
        assert(".pdf"@ =~= seq!['.', 'p', 'd', 'f']);
        assert("."@ =~= seq!['.']);
    }
    (pdf_name, src_name)
}

/// The decision a conversion takes before any file is touched.
#[derive(Debug, Clone, Copy, PartialEq, Eq, Structural)]
pub struct OfficePlan {
    /// The cache directory outlives the call (default or custom mode);
    /// with caching disabled the work happens in an ephemeral directory.
    pub persistent: bool,
    /// `<key>.pdf` is already present in a persistent cache: read it and
    /// skip the external converter entirely.
    pub use_cached: bool,
}

/// See `office_conversion_plan`.
pub open spec fn spec_office_plan(mode: CacheMode, cached_exists: bool) -> OfficePlan {
    OfficePlan {
        persistent: !(mode is Disabled),
        use_cached: !(mode is Disabled) && cached_exists,
    }
}

/// Decide a conversion: the cache persists unless caching is disabled, and
/// exactly when it persists and `<key>.pdf` already exists is the external
/// converter skipped in favor of the cached file.
pub fn office_conversion_plan(mode: &CacheMode, cached_exists: bool) -> (r: OfficePlan)
    ensures
        r == spec_office_plan(*mode, cached_exists),
{
    let persistent = !matches!(mode, CacheMode::Disabled);
    OfficePlan { persistent, use_cached: persistent && cached_exists }
}

/// The cache's reuse law: converting the same byte content twice under a
/// persistent cache mode invokes the external converter exactly once.
/// Equal bytes give equal cache keys, so the second call looks up the
/// first call's `<key>.pdf`; finding it, its plan reads the cached file
/// and skips conversion.
pub proof fn lemma_cache_reuse(data1: Seq<u8>, data2: Seq<u8>, mode: CacheMode)
    requires
        data1 == data2,
        !(mode is Disabled),
    ensures
        hex_chars_of(sha256_of(data1)) == hex_chars_of(sha256_of(data2)),
        spec_office_plan(mode, true).use_cached,
        !spec_office_plan(mode, false).use_cached,
{
}

} // verus!
