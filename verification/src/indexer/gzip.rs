//! Decoding one gzip member out of the source file.
//!
//! A gzipped WARC stores one record per gzip member, so the indexer walks
//! the file member by member and keeps the physical start and byte count
//! of each member for the CDXJ `offset` and `length` fields.

use vstd::prelude::*;

verus! {

/// What decoding the gzip member that starts at byte `start` of `s`
/// yields: the decompressed bytes and the count of compressed bytes the
/// member occupies, or `None` when no well-formed member starts there.
pub uninterp spec fn gunzip_member(s: Seq<u8>, start: int) -> Option<(Seq<u8>, int)>;

/// Decode the single gzip member that starts at byte `start` of `s`.
///
/// Relies on flate2's `bufread::GzDecoder`: it decodes exactly one gzip
/// member, reports an error for bytes that do not begin with a gzip
/// header, and leaves the underlying reader positioned right after the
/// member's CRC/ISIZE trailer, so the member's compressed byte count is
/// what it consumed of the slice.  A successful decode has read at least
/// the member's header, so it consumes at least one byte, and it can
/// consume at most the bytes the slice holds.  The decompressed bytes
/// come back in a `Vec`, which never holds `usize::MAX` bytes.
#[verifier::external_body]
pub fn decode_gzip_member(s: &[u8], start: usize) -> (r: Option<(Vec<u8>, usize)>)
    requires
        start <= s@.len(),
    ensures
        match r {
            Some(dc) => gunzip_member(s@, start as int) == Some((dc.0@, dc.1 as int)) && 1
                <= dc.1 <= s@.len() - start && dc.0@.len() < usize::MAX,
            None => gunzip_member(s@, start as int) is None,
        },
{
    let sub = &s[start..];
    let mut decoder = flate2::bufread::GzDecoder::new(sub);
    let mut out: Vec<u8> = Vec::new();
    match std::io::Read::read_to_end(&mut decoder, &mut out) {
        Ok(_) => {
            let consumed = sub.len() - decoder.get_ref().len();
            Some((out, consumed))
        },
        Err(_) => None,
    }
}

} // verus!
