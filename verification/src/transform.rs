//! The per-entry transform: one compressed payload in, its parsed rows out.
//!
//! A payload is a single gzip stream wrapping tabular text.  A payload
//! whose stream framing is broken yields zero rows — the entry is skipped
//! as a whole — rather than an error; within a payload that decompresses,
//! malformed rows are skipped one by one by the parser.  The decompressor
//! is the one outside call here; everything downstream of it is verified
//! against the name given to its result.

use vstd::prelude::*;
use crate::table::RawRow;
use crate::table::parse_table;
use crate::table::spec_parse_table;
use crate::table::spec_row_views;

verus! {

/// What single-stream gzip decompression yields for a payload: `None`
/// when the payload is not one well-formed stream, otherwise the
/// decompressed bytes.  The outcome depends on the payload bytes alone.
pub uninterp spec fn gunzip_of(payload: Seq<u8>) -> Option<Seq<u8>>;

/// Relies on flate2::read::GzDecoder over a byte slice: reading it to the
/// end yields the decompressed bytes of the payload's first gzip member
/// (bytes after that member are ignored), a function of the payload bytes
/// alone; a header, framing or checksum fault surfaces as an I/O error.
#[verifier::external_body]
fn gunzip(payload: &Vec<u8>) -> (out: Option<Vec<u8>>)
    ensures
        (out matches Some(text) ==> gunzip_of(payload@) == Some(text@)),
        (out is None ==> gunzip_of(payload@) is None),
{
    let mut decoder = flate2::read::GzDecoder::new(payload.as_slice());
    let mut text: Vec<u8> = Vec::new();
    match std::io::Read::read_to_end(&mut decoder, &mut text) {
        Ok(_) => Some(text),
        Err(_) => None,
    }
}

/// The rows one archive entry contributes: none when its payload does not
/// decompress, otherwise the structurally valid rows of the decompressed
/// text.
pub open spec fn spec_entry_rows(payload: Seq<u8>) -> Seq<(Seq<u8>, Seq<u8>, Seq<u8>)> {
    match gunzip_of(payload) {
        Some(text) => spec_parse_table(text),
        None => Seq::empty(),
    }
}

/// Decompresses one payload and parses its rows.  `None` reports a
/// payload that is not one well-formed compressed stream, so the caller
/// can emit a diagnostic; such an entry contributes zero rows, exactly as
/// `spec_entry_rows` says.
pub fn entry_rows(payload: &Vec<u8>) -> (out: Option<Vec<RawRow>>)
    ensures
        (out matches Some(rows) ==> gunzip_of(payload@) is Some && spec_row_views(rows@)
            == spec_entry_rows(payload@)),
        (out is None ==> gunzip_of(payload@) is None && spec_entry_rows(payload@)
            == Seq::<(Seq<u8>, Seq<u8>, Seq<u8>)>::empty()),
{
    match gunzip(payload) {
        Some(text) => Some(parse_table(&text)),
        None => None,
    }
}

/// The per-entry transform is deterministic: on equal payloads it yields
/// equal row sequences, on whichever worker and however many times it
/// runs.
pub proof fn lemma_entry_rows_deterministic(
    payload_a: Seq<u8>,
    payload_b: Seq<u8>,
    rows_a: Seq<(Seq<u8>, Seq<u8>, Seq<u8>)>,
    rows_b: Seq<(Seq<u8>, Seq<u8>, Seq<u8>)>,
)
    requires
        payload_a == payload_b,
        rows_a == spec_entry_rows(payload_a),
        rows_b == spec_entry_rows(payload_b),
    ensures
        rows_a == rows_b,
{
}

} // verus!
