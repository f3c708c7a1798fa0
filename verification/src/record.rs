//! The fixed-width binary record format of the output stream.
//!
//! One output record holds the three Cartesian coordinates of a star.  Each
//! coordinate is carried as the bit pattern of an IEEE-754 single-precision
//! value (a `u32`); the numeric evaluation that produces those bits happens
//! outside this crate.  A record's canonical encoding is exactly 12 bytes:
//! the three words in order, each as four little-endian bytes, with no
//! padding or separators.

use vstd::prelude::*;

verus! {

/// One output record: the bit patterns of the coordinates `x`, `y`, `z`,
/// in that fixed order.
#[derive(Clone, Copy, PartialEq, Eq, Structural, Debug)]
pub struct PositionRecord {
    pub x_bits: u32,
    pub y_bits: u32,
    pub z_bits: u32,
}

/// The four little-endian bytes of a 32-bit word.
pub open spec fn spec_le32(w: u32) -> Seq<u8> {
    seq![
        (w & 0xff) as u8,
        ((w >> 8) & 0xff) as u8,
        ((w >> 16) & 0xff) as u8,
        ((w >> 24) & 0xff) as u8,
    ]
}

/// The 32-bit word read back from four little-endian bytes.
pub open spec fn spec_word_of(b0: u8, b1: u8, b2: u8, b3: u8) -> u32 {
    (b0 as u32) | ((b1 as u32) << 8) | ((b2 as u32) << 16) | ((b3 as u32) << 24)
}

/// The canonical 12-byte encoding of one record.
pub open spec fn spec_encode_record(rec: PositionRecord) -> Seq<u8> {
    spec_le32(rec.x_bits) + spec_le32(rec.y_bits) + spec_le32(rec.z_bits)
}

/// The concatenated encodings of a batch of records, in batch order.
pub open spec fn spec_encode_batch(recs: Seq<PositionRecord>) -> Seq<u8>
    decreases recs.len(),
{
    if recs.len() == 0 {
        Seq::empty()
    } else {
        spec_encode_record(recs[0]) + spec_encode_batch(recs.drop_first())
    }
}

/// The records read back from a byte stream, grouping every 12 bytes into
/// one record.  Meaningful when the length is a multiple of 12.
pub open spec fn spec_decode_batch(bytes: Seq<u8>) -> Seq<PositionRecord>
    decreases bytes.len(),
{
    if bytes.len() < 12 {
        Seq::empty()
    } else {
        seq![
            PositionRecord {
                x_bits: spec_word_of(bytes[0], bytes[1], bytes[2], bytes[3]),
                y_bits: spec_word_of(bytes[4], bytes[5], bytes[6], bytes[7]),
                z_bits: spec_word_of(bytes[8], bytes[9], bytes[10], bytes[11]),
            },
        ] + spec_decode_batch(bytes.skip(12))
    }
}

/// Reading four little-endian bytes back gives the word they were made from.
pub proof fn lemma_word_round_trip(w: u32)
    ensures
        spec_word_of(spec_le32(w)[0], spec_le32(w)[1], spec_le32(w)[2], spec_le32(w)[3]) == w,
{
    assert(((w & 0xff) as u8 as u32) | ((((w >> 8) & 0xff) as u8 as u32) << 8) | ((((w >> 16)
        & 0xff) as u8 as u32) << 16) | ((((w >> 24) & 0xff) as u8 as u32) << 24) == w)
        by (bit_vector);
}

/// A batch's encoding is exactly 12 bytes per record.
pub proof fn lemma_encode_batch_len(recs: Seq<PositionRecord>)
    ensures
        spec_encode_batch(recs).len() == 12 * recs.len(),
    decreases recs.len(),
{
    if recs.len() > 0 {
        lemma_encode_batch_len(recs.drop_first());
    }
}

/// Decoding a written batch — grouping every 12 bytes into one record —
/// gives back exactly the records that were encoded: serialization loses
/// nothing.
pub proof fn lemma_batch_round_trip(recs: Seq<PositionRecord>)
    ensures
        spec_encode_batch(recs).len() % 12 == 0,
        spec_decode_batch(spec_encode_batch(recs)) == recs,
    decreases recs.len(),
{
    lemma_encode_batch_len(recs);
    if recs.len() == 0 {
        assert(spec_decode_batch(spec_encode_batch(recs)) =~= recs);
    } else {
        let enc = spec_encode_batch(recs);
        let head = spec_encode_record(recs[0]);
        let tail = spec_encode_batch(recs.drop_first());
        lemma_batch_round_trip(recs.drop_first());
        assert(enc.skip(12) =~= tail);
        lemma_word_round_trip(recs[0].x_bits);
        lemma_word_round_trip(recs[0].y_bits);
        lemma_word_round_trip(recs[0].z_bits);
        assert(spec_decode_batch(enc)[0] == recs[0]);
        assert(spec_decode_batch(enc) =~= recs);
    }
}

/// Appends the four little-endian bytes of `w` to `out`.
fn push_le32(out: &mut Vec<u8>, w: u32)
    ensures
        final(out)@ == old(out)@ + spec_le32(w),
{
    proof {
        assert((w & 0xff) < 256 && ((w >> 8) & 0xff) < 256 && ((w >> 16) & 0xff) < 256 && ((w
            >> 24) & 0xff) < 256) by (bit_vector);
    }
    out.push((w & 0xff) as u8);
    out.push(((w >> 8) & 0xff) as u8);
    out.push(((w >> 16) & 0xff) as u8);
    out.push(((w >> 24) & 0xff) as u8);
    proof {
        assert(out@ =~= old(out)@ + spec_le32(w));
    }
}

/// Serializes one record to its canonical 12-byte encoding.
pub fn encode_record(rec: &PositionRecord) -> (out: Vec<u8>)
    ensures
        out@ == spec_encode_record(*rec),
        out@.len() == 12,
{
    let mut out: Vec<u8> = Vec::new();
    push_le32(&mut out, rec.x_bits);
    push_le32(&mut out, rec.y_bits);
    push_le32(&mut out, rec.z_bits);
    proof {
        assert(out@ =~= spec_encode_record(*rec));
    }
    out
}

/// Serializes a whole batch: the canonical encodings of its records,
/// concatenated in batch order, 12 bytes per record.
pub fn encode_batch(recs: &Vec<PositionRecord>) -> (out: Vec<u8>)
    ensures
        out@ == spec_encode_batch(recs@),
        out@.len() == 12 * recs@.len(),
{
    let mut out: Vec<u8> = Vec::new();
    let mut i: usize = 0;
    proof {
        lemma_encode_batch_len(recs@);
        assert(recs@.skip(0) =~= recs@);
        assert(Seq::<u8>::empty() + spec_encode_batch(recs@) =~= spec_encode_batch(recs@));
    }
    while i < recs.len()
        invariant
            i <= recs@.len(),
            out@.len() == 12 * i,
            spec_encode_batch(recs@) == out@ + spec_encode_batch(recs@.skip(i as int)),
        decreases recs@.len() - i,
    {
        proof {
            assert(recs@.skip(i as int)[0] == recs@[i as int]);
            assert(recs@.skip(i as int).drop_first() =~= recs@.skip(i as int + 1));
        }
        let mut one = encode_record(&recs[i]);
        out.append(&mut one);
        i = i + 1;
        proof {
            assert(spec_encode_batch(recs@) == out@ + spec_encode_batch(recs@.skip(i as int)));
        }
    }
    proof {
        assert(recs@.skip(recs@.len() as int) =~= Seq::<PositionRecord>::empty());
        assert(out@ + Seq::<u8>::empty() =~= out@);
    }
    out
}

/// Reads the little-endian 32-bit word at offset `i`.
fn read_le32(bytes: &Vec<u8>, i: usize) -> (w: u32)
    requires
        i + 4 <= bytes@.len(),
    ensures
        w == spec_word_of(
            bytes@[i as int],
            bytes@[i as int + 1],
            bytes@[i as int + 2],
            bytes@[i as int + 3],
        ),
{
    let n: usize = bytes.len();
    assert(i + 4 <= n);
    (bytes[i] as u32) | ((bytes[i + 1] as u32) << 8) | ((bytes[i + 2] as u32) << 16) | ((bytes[i
        + 3] as u32) << 24)
}

/// Groups every 12 bytes of `bytes` into one record.  Returns `None` exactly
/// when the length is not a multiple of the record size.
pub fn decode_batch(bytes: &Vec<u8>) -> (out: Option<Vec<PositionRecord>>)
    ensures
        bytes@.len() % 12 == 0 ==> (out matches Some(recs) && recs@ == spec_decode_batch(bytes@)),
        bytes@.len() % 12 != 0 ==> out is None,
{
    if bytes.len() % 12 != 0 {
        return None;
    }
    let mut out: Vec<PositionRecord> = Vec::new();
    let mut i: usize = 0;
    proof {
        assert(bytes@.skip(0) =~= bytes@);
        assert(Seq::<PositionRecord>::empty() + spec_decode_batch(bytes@) =~= spec_decode_batch(
            bytes@,
        ));
    }
    while i < bytes.len()
        invariant
            i <= bytes@.len(),
            i % 12 == 0,
            bytes@.len() % 12 == 0,
            spec_decode_batch(bytes@) == out@ + spec_decode_batch(bytes@.skip(i as int)),
        decreases bytes@.len() - i,
    {
        proof {
            assert(bytes@.len() - i >= 12) by (nonlinear_arith)
                requires
                    i % 12 == 0,
                    bytes@.len() % 12 == 0,
                    i < bytes@.len(),
                    i <= bytes@.len(),
            ;
        }
        let rec = PositionRecord {
            x_bits: read_le32(bytes, i),
            y_bits: read_le32(bytes, i + 4),
            z_bits: read_le32(bytes, i + 8),
        };
        proof {
            let rest = bytes@.skip(i as int);
            assert(forall|k: int| 0 <= k < rest.len() ==> rest[k] == bytes@[i + k]);
            assert(rest.skip(12) =~= bytes@.skip(i as int + 12));
            assert(spec_decode_batch(rest)[0] == rec);
            assert(spec_decode_batch(rest) == seq![rec] + spec_decode_batch(rest.skip(12)));
            assert(out@.push(rec) =~= out@ + seq![rec]);
            assert((out@ + seq![rec]) + spec_decode_batch(bytes@.skip(i as int + 12)) =~= out@ + (
            seq![rec] + spec_decode_batch(bytes@.skip(i as int + 12))));
        }
        out.push(rec);
        i = i + 12;
    }
    proof {
        assert(bytes@.skip(bytes@.len() as int) =~= Seq::<u8>::empty());
        assert(out@ + Seq::<PositionRecord>::empty() =~= out@);
    }
    Some(out)
}

} // verus!
