//! The parallax filter: rows whose parallax is not strictly positive are
//! dropped before conversion.
//!
//! Numeric values travel through this crate as the bit patterns of IEEE-754
//! single-precision values, held in `u32` fields.  On those bit patterns the
//! rejection test `parallax <= 0` is pure integer logic: the two zeros are
//! the words `0x0000_0000` and `0x8000_0000`, and a negative value is any
//! word with the sign bit set whose magnitude does not exceed that of
//! negative infinity (`0xff80_0000`) — words above that are NaNs, which
//! compare neither below nor above zero and therefore pass the test, as
//! they do under the rejection test itself.

use vstd::prelude::*;

verus! {

/// The three fields of one parsed row as IEEE-754 single-precision bit
/// patterns: right ascension and declination in degrees, parallax in
/// milliarcseconds.
#[derive(Clone, Copy, PartialEq, Eq, Structural, Debug)]
pub struct RowBits {
    pub ra_bits: u32,
    pub dec_bits: u32,
    pub parallax_bits: u32,
}

/// Whether a single-precision bit pattern denotes a value less than or
/// equal to zero: one of the two zeros, or a negative number down to and
/// including negative infinity.
pub open spec fn spec_le_zero(bits: u32) -> bool {
    bits == 0 || (0x8000_0000 <= bits && bits <= 0xff80_0000)
}

/// A row survives the filter exactly when its parallax is not less than
/// or equal to zero.
pub open spec fn spec_keep(row: RowBits) -> bool {
    !spec_le_zero(row.parallax_bits)
}

/// The surviving rows, in input order.
pub open spec fn spec_filter_rows(rows: Seq<RowBits>) -> Seq<RowBits>
    decreases rows.len(),
{
    if rows.len() == 0 {
        Seq::empty()
    } else if spec_keep(rows[0]) {
        seq![rows[0]] + spec_filter_rows(rows.drop_first())
    } else {
        spec_filter_rows(rows.drop_first())
    }
}

/// How many rows survive the filter.
pub open spec fn spec_kept_count(rows: Seq<RowBits>) -> int
    decreases rows.len(),
{
    if rows.len() == 0 {
        0
    } else {
        (if spec_keep(rows[0]) {
            1int
        } else {
            0int
        }) + spec_kept_count(rows.drop_first())
    }
}

/// The filter emits exactly one row per surviving input row: its output
/// length is the count of rows with positive parallax.
pub proof fn lemma_filter_count(rows: Seq<RowBits>)
    ensures
        spec_filter_rows(rows).len() == spec_kept_count(rows),
        0 <= spec_kept_count(rows) <= rows.len(),
    decreases rows.len(),
{
    if rows.len() > 0 {
        lemma_filter_count(rows.drop_first());
    }
}

/// The total record count over any sequence of per-payload row batches.
pub open spec fn spec_total_filtered(batches: Seq<Seq<RowBits>>) -> int
    decreases batches.len(),
{
    if batches.len() == 0 {
        0
    } else {
        spec_filter_rows(batches[0]).len() + spec_total_filtered(batches.drop_first())
    }
}

/// The total count of surviving rows over the same batches.
pub open spec fn spec_total_kept(batches: Seq<Seq<RowBits>>) -> int
    decreases batches.len(),
{
    if batches.len() == 0 {
        0
    } else {
        spec_kept_count(batches[0]) + spec_total_kept(batches.drop_first())
    }
}

/// Over a whole run, the number of output records equals the number of
/// parsed rows with a strictly positive parallax, summed over all payloads
/// that decompressed and parsed.
pub proof fn lemma_output_count(batches: Seq<Seq<RowBits>>)
    ensures
        spec_total_filtered(batches) == spec_total_kept(batches),
    decreases batches.len(),
{
    if batches.len() > 0 {
        lemma_filter_count(batches[0]);
        lemma_output_count(batches.drop_first());
    }
}

/// Decides the rejection test `parallax <= 0` on a bit pattern.
pub fn le_zero(bits: u32) -> (r: bool)
    ensures
        r == spec_le_zero(bits),
{
    bits == 0 || (0x8000_0000 <= bits && bits <= 0xff80_0000)
}

/// Drops every row whose parallax is less than or equal to zero, keeping
/// the survivors in input order.
pub fn filter_rows(rows: &Vec<RowBits>) -> (kept: Vec<RowBits>)
    ensures
        kept@ == spec_filter_rows(rows@),
        kept@.len() == spec_kept_count(rows@),
{
    let mut kept: Vec<RowBits> = Vec::new();
    let mut i: usize = 0;
    proof {
        assert(rows@.skip(0) =~= rows@);
        assert(Seq::<RowBits>::empty() + spec_filter_rows(rows@) =~= spec_filter_rows(rows@));
    }
    while i < rows.len()
        invariant
            i <= rows@.len(),
            spec_filter_rows(rows@) == kept@ + spec_filter_rows(rows@.skip(i as int)),
        decreases rows@.len() - i,
    {
        proof {
            assert(rows@.skip(i as int)[0] == rows@[i as int]);
            assert(rows@.skip(i as int).drop_first() =~= rows@.skip(i as int + 1));
        }
        let row = rows[i];
        if !le_zero(row.parallax_bits) {
            let ghost old_kept = kept@;
            kept.push(row);
            proof {
                assert(kept@ + spec_filter_rows(rows@.skip(i as int + 1)) =~= old_kept + (seq![row]
                    + spec_filter_rows(rows@.skip(i as int + 1))));
            }
        }
        i = i + 1;
    }
    proof {
        assert(rows@.skip(rows@.len() as int) =~= Seq::<RowBits>::empty());
        assert(kept@ + Seq::<RowBits>::empty() =~= kept@);
        lemma_filter_count(rows@);
    }
    kept
}

} // verus!
