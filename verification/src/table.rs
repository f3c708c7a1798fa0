//! The tabular text format of a decompressed payload.
//!
//! A payload is header-delimited text: a first line naming the columns,
//! then one observation per line with exactly three comma-separated numeric
//! fields — right ascension, declination, parallax.  A line whose field
//! count is wrong or whose fields are not all numeric is skipped on its
//! own; parsing continues with the next line.  A field is numeric when it
//! is a plain decimal literal: an optional sign, digits with an optional
//! fractional part (or a fractional part alone), and an optional exponent.
//! The numeric evaluation of a field happens outside this crate; here a
//! row only carries the bytes of its three fields.

use vstd::prelude::*;

verus! {

/// The three fields of one structurally valid row, as raw bytes:
/// right ascension, declination, parallax.
pub struct RawRow {
    pub ra: Vec<u8>,
    pub dec: Vec<u8>,
    pub parallax: Vec<u8>,
}

impl View for RawRow {
    type V = (Seq<u8>, Seq<u8>, Seq<u8>);

    open spec fn view(&self) -> (Seq<u8>, Seq<u8>, Seq<u8>) {
        (self.ra@, self.dec@, self.parallax@)
    }
}

/// The views of a sequence of byte segments.
pub open spec fn spec_seg_views(segs: Seq<Vec<u8>>) -> Seq<Seq<u8>> {
    segs.map_values(|v: Vec<u8>| v@)
}

/// The views of a sequence of rows.
pub open spec fn spec_row_views(rows: Seq<RawRow>) -> Seq<(Seq<u8>, Seq<u8>, Seq<u8>)> {
    rows.map_values(|r: RawRow| r@)
}

/// Splitting `s` on the byte `sep`: the segments between separators, in
/// order, without the separators.  There is always at least one segment;
/// adjacent separators and separators at either end give empty segments.
pub open spec fn spec_split(s: Seq<u8>, sep: u8) -> Seq<Seq<u8>>
    decreases s.len(),
{
    if s.len() == 0 {
        seq![Seq::<u8>::empty()]
    } else if s.last() == sep {
        spec_split(s.drop_last(), sep).push(Seq::<u8>::empty())
    } else {
        let prev = spec_split(s.drop_last(), sep);
        prev.update(prev.len() - 1, prev.last().push(s.last()))
    }
}

/// A split always yields at least one segment.
pub proof fn lemma_split_nonempty(s: Seq<u8>, sep: u8)
    ensures
        spec_split(s, sep).len() >= 1,
    decreases s.len(),
{
    if s.len() > 0 {
        lemma_split_nonempty(s.drop_last(), sep);
    }
}

/// A line without its trailing carriage return, if it has one.
pub open spec fn spec_trim_cr(line: Seq<u8>) -> Seq<u8> {
    if line.len() > 0 && line.last() == 13 {
        line.drop_last()
    } else {
        line
    }
}

/// The states of the numeric-field recognizer.
#[derive(Clone, Copy, PartialEq, Eq, Structural, Debug)]
pub enum NumState {
    /// Nothing read yet.
    Start,
    /// A leading sign.
    Sign,
    /// Inside the integer digits.
    IntPart,
    /// A decimal point right after the sign, no digit yet.
    LeadDot,
    /// A decimal point after integer digits.
    FracDot,
    /// Inside the fraction digits.
    Frac,
    /// The exponent mark, nothing after it.
    ExpMark,
    /// A sign right after the exponent mark.
    ExpSign,
    /// Inside the exponent digits.
    ExpDigits,
    /// The input can no longer be a number.
    Reject,
}

/// An ASCII decimal digit.
pub open spec fn spec_is_digit(b: u8) -> bool {
    48 <= b && b <= 57
}

/// One step of the numeric-field recognizer on the next byte.
/// Byte values: 43 `+`, 45 `-`, 46 `.`, 69 `E`, 101 `e`.
pub open spec fn spec_step(st: NumState, b: u8) -> NumState {
    match st {
        NumState::Start => if spec_is_digit(b) {
            NumState::IntPart
        } else if b == 43 || b == 45 {
            NumState::Sign
        } else if b == 46 {
            NumState::LeadDot
        } else {
            NumState::Reject
        },
        NumState::Sign => if spec_is_digit(b) {
            NumState::IntPart
        } else if b == 46 {
            NumState::LeadDot
        } else {
            NumState::Reject
        },
        NumState::IntPart => if spec_is_digit(b) {
            NumState::IntPart
        } else if b == 46 {
            NumState::FracDot
        } else if b == 101 || b == 69 {
            NumState::ExpMark
        } else {
            NumState::Reject
        },
        NumState::LeadDot => if spec_is_digit(b) {
            NumState::Frac
        } else {
            NumState::Reject
        },
        NumState::FracDot => if spec_is_digit(b) {
            NumState::Frac
        } else if b == 101 || b == 69 {
            NumState::ExpMark
        } else {
            NumState::Reject
        },
        NumState::Frac => if spec_is_digit(b) {
            NumState::Frac
        } else if b == 101 || b == 69 {
            NumState::ExpMark
        } else {
            NumState::Reject
        },
        NumState::ExpMark => if spec_is_digit(b) {
            NumState::ExpDigits
        } else if b == 43 || b == 45 {
            NumState::ExpSign
        } else {
            NumState::Reject
        },
        NumState::ExpSign => if spec_is_digit(b) {
            NumState::ExpDigits
        } else {
            NumState::Reject
        },
        NumState::ExpDigits => if spec_is_digit(b) {
            NumState::ExpDigits
        } else {
            NumState::Reject
        },
        NumState::Reject => NumState::Reject,
    }
}

/// The recognizer state after reading all of `s`.
pub open spec fn spec_scan(s: Seq<u8>) -> NumState
    decreases s.len(),
{
    if s.len() == 0 {
        NumState::Start
    } else {
        spec_step(spec_scan(s.drop_last()), s.last())
    }
}

/// The states in which a whole field is a valid numeric literal.
pub open spec fn spec_accepting(st: NumState) -> bool {
    st == NumState::IntPart || st == NumState::FracDot || st == NumState::Frac || st
        == NumState::ExpDigits
}

/// A field is numeric when the recognizer accepts all of it.
pub open spec fn spec_is_number(s: Seq<u8>) -> bool {
    spec_accepting(spec_scan(s))
}

/// One step of the recognizer, executably.
fn step(st: NumState, b: u8) -> (next: NumState)
    ensures
        next == spec_step(st, b),
{
    let digit = 48 <= b && b <= 57;
    match st {
        NumState::Start => if digit {
            NumState::IntPart
        } else if b == 43 || b == 45 {
            NumState::Sign
        } else if b == 46 {
            NumState::LeadDot
        } else {
            NumState::Reject
        },
        NumState::Sign => if digit {
            NumState::IntPart
        } else if b == 46 {
            NumState::LeadDot
        } else {
            NumState::Reject
        },
        NumState::IntPart => if digit {
            NumState::IntPart
        } else if b == 46 {
            NumState::FracDot
        } else if b == 101 || b == 69 {
            NumState::ExpMark
        } else {
            NumState::Reject
        },
        NumState::LeadDot => if digit {
            NumState::Frac
        } else {
            NumState::Reject
        },
        NumState::FracDot => if digit {
            NumState::Frac
        } else if b == 101 || b == 69 {
            NumState::ExpMark
        } else {
            NumState::Reject
        },
        NumState::Frac => if digit {
            NumState::Frac
        } else if b == 101 || b == 69 {
            NumState::ExpMark
        } else {
            NumState::Reject
        },
        NumState::ExpMark => if digit {
            NumState::ExpDigits
        } else if b == 43 || b == 45 {
            NumState::ExpSign
        } else {
            NumState::Reject
        },
        NumState::ExpSign => if digit {
            NumState::ExpDigits
        } else {
            NumState::Reject
        },
        NumState::ExpDigits => if digit {
            NumState::ExpDigits
        } else {
            NumState::Reject
        },
        NumState::Reject => NumState::Reject,
    }
}

/// Decides whether a field is a valid numeric literal.
pub fn is_number(s: &Vec<u8>) -> (r: bool)
    ensures
        r == spec_is_number(s@),
{
    let mut st = NumState::Start;
    let mut i: usize = 0;
    proof {
        assert(s@.take(0) =~= Seq::<u8>::empty());
    }
    while i < s.len()
        invariant
            i <= s@.len(),
            st == spec_scan(s@.take(i as int)),
        decreases s@.len() - i,
    {
        proof {
            assert(s@.take(i as int + 1).drop_last() =~= s@.take(i as int));
        }
        st = step(st, s[i]);
        i = i + 1;
    }
    proof {
        assert(s@.take(s@.len() as int) =~= s@);
    }
    match st {
        NumState::IntPart => true,
        NumState::FracDot => true,
        NumState::Frac => true,
        NumState::ExpDigits => true,
        _ => false,
    }
}

/// Splits `s` on the byte `sep`, yielding owned segments.
pub fn split_bytes(s: &Vec<u8>, sep: u8) -> (out: Vec<Vec<u8>>)
    ensures
        spec_seg_views(out@) == spec_split(s@, sep),
{
    let mut out: Vec<Vec<u8>> = Vec::new();
    let mut cur: Vec<u8> = Vec::new();
    let mut i: usize = 0;
    proof {
        assert(s@.take(0) =~= Seq::<u8>::empty());
        assert(spec_seg_views(out@).push(cur@) =~= spec_split(s@.take(0), sep));
    }
    while i < s.len()
        invariant
            i <= s@.len(),
            spec_seg_views(out@).push(cur@) == spec_split(s@.take(i as int), sep),
        decreases s@.len() - i,
    {
        let ghost prev = spec_split(s@.take(i as int), sep);
        proof {
            assert(s@.take(i as int + 1).drop_last() =~= s@.take(i as int));
            assert(s@.take(i as int + 1).last() == s@[i as int]);
        }
        let b: u8 = s[i];
        if b == sep {
            let ghost old_out = out@;
            let ghost old_cur = cur@;
            out.push(cur);
            cur = Vec::new();
            proof {
                assert(spec_seg_views(out@) =~= spec_seg_views(old_out).push(old_cur));
                assert(spec_seg_views(out@).push(cur@) =~= prev.push(Seq::<u8>::empty()));
            }
        } else {
            let ghost old_cur = cur@;
            cur.push(b);
            proof {
                assert(prev.len() >= 1);
                assert(prev.last() == old_cur);
                assert(spec_seg_views(out@).push(cur@) =~= prev.update(
                    prev.len() - 1,
                    prev.last().push(b),
                ));
            }
        }
        i = i + 1;
    }
    proof {
        assert(s@.take(s@.len() as int) =~= s@);
    }
    let ghost old_out = out@;
    let ghost old_cur = cur@;
    out.push(cur);
    proof {
        assert(spec_seg_views(out@) =~= spec_seg_views(old_out).push(old_cur));
    }
    out
}

/// Copies a line, dropping one trailing carriage return if present.
fn trim_line(line: &Vec<u8>) -> (out: Vec<u8>)
    ensures
        out@ == spec_trim_cr(line@),
{
    let mut out: Vec<u8> = Vec::new();
    let mut i: usize = 0;
    proof {
        assert(line@.take(0) =~= Seq::<u8>::empty());
    }
    while i < line.len()
        invariant
            i <= line@.len(),
            out@ == line@.take(i as int),
        decreases line@.len() - i,
    {
        out.push(line[i]);
        i = i + 1;
        proof {
            assert(line@.take(i as int) =~= line@.take(i as int - 1).push(line@[i - 1]));
        }
    }
    proof {
        assert(line@.take(line@.len() as int) =~= line@);
    }
    if out.len() > 0 && out[out.len() - 1] == 13 {
        out.pop();
        proof {
            assert(out@ =~= line@.drop_last());
        }
    }
    out
}

/// The row a line yields, if it holds exactly three numeric fields.
pub open spec fn spec_row_of_line(line: Seq<u8>) -> Option<(Seq<u8>, Seq<u8>, Seq<u8>)> {
    let fs = spec_split(spec_trim_cr(line), 44);
    if fs.len() == 3 && spec_is_number(fs[0]) && spec_is_number(fs[1]) && spec_is_number(fs[2]) {
        Some((fs[0], fs[1], fs[2]))
    } else {
        None
    }
}

/// The rows of a sequence of lines, in order, keeping only the
/// structurally valid ones.
pub open spec fn spec_rows_of_lines(lines: Seq<Seq<u8>>) -> Seq<(Seq<u8>, Seq<u8>, Seq<u8>)>
    decreases lines.len(),
{
    if lines.len() == 0 {
        Seq::empty()
    } else {
        match spec_row_of_line(lines[0]) {
            Some(r) => seq![r] + spec_rows_of_lines(lines.drop_first()),
            None => spec_rows_of_lines(lines.drop_first()),
        }
    }
}

/// The rows of a whole payload text: the first line is the header and is
/// skipped; every later line that holds exactly three numeric fields
/// yields one row.
pub open spec fn spec_parse_table(text: Seq<u8>) -> Seq<(Seq<u8>, Seq<u8>, Seq<u8>)> {
    spec_rows_of_lines(spec_split(text, 10).drop_first())
}

/// Parses a decompressed payload into its structurally valid rows.
pub fn parse_table(text: &Vec<u8>) -> (rows: Vec<RawRow>)
    ensures
        spec_row_views(rows@) == spec_parse_table(text@),
{
    let lines = split_bytes(text, 10);
    let ghost lviews = spec_seg_views(lines@);
    proof {
        lemma_split_nonempty(text@, 10);
        assert(lviews.len() == lines@.len());
        assert(lviews.skip(1) =~= lviews.drop_first());
    }
    let mut rows: Vec<RawRow> = Vec::new();
    let mut i: usize = 1;
    proof {
        assert(spec_row_views(rows@) =~= Seq::<(Seq<u8>, Seq<u8>, Seq<u8>)>::empty());
        assert(Seq::<(Seq<u8>, Seq<u8>, Seq<u8>)>::empty() + spec_rows_of_lines(lviews.skip(1))
            =~= spec_rows_of_lines(lviews.skip(1)));
    }
    while i < lines.len()
        invariant
            1 <= i <= lines@.len(),
            lviews == spec_seg_views(lines@),
            spec_parse_table(text@) == spec_row_views(rows@) + spec_rows_of_lines(
                lviews.skip(i as int),
            ),
        decreases lines@.len() - i,
    {
        proof {
            assert(lviews.skip(i as int)[0] == lviews[i as int]);
            assert(lviews.skip(i as int).drop_first() =~= lviews.skip(i as int + 1));
        }
        let trimmed = trim_line(&lines[i]);
        let mut fields = split_bytes(&trimmed, 44);
        let ghost fs = spec_split(spec_trim_cr(lviews[i as int]), 44);
        proof {
            assert(spec_seg_views(fields@) == fs);
            assert(fields@.len() == fs.len());
        }
        if fields.len() == 3 {
            proof {
                assert(fields@[0]@ == fs[0] && fields@[1]@ == fs[1] && fields@[2]@ == fs[2]);
            }
            let ok = is_number(&fields[0]) && is_number(&fields[1]) && is_number(&fields[2]);
            if ok {
                let parallax = fields.pop().unwrap();
                let dec = fields.pop().unwrap();
                let ra = fields.pop().unwrap();
                let row = RawRow { ra, dec, parallax };
                let ghost old_rows = rows@;
                proof {
                    assert(row@ == spec_row_of_line(lviews[i as int]).unwrap());
                }
                rows.push(row);
                proof {
                    assert(spec_row_views(rows@) =~= spec_row_views(old_rows).push(row@));
                    assert(spec_row_views(old_rows).push(row@) + spec_rows_of_lines(
                        lviews.skip(i as int + 1),
                    ) =~= spec_row_views(old_rows) + (seq![row@] + spec_rows_of_lines(
                        lviews.skip(i as int + 1),
                    )));
                }
            }
        }
        i = i + 1;
    }
    proof {
        assert(lviews.skip(lines@.len() as int) =~= Seq::<Seq<u8>>::empty());
        assert(spec_row_views(rows@) + Seq::<(Seq<u8>, Seq<u8>, Seq<u8>)>::empty() =~= spec_row_views(
            rows@,
        ));
    }
    rows
}

} // verus!
