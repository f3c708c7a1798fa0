//! A verified core for a streaming astrometry pipeline.
//!
//! Compressed tabular payloads of sky observations (right ascension,
//! declination, parallax) are decompressed and parsed, rows with a
//! non-positive parallax are dropped, and the surviving Cartesian positions
//! are serialized as fixed-width 12-byte binary records.  The modules here
//! hold the decisions of that pipeline — parsing, filtering, encoding and
//! the sink's counters — each with a contract; the thread pool, the archive
//! walk and the floating-point evaluation live outside, in the unverified
//! shell around this crate.

pub mod record;
pub mod table;
pub mod filter;
pub mod transform;
pub mod sink;
