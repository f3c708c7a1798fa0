//! The sink's bookkeeping: serializing each arriving batch and keeping the
//! running counters.
//!
//! A single writer drains the batch queue in arrival order; for each batch
//! it appends the canonical encodings of the records and accounts one more
//! file and as many more records.  The file handle, the queue and the
//! progress printing live outside this crate; what stands here is what the
//! writer appends and what its counters say afterwards.

use vstd::prelude::*;
use vstd::seq_lib::lemma_seq_union_to_multiset_commutative;
use vstd::seq_lib::lemma_multiset_commutative;
use vstd::seq_lib::lemma_flatten_concat;
use crate::record::PositionRecord;
use crate::record::encode_batch;
use crate::record::spec_encode_batch;
use crate::record::spec_encode_record;

verus! {

/// The writer's running counters: archive entries drained and records
/// written, both monotonically increasing, owned by the single writer.
#[derive(Clone, Copy, PartialEq, Eq, Structural, Debug)]
pub struct Progress {
    pub files_processed: u64,
    pub records_written: u64,
}

impl Progress {
    /// Fresh counters, before any batch has arrived.
    pub fn new() -> (p: Progress)
        ensures
            p.files_processed == 0,
            p.records_written == 0,
    {
        Progress { files_processed: 0, records_written: 0 }
    }

    /// Accounts one drained batch of `n` records: one more file processed,
    /// `n` more records written.  A batch of zero records still counts as
    /// one processed file and leaves the record count unchanged.
    pub fn observe_batch(&mut self, n: usize)
        requires
            old(self).files_processed + 1 <= u64::MAX,
            old(self).records_written + n <= u64::MAX,
        ensures
            final(self).files_processed == old(self).files_processed + 1,
            final(self).records_written == old(self).records_written + n,
    {
        self.files_processed = self.files_processed + 1;
        self.records_written = self.records_written + (n as u64);
    }
}

/// One step of the sink: serializes the arriving batch to the bytes to
/// append — 12 bytes per record, in batch order — and accounts it.
pub fn sink_step(progress: &mut Progress, batch: &Vec<PositionRecord>) -> (bytes: Vec<u8>)
    requires
        old(progress).files_processed + 1 <= u64::MAX,
        old(progress).records_written + batch@.len() <= u64::MAX,
    ensures
        bytes@ == spec_encode_batch(batch@),
        bytes@.len() == 12 * batch@.len(),
        final(progress).files_processed == old(progress).files_processed + 1,
        final(progress).records_written == old(progress).records_written + batch@.len(),
{
    let bytes = encode_batch(batch);
    progress.observe_batch(batch.len());
    bytes
}

/// The views of a sequence of batches.
pub open spec fn spec_batch_views(batches: Seq<Vec<PositionRecord>>) -> Seq<Seq<PositionRecord>> {
    batches.map_values(|b: Vec<PositionRecord>| b@)
}

/// Encoding distributes over concatenation: appending batch encodings one
/// after another writes exactly the encoding of all their records in order.
pub proof fn lemma_encode_batch_concat(a: Seq<PositionRecord>, b: Seq<PositionRecord>)
    ensures
        spec_encode_batch(a + b) == spec_encode_batch(a) + spec_encode_batch(b),
    decreases a.len(),
{
    if a.len() == 0 {
        assert(a + b =~= b);
        assert(spec_encode_batch(a) + spec_encode_batch(b) =~= spec_encode_batch(b));
    } else {
        assert((a + b)[0] == a[0]);
        assert((a + b).drop_first() =~= a.drop_first() + b);
        lemma_encode_batch_concat(a.drop_first(), b);
        let head = spec_encode_record(a[0]);
        assert(head + (spec_encode_batch(a.drop_first()) + spec_encode_batch(b)) =~= (head
            + spec_encode_batch(a.drop_first())) + spec_encode_batch(b));
    }
}

/// The whole sink run over a drained queue: the bytes appended are the
/// encodings of every record of every batch, in arrival order; one file
/// is counted per batch and one record per record.
pub fn drain_batches(progress: &mut Progress, batches: &Vec<Vec<PositionRecord>>) -> (out: Vec<u8>)
    requires
        old(progress).files_processed + batches@.len() <= u64::MAX,
        old(progress).records_written + spec_batch_views(batches@).flatten().len() <= u64::MAX,
    ensures
        out@ == spec_encode_batch(spec_batch_views(batches@).flatten()),
        final(progress).files_processed == old(progress).files_processed + batches@.len(),
        final(progress).records_written == old(progress).records_written + spec_batch_views(
            batches@,
        ).flatten().len(),
{
    let ghost views = spec_batch_views(batches@);
    let mut out: Vec<u8> = Vec::new();
    let mut i: usize = 0;
    proof {
        assert(views.take(0) =~= Seq::<Seq<PositionRecord>>::empty());
        assert(out@ =~= spec_encode_batch(views.take(0).flatten()));
    }
    while i < batches.len()
        invariant
            i <= batches@.len(),
            views == spec_batch_views(batches@),
            old(progress).files_processed + batches@.len() <= u64::MAX,
            old(progress).records_written + views.flatten().len() <= u64::MAX,
            progress.files_processed == old(progress).files_processed + i,
            progress.records_written == old(progress).records_written + views.take(
                i as int,
            ).flatten().len(),
            out@ == spec_encode_batch(views.take(i as int).flatten()),
        decreases batches@.len() - i,
    {
        proof {
            assert(views.take(i as int + 1) =~= views.take(i as int).push(views[i as int]));
            views.take(i as int).lemma_flatten_push(views[i as int]);
            assert(views =~= views.take(i as int + 1) + views.skip(i as int + 1));
            lemma_flatten_concat(views.take(i as int + 1), views.skip(i as int + 1));
            lemma_encode_batch_concat(views.take(i as int).flatten(), views[i as int]);
            assert(batches@[i as int]@ == views[i as int]);
        }
        let mut bytes = sink_step(progress, &batches[i]);
        out.append(&mut bytes);
        i = i + 1;
    }
    proof {
        assert(views.take(batches@.len() as int) =~= views);
    }
    out
}

/// The batch queue is multi-producer: two batches may reach the sink in
/// either order.  Whichever arrives first, the records written — as a
/// multiset — are the same; no record is lost or duplicated by reordering.
pub proof fn lemma_batch_order_irrelevant(a: Seq<PositionRecord>, b: Seq<PositionRecord>)
    ensures
        (a + b).to_multiset() == (b + a).to_multiset(),
{
    lemma_seq_union_to_multiset_commutative(a, b);
}

/// Removing one batch from a run takes exactly that batch's records out
/// of the output's multiset.
proof fn lemma_flatten_remove(batches: Seq<Seq<PositionRecord>>, j: int)
    requires
        0 <= j < batches.len(),
    ensures
        batches.flatten().to_multiset() == batches.remove(j).flatten().to_multiset().add(
            batches[j].to_multiset(),
        ),
{
    broadcast use vstd::multiset::group_multiset_axioms;

    let pre = batches.take(j);
    let x = batches[j];
    let post = batches.skip(j + 1);
    assert(batches =~= pre + (seq![x] + post));
    assert(batches.remove(j) =~= pre + post);
    lemma_flatten_concat(pre, seq![x] + post);
    lemma_flatten_concat(seq![x], post);
    lemma_flatten_concat(pre, post);
    seq![x].lemma_flatten_one_element();
    assert(batches.flatten() =~= pre.flatten() + (x + post.flatten()));
    assert(batches.remove(j).flatten() =~= pre.flatten() + post.flatten());
    lemma_multiset_commutative(pre.flatten(), x + post.flatten());
    lemma_multiset_commutative(x, post.flatten());
    lemma_multiset_commutative(pre.flatten(), post.flatten());
    assert(batches.flatten().to_multiset() =~= batches.remove(j).flatten().to_multiset().add(
        x.to_multiset(),
    ));
}

/// No loss or duplication under concurrency: two runs whose batches are
/// the same multiset — however the queue interleaved them — write the
/// same multiset of records.  Sorted by record bytes, their output files
/// are equal.
pub proof fn lemma_same_batches_same_records(
    run1: Seq<Seq<PositionRecord>>,
    run2: Seq<Seq<PositionRecord>>,
)
    requires
        run1.to_multiset() == run2.to_multiset(),
    ensures
        run1.flatten().to_multiset() == run2.flatten().to_multiset(),
    decreases run1.len(),
{
    broadcast use vstd::multiset::group_multiset_axioms;

    run1.to_multiset_ensures();
    run2.to_multiset_ensures();
    if run1.len() == 0 {
        assert(run2.len() == 0);
        assert(run1.flatten().to_multiset() =~= run2.flatten().to_multiset());
    } else {
        let x = run1[0];
        assert(run1.contains(x));
        assert(run2.to_multiset().count(x) > 0);
        assert(run2.contains(x));
        let j = choose|j: int| 0 <= j < run2.len() && run2[j] == x;
        assert(run1.remove(0).to_multiset() =~= run1.to_multiset().remove(x));
        assert(run2.remove(j).to_multiset() =~= run2.to_multiset().remove(x));
        lemma_same_batches_same_records(run1.remove(0), run2.remove(j));
        lemma_flatten_remove(run1, 0);
        lemma_flatten_remove(run2, j);
    }
}

} // verus!
