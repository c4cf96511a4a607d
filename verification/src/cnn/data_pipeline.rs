use vstd::prelude::*;

use crate::cnn::cnn_trainer::{batch_group_views, group_labeled_images, label_groups, sample_views, CnnTrainerBatch};
use crate::cnn::rng::{
    fisher_yates_shuffle,
    initial_state,
    lemma_shuffle_is_permutation,
    lemma_shuffle_last_entry,
    shuffled,
    xorshift_step,
};

verus! {

/// Whether random augmentations apply.
#[derive(Debug, Clone, Copy, PartialEq, Eq, Structural)]
pub enum PipelineMode {
    Train,
    Eval,
}

/// An image with its label.
#[derive(Debug, Clone, PartialEq, Eq)]
pub struct LabeledImageRecord {
    pub label: String,
    pub image: Vec<u8>,
}

impl View for LabeledImageRecord {
    type V = (Seq<char>, Seq<u8>);

    open spec fn view(&self) -> (Seq<char>, Seq<u8>) {
        (self.label@, self.image@)
    }
}

pub fn copy_bytes(v: &Vec<u8>) -> (r: Vec<u8>)
    ensures
        r@ == v@,
{
    let mut r: Vec<u8> = Vec::new();
    let mut i: usize = 0;
    while i < v.len()
        invariant
            i <= v.len(),
            r@ == v@.take(i as int),
        decreases v.len() - i,
    {
        r.push(v[i]);
        i = i + 1;
    }
    r
}

impl LabeledImageRecord {
    pub fn new(label: &str, image: Vec<u8>) -> (r: Self)
        ensures
            r.label@ == label@,
            r.image@ == image@,
    {
        Self { label: label.to_string(), image }
    }

    /// A copy with the same label and image.
    pub fn duplicate(&self) -> (r: Self)
        ensures
            r@ == self@,
    {
        Self { label: self.label.clone(), image: copy_bytes(&self.image) }
    }
}

/// One batch of an epoch.
#[derive(Debug, Clone, PartialEq, Eq)]
pub struct CnnDataBatch {
    pub records: Vec<LabeledImageRecord>,
}

/// How a data loader batches and orders its records.
#[derive(Debug, Clone, Copy, PartialEq, Eq, Structural)]
pub struct CnnDataLoaderOptions {
    pub batch_size: usize,
    pub shuffle: bool,
    pub drop_last: bool,
    pub seed: u64,
    pub prefetch_hint: usize,
}

impl Default for CnnDataLoaderOptions {
    fn default() -> (r: Self)
        ensures
            r.batch_size == 16,
            r.shuffle,
            !r.drop_last,
            r.seed == 1,
            r.prefetch_hint == 2,
    {
        Self { batch_size: 16, shuffle: true, drop_last: false, seed: 1, prefetch_hint: 2 }
    }
}

/// Batches labeled images, optionally in a per-epoch shuffled order.
#[derive(Debug, Clone, PartialEq, Eq)]
pub struct CnnDataLoader {
    records: Vec<LabeledImageRecord>,
    options: CnnDataLoaderOptions,
}

pub open spec fn record_views(v: Seq<LabeledImageRecord>) -> Seq<(Seq<char>, Seq<u8>)> {
    v.map_values(|r: LabeledImageRecord| r@)
}

/// `0, 1, .., n - 1`
pub open spec fn identity_order(n: nat) -> Seq<usize> {
    Seq::new(n, |i: int| i as usize)
}

/// The order in which an epoch visits the records.
pub open spec fn epoch_order(n: nat, options: CnnDataLoaderOptions, epoch: u64) -> Seq<usize> {
    if options.shuffle && n > 1 {
        shuffled(identity_order(n), options.seed.wrapping_add(epoch))
    } else {
        identity_order(n)
    }
}

/// The batch size in force: at least one.
pub open spec fn effective_batch_size(options: CnnDataLoaderOptions) -> nat {
    if options.batch_size == 0 {
        1
    } else {
        options.batch_size as nat
    }
}

/// Consecutive chunks of `size` entries; the shorter last chunk is dropped when `drop_last`.
pub open spec fn chunks(s: Seq<usize>, size: nat, drop_last: bool) -> Seq<Seq<usize>>
    decreases s.len(),
{
    if s.len() == 0 || size == 0 {
        Seq::empty()
    } else if s.len() < size {
        if drop_last {
            Seq::empty()
        } else {
            seq![s]
        }
    } else {
        seq![s.take(size as int)] + chunks(s.skip(size as int), size, drop_last)
    }
}

/// The records at the given indices.
pub open spec fn pick(records: Seq<(Seq<char>, Seq<u8>)>, order: Seq<usize>) -> Seq<
    (Seq<char>, Seq<u8>),
> {
    order.map_values(|i: usize| records[i as int])
}

/// The batches of an epoch, as record views.
pub open spec fn epoch_batch_views(
    records: Seq<(Seq<char>, Seq<u8>)>,
    options: CnnDataLoaderOptions,
    epoch: u64,
) -> Seq<Seq<(Seq<char>, Seq<u8>)>> {
    chunks(
        epoch_order(records.len(), options, epoch),
        effective_batch_size(options),
        options.drop_last,
    ).map_values(|c: Seq<usize>| pick(records, c))
}

pub open spec fn batch_views(batches: Seq<CnnDataBatch>) -> Seq<Seq<(Seq<char>, Seq<u8>)>> {
    batches.map_values(|b: CnnDataBatch| record_views(b.records@))
}

/// Flattens a sequence of chunks.
pub open spec fn flatten(c: Seq<Seq<usize>>) -> Seq<usize>
    decreases c.len(),
{
    if c.len() == 0 {
        Seq::empty()
    } else {
        c[0] + flatten(c.drop_first())
    }
}

/// Without `drop_last`, the chunks of a sequence put back together give the sequence.
pub proof fn lemma_chunks_cover(s: Seq<usize>, size: nat)
    requires
        size > 0,
    ensures
        flatten(chunks(s, size, false)) == s,
    decreases s.len(),
{
    if s.len() == 0 {
    } else if s.len() < size {
        assert(chunks(s, size, false) == seq![s]);
        assert(seq![s].drop_first() =~= Seq::<Seq<usize>>::empty());
        assert(flatten(Seq::<Seq<usize>>::empty()) == Seq::<usize>::empty());
        assert(flatten(seq![s]) =~= s + Seq::<usize>::empty());
    } else {
        lemma_chunks_cover(s.skip(size as int), size);
        let c = chunks(s, size, false);
        assert(c.drop_first() =~= chunks(s.skip(size as int), size, false));
        assert(s.take(size as int) + s.skip(size as int) =~= s);
    }
}

/// With `drop_last`, every chunk holds exactly `size` entries and `len / size` chunks are made.
pub proof fn lemma_chunks_drop_last_full(s: Seq<usize>, size: nat)
    requires
        size > 0,
    ensures
        forall|k: int|
            0 <= k < chunks(s, size, true).len() ==> #[trigger] chunks(s, size, true)[k].len()
                == size,
        chunks(s, size, true).len() == s.len() / size,
    decreases s.len(),
{
    if s.len() == 0 {
    } else if s.len() < size {
        assert(s.len() / size == 0) by (nonlinear_arith)
            requires
                s.len() < size,
        ;
    } else {
        lemma_chunks_drop_last_full(s.skip(size as int), size);
        let rest = chunks(s.skip(size as int), size, true);
        let c = chunks(s, size, true);
        assert(c == seq![s.take(size as int)] + rest);
        assert forall|k: int| 0 <= k < c.len() implies #[trigger] c[k].len() == size by {
            if k > 0 {
                assert(c[k] == rest[k - 1]);
            }
        }
        let len = s.len() as int;
        let sz = size as int;
        assert(len / sz == 1 + (len - sz) / sz) by (nonlinear_arith)
            requires
                len >= sz,
                sz > 0,
        ;
        assert(s.skip(size as int).len() == len - sz);
    }
}

/// Without `drop_last`, the batches of an epoch visit every record exactly once: the indices
/// they take, one batch after the other, are a permutation of the records' indices.
pub proof fn lemma_epoch_visits_every_record_once(n: nat, options: CnnDataLoaderOptions, epoch: u64)
    requires
        !options.drop_last,
    ensures
        flatten(chunks(epoch_order(n, options, epoch), effective_batch_size(options), false)).to_multiset()
            == identity_order(n).to_multiset(),
        flatten(chunks(epoch_order(n, options, epoch), effective_batch_size(options), false)).len() == n,
{
    lemma_chunks_cover(epoch_order(n, options, epoch), effective_batch_size(options));
    if options.shuffle && n > 1 {
        lemma_shuffle_is_permutation(identity_order(n), options.seed.wrapping_add(epoch));
    }
}

/// Picking the records chunk by chunk and joining the picks gives the records picked in the
/// order of the joined chunks.
proof fn lemma_pick_flatten(records: Seq<(Seq<char>, Seq<u8>)>, c: Seq<Seq<usize>>)
    ensures
        c.map_values(|x: Seq<usize>| pick(records, x)).flatten() == pick(records, flatten(c)),
    decreases c.len(),
{
    let m = c.map_values(|x: Seq<usize>| pick(records, x));
    if c.len() == 0 {
        assert(m =~= Seq::<Seq<(Seq<char>, Seq<u8>)>>::empty());
        assert(pick(records, flatten(c)) =~= Seq::<(Seq<char>, Seq<u8>)>::empty());
    } else {
        lemma_pick_flatten(records, c.drop_first());
        assert(m.drop_first() =~= c.drop_first().map_values(|x: Seq<usize>| pick(records, x)));
        assert(m.first() == pick(records, c[0]));
        assert(pick(records, c[0] + flatten(c.drop_first())) =~= pick(records, c[0]) + pick(
            records,
            flatten(c.drop_first()),
        ));
    }
}

/// Without shuffling and without dropping the short last batch, the batches of every epoch,
/// one after the other, hold the records in their order.
pub proof fn lemma_unshuffled_epoch_keeps_order(
    records: Seq<(Seq<char>, Seq<u8>)>,
    options: CnnDataLoaderOptions,
    epoch: u64,
)
    requires
        records.len() <= usize::MAX,
        !options.shuffle,
        !options.drop_last,
    ensures
        epoch_batch_views(records, options, epoch).flatten() == records,
{
    let n = records.len();
    let size = effective_batch_size(options);
    lemma_chunks_cover(identity_order(n), size);
    lemma_pick_flatten(records, chunks(identity_order(n), size, false));
    assert forall|i: int| 0 <= i < n implies #[trigger] pick(records, identity_order(n))[i]
        == records[i] by {
        assert(identity_order(n)[i] == i as usize);
    }
    assert(pick(records, identity_order(n)) =~= records);
}

/// The first draw of the generator that shuffles an epoch: it is seeded with the loader's seed
/// plus the epoch.
pub open spec fn epoch_first_draw(options: CnnDataLoaderOptions, epoch: u64) -> u64 {
    xorshift_step(initial_state(options.seed.wrapping_add(epoch)))
}

/// With shuffling on, an epoch of more than one record is a Fisher-Yates walk from the end: the
/// record that ends up last is the one at the position that the first draw picks among all
/// `n` (the draw modulo `n`), and the order is a permutation of the records.
pub proof fn lemma_shuffled_epoch_last_record(n: nat, options: CnnDataLoaderOptions, epoch: u64)
    requires
        options.shuffle,
        2 <= n <= usize::MAX,
    ensures
        epoch_order(n, options, epoch)[n - 1] == (epoch_first_draw(options, epoch) as usize) % (n as usize),
        epoch_order(n, options, epoch).len() == n,
        epoch_order(n, options, epoch).to_multiset() == identity_order(n).to_multiset(),
{
    let seed = options.seed.wrapping_add(epoch);
    lemma_shuffle_last_entry(identity_order(n), seed);
    lemma_shuffle_is_permutation(identity_order(n), seed);
    let p = ((xorshift_step(initial_state(seed)) as usize) % (n as usize)) as int;
    assert(0 <= p < n);
    assert(identity_order(n)[p] == p as usize);
}

/// With shuffling on, an epoch of two records swaps them exactly when the first draw of its
/// generator is even, and keeps them in order when it is odd.
pub proof fn lemma_shuffled_epoch_of_two(options: CnnDataLoaderOptions, epoch: u64)
    requires
        options.shuffle,
    ensures
        epoch_order(2, options, epoch) == if (epoch_first_draw(options, epoch) as usize) % 2 == 0 {
            seq![1usize, 0usize]
        } else {
            seq![0usize, 1usize]
        },
{
    let seed = options.seed.wrapping_add(epoch);
    let s = identity_order(2);
    let next = xorshift_step(initial_state(seed));
    let partner = ((next as usize) % 2) as int;
    assert(s =~= seq![0usize, 1usize]);
    reveal_with_fuel(crate::cnn::rng::fisher_yates_from, 2);
    assert(shuffled(s, seed) == crate::cnn::rng::fisher_yates_from(
        crate::cnn::rng::swap_seq(s, 1, partner),
        next,
        0,
    ));
    if partner == 0 {
        assert(crate::cnn::rng::swap_seq(s, 1, 0) =~= seq![1usize, 0usize]);
    } else {
        assert(crate::cnn::rng::swap_seq(s, 1, 1) =~= seq![0usize, 1usize]);
    }
}

fn identity_indices(n: usize) -> (r: Vec<usize>)
    ensures
        r@ == identity_order(n as nat),
{
    let mut r: Vec<usize> = Vec::new();
    let mut i: usize = 0;
    while i < n
        invariant
            i <= n,
            r@ == identity_order(i as nat),
        decreases n - i,
    {
        r.push(i);
        i = i + 1;
        assert(r@ =~= identity_order(i as nat));
    }
    r
}

impl CnnDataLoader {
    pub closed spec fn records_view(&self) -> Seq<(Seq<char>, Seq<u8>)> {
        record_views(self.records@)
    }

    pub closed spec fn options_view(&self) -> CnnDataLoaderOptions {
        self.options
    }

    pub fn new(records: Vec<LabeledImageRecord>, options: CnnDataLoaderOptions) -> (r: Self)
        ensures
            r.records_view() == record_views(records@),
            r.options_view() == options,
    {
        Self { records, options }
    }

    /// A loader over `(label, image)` pairs.
    pub fn from_samples(samples: &Vec<(String, Vec<u8>)>, options: CnnDataLoaderOptions) -> (r:
        Self)
        ensures
            r.records_view() == samples@.map_values(
                |s: (String, Vec<u8>)| (s.0@, s.1@),
            ),
            r.options_view() == options,
    {
        let mut records: Vec<LabeledImageRecord> = Vec::new();
        let mut i: usize = 0;
        while i < samples.len()
            invariant
                i <= samples.len(),
                record_views(records@) == samples@.take(i as int).map_values(
                    |s: (String, Vec<u8>)| (s.0@, s.1@),
                ),
            decreases samples.len() - i,
        {
            let label = samples[i].0.clone();
            let image = copy_bytes(&samples[i].1);
            let ghost before = record_views(records@);
            records.push(LabeledImageRecord { label, image });
            assert(record_views(records@) =~= before.push((samples@[i as int].0@, samples@[i as int].1@)));
            assert(samples@.take(i + 1) =~= samples@.take(i as int).push(samples@[i as int]));
            i = i + 1;
            assert(record_views(records@) =~= samples@.take(i as int).map_values(
                |s: (String, Vec<u8>)| (s.0@, s.1@),
            ));
        }
        assert(samples@.take(samples.len() as int) == samples@);
        Self { records, options }
    }

    pub fn options(&self) -> (r: &CnnDataLoaderOptions)
        ensures
            *r == self.options_view(),
    {
        &self.options
    }

    pub fn len(&self) -> (r: usize)
        ensures
            r == self.records_view().len(),
    {
        self.records.len()
    }

    pub fn is_empty(&self) -> (r: bool)
        ensures
            r == (self.records_view().len() == 0),
    {
        self.records.len() == 0
    }

    /// The batches of an epoch: the records in epoch order, cut into batches of the
    /// batch size (at least one), the short last batch dropped when `drop_last`.
    pub fn epoch_batches(&self, epoch: u64) -> (r: Vec<CnnDataBatch>)
        ensures
            batch_views(r@) == epoch_batch_views(self.records_view(), self.options_view(), epoch),
    {
        let n = self.records.len();
        let mut indices = identity_indices(n);
        if self.options.shuffle && indices.len() > 1 {
            fisher_yates_shuffle(&mut indices, self.options.seed.wrapping_add(epoch));
        }
        let ghost order = indices@;
        proof {
            lemma_shuffle_is_permutation(identity_order(n as nat), self.options.seed.wrapping_add(epoch));
        }
        assert(order == epoch_order(n as nat, self.options, epoch));
        assert(order.len() == n);
        assert forall|k: int| 0 <= k < order.len() implies #[trigger] order[k] < n by {
            if self.options.shuffle && n > 1 {
                let ms = identity_order(n as nat).to_multiset();
                assert(order.to_multiset() == ms);
                assert(order.to_multiset().count(order[k]) > 0) by {
                    broadcast use vstd::seq_lib::to_multiset_contains;
                    assert(order.contains(order[k]));
                }
                assert(identity_order(n as nat).contains(order[k])) by {
                    broadcast use vstd::seq_lib::to_multiset_contains;
                }
            }
        }
        let batch_size: usize = if self.options.batch_size == 0 {
            1
        } else {
            self.options.batch_size
        };
        let ghost size = effective_batch_size(self.options);
        let ghost recs = self.records_view();
        let mut batches: Vec<CnnDataBatch> = Vec::new();
        let mut start: usize = 0;
        assert(order.skip(0) == order);
        while start < n
            invariant
                start <= n == order.len() == indices@.len(),
                indices@ == order,
                batch_size == size,
                size > 0,
                recs == self.records_view(),
                recs.len() == n,
                forall|k: int| 0 <= k < order.len() ==> #[trigger] order[k] < n,
                batch_views(batches@) + chunks(order.skip(start as int), size, self.options.drop_last)
                    .map_values(|c: Seq<usize>| pick(recs, c)) == chunks(
                    order,
                    size,
                    self.options.drop_last,
                ).map_values(|c: Seq<usize>| pick(recs, c)),
            decreases n - start,
        {
            let remaining = n - start;
            let end = if remaining < batch_size {
                n
            } else {
                start + batch_size
            };
            if self.options.drop_last && end - start < batch_size {
                assert(chunks(order.skip(start as int), size, true) =~= Seq::<Seq<usize>>::empty());
                assert(order.skip(n as int).len() == 0);
                assert(chunks(order.skip(n as int), size, true) =~= Seq::<Seq<usize>>::empty());
                start = n;
                continue;
            }
            let mut records: Vec<LabeledImageRecord> = Vec::new();
            let mut i: usize = start;
            while i < end
                invariant
                    start <= i <= end <= n == order.len() == indices@.len(),
                    indices@ == order,
                    recs == self.records_view(),
                    recs.len() == n,
                    forall|k: int| 0 <= k < order.len() ==> #[trigger] order[k] < n,
                    record_views(records@) == pick(recs, order.subrange(start as int, i as int)),
                decreases end - i,
            {
                let r = self.records[indices[i]].duplicate();
                let ghost before = record_views(records@);
                records.push(r);
                assert(r@ == recs[order[i as int] as int]);
                assert(record_views(records@) =~= before.push(recs[order[i as int] as int]));
                assert(order.subrange(start as int, i + 1) =~= order.subrange(start as int, i as int).push(order[i as int]));
                i = i + 1;
                assert(record_views(records@) =~= pick(recs, order.subrange(start as int, i as int)));
            }
            let ghost rest = order.skip(start as int);
            let ghost chunk = order.subrange(start as int, end as int);
            proof {
                assert(rest.len() > 0);
                if rest.len() < size {
                    assert(chunk =~= rest);
                    assert(chunks(rest, size, self.options.drop_last) == seq![rest]);
                    assert(order.skip(end as int) =~= Seq::<usize>::empty());
                } else {
                    assert(chunk =~= rest.take(size as int));
                    assert(rest.skip(size as int) =~= order.skip(end as int));
                }
            }
            let ghost before = batch_views(batches@);
            batches.push(CnnDataBatch { records });
            assert(batch_views(batches@) =~= before.push(pick(recs, chunk)));
            assert(chunks(rest, size, self.options.drop_last).map_values(
                |c: Seq<usize>| pick(recs, c),
            ) =~= seq![pick(recs, chunk)] + chunks(order.skip(end as int), size, self.options.drop_last)
                .map_values(|c: Seq<usize>| pick(recs, c)));
            assert(batch_views(batches@) + chunks(order.skip(end as int), size, self.options.drop_last)
                .map_values(|c: Seq<usize>| pick(recs, c)) =~= before + chunks(rest, size, self.options.drop_last)
                .map_values(|c: Seq<usize>| pick(recs, c)));
            start = end;
        }
        assert(order.skip(start as int).len() == 0);
        assert(chunks(order.skip(start as int), size, self.options.drop_last).map_values(
            |c: Seq<usize>| pick(recs, c),
        ) =~= Seq::<Seq<(Seq<char>, Seq<u8>)>>::empty());
        assert(batch_views(batches@) =~= batch_views(batches@) + Seq::<Seq<(Seq<char>, Seq<u8>)>>::empty());
        batches
    }
}

/// The label groups of each batch, one after the other.
pub open spec fn grouped_batches(batches: Seq<Seq<(Seq<char>, Seq<u8>)>>) -> Seq<(Seq<char>, Seq<Seq<u8>>)>
    decreases batches.len(),
{
    if batches.len() == 0 {
        Seq::empty()
    } else {
        grouped_batches(batches.drop_last()) + label_groups(batches.last())
    }
}

impl CnnDataLoader {
    /// The batches of an epoch as training batches: each batch grouped by trimmed,
    /// lower-cased label (labels in order, images in epoch order), the groups of one batch
    /// after those of the batch before.
    pub fn epoch_as_label_batches(&self, epoch: u64) -> (r: Vec<CnnTrainerBatch>)
        ensures
            batch_group_views(r@) == grouped_batches(
                epoch_batch_views(self.records_view(), self.options_view(), epoch),
            ),
    {
        let batches = self.epoch_batches(epoch);
        let ghost bv = batch_views(batches@);
        let mut out: Vec<CnnTrainerBatch> = Vec::new();
        let mut b: usize = 0;
        assert(batch_group_views(out@) =~= grouped_batches(bv.take(0)));
        while b < batches.len()
            invariant
                b <= batches.len(),
                bv == batch_views(batches@),
                batch_group_views(out@) == grouped_batches(bv.take(b as int)),
            decreases batches.len() - b,
        {
            let records = &batches[b].records;
            let mut samples: Vec<(String, Vec<u8>)> = Vec::new();
            let mut k: usize = 0;
            while k < records.len()
                invariant
                    k <= records.len(),
                    samples@.len() == k,
                    forall|j: int|
                        0 <= j < k ==> #[trigger] sample_views(samples@)[j] == records@[j]@,
                decreases records.len() - k,
            {
                let ghost before = samples@;
                samples.push((records[k].label.clone(), copy_bytes(&records[k].image)));
                proof {
                    assert forall|j: int| 0 <= j < k + 1 implies #[trigger] sample_views(samples@)[j]
                        == records@[j]@ by {
                        if j < k {
                            assert(samples@[j] == before[j]);
                            assert(sample_views(before)[j] == records@[j]@);
                        }
                    }
                }
                k = k + 1;
            }
            proof {
                assert(sample_views(samples@) =~= record_views(records@));
                assert(bv[b as int] == record_views(batches@[b as int].records@));
            }
            let mut groups = group_labeled_images(&samples);
            let ghost before = out@;
            let ghost gv = groups@;
            out.append(&mut groups);
            proof {
                assert(out@ == before + gv);
                assert(batch_group_views(out@) =~= batch_group_views(before) + batch_group_views(gv));
                assert(bv.take(b + 1).drop_last() =~= bv.take(b as int));
                assert(bv.take(b + 1).last() == bv[b as int]);
            }
            b = b + 1;
        }
        assert(bv.take(batches.len() as int) =~= bv);
        out
    }
}

} // verus!
