use vstd::prelude::*;

use crate::cnn::classifier::{CnnCoalescingPredictOptions, CnnImageClassifierError};

verus! {

/// The queue size at which a coalescing predictor flushes: the configured size, at least 1.
pub open spec fn queue_limit(options: CnnCoalescingPredictOptions) -> usize {
    if options.max_queue_size < 1 {
        1
    } else {
        options.max_queue_size
    }
}

/// The milliseconds from `started` to `now`, none where `now` is earlier.
pub open spec fn elapsed_ms(started: u64, now: u64) -> u64 {
    if now < started {
        0
    } else {
        (now - started) as u64
    }
}

/// The bytes of images.
pub open spec fn image_views(v: Seq<Vec<u8>>) -> Seq<Seq<u8>> {
    v.map_values(|x: Vec<u8>| x@)
}

/// The queue of a coalescing predictor: the images waiting for a batch, the time the oldest
/// of them arrived, the predictions of flushed batches not yet taken, and how many images and
/// batches were flushed. A predictor is a state machine: its caller reads the clock, runs the
/// model on the batch it hands out, and reports the predictions back.
#[derive(Debug)]
pub struct CoalescingQueue<P> {
    options: CnnCoalescingPredictOptions,
    pending: Vec<Vec<u8>>,
    started_at_ms: Option<u64>,
    ready: Vec<P>,
    flushed_images: usize,
    flush_count: usize,
}

impl<P> CoalescingQueue<P> {
    pub closed spec fn spec_options(&self) -> CnnCoalescingPredictOptions {
        self.options
    }

    /// The images waiting for a batch, oldest first.
    pub closed spec fn pending_images(&self) -> Seq<Seq<u8>> {
        image_views(self.pending@)
    }

    /// When the oldest waiting image arrived.
    pub closed spec fn started_at(&self) -> Option<u64> {
        self.started_at_ms
    }

    /// The predictions of flushed batches not yet taken, in the order of their images.
    pub closed spec fn ready_predictions(&self) -> Seq<P> {
        self.ready@
    }

    pub closed spec fn spec_flushed_images(&self) -> nat {
        self.flushed_images as nat
    }

    pub closed spec fn spec_flush_count(&self) -> nat {
        self.flush_count as nat
    }

    /// A queue has a start time exactly when it holds images.
    pub open spec fn wf(&self) -> bool {
        (self.pending_images().len() == 0) == (self.started_at() is None)
    }

    pub fn new(options: CnnCoalescingPredictOptions) -> (r: Self)
        ensures
            r.wf(),
            r.spec_options() == options,
            r.pending_images().len() == 0,
            r.ready_predictions().len() == 0,
            r.spec_flushed_images() == 0,
            r.spec_flush_count() == 0,
    {
        let r = Self {
            options,
            pending: Vec::new(),
            started_at_ms: None,
            ready: Vec::new(),
            flushed_images: 0,
            flush_count: 0,
        };
        assert(image_views(r.pending@) =~= Seq::<Seq<u8>>::empty());
        r
    }

    pub fn options(&self) -> (r: CnnCoalescingPredictOptions)
        ensures
            r == self.spec_options(),
    {
        self.options
    }

    pub fn pending_len(&self) -> (r: usize)
        ensures
            r == self.pending_images().len(),
    {
        self.pending.len()
    }

    pub fn flushed_images(&self) -> (r: usize)
        ensures
            r == self.spec_flushed_images(),
    {
        self.flushed_images
    }

    pub fn flush_count(&self) -> (r: usize)
        ensures
            r == self.spec_flush_count(),
    {
        self.flush_count
    }

    /// Queues an image that arrived at `now_ms`, and says whether the queue is full and must
    /// be flushed now.
    pub fn enqueue(&mut self, image: Vec<u8>, now_ms: u64) -> (flush_now: bool)
        requires
            old(self).wf(),
        ensures
            final(self).wf(),
            final(self).pending_images() == old(self).pending_images().push(image@),
            final(self).started_at() == if old(self).pending_images().len() == 0 {
                Some(now_ms)
            } else {
                old(self).started_at()
            },
            flush_now == (final(self).pending_images().len() >= queue_limit(old(self).spec_options())),
            final(self).spec_options() == old(self).spec_options(),
            final(self).ready_predictions() == old(self).ready_predictions(),
            final(self).spec_flushed_images() == old(self).spec_flushed_images(),
            final(self).spec_flush_count() == old(self).spec_flush_count(),
    {
        if self.pending.len() == 0 {
            self.started_at_ms = Some(now_ms);
        }
        let ghost before = self.pending@;
        self.pending.push(image);
        assert(image_views(self.pending@) =~= image_views(before).push(self.pending@.last()@));
        let limit = if self.options.max_queue_size < 1 {
            1
        } else {
            self.options.max_queue_size
        };
        self.pending.len() >= limit
    }

    /// Whether the oldest waiting image has waited the configured delay at `now_ms`.
    pub fn is_flush_due(&self, now_ms: u64) -> (r: bool)
        requires
            self.wf(),
        ensures
            r == (self.pending_images().len() > 0 && elapsed_ms(self.started_at().unwrap(), now_ms)
                >= self.spec_options().max_queue_delay_ms),
    {
        match self.started_at_ms {
            None => false,
            Some(started) => {
                let elapsed = if now_ms < started {
                    0
                } else {
                    now_ms - started
                };
                elapsed >= self.options.max_queue_delay_ms
            },
        }
    }

    /// The images of the next batch: all that wait, oldest first.
    pub fn pending_batch(&self) -> (r: &Vec<Vec<u8>>)
        ensures
            image_views(r@) == self.pending_images(),
    {
        &self.pending
    }

    /// Records the predictions of the batch that `pending_batch` handed out: they become ready,
    /// the queue empties and the counters grow. An empty queue flushes nothing.
    pub fn complete_flush(&mut self, predictions: Vec<P>) -> (flushed: bool)
        requires
            old(self).wf(),
            old(self).spec_flushed_images() + old(self).pending_images().len() <= usize::MAX,
            old(self).spec_flush_count() < usize::MAX,
        ensures
            final(self).wf(),
            flushed == (old(self).pending_images().len() > 0),
            final(self).spec_options() == old(self).spec_options(),
            flushed ==> {
                &&& final(self).pending_images().len() == 0
                &&& final(self).ready_predictions() == old(self).ready_predictions() + predictions@
                &&& final(self).spec_flushed_images() == old(self).spec_flushed_images() + old(self).pending_images().len()
                &&& final(self).spec_flush_count() == old(self).spec_flush_count() + 1
            },
            !flushed ==> {
                &&& final(self).pending_images() == old(self).pending_images()
                &&& final(self).started_at() == old(self).started_at()
                &&& final(self).ready_predictions() == old(self).ready_predictions()
                &&& final(self).spec_flushed_images() == old(self).spec_flushed_images()
                &&& final(self).spec_flush_count() == old(self).spec_flush_count()
            },
    {
        if self.pending.len() == 0 {
            return false;
        }
        self.flushed_images = self.flushed_images + self.pending.len();
        self.flush_count = self.flush_count + 1;
        let mut predictions = predictions;
        self.ready.append(&mut predictions);
        self.pending = Vec::new();
        self.started_at_ms = None;
        assert(image_views(self.pending@) =~= Seq::<Seq<u8>>::empty());
        true
    }

    /// Hands out the ready predictions, oldest first, and forgets them.
    pub fn take_ready(&mut self) -> (r: Vec<P>)
        requires
            old(self).wf(),
        ensures
            final(self).wf(),
            r@ == old(self).ready_predictions(),
            final(self).ready_predictions().len() == 0,
            final(self).pending_images() == old(self).pending_images(),
            final(self).started_at() == old(self).started_at(),
            final(self).spec_options() == old(self).spec_options(),
            final(self).spec_flushed_images() == old(self).spec_flushed_images(),
            final(self).spec_flush_count() == old(self).spec_flush_count(),
    {
        let mut out: Vec<P> = Vec::new();
        std::mem::swap(&mut out, &mut self.ready);
        out
    }
}

/// How many pairs a dispatch makes: as many as there are predictions or waiting requests,
/// whichever is fewer.
pub open spec fn dispatch_count(waiting_len: nat, ready_len: nat) -> nat {
    if ready_len < waiting_len {
        ready_len
    } else {
        waiting_len
    }
}

/// The pairs that one dispatch delivers: the oldest waiting requests with the predictions, in
/// order.
pub open spec fn dispatch_pairs<R, P>(waiting: Seq<R>, ready: Seq<P>) -> Seq<(R, P)> {
    Seq::new(dispatch_count(waiting.len(), ready.len()), |i: int| (waiting[i], ready[i]))
}

/// What dispatching `batches` one after another delivers, starting from the requests
/// `waiting`.
pub open spec fn dispatch_all<R, P>(waiting: Seq<R>, batches: Seq<Seq<P>>) -> Seq<(R, P)>
    decreases batches.len(),
{
    if batches.len() == 0 {
        Seq::empty()
    } else {
        dispatch_pairs(waiting, batches[0]) + dispatch_all(
            waiting.skip(dispatch_count(waiting.len(), batches[0].len()) as int),
            batches.drop_first(),
        )
    }
}

/// Dispatching batches of predictions one after another pairs the i-th waiting request with
/// the i-th prediction of the batches put together, as long as every prediction finds a
/// request: each request gets the prediction of its own image, in the order submitted.
pub proof fn lemma_dispatches_pair_in_order<R, P>(waiting: Seq<R>, batches: Seq<Seq<P>>)
    requires
        batches.flatten().len() <= waiting.len(),
    ensures
        dispatch_all(waiting, batches) == Seq::new(
            batches.flatten().len(),
            |i: int| (waiting[i], batches.flatten()[i]),
        ),
    decreases batches.len(),
{
    if batches.len() == 0 {
        assert(dispatch_all(waiting, batches) =~= Seq::new(
            batches.flatten().len(),
            |i: int| (waiting[i], batches.flatten()[i]),
        ));
    } else {
        let b = batches[0];
        let rest = batches.drop_first();
        let flat = batches.flatten();
        assert(flat == b + rest.flatten());
        let n0 = b.len();
        let w2 = waiting.skip(n0 as int);
        assert(dispatch_count(waiting.len(), b.len()) == n0);
        lemma_dispatches_pair_in_order(w2, rest);
        let lhs = dispatch_all(waiting, batches);
        assert(lhs == dispatch_pairs(waiting, b) + dispatch_all(w2, rest));
        assert(lhs =~= Seq::new(flat.len(), |i: int| (waiting[i], flat[i]))) by {
            assert forall|i: int| 0 <= i < flat.len() implies #[trigger] lhs[i] == (
                waiting[i],
                flat[i],
            ) by {
                if i < n0 {
                    assert(lhs[i] == dispatch_pairs(waiting, b)[i]);
                } else {
                    assert(lhs[i] == dispatch_all(w2, rest)[i - n0]);
                    assert(w2[i - n0] == waiting[i]);
                    assert(flat[i] == rest.flatten()[i - n0]);
                }
            }
        }
    }
}

/// The requests of a coalescing scheduler that wait for their predictions, oldest first, and
/// whether it still accepts requests.
#[derive(Debug)]
pub struct CoalescingResponders<R> {
    waiting: Vec<R>,
    is_shutdown: bool,
}

impl<R> CoalescingResponders<R> {
    pub closed spec fn waiting_view(&self) -> Seq<R> {
        self.waiting@
    }

    pub closed spec fn spec_is_shutdown(&self) -> bool {
        self.is_shutdown
    }

    pub fn new() -> (r: Self)
        ensures
            r.waiting_view().len() == 0,
            !r.spec_is_shutdown(),
    {
        Self { waiting: Vec::new(), is_shutdown: false }
    }

    pub fn is_shutdown(&self) -> (r: bool)
        ensures
            r == self.spec_is_shutdown(),
    {
        self.is_shutdown
    }

    pub fn waiting_len(&self) -> (r: usize)
        ensures
            r == self.waiting_view().len(),
    {
        self.waiting.len()
    }

    /// Takes the responder of a new request, unless the scheduler was shut down.
    pub fn accept(&mut self, responder: R) -> (r: Result<(), CnnImageClassifierError>)
        ensures
            final(self).spec_is_shutdown() == old(self).spec_is_shutdown(),
            old(self).spec_is_shutdown() ==> {
                &&& r == Err::<(), CnnImageClassifierError>(
                    CnnImageClassifierError::InvalidConfiguration("coalescing scheduler is not accepting new requests"),
                )
                &&& final(self).waiting_view() == old(self).waiting_view()
            },
            !old(self).spec_is_shutdown() ==> {
                &&& r is Ok
                &&& final(self).waiting_view() == old(self).waiting_view().push(responder)
            },
    {
        if self.is_shutdown {
            return Err(CnnImageClassifierError::InvalidConfiguration("coalescing scheduler is not accepting new requests"));
        }
        self.waiting.push(responder);
        Ok(())
    }

    /// Pairs ready predictions with the oldest waiting requests, one each, in order. A
    /// prediction that finds no waiting request is dropped.
    pub fn dispatch<P>(&mut self, ready: Vec<P>) -> (deliveries: Vec<(R, P)>)
        ensures
            ({
                let k = if ready@.len() < old(self).waiting_view().len() {
                    ready@.len()
                } else {
                    old(self).waiting_view().len()
                };
                &&& k == dispatch_count(old(self).waiting_view().len(), ready@.len())
                &&& deliveries@ == dispatch_pairs(old(self).waiting_view(), ready@)
                &&& deliveries@.len() == k
                &&& forall|i: int| 0 <= i < k ==> #[trigger] deliveries@[i] == (
                    old(self).waiting_view()[i],
                    ready@[i],
                )
                &&& final(self).waiting_view() == old(self).waiting_view().skip(k as int)
            }),
            final(self).spec_is_shutdown() == old(self).spec_is_shutdown(),
    {
        let ghost w = self.waiting@;
        let ghost rv = ready@;
        let ghost sd = self.is_shutdown;
        let k: usize = if ready.len() < self.waiting.len() {
            ready.len()
        } else {
            self.waiting.len()
        };
        let mut ready = ready;
        let mut out: Vec<(R, P)> = Vec::new();
        let mut i: usize = 0;
        while i < k
            invariant
                k <= rv.len(),
                k <= w.len(),
                i <= k,
                ready@ == rv.skip(i as int),
                self.waiting@ == w.skip(i as int),
                self.is_shutdown == sd,
                out@.len() == i,
                forall|j: int| 0 <= j < i ==> #[trigger] out@[j] == (w[j], rv[j]),
            decreases k - i,
        {
            let ghost rb = ready@;
            let ghost wb = self.waiting@;
            let p = ready.remove(0);
            let r = self.waiting.remove(0);
            proof {
                assert(rb[0] == rv[i as int]);
                assert(wb[0] == w[i as int]);
                assert(rb.remove(0) =~= rv.skip(i + 1));
                assert(wb.remove(0) =~= w.skip(i + 1));
            }
            out.push((r, p));
            i = i + 1;
        }
        assert(out@ =~= dispatch_pairs(w, rv));
        out
    }

    /// Hands out every waiting request, oldest first, to be told that the scheduler failed.
    pub fn fail_all(&mut self) -> (r: Vec<R>)
        ensures
            r@ == old(self).waiting_view(),
            final(self).waiting_view().len() == 0,
            final(self).spec_is_shutdown() == old(self).spec_is_shutdown(),
    {
        let mut out: Vec<R> = Vec::new();
        std::mem::swap(&mut out, &mut self.waiting);
        out
    }

    /// Stops accepting requests.
    pub fn shut_down(&mut self)
        ensures
            final(self).spec_is_shutdown(),
            final(self).waiting_view() == old(self).waiting_view(),
    {
        self.is_shutdown = true;
    }
}

} // verus!
