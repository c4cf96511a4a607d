use vstd::prelude::*;

use crate::collections::StrMap;
use crate::text::opt_text;

verus! {

/// Results of writes by generation (the error text of a failed write, `None` for success),
/// each generation once and in increasing order.
pub open spec fn sorted_gens(s: Seq<(u64, Option<Seq<char>>)>) -> bool {
    forall|i: int, j: int| 0 <= i < j < s.len() ==> #[trigger] s[i].0 < #[trigger] s[j].0
}

/// The result `(g, e)` put in generation order, replacing an earlier result of `g`.
pub open spec fn insert_sorted(s: Seq<(u64, Option<Seq<char>>)>, g: u64, e: Option<Seq<char>>) -> Seq<
    (u64, Option<Seq<char>>),
>
    decreases s.len(),
{
    if s.len() == 0 {
        seq![(g, e)]
    } else if g < s[0].0 {
        seq![(g, e)] + s
    } else if g == s[0].0 {
        seq![(g, e)] + s.drop_first()
    } else {
        seq![s[0]] + insert_sorted(s.drop_first(), g, e)
    }
}

/// The last `cap` results: those of the newest generations.
pub open spec fn keep_newest(s: Seq<(u64, Option<Seq<char>>)>, cap: nat) -> Seq<(u64, Option<Seq<char>>)> {
    if s.len() > cap {
        s.skip(s.len() - cap)
    } else {
        s
    }
}

/// The result of the oldest generation at or after `target`.
pub open spec fn first_at_least(s: Seq<(u64, Option<Seq<char>>)>, target: u64) -> Option<Option<Seq<char>>>
    decreases s.len(),
{
    if s.len() == 0 {
        None
    } else if s[0].0 >= target {
        Some(s[0].1)
    } else {
        first_at_least(s.drop_first(), target)
    }
}

/// Where `insert_sorted` puts a result: after the older generations, in place of a result
/// of the same generation.
pub proof fn lemma_insert_sorted_split(
    s: Seq<(u64, Option<Seq<char>>)>,
    g: u64,
    e: Option<Seq<char>>,
    i: int,
)
    requires
        sorted_gens(s),
        0 <= i <= s.len(),
        forall|j: int| 0 <= j < i ==> #[trigger] s[j].0 < g,
        i < s.len() ==> s[i].0 >= g,
    ensures
        insert_sorted(s, g, e) == if i < s.len() && s[i].0 == g {
            s.take(i) + seq![(g, e)] + s.skip(i + 1)
        } else {
            s.take(i) + seq![(g, e)] + s.skip(i)
        },
        sorted_gens(insert_sorted(s, g, e)),
    decreases s.len(),
{
    if i == 0 {
        if s.len() == 0 {
            assert(s.take(0) + seq![(g, e)] + s.skip(0) =~= seq![(g, e)]);
        } else if g < s[0].0 {
            assert(s.take(0) + seq![(g, e)] + s.skip(0) =~= seq![(g, e)] + s);
            assert(sorted_gens(seq![(g, e)] + s)) by {
                let t = seq![(g, e)] + s;
                assert forall|a: int, b: int| 0 <= a < b < t.len() implies #[trigger] t[a].0
                    < #[trigger] t[b].0 by {
                    if a == 0 {
                        assert(t[b] == s[b - 1]);
                        assert(s[0].0 <= s[b - 1].0);
                    } else {
                        assert(t[a] == s[a - 1] && t[b] == s[b - 1]);
                    }
                }
            }
        } else {
            assert(s.take(0) + seq![(g, e)] + s.skip(1) =~= seq![(g, e)] + s.drop_first());
            assert(sorted_gens(seq![(g, e)] + s.drop_first())) by {
                let t = seq![(g, e)] + s.drop_first();
                assert forall|a: int, b: int| 0 <= a < b < t.len() implies #[trigger] t[a].0
                    < #[trigger] t[b].0 by {
                    if a == 0 {
                        assert(t[b] == s[b]);
                    } else {
                        assert(t[a] == s[a] && t[b] == s[b]);
                    }
                }
            }
        }
    } else {
        let rest = s.drop_first();
        assert(sorted_gens(rest)) by {
            assert forall|a: int, b: int| 0 <= a < b < rest.len() implies #[trigger] rest[a].0
                < #[trigger] rest[b].0 by {
                assert(rest[a] == s[a + 1] && rest[b] == s[b + 1]);
            }
        }
        assert forall|j: int| 0 <= j < i - 1 implies #[trigger] rest[j].0 < g by {
            assert(rest[j] == s[j + 1]);
        }
        assert(s[0].0 < g);
        lemma_insert_sorted_split(rest, g, e, i - 1);
        if i < s.len() && s[i].0 == g {
            assert(seq![s[0]] + (rest.take(i - 1) + seq![(g, e)] + rest.skip(i)) =~= s.take(i)
                + seq![(g, e)] + s.skip(i + 1));
        } else {
            assert(seq![s[0]] + (rest.take(i - 1) + seq![(g, e)] + rest.skip(i - 1)) =~= s.take(i)
                + seq![(g, e)] + s.skip(i));
        }
        let t = insert_sorted(s, g, e);
        let u = insert_sorted(rest, g, e);
        assert(t == seq![s[0]] + u);
        assert forall|a: int, b: int| 0 <= a < b < t.len() implies #[trigger] t[a].0
            < #[trigger] t[b].0 by {
            if a == 0 {
                assert(t[b] == u[b - 1]);
                if i < s.len() && s[i].0 == g {
                    assert(u == rest.take(i - 1) + seq![(g, e)] + rest.skip(i));
                } else {
                    assert(u == rest.take(i - 1) + seq![(g, e)] + rest.skip(i - 1));
                }
                if b - 1 < i - 1 {
                    assert(u[b - 1] == rest[b - 1]);
                } else if b - 1 == i - 1 {
                    assert(u[b - 1] == (g, e));
                } else {
                    if i < s.len() && s[i].0 == g {
                        assert(u[b - 1] == rest[b - 1]);
                    } else {
                        assert(u[b - 1] == rest[b - 2]);
                    }
                }
            } else {
                assert(t[a] == u[a - 1] && t[b] == u[b - 1]);
            }
        }
    }
}

/// Keeping the newest results keeps them in order and within the bound.
pub proof fn lemma_keep_newest_sorted(s: Seq<(u64, Option<Seq<char>>)>, cap: nat)
    requires
        sorted_gens(s),
    ensures
        sorted_gens(keep_newest(s, cap)),
        keep_newest(s, cap).len() <= cap || keep_newest(s, cap) == s,
{
    if s.len() > cap {
        let t = s.skip(s.len() - cap);
        assert forall|a: int, b: int| 0 <= a < b < t.len() implies #[trigger] t[a].0
            < #[trigger] t[b].0 by {
            assert(t[a] == s[a + s.len() - cap] && t[b] == s[b + s.len() - cap]);
        }
    }
}

/// The results of the writes of one key, oldest generation first.
#[derive(Debug, Clone)]
pub struct GenerationHistory {
    entries: Vec<(u64, Option<String>)>,
}

pub open spec fn history_views(v: Seq<(u64, Option<String>)>) -> Seq<(u64, Option<Seq<char>>)> {
    v.map_values(|e: (u64, Option<String>)| (e.0, opt_text(e.1)))
}

fn copy_opt_string(o: &Option<String>) -> (r: Option<String>)
    ensures
        opt_text(r) == opt_text(*o),
{
    match o {
        Some(s) => Some(s.clone()),
        None => None,
    }
}

impl GenerationHistory {
    pub closed spec fn view_results(&self) -> Seq<(u64, Option<Seq<char>>)> {
        history_views(self.entries@)
    }

    pub fn new() -> (r: Self)
        ensures
            r.view_results().len() == 0,
    {
        Self { entries: Vec::new() }
    }

    pub fn duplicate(&self) -> (r: Self)
        ensures
            r.view_results() == self.view_results(),
    {
        let mut entries: Vec<(u64, Option<String>)> = Vec::new();
        let mut i: usize = 0;
        while i < self.entries.len()
            invariant
                i <= self.entries.len(),
                history_views(entries@) == history_views(self.entries@).take(i as int),
            decreases self.entries.len() - i,
        {
            let g = self.entries[i].0;
            let e = copy_opt_string(&self.entries[i].1);
            let ghost before = entries@;
            entries.push((g, e));
            assert(entries@ == before.push((g, e)));
            assert(history_views(entries@) =~= history_views(before).push((g, opt_text(e))));
            assert(history_views(self.entries@)[i as int] == (g, opt_text(self.entries@[i as int].1)));
            i = i + 1;
            assert(history_views(entries@) =~= history_views(self.entries@).take(i as int));
        }
        assert(history_views(self.entries@).take(self.entries.len() as int) =~= history_views(
            self.entries@,
        ));
        Self { entries }
    }

    /// Records the result of generation `g` and keeps only the newest `cap` results.
    pub fn record(&mut self, g: u64, error: Option<String>, cap: usize)
        requires
            sorted_gens(old(self).view_results()),
        ensures
            final(self).view_results() == keep_newest(
                insert_sorted(old(self).view_results(), g, opt_text(error)),
                cap as nat,
            ),
            sorted_gens(final(self).view_results()),
    {
        let ghost s = self.view_results();
        let ghost e = opt_text(error);
        let mut i: usize = 0;
        while i < self.entries.len() && self.entries[i].0 < g
            invariant
                i <= self.entries.len(),
                s == history_views(self.entries@),
                forall|j: int| 0 <= j < i ==> #[trigger] s[j].0 < g,
            decreases self.entries.len() - i,
        {
            i = i + 1;
        }
        proof {
            lemma_insert_sorted_split(s, g, e, i as int);
        }
        if i < self.entries.len() && self.entries[i].0 == g {
            self.entries.set(i, (g, error));
            assert(history_views(self.entries@) =~= s.take(i as int) + seq![(g, e)] + s.skip(i + 1));
        } else {
            self.entries.insert(i, (g, error));
            assert(history_views(self.entries@) =~= s.take(i as int) + seq![(g, e)] + s.skip(
                i as int,
            ));
        }
        let ghost t = insert_sorted(s, g, e);
        assert(history_views(self.entries@) == t);
        let excess: usize = if self.entries.len() > cap {
            self.entries.len() - cap
        } else {
            0
        };
        let mut removed: usize = 0;
        while removed < excess
            invariant
                removed <= excess,
                excess == if t.len() > cap {
                    t.len() - cap
                } else {
                    0
                },
                history_views(self.entries@) == t.skip(removed as int),
            decreases excess - removed,
        {
            assert(self.entries@.len() == history_views(self.entries@).len());
            let ghost before = self.entries@;
            self.entries.remove(0);
            assert(self.entries@ =~= before.drop_first());
            removed = removed + 1;
            assert(history_views(self.entries@) =~= history_views(before).drop_first());
            assert(history_views(self.entries@) =~= t.skip(removed as int));
        }
        proof {
            lemma_keep_newest_sorted(t, cap as nat);
            if t.len() <= cap {
                assert(t.skip(0) =~= t);
            }
        }
    }

    /// The result of the oldest generation at or after `target`.
    pub fn first_at_least(&self, target: u64) -> (r: Option<Option<String>>)
        ensures
            match r {
                Some(e) => first_at_least(self.view_results(), target) == Some(opt_text(e)),
                None => first_at_least(self.view_results(), target) is None,
            },
    {
        let ghost s = self.view_results();
        let mut i: usize = 0;
        assert(s.skip(0) =~= s);
        while i < self.entries.len()
            invariant
                i <= self.entries.len(),
                s == history_views(self.entries@),
                first_at_least(s, target) == first_at_least(s.skip(i as int), target),
            decreases self.entries.len() - i,
        {
            assert(s.skip(i as int)[0] == s[i as int]);
            if self.entries[i].0 >= target {
                return Some(copy_opt_string(&self.entries[i].1));
            }
            assert(s.skip(i as int).drop_first() =~= s.skip(i + 1));
            i = i + 1;
        }
        None
    }

    /// The result of the newest generation.
    pub fn latest(&self) -> (r: Option<Option<String>>)
        ensures
            match r {
                Some(e) => self.view_results().len() > 0 && self.view_results().last().1 == opt_text(e),
                None => self.view_results().len() == 0,
            },
    {
        if self.entries.len() == 0 {
            None
        } else {
            Some(copy_opt_string(&self.entries[self.entries.len() - 1].1))
        }
    }
}

} // verus!

verus! {

/// The newest results kept per key by the snapshot writer.
pub const SNAPSHOT_RESULTS_PER_KEY: usize = 32;

/// The newest results kept per key by the transaction log writer.
pub const TRANSACTION_RESULTS_PER_KEY: usize = 128;

/// `n + 1`, held at `u64::MAX`.
pub open spec fn saturating_next(n: u64) -> u64 {
    if n == u64::MAX {
        u64::MAX
    } else {
        (n + 1) as u64
    }
}

/// The results of a key, or no results.
pub open spec fn results_of(results: Option<GenerationHistory>) -> Seq<(u64, Option<Seq<char>>)> {
    match results {
        Some(h) => h.view_results(),
        None => Seq::empty(),
    }
}

/// What a waiter on `target` learns: `Some(None)` once a write at or after it succeeded,
/// `Some(Some(msg))` once it failed, `None` while it must keep waiting.
pub open spec fn completion_of(results: Seq<(u64, Option<Seq<char>>)>, target: u64) -> Option<
    Option<Seq<char>>,
> {
    first_at_least(results, target)
}

/// A pending snapshot write: the newest bytes of a key.
#[derive(Debug)]
pub struct PendingSnapshotWrite {
    pub key: String,
    pub path: String,
    pub bytes: Vec<u8>,
    pub generation: u64,
}

/// The shared state of the snapshot writer: the generation counter, the newest pending
/// write of each key and the recent results of each key.
pub struct SnapshotWriteState {
    next_generation: u64,
    pending: StrMap<PendingSnapshotWrite>,
    results: StrMap<GenerationHistory>,
}

/// Every kept result history is in generation order and holds at most `cap` results.
pub open spec fn histories_ok(results: StrMap<GenerationHistory>, cap: nat) -> bool {
    forall|k: Seq<char>|
        #[trigger] results.spec_get(k) matches Some(h) ==> sorted_gens(h.view_results())
            && h.view_results().len() <= cap
}

impl SnapshotWriteState {
    pub closed spec fn generation(&self) -> u64 {
        self.next_generation
    }

    pub closed spec fn pending_of(&self, k: Seq<char>) -> Option<PendingSnapshotWrite> {
        self.pending.spec_get(k)
    }

    /// The pending writes, in the order their keys were first queued.
    pub closed spec fn pending_entries(&self) -> Seq<(Seq<char>, PendingSnapshotWrite)> {
        self.pending.entries_view()
    }

    pub closed spec fn results_of_key(&self, k: Seq<char>) -> Seq<(u64, Option<Seq<char>>)> {
        results_of(self.results.spec_get(k))
    }

    pub closed spec fn wf(&self) -> bool {
        histories_ok(self.results, SNAPSHOT_RESULTS_PER_KEY as nat)
    }

    pub fn new() -> (r: Self)
        ensures
            r.wf(),
            r.generation() == 0,
            forall|k: Seq<char>| #[trigger] r.pending_of(k) is None,
            forall|k: Seq<char>| #[trigger] r.results_of_key(k).len() == 0,
    {
        Self { next_generation: 0, pending: StrMap::new(), results: StrMap::new() }
    }

    /// Queues the bytes of `key`, replacing a write of the same key still pending, and
    /// returns the new generation.
    pub fn submit(&mut self, key: String, path: String, bytes: Vec<u8>) -> (g: u64)
        requires
            old(self).wf(),
        ensures
            final(self).wf(),
            g == saturating_next(old(self).generation()),
            final(self).generation() == g,
            forall|k: Seq<char>|
                #[trigger] final(self).pending_of(k) == if k == key@ {
                    Some(PendingSnapshotWrite { key, path, bytes, generation: g })
                } else {
                    old(self).pending_of(k)
                },
            forall|k: Seq<char>| #[trigger] final(self).results_of_key(k) == old(self).results_of_key(k),
    {
        self.next_generation = self.next_generation.saturating_add(1);
        let generation = self.next_generation;
        let k = key.clone();
        self.pending.insert(k, PendingSnapshotWrite { key, path, bytes, generation });
        generation
    }

    /// Hands out every pending write and leaves none pending.
    pub fn take_pending(&mut self) -> (r: Vec<PendingSnapshotWrite>)
        requires
            old(self).wf(),
        ensures
            final(self).wf(),
            r@ == old(self).pending_entries().map_values(
                |e: (Seq<char>, PendingSnapshotWrite)| e.1,
            ),
            forall|k: Seq<char>| #[trigger] final(self).pending_of(k) is None,
            final(self).generation() == old(self).generation(),
            forall|k: Seq<char>| #[trigger] final(self).results_of_key(k) == old(self).results_of_key(k),
    {
        let entries = self.pending.take_entries();
        let mut out: Vec<PendingSnapshotWrite> = Vec::new();
        let ghost views = crate::collections::entry_views(entries@);
        let ghost all = entries@;
        for e in it: entries
            invariant
                it.seq() == all,
                views == crate::collections::entry_views(all),
                out@ == views.take(it.index() as int).map_values(
                    |e: (Seq<char>, PendingSnapshotWrite)| e.1,
                ),
        {
            let ghost before = out@;
            out.push(e.1);
            assert(out@ =~= views.take(it.index() + 1).map_values(
                |e: (Seq<char>, PendingSnapshotWrite)| e.1,
            ));
        }
        assert(views.take(views.len() as int) =~= views);
        out
    }

    /// Records the outcome of writing generation `g` of `key`.
    pub fn record_result(&mut self, key: &str, g: u64, error: Option<String>)
        requires
            old(self).wf(),
        ensures
            final(self).wf(),
            final(self).results_of_key(key@) == keep_newest(
                insert_sorted(old(self).results_of_key(key@), g, opt_text(error)),
                SNAPSHOT_RESULTS_PER_KEY as nat,
            ),
            forall|k: Seq<char>|
                k != key@ ==> #[trigger] final(self).results_of_key(k) == old(self).results_of_key(k),
            final(self).generation() == old(self).generation(),
            forall|k: Seq<char>| #[trigger] final(self).pending_of(k) == old(self).pending_of(k),
    {
        let mut history = match self.results.get(key) {
            Some(h) => h.duplicate(),
            None => GenerationHistory::new(),
        };
        assert(history.view_results() == results_of(self.results.spec_get(key@)));
        assert(sorted_gens(history.view_results())) by {
            assert(histories_ok(self.results, SNAPSHOT_RESULTS_PER_KEY as nat));
            match self.results.spec_get(key@) {
                Some(h) => {
                    assert(sorted_gens(h.view_results()));
                    assert(history.view_results() == h.view_results());
                },
                None => {
                    assert(history.view_results() =~= Seq::<(u64, Option<Seq<char>>)>::empty());
                },
            }
        }
        history.record(g, error, SNAPSHOT_RESULTS_PER_KEY);
        assert(history.view_results().len() <= SNAPSHOT_RESULTS_PER_KEY);
        self.results.insert(key.to_string(), history);
    }

    /// What a waiter on generation `target` of `key` learns now.
    pub fn completion(&self, key: &str, target: u64) -> (r: Option<Option<String>>)
        ensures
            match r {
                Some(e) => completion_of(self.results_of_key(key@), target) == Some(opt_text(e)),
                None => completion_of(self.results_of_key(key@), target) is None,
            },
    {
        match self.results.get(key) {
            Some(h) => h.first_at_least(target),
            None => None,
        }
    }

    /// Whether a write of `key` at or after generation `target` has finished.
    pub fn is_complete_at_least(&self, key: &str, target: u64) -> (r: bool)
        ensures
            r == completion_of(self.results_of_key(key@), target) is Some,
    {
        self.completion(key, target).is_some()
    }

    /// The error of the newest recorded write of `key`, if it failed.
    pub fn latest_error(&self, key: &str) -> (r: Option<String>)
        ensures
            opt_text(r) == if self.results_of_key(key@).len() == 0 {
                None
            } else {
                self.results_of_key(key@).last().1
            },
    {
        match self.results.get(key) {
            Some(h) => match h.latest() {
                Some(e) => e,
                None => None,
            },
            None => None,
        }
    }
}

} // verus!

verus! {

/// Once the newest write of a key has been recorded, it is the latest result of that key
/// and it completes any wait for its generation, whatever the bound on kept results.
pub proof fn lemma_newest_result_is_latest(
    s: Seq<(u64, Option<Seq<char>>)>,
    g: u64,
    e: Option<Seq<char>>,
    cap: nat,
)
    requires
        sorted_gens(s),
        forall|i: int| 0 <= i < s.len() ==> #[trigger] s[i].0 < g,
        cap > 0,
    ensures
        keep_newest(insert_sorted(s, g, e), cap).len() > 0,
        keep_newest(insert_sorted(s, g, e), cap).last() == (g, e),
        completion_of(keep_newest(insert_sorted(s, g, e), cap), g) == Some(e),
{
    lemma_insert_sorted_split(s, g, e, s.len() as int);
    let t = insert_sorted(s, g, e);
    assert(t =~= s + seq![(g, e)]);
    let k = keep_newest(t, cap);
    assert(k.last() == (g, e));
    lemma_keep_newest_sorted(t, cap);
    lemma_first_at_least_last(k, g);
}

/// In sorted results, a wait for the newest generation finds the newest result.
pub proof fn lemma_first_at_least_last(s: Seq<(u64, Option<Seq<char>>)>, g: u64)
    requires
        sorted_gens(s),
        s.len() > 0,
        s.last().0 == g,
    ensures
        first_at_least(s, g) == Some(s.last().1),
    decreases s.len(),
{
    if s.len() > 1 {
        assert(s[0].0 < s[s.len() - 1].0);
        let rest = s.drop_first();
        assert(sorted_gens(rest)) by {
            assert forall|a: int, b: int| 0 <= a < b < rest.len() implies #[trigger] rest[a].0
                < #[trigger] rest[b].0 by {
                assert(rest[a] == s[a + 1] && rest[b] == s[b + 1]);
            }
        }
        lemma_first_at_least_last(rest, g);
    }
}

/// A wait that is complete for a generation is complete for every earlier generation.
pub proof fn lemma_completion_monotone(s: Seq<(u64, Option<Seq<char>>)>, target: u64, earlier: u64)
    requires
        earlier <= target,
        completion_of(s, target) is Some,
    ensures
        completion_of(s, earlier) is Some,
    decreases s.len(),
{
    if s.len() > 0 && s[0].0 < earlier {
        lemma_completion_monotone(s.drop_first(), target, earlier);
    }
}

/// A queued transaction record of a key.
#[derive(Debug)]
pub struct TransactionWriteJob<Op> {
    pub key: String,
    pub path: String,
    pub record: Op,
    pub sequence: u64,
}

/// The shared state of the transaction log writer: the sequence counter, the queued
/// records in submission order and the recent results of each key.
pub struct TransactionLogState<Op> {
    next_sequence: u64,
    pending: Vec<TransactionWriteJob<Op>>,
    results: StrMap<GenerationHistory>,
}

impl<Op> TransactionLogState<Op> {
    pub closed spec fn sequence(&self) -> u64 {
        self.next_sequence
    }

    pub closed spec fn pending_jobs(&self) -> Seq<TransactionWriteJob<Op>> {
        self.pending@
    }

    pub closed spec fn results_of_key(&self, k: Seq<char>) -> Seq<(u64, Option<Seq<char>>)> {
        results_of(self.results.spec_get(k))
    }

    pub closed spec fn wf(&self) -> bool {
        histories_ok(self.results, TRANSACTION_RESULTS_PER_KEY as nat)
    }

    pub fn new() -> (r: Self)
        ensures
            r.wf(),
            r.sequence() == 0,
            r.pending_jobs().len() == 0,
            forall|k: Seq<char>| #[trigger] r.results_of_key(k).len() == 0,
    {
        Self { next_sequence: 0, pending: Vec::new(), results: StrMap::new() }
    }

    /// Queues a record of `key` after the records already queued, and returns its sequence number.
    pub fn submit(&mut self, key: String, path: String, record: Op) -> (seq_no: u64)
        requires
            old(self).wf(),
        ensures
            final(self).wf(),
            seq_no == saturating_next(old(self).sequence()),
            final(self).sequence() == seq_no,
            final(self).pending_jobs() == old(self).pending_jobs().push(
                TransactionWriteJob { key, path, record, sequence: seq_no },
            ),
            forall|k: Seq<char>| #[trigger] final(self).results_of_key(k) == old(self).results_of_key(k),
    {
        self.next_sequence = self.next_sequence.saturating_add(1);
        let sequence = self.next_sequence;
        self.pending.push(TransactionWriteJob { key, path, record, sequence });
        sequence
    }

    /// Hands out every queued record, in submission order, and leaves none queued.
    pub fn take_pending(&mut self) -> (r: Vec<TransactionWriteJob<Op>>)
        requires
            old(self).wf(),
        ensures
            final(self).wf(),
            r@ == old(self).pending_jobs(),
            final(self).pending_jobs().len() == 0,
            final(self).sequence() == old(self).sequence(),
            forall|k: Seq<char>| #[trigger] final(self).results_of_key(k) == old(self).results_of_key(k),
    {
        let mut out: Vec<TransactionWriteJob<Op>> = Vec::new();
        std::mem::swap(&mut out, &mut self.pending);
        out
    }

    /// Records the outcome of writing record `sequence` of `key`.
    pub fn record_result(&mut self, key: &str, sequence: u64, error: Option<String>)
        requires
            old(self).wf(),
        ensures
            final(self).wf(),
            final(self).results_of_key(key@) == keep_newest(
                insert_sorted(old(self).results_of_key(key@), sequence, opt_text(error)),
                TRANSACTION_RESULTS_PER_KEY as nat,
            ),
            forall|k: Seq<char>|
                k != key@ ==> #[trigger] final(self).results_of_key(k) == old(self).results_of_key(k),
            final(self).sequence() == old(self).sequence(),
            final(self).pending_jobs() == old(self).pending_jobs(),
    {
        let mut history = match self.results.get(key) {
            Some(h) => h.duplicate(),
            None => GenerationHistory::new(),
        };
        assert(sorted_gens(history.view_results())) by {
            assert(histories_ok(self.results, TRANSACTION_RESULTS_PER_KEY as nat));
            match self.results.spec_get(key@) {
                Some(h) => {
                    assert(sorted_gens(h.view_results()));
                },
                None => {
                    assert(history.view_results() =~= Seq::<(u64, Option<Seq<char>>)>::empty());
                },
            }
        }
        history.record(sequence, error, TRANSACTION_RESULTS_PER_KEY);
        self.results.insert(key.to_string(), history);
    }

    /// What a waiter on record `target` of `key` learns now.
    pub fn completion(&self, key: &str, target: u64) -> (r: Option<Option<String>>)
        ensures
            match r {
                Some(e) => completion_of(self.results_of_key(key@), target) == Some(opt_text(e)),
                None => completion_of(self.results_of_key(key@), target) is None,
            },
    {
        match self.results.get(key) {
            Some(h) => h.first_at_least(target),
            None => None,
        }
    }

    /// The error of the newest recorded write of `key`, if it failed.
    pub fn latest_error(&self, key: &str) -> (r: Option<String>)
        ensures
            opt_text(r) == if self.results_of_key(key@).len() == 0 {
                None
            } else {
                self.results_of_key(key@).last().1
            },
    {
        match self.results.get(key) {
            Some(h) => match h.latest() {
                Some(e) => e,
                None => None,
            },
            None => None,
        }
    }
}

/// Whether a write-ahead-log setting (`NEURALNET_WAL_FSYNC`) turns syncing on: `1`, `true`
/// or `yes` after trimming and lower-casing; an absent setting leaves it off.
pub open spec fn fsync_setting_enabled(setting: Option<Seq<char>>) -> bool {
    match setting {
        Some(v) => {
            let n = crate::text::normalize_key_seq(v);
            n == "1"@ || n == "true"@ || n == "yes"@
        },
        None => false,
    }
}

pub fn wal_fsync_enabled_for(setting: Option<&str>) -> (r: bool)
    ensures
        r == fsync_setting_enabled(match setting {
            Some(s) => Some(s@),
            None => None,
        }),
{
    match setting {
        Some(v) => {
            let n = crate::text::normalize_key(v);
            n == "1".to_string() || n == "true".to_string() || n == "yes".to_string()
        },
        None => false,
    }
}

} // verus!
