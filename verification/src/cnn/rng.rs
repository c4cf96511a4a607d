use vstd::prelude::*;

verus! {

/// The seed that replaces a zero seed, which would keep xorshift at zero forever.
pub const ZERO_SEED_REPLACEMENT: u64 = 0x9E37_79B9_7F4A_7C15;

/// One xorshift64 step (shifts 13, 7, 17).
pub open spec fn xorshift_step(x: u64) -> u64 {
    let a = x ^ (x << 13u64);
    let b = a ^ (a >> 7u64);
    b ^ (b << 17u64)
}

pub open spec fn initial_state(seed: u64) -> u64 {
    if seed == 0 {
        ZERO_SEED_REPLACEMENT
    } else {
        seed
    }
}

/// The value of an inclusive draw from `[min_value, max_value]` taken from `raw`.
pub open spec fn inclusive_draw(raw: u64, min_value: usize, max_value: usize) -> usize {
    if min_value >= max_value {
        min_value
    } else {
        (min_value + ((raw as usize) % ((max_value - min_value + 1) as usize))) as usize
    }
}

/// A small deterministic xorshift64 generator for data augmentation and shuffling.
#[derive(Debug, Clone, PartialEq, Eq, Structural)]
pub struct TransformRng {
    state: u64,
}

impl TransformRng {
    pub closed spec fn state(&self) -> u64 {
        self.state
    }

    pub fn new(seed: u64) -> (r: Self)
        ensures
            r.state() == initial_state(seed),
    {
        let initialized = if seed == 0 {
            ZERO_SEED_REPLACEMENT
        } else {
            seed
        };
        Self { state: initialized }
    }

    /// Advances the generator and returns the new state.
    pub fn next_u64(&mut self) -> (r: u64)
        ensures
            r == xorshift_step(old(self).state()),
            final(self).state() == r,
    {
        let mut x = self.state;
        x ^= x << 13u64;
        x ^= x >> 7u64;
        x ^= x << 17u64;
        self.state = x;
        x
    }

    /// A draw from `[min_value, max_value]`; `min_value` when the range has one value or none.
    pub fn next_inclusive(&mut self, min_value: usize, max_value: usize) -> (r: usize)
        requires
            max_value - min_value < usize::MAX,
        ensures
            min_value >= max_value ==> final(self).state() == old(self).state(),
            min_value < max_value ==> final(self).state() == xorshift_step(old(self).state()),
            r == inclusive_draw(final(self).state(), min_value, max_value),
            min_value < max_value ==> min_value <= r <= max_value,
    {
        if min_value >= max_value {
            return min_value;
        }
        let span = max_value - min_value + 1;
        let raw = self.next_u64();
        let offset = (raw as usize) % span;
        min_value + offset
    }
}

/// Exchanges two entries.
pub open spec fn swap_seq(s: Seq<usize>, i: int, j: int) -> Seq<usize> {
    s.update(i, s[j]).update(j, s[i])
}

/// Fisher-Yates from position `idx` down to 1, drawing each partner from a generator in `state`.
pub open spec fn fisher_yates_from(s: Seq<usize>, state: u64, idx: nat) -> Seq<usize>
    decreases idx,
{
    if idx == 0 {
        s
    } else {
        let next = xorshift_step(state);
        let partner = inclusive_draw(next, 0, idx as usize);
        fisher_yates_from(swap_seq(s, idx as int, partner as int), next, (idx - 1) as nat)
    }
}

/// The order that a Fisher-Yates shuffle with `seed` gives.
pub open spec fn shuffled(s: Seq<usize>, seed: u64) -> Seq<usize> {
    if s.len() < 2 {
        s
    } else {
        fisher_yates_from(s, initial_state(seed), (s.len() - 1) as nat)
    }
}

/// Exchanging two entries keeps the values and how often each occurs.
pub proof fn lemma_swap_same_multiset(s: Seq<usize>, i: int, j: int)
    requires
        0 <= i < s.len(),
        0 <= j < s.len(),
    ensures
        swap_seq(s, i, j).to_multiset() == s.to_multiset(),
        swap_seq(s, i, j).len() == s.len(),
{
    broadcast use vstd::seq_lib::to_multiset_update;
    broadcast use vstd::multiset::group_multiset_axioms;

    let s1 = s.update(i, s[j]);
    assert(s1.to_multiset() == s.to_multiset().insert(s[j]).remove(s[i]));
    assert(s1[j] == if i == j { s[j] } else { s[j] });
    assert(swap_seq(s, i, j).to_multiset() == s1.to_multiset().insert(s[i]).remove(s1[j]));
    assert(s.to_multiset().insert(s[j]).remove(s[i]).insert(s[i]).remove(s[j]) =~= s.to_multiset())
        by {
        broadcast use vstd::seq_lib::to_multiset_contains;

        assert(s.to_multiset().count(s[i]) > 0);
    }
}

/// The steps of Fisher-Yates keep the values and how often each occurs.
pub proof fn lemma_fisher_yates_permutes(s: Seq<usize>, state: u64, idx: nat)
    requires
        idx < s.len(),
    ensures
        fisher_yates_from(s, state, idx).to_multiset() == s.to_multiset(),
        fisher_yates_from(s, state, idx).len() == s.len(),
    decreases idx,
{
    if idx > 0 {
        let next = xorshift_step(state);
        let partner = inclusive_draw(next, 0, idx as usize);
        assert(partner <= idx);
        lemma_swap_same_multiset(s, idx as int, partner as int);
        lemma_fisher_yates_permutes(swap_seq(s, idx as int, partner as int), next, (idx - 1) as nat);
    }
}

/// A shuffle only reorders: the shuffled sequence holds the same values, each as often.
pub proof fn lemma_shuffle_is_permutation(s: Seq<usize>, seed: u64)
    ensures
        shuffled(s, seed).to_multiset() == s.to_multiset(),
        shuffled(s, seed).len() == s.len(),
{
    if s.len() >= 2 {
        lemma_fisher_yates_permutes(s, initial_state(seed), (s.len() - 1) as nat);
    }
}

/// A Fisher-Yates walk from position `idx` down leaves the positions after `idx` alone.
pub proof fn lemma_fisher_yates_keeps_tail(s: Seq<usize>, state: u64, idx: nat, k: int)
    requires
        idx < s.len(),
        idx < k < s.len(),
    ensures
        fisher_yates_from(s, state, idx)[k] == s[k],
    decreases idx,
{
    if idx > 0 {
        let next = xorshift_step(state);
        let partner = inclusive_draw(next, 0, idx as usize);
        let t = swap_seq(s, idx as int, partner as int);
        assert(t[k] == s[k]);
        lemma_fisher_yates_keeps_tail(t, next, (idx - 1) as nat, k);
    }
}

/// A shuffle of more than one entry puts last the entry at the position that the first draw
/// of a generator seeded with `seed` picks among all of them: the draw modulo the length.
pub proof fn lemma_shuffle_last_entry(s: Seq<usize>, seed: u64)
    requires
        2 <= s.len() <= usize::MAX,
    ensures
        shuffled(s, seed)[s.len() - 1] == s[((xorshift_step(initial_state(seed)) as usize) % (s.len() as usize)) as int],
{
    let n = s.len();
    let idx = (n - 1) as nat;
    let next = xorshift_step(initial_state(seed));
    let partner = inclusive_draw(next, 0, idx as usize);
    assert(partner == (next as usize) % (n as usize));
    let t = swap_seq(s, idx as int, partner as int);
    assert(shuffled(s, seed) == fisher_yates_from(t, next, (idx - 1) as nat));
    if idx > 1 {
        lemma_fisher_yates_keeps_tail(t, next, (idx - 1) as nat, idx as int);
    } else {
        assert(fisher_yates_from(t, next, 0) == t);
    }
    assert(t[idx as int] == s[partner as int]);
}

/// Shuffles `values` in place with a Fisher-Yates walk driven by a generator seeded with `seed`.
pub fn fisher_yates_shuffle(values: &mut Vec<usize>, seed: u64)
    ensures
        final(values)@ == shuffled(old(values)@, seed),
        final(values)@.to_multiset() == old(values)@.to_multiset(),
{
    proof {
        lemma_shuffle_is_permutation(old(values)@, seed);
    }
    if values.len() < 2 {
        return;
    }
    let mut rng = TransformRng::new(seed);
    let mut idx: usize = values.len() - 1;
    while idx > 0
        invariant
            idx < values.len(),
            values.len() == old(values)@.len(),
            old(values)@.len() >= 2,
            fisher_yates_from(values@, rng.state(), idx as nat) == shuffled(old(values)@, seed),
        decreases idx,
    {
        let swap_with = rng.next_inclusive(0, idx);
        let a = values[idx];
        let b = values[swap_with];
        values[idx] = b;
        values[swap_with] = a;
        idx = idx - 1;
    }
}

} // verus!
