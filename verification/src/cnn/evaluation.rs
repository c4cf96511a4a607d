use vstd::prelude::*;

use crate::collections::StrMap;
use crate::text::{normalize_key, normalize_key_seq, opt_text};

verus! {

/// The outcome recorded for a sample that got no prediction.
pub open spec fn unknown_outcome() -> Seq<char> {
    "<unknown>"@
}

/// An evaluated sample: its expected label, trimmed and lower-cased, and the label it was
/// predicted, if any.
pub type EvaluationRow = (Seq<char>, Option<Seq<char>>);

/// The label a prediction is recorded under in the confusion matrix.
pub open spec fn outcome_label(p: Option<Seq<char>>) -> Seq<char> {
    match p {
        Some(l) => l,
        None => unknown_outcome(),
    }
}

/// The number of rows that meet `f`.
pub open spec fn count_rows(s: Seq<EvaluationRow>, f: spec_fn(EvaluationRow) -> bool) -> nat
    decreases s.len(),
{
    if s.len() == 0 {
        0
    } else {
        count_rows(s.drop_last(), f) + if f(s.last()) {
            1nat
        } else {
            0nat
        }
    }
}

/// Rows with an expected label are evaluated; the others are skipped.
pub open spec fn is_evaluated(r: EvaluationRow) -> bool {
    r.0.len() > 0
}

pub open spec fn is_correct(r: EvaluationRow) -> bool {
    r.0.len() > 0 && r.1 == Some(r.0)
}

pub open spec fn is_unknown(r: EvaluationRow) -> bool {
    r.0.len() > 0 && r.1 is None
}

/// Rows expected to have label `l`.
pub open spec fn expects(l: Seq<char>) -> spec_fn(EvaluationRow) -> bool {
    |r: EvaluationRow| r.0.len() > 0 && r.0 == l
}

/// Rows expected to have label `l` and predicted it.
pub open spec fn expects_and_gets(l: Seq<char>) -> spec_fn(EvaluationRow) -> bool {
    |r: EvaluationRow| r.0.len() > 0 && r.0 == l && r.1 == Some(l)
}

/// Rows expected to have label `l` whose outcome is `p`.
pub open spec fn expects_with_outcome(l: Seq<char>, p: Seq<char>) -> spec_fn(EvaluationRow) -> bool {
    |r: EvaluationRow| r.0.len() > 0 && r.0 == l && outcome_label(r.1) == p
}

/// A count as a map stores it: absent when zero.
pub open spec fn stored_count(n: nat) -> Option<usize> {
    if n > 0 {
        Some(n as usize)
    } else {
        None
    }
}

/// The rows of an evaluation: each expected label normalized, with its prediction.
pub open spec fn evaluation_rows(expected: Seq<String>, predicted: Seq<Option<String>>) -> Seq<EvaluationRow> {
    Seq::new(expected.len(), |i: int| (normalize_key_seq(expected[i]@), opt_text(predicted[i])))
}

/// What an evaluation counts: samples, evaluated and skipped samples, correct and unknown
/// predictions, and per label the samples, the correct predictions and the outcomes.
#[derive(Debug)]
pub struct EvaluationTally {
    pub total_samples: usize,
    pub evaluated_samples: usize,
    pub skipped_samples: usize,
    pub correct_predictions: usize,
    pub unknown_predictions: usize,
    pub per_label_total: StrMap<usize>,
    pub per_label_correct: StrMap<usize>,
    pub confusion_matrix: StrMap<StrMap<usize>>,
}

/// The count stored for expected label `l` and outcome `p` of a confusion matrix.
pub open spec fn confusion_count(m: StrMap<StrMap<usize>>, l: Seq<char>, p: Seq<char>) -> Option<usize> {
    match m.spec_get(l) {
        Some(row) => row.spec_get(p),
        None => None,
    }
}

/// The counts of the tally are those of the rows.
pub open spec fn tally_matches(t: EvaluationTally, s: Seq<EvaluationRow>) -> bool {
    &&& t.total_samples == s.len()
    &&& t.evaluated_samples == count_rows(s, |r: EvaluationRow| is_evaluated(r))
    &&& t.skipped_samples == s.len() - count_rows(s, |r: EvaluationRow| is_evaluated(r))
    &&& t.correct_predictions == count_rows(s, |r: EvaluationRow| is_correct(r))
    &&& t.unknown_predictions == count_rows(s, |r: EvaluationRow| is_unknown(r))
    &&& forall|l: Seq<char>| #[trigger] t.per_label_total.spec_get(l) == stored_count(count_rows(s, expects(l)))
    &&& forall|l: Seq<char>| #[trigger] t.per_label_correct.spec_get(l) == stored_count(count_rows(s, expects_and_gets(l)))
    &&& forall|l: Seq<char>| (#[trigger] t.confusion_matrix.spec_get(l) is Some) == (count_rows(s, expects(l)) > 0)
    &&& forall|l: Seq<char>, p: Seq<char>|
        #[trigger] confusion_count(t.confusion_matrix, l, p) == stored_count(count_rows(s, expects_with_outcome(l, p)))
}

/// Counting one more row adds one where it meets `f`.
proof fn lemma_count_rows_push(s: Seq<EvaluationRow>, r: EvaluationRow, f: spec_fn(EvaluationRow) -> bool)
    ensures
        count_rows(s.push(r), f) == count_rows(s, f) + if f(r) {
            1nat
        } else {
            0nat
        },
{
    assert(s.push(r).drop_last() =~= s);
}

/// No more rows meet `f` than there are rows.
proof fn lemma_count_rows_bound(s: Seq<EvaluationRow>, f: spec_fn(EvaluationRow) -> bool)
    ensures
        count_rows(s, f) <= s.len(),
    decreases s.len(),
{
    if s.len() > 0 {
        lemma_count_rows_bound(s.drop_last(), f);
    }
}

/// Rows that meet `f` meet `g` too, so no more of them meet `f`.
proof fn lemma_count_rows_implies(s: Seq<EvaluationRow>, f: spec_fn(EvaluationRow) -> bool, g: spec_fn(EvaluationRow) -> bool)
    requires
        forall|r: EvaluationRow| #[trigger] f(r) ==> g(r),
    ensures
        count_rows(s, f) <= count_rows(s, g),
    decreases s.len(),
{
    if s.len() > 0 {
        lemma_count_rows_implies(s.drop_last(), f, g);
        assert(f(s.last()) ==> g(s.last()));
    }
}

/// Adds one to the count stored under `key`.
fn increment(map: &mut StrMap<usize>, key: &str)
    requires
        match old(map).spec_get(key@) {
            Some(c) => c < usize::MAX,
            None => true,
        },
    ensures
        forall|k: Seq<char>|
            #[trigger] final(map).spec_get(k) == if k == key@ {
                Some(
                    (match old(map).spec_get(key@) {
                        Some(c) => c + 1,
                        None => 1,
                    }) as usize,
                )
            } else {
                old(map).spec_get(k)
            },
{
    let current = match map.get(key) {
        Some(c) => *c,
        None => 0,
    };
    map.insert(key.to_string(), current + 1);
}

/// Counts the outcomes of an evaluation: for each sample its expected label, trimmed and
/// lower-cased, and what the model predicted for it. A sample whose label is empty is skipped;
/// a missing prediction counts as unknown and is recorded as `<unknown>`.
pub fn tally_evaluation(expected: &Vec<String>, predicted: &Vec<Option<String>>) -> (t: EvaluationTally)
    requires
        expected.len() == predicted.len(),
    ensures
        tally_matches(t, evaluation_rows(expected@, predicted@)),
{
    let ghost s = evaluation_rows(expected@, predicted@);
    let mut t = EvaluationTally {
        total_samples: expected.len(),
        evaluated_samples: 0,
        skipped_samples: 0,
        correct_predictions: 0,
        unknown_predictions: 0,
        per_label_total: StrMap::new(),
        per_label_correct: StrMap::new(),
        confusion_matrix: StrMap::new(),
    };
    let mut i: usize = 0;
    while i < expected.len()
        invariant
            i <= expected.len() == predicted.len(),
            s == evaluation_rows(expected@, predicted@),
            t.total_samples == expected.len(),
            ({
                let u = s.take(i as int);
                &&& t.evaluated_samples == count_rows(u, |r: EvaluationRow| is_evaluated(r))
                &&& t.skipped_samples == u.len() - count_rows(u, |r: EvaluationRow| is_evaluated(r))
                &&& t.correct_predictions == count_rows(u, |r: EvaluationRow| is_correct(r))
                &&& t.unknown_predictions == count_rows(u, |r: EvaluationRow| is_unknown(r))
                &&& forall|l: Seq<char>| #[trigger] t.per_label_total.spec_get(l) == stored_count(count_rows(u, expects(l)))
                &&& forall|l: Seq<char>| #[trigger] t.per_label_correct.spec_get(l) == stored_count(
                    count_rows(u, expects_and_gets(l)),
                )
                &&& forall|l: Seq<char>| (#[trigger] t.confusion_matrix.spec_get(l) is Some) == (count_rows(u, expects(l)) > 0)
                &&& forall|l: Seq<char>, p: Seq<char>|
                    #[trigger] confusion_count(t.confusion_matrix, l, p) == stored_count(
                        count_rows(u, expects_with_outcome(l, p)),
                    )
            }),
        decreases expected.len() - i,
    {
        let ghost u = s.take(i as int);
        let ghost u2 = s.take(i + 1);
        let label = normalize_key(expected[i].as_str());
        let ghost row: EvaluationRow = (label@, opt_text(predicted@[i as int]));
        proof {
            assert(u2 =~= u.push(row));
            assert(s[i as int] == row);
            lemma_count_rows_bound(u, |r: EvaluationRow| is_evaluated(r));
            lemma_count_rows_push(u, row, |r: EvaluationRow| is_evaluated(r));
            lemma_count_rows_push(u, row, |r: EvaluationRow| is_correct(r));
            lemma_count_rows_push(u, row, |r: EvaluationRow| is_unknown(r));
            assert forall|l: Seq<char>| true implies #[trigger] count_rows(u2, expects(l)) == count_rows(u, expects(l))
                + if (expects(l))(row) { 1nat } else { 0nat } by {
                lemma_count_rows_push(u, row, expects(l));
            }
            assert forall|l: Seq<char>| true implies #[trigger] count_rows(u2, expects_and_gets(l)) == count_rows(
                u,
                expects_and_gets(l),
            ) + if (expects_and_gets(l))(row) { 1nat } else { 0nat } by {
                lemma_count_rows_push(u, row, expects_and_gets(l));
            }
            assert forall|l: Seq<char>, p: Seq<char>| true implies #[trigger] count_rows(u2, expects_with_outcome(l, p))
                == count_rows(u, expects_with_outcome(l, p)) + if (expects_with_outcome(l, p))(row) {
                1nat
            } else {
                0nat
            } by {
                lemma_count_rows_push(u, row, expects_with_outcome(l, p));
            }
        }
        if label.as_str().is_empty() {
            t.skipped_samples = t.skipped_samples + 1;
        } else {
            let ghost lv = label@;
            proof {
                lemma_count_rows_bound(u, expects(lv));
                lemma_count_rows_bound(u, expects_and_gets(lv));
                lemma_count_rows_bound(u, |r: EvaluationRow| is_correct(r));
                lemma_count_rows_bound(u, |r: EvaluationRow| is_unknown(r));
            }
            t.evaluated_samples = t.evaluated_samples + 1;
            let ghost total_before = t.per_label_total;
            increment(&mut t.per_label_total, label.as_str());
            let hit = match &predicted[i] {
                Some(p) => *p == label,
                None => false,
            };
            let outcome: String = match &predicted[i] {
                Some(p) => p.clone(),
                None => "<unknown>".to_string(),
            };
            proof {
                assert(hit == is_correct(row));
                assert(outcome@ == outcome_label(row.1));
            }
            if hit {
                t.correct_predictions = t.correct_predictions + 1;
                increment(&mut t.per_label_correct, label.as_str());
            }
            if predicted[i].is_none() {
                t.unknown_predictions = t.unknown_predictions + 1;
            }
            let ghost conf_before = t.confusion_matrix;
            let taken = t.confusion_matrix.remove(label.as_str());
            let mut confusion_row = match taken {
                Some(m) => m,
                None => StrMap::new(),
            };
            let ghost ov = outcome@;
            proof {
                lemma_count_rows_bound(u, expects_with_outcome(lv, ov));
                if taken is Some {
                    assert(confusion_count(conf_before, lv, ov) == confusion_row.spec_get(ov));
                }
                if taken is None {
                    assert(count_rows(u, expects(lv)) == 0);
                    lemma_count_rows_implies(u, expects_with_outcome(lv, ov), expects(lv));
                }
            }
            let ghost row_before = confusion_row;
            increment(&mut confusion_row, outcome.as_str());
            let ghost row_after = confusion_row;
            t.confusion_matrix.insert(label, confusion_row);
            proof {
                assert forall|l: Seq<char>, p: Seq<char>|
                    #[trigger] confusion_count(t.confusion_matrix, l, p) == stored_count(
                        count_rows(u2, expects_with_outcome(l, p)),
                    ) by {
                    if l == lv {
                        assert(t.confusion_matrix.spec_get(l) == Some(row_after));
                        if taken is None {
                            lemma_count_rows_implies(u, expects_with_outcome(lv, p), expects(lv));
                        } else {
                            assert(confusion_count(conf_before, l, p) == row_before.spec_get(p));
                        }
                    } else {
                        assert(t.confusion_matrix.spec_get(l) == conf_before.spec_get(l));
                        assert(confusion_count(t.confusion_matrix, l, p) == confusion_count(conf_before, l, p));
                    }
                }
            }
        }
        i = i + 1;
    }
    proof {
        assert(s.take(expected.len() as int) =~= s);
    }
    t
}

/// A trained example: the label of its batch, trimmed and lower-cased, and whether training
/// on it succeeded.
pub type TrainingRow = (Seq<char>, bool);

/// The examples of labeled batches, batch after batch.
pub open spec fn training_rows(batches: Seq<(String, Vec<bool>)>) -> Seq<TrainingRow> {
    batches.map_values(|b: (String, Vec<bool>)| b.1@.map_values(|ok: bool| (normalize_key_seq(b.0@), ok))).flatten()
}

/// The number of examples that trained under label `l`.
pub open spec fn count_trained(s: Seq<TrainingRow>, l: Seq<char>) -> nat
    decreases s.len(),
{
    if s.len() == 0 {
        0
    } else {
        count_trained(s.drop_last(), l) + if s.last().0.len() > 0 && s.last().0 == l && s.last().1 {
            1nat
        } else {
            0nat
        }
    }
}

/// The number of examples that trained under a label.
pub open spec fn count_all_trained(s: Seq<TrainingRow>) -> nat
    decreases s.len(),
{
    if s.len() == 0 {
        0
    } else {
        count_all_trained(s.drop_last()) + if s.last().0.len() > 0 && s.last().1 {
            1nat
        } else {
            0nat
        }
    }
}

/// What a training pass over labeled batches counts: the examples, those trained and skipped,
/// and per label the examples trained.
#[derive(Debug)]
pub struct TrainingTally {
    pub total_examples: usize,
    pub trained_examples: usize,
    pub skipped_examples: usize,
    pub per_label_counts: StrMap<usize>,
}

proof fn lemma_training_counts_bound(s: Seq<TrainingRow>, l: Seq<char>)
    ensures
        count_trained(s, l) <= count_all_trained(s),
        count_all_trained(s) <= s.len(),
    decreases s.len(),
{
    if s.len() > 0 {
        lemma_training_counts_bound(s.drop_last(), l);
    }
}

/// Counts a training pass over labeled batches: for each batch its label and, for each of its
/// images, whether training on it succeeded. A batch whose label is empty once trimmed trains
/// nothing; its images count as skipped.
pub fn tally_training(batches: &Vec<(String, Vec<bool>)>) -> (t: TrainingTally)
    requires
        training_rows(batches@).len() <= usize::MAX,
    ensures
        t.total_examples == training_rows(batches@).len(),
        t.trained_examples == count_all_trained(training_rows(batches@)),
        t.skipped_examples == training_rows(batches@).len() - count_all_trained(training_rows(batches@)),
        forall|l: Seq<char>| #[trigger] t.per_label_counts.spec_get(l) == stored_count(
            count_trained(training_rows(batches@), l),
        ),
{
    let ghost groups = batches@.map_values(
        |b: (String, Vec<bool>)| b.1@.map_values(|ok: bool| (normalize_key_seq(b.0@), ok)),
    );
    let ghost all = groups.flatten();
    let mut total: usize = 0;
    let mut trained: usize = 0;
    let mut per_label: StrMap<usize> = StrMap::new();
    let mut i: usize = 0;
    while i < batches.len()
        invariant
            i <= batches.len(),
            groups == batches@.map_values(
                |b: (String, Vec<bool>)| b.1@.map_values(|ok: bool| (normalize_key_seq(b.0@), ok)),
            ),
            all == groups.flatten(),
            all.len() <= usize::MAX,
            ({
                let done = groups.take(i as int).flatten();
                &&& total == done.len()
                &&& trained == count_all_trained(done)
                &&& forall|l: Seq<char>| #[trigger] per_label.spec_get(l) == stored_count(count_trained(done, l))
            }),
        decreases batches.len() - i,
    {
        let ghost done = groups.take(i as int).flatten();
        let label = normalize_key(batches[i].0.as_str());
        let outcomes = &batches[i].1;
        let ghost g = groups[i as int];
        proof {
            assert(groups.take(i + 1) =~= groups.take(i as int).push(g));
            groups.take(i as int).lemma_flatten_push(g);
            assert(g =~= outcomes@.map_values(|ok: bool| (label@, ok)));
            assert(groups =~= groups.take(i + 1) + groups.skip(i + 1));
            vstd::seq_lib::lemma_flatten_concat(groups.take(i + 1), groups.skip(i + 1));
            assert(done.len() + g.len() <= all.len());
        }
        let mut k: usize = 0;
        while k < outcomes.len()
            invariant
                k <= outcomes.len(),
                g == outcomes@.map_values(|ok: bool| (label@, ok)),
                done.len() + g.len() <= usize::MAX,
                ({
                    let d = done + g.take(k as int);
                    &&& total == d.len()
                    &&& trained == count_all_trained(d)
                    &&& forall|l: Seq<char>| #[trigger] per_label.spec_get(l) == stored_count(count_trained(d, l))
                }),
            decreases outcomes.len() - k,
        {
            let ghost d = done + g.take(k as int);
            let ghost d2 = done + g.take(k + 1);
            proof {
                assert(d2 =~= d.push(g[k as int]));
                assert(d2.drop_last() =~= d);
                lemma_training_counts_bound(d, label@);
            }
            total = total + 1;
            if !label.as_str().is_empty() && outcomes[k] {
                trained = trained + 1;
                increment(&mut per_label, label.as_str());
            }
            k = k + 1;
        }
        proof {
            assert(g.take(outcomes.len() as int) =~= g);
        }
        i = i + 1;
    }
    proof {
        assert(groups.take(batches.len() as int) =~= groups);
        lemma_training_counts_bound(all, Seq::empty());
    }
    TrainingTally {
        total_examples: total,
        trained_examples: trained,
        skipped_examples: total - trained,
        per_label_counts: per_label,
    }
}

} // verus!
