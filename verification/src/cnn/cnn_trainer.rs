use vstd::prelude::*;

use crate::cnn::data_pipeline::copy_bytes;
use crate::text::{
    chars_of,
    lemma_text_lt_irreflexive,
    lemma_text_lt_total,
    lemma_text_lt_transitive,
    normalize_key,
    normalize_key_seq,
    text_less,
    text_lt,
};

verus! {

/// Images that share a label, for training.
#[derive(Debug, Clone)]
pub struct CnnTrainerBatch {
    pub label: String,
    pub samples: Vec<Vec<u8>>,
}

impl CnnTrainerBatch {
    pub fn new(label: &str, samples: Vec<Vec<u8>>) -> (r: Self)
        ensures
            r.label@ == label@,
            r.samples@ == samples@,
    {
        Self { label: label.to_string(), samples }
    }
}

/// An image with the label it is expected to get.
#[derive(Debug, Clone)]
pub struct CnnEvaluationSample {
    pub expected_label: String,
    pub image: Vec<u8>,
}

impl CnnEvaluationSample {
    pub fn new(expected_label: &str, image: Vec<u8>) -> (r: Self)
        ensures
            r.expected_label@ == expected_label@,
            r.image@ == image@,
    {
        Self { expected_label: expected_label.to_string(), image }
    }
}

/// Texts in strictly increasing order.
pub open spec fn strictly_sorted(s: Seq<Seq<char>>) -> bool {
    forall|i: int, j: int| 0 <= i < j < s.len() ==> text_lt(#[trigger] s[i], #[trigger] s[j])
}

/// `x` put into its place in a sorted sequence of texts, unless it is there already.
pub open spec fn sorted_insert(s: Seq<Seq<char>>, x: Seq<char>) -> Seq<Seq<char>>
    decreases s.len(),
{
    if s.len() == 0 {
        seq![x]
    } else if s[0] == x {
        s
    } else if text_lt(x, s[0]) {
        seq![x] + s
    } else {
        seq![s[0]] + sorted_insert(s.drop_first(), x)
    }
}

/// Labeled images as text and bytes.
pub open spec fn sample_views(v: Seq<(String, Vec<u8>)>) -> Seq<(Seq<char>, Seq<u8>)> {
    v.map_values(|p: (String, Vec<u8>)| (p.0@, p.1@))
}

/// The distinct trimmed, lower-cased labels of the samples that are not empty, in the order
/// of texts.
pub open spec fn label_order(samples: Seq<(Seq<char>, Seq<u8>)>) -> Seq<Seq<char>>
    decreases samples.len(),
{
    if samples.len() == 0 {
        Seq::empty()
    } else {
        let prev = label_order(samples.drop_last());
        let label = normalize_key_seq(samples.last().0);
        if label.len() > 0 {
            sorted_insert(prev, label)
        } else {
            prev
        }
    }
}

/// The images whose trimmed, lower-cased label is `label`, in order.
pub open spec fn images_with_label(samples: Seq<(Seq<char>, Seq<u8>)>, label: Seq<char>) -> Seq<
    Seq<u8>,
>
    decreases samples.len(),
{
    if samples.len() == 0 {
        Seq::empty()
    } else {
        let prev = images_with_label(samples.drop_last(), label);
        if normalize_key_seq(samples.last().0) == label {
            prev.push(samples.last().1)
        } else {
            prev
        }
    }
}

/// The samples grouped by label: one group per label, in the order of labels, each with its
/// images in order.
pub open spec fn label_groups(samples: Seq<(Seq<char>, Seq<u8>)>) -> Seq<(Seq<char>, Seq<Seq<u8>>)> {
    label_order(samples).map_values(|l: Seq<char>| (l, images_with_label(samples, l)))
}

pub open spec fn batch_group_views(v: Seq<CnnTrainerBatch>) -> Seq<(Seq<char>, Seq<Seq<u8>>)> {
    v.map_values(|b: CnnTrainerBatch| (b.label@, b.samples@.map_values(|x: Vec<u8>| x@)))
}

/// What `sorted_insert` holds: `x` and the texts of `s`.
pub proof fn lemma_sorted_insert_contents(s: Seq<Seq<char>>, x: Seq<char>)
    ensures
        sorted_insert(s, x).contains(x),
        forall|e: Seq<char>| #[trigger] sorted_insert(s, x).contains(e) <==> (e == x || s.contains(e)),
    decreases s.len(),
{
    let r = sorted_insert(s, x);
    if s.len() == 0 {
        assert(r[0] == x);
    } else if s[0] == x {
        assert(r[0] == x);
    } else if text_lt(x, s[0]) {
        assert(r[0] == x);
        assert forall|e: Seq<char>| #[trigger] r.contains(e) <==> (e == x || s.contains(e)) by {
            if s.contains(e) {
                let k = choose|k: int| 0 <= k < s.len() && s[k] == e;
                assert(r[k + 1] == e);
            }
            if r.contains(e) && e != x {
                let k = choose|k: int| 0 <= k < r.len() && r[k] == e;
                assert(s[k - 1] == e);
            }
        }
    } else {
        let ds = s.drop_first();
        lemma_sorted_insert_contents(ds, x);
        let rest = sorted_insert(ds, x);
        let kx = choose|k: int| 0 <= k < rest.len() && rest[k] == x;
        assert(r[kx + 1] == x);
        assert forall|e: Seq<char>| #[trigger] r.contains(e) <==> (e == x || s.contains(e)) by {
            if s.contains(e) {
                let k = choose|k: int| 0 <= k < s.len() && s[k] == e;
                if k == 0 {
                    assert(r[0] == e);
                } else {
                    assert(ds[k - 1] == e);
                    assert(rest.contains(e));
                    let m = choose|m: int| 0 <= m < rest.len() && rest[m] == e;
                    assert(r[m + 1] == e);
                }
            }
            if r.contains(e) && e != x {
                let k = choose|k: int| 0 <= k < r.len() && r[k] == e;
                if k == 0 {
                    assert(s[0] == e);
                } else {
                    assert(rest[k - 1] == e);
                    assert(rest.contains(e));
                    assert(ds.contains(e));
                    let m = choose|m: int| 0 <= m < ds.len() && ds[m] == e;
                    assert(s[m + 1] == e);
                }
            }
        }
    }
}

/// Putting a text into a sorted sequence keeps it sorted.
pub proof fn lemma_sorted_insert_sorted(s: Seq<Seq<char>>, x: Seq<char>)
    requires
        strictly_sorted(s),
    ensures
        strictly_sorted(sorted_insert(s, x)),
    decreases s.len(),
{
    let r = sorted_insert(s, x);
    if s.len() == 0 {
    } else if s[0] == x {
    } else if text_lt(x, s[0]) {
        assert forall|i: int, j: int| 0 <= i < j < r.len() implies text_lt(#[trigger] r[i], #[trigger] r[j]) by {
            if i == 0 {
                assert(r[j] == s[j - 1]);
                if j - 1 > 0 {
                    assert(text_lt(s[0], s[j - 1]));
                    lemma_text_lt_transitive(x, s[0], s[j - 1]);
                }
            } else {
                assert(r[i] == s[i - 1]);
                assert(r[j] == s[j - 1]);
            }
        }
    } else {
        let ds = s.drop_first();
        lemma_text_lt_total(x, s[0]);
        assert(text_lt(s[0], x));
        assert(strictly_sorted(ds)) by {
            assert forall|i: int, j: int| 0 <= i < j < ds.len() implies text_lt(#[trigger] ds[i], #[trigger] ds[j]) by {
                assert(ds[i] == s[i + 1]);
                assert(ds[j] == s[j + 1]);
            }
        }
        lemma_sorted_insert_sorted(ds, x);
        lemma_sorted_insert_contents(ds, x);
        let rest = sorted_insert(ds, x);
        assert forall|i: int, j: int| 0 <= i < j < r.len() implies text_lt(#[trigger] r[i], #[trigger] r[j]) by {
            if i == 0 {
                assert(r[j] == rest[j - 1]);
                assert(rest.contains(rest[j - 1]));
                if rest[j - 1] != x {
                    assert(ds.contains(rest[j - 1]));
                    let m = choose|m: int| 0 <= m < ds.len() && ds[m] == rest[j - 1];
                    assert(s[m + 1] == ds[m]);
                    assert(text_lt(s[0], s[m + 1]));
                }
            } else {
                assert(r[i] == rest[i - 1]);
                assert(r[j] == rest[j - 1]);
            }
        }
    }
}

/// Where `sorted_insert` puts `x`: before the first text that does not come before it.
pub proof fn lemma_sorted_insert_at(s: Seq<Seq<char>>, x: Seq<char>, p: int)
    requires
        strictly_sorted(s),
        0 <= p <= s.len(),
        forall|j: int| 0 <= j < p ==> text_lt(#[trigger] s[j], x),
        p == s.len() || !text_lt(s[p], x),
    ensures
        sorted_insert(s, x) == if p < s.len() && s[p] == x {
            s
        } else {
            s.insert(p, x)
        },
    decreases p,
{
    if p == 0 {
        if s.len() == 0 {
            assert(s.insert(0, x) =~= seq![x]);
        } else if s[0] != x {
            lemma_text_lt_total(x, s[0]);
            assert(s.insert(0, x) =~= seq![x] + s);
        }
    } else {
        let ds = s.drop_first();
        assert(text_lt(s[0], x));
        lemma_text_lt_irreflexive(x);
        lemma_text_lt_total(s[0], x);
        assert(strictly_sorted(ds)) by {
            assert forall|i: int, j: int| 0 <= i < j < ds.len() implies text_lt(#[trigger] ds[i], #[trigger] ds[j]) by {
                assert(ds[i] == s[i + 1]);
                assert(ds[j] == s[j + 1]);
            }
        }
        assert forall|j: int| 0 <= j < p - 1 implies text_lt(#[trigger] ds[j], x) by {
            assert(ds[j] == s[j + 1]);
        }
        lemma_sorted_insert_at(ds, x, p - 1);
        if p < s.len() && s[p] == x {
            assert(seq![s[0]] + ds =~= s);
        } else {
            assert(seq![s[0]] + ds.insert(p - 1, x) =~= s.insert(p, x));
        }
    }
}

/// The labels of `label_order` are sorted.
pub proof fn lemma_label_order_sorted(samples: Seq<(Seq<char>, Seq<u8>)>)
    ensures
        strictly_sorted(label_order(samples)),
    decreases samples.len(),
{
    if samples.len() > 0 {
        lemma_label_order_sorted(samples.drop_last());
        let label = normalize_key_seq(samples.last().0);
        if label.len() > 0 {
            lemma_sorted_insert_sorted(label_order(samples.drop_last()), label);
        }
    }
}

/// The labels of `label_order` are exactly the trimmed, lower-cased labels of the samples
/// that are not empty.
pub proof fn lemma_label_order_members(samples: Seq<(Seq<char>, Seq<u8>)>, l: Seq<char>)
    ensures
        label_order(samples).contains(l) <==> (l.len() > 0 && exists|k: int|
            0 <= k < samples.len() && normalize_key_seq(#[trigger] samples[k].0) == l),
    decreases samples.len(),
{
    if samples.len() > 0 {
        let prefix = samples.drop_last();
        lemma_label_order_members(prefix, l);
        let label = normalize_key_seq(samples.last().0);
        if label.len() > 0 {
            lemma_sorted_insert_contents(label_order(prefix), label);
        }
        if exists|k: int| 0 <= k < samples.len() && normalize_key_seq(#[trigger] samples[k].0) == l {
            let k = choose|k: int| 0 <= k < samples.len() && normalize_key_seq(#[trigger] samples[k].0) == l;
            if k < samples.len() - 1 {
                assert(prefix[k] == samples[k]);
            }
        }
        if exists|k: int| 0 <= k < prefix.len() && normalize_key_seq(#[trigger] prefix[k].0) == l {
            let k = choose|k: int| 0 <= k < prefix.len() && normalize_key_seq(#[trigger] prefix[k].0) == l;
            assert(samples[k] == prefix[k]);
        }
    }
}

/// A label that no sample has holds no image.
pub proof fn lemma_images_absent(samples: Seq<(Seq<char>, Seq<u8>)>, l: Seq<char>)
    requires
        l.len() > 0,
        !label_order(samples).contains(l),
    ensures
        images_with_label(samples, l) == Seq::<Seq<u8>>::empty(),
    decreases samples.len(),
{
    if samples.len() > 0 {
        let prefix = samples.drop_last();
        lemma_label_order_members(samples, l);
        lemma_label_order_members(prefix, l);
        if exists|k: int| 0 <= k < prefix.len() && normalize_key_seq(#[trigger] prefix[k].0) == l {
            let k = choose|k: int| 0 <= k < prefix.len() && normalize_key_seq(#[trigger] prefix[k].0) == l;
            assert(samples[k] == prefix[k]);
        }
        lemma_images_absent(prefix, l);
        assert(normalize_key_seq(samples[samples.len() - 1].0) != l);
    }
}

/// The label groups of samples, as training batches: one per label, in the order of labels,
/// each holding its images in order. Samples whose trimmed label is empty are left out.
pub fn group_labeled_images(samples: &Vec<(String, Vec<u8>)>) -> (r: Vec<CnnTrainerBatch>)
    ensures
        batch_group_views(r@) == label_groups(sample_views(samples@)),
{
    let ghost sv = sample_views(samples@);
    let mut groups: Vec<CnnTrainerBatch> = Vec::new();
    let mut i: usize = 0;
    assert(batch_group_views(groups@) =~= label_groups(sv.take(0)));
    while i < samples.len()
        invariant
            i <= samples.len(),
            sv == sample_views(samples@),
            batch_group_views(groups@) == label_groups(sv.take(i as int)),
        decreases samples.len() - i,
    {
        let ghost t = sv.take(i as int);
        let ghost t2 = sv.take(i + 1);
        let ghost order = label_order(t);
        let ghost before = batch_group_views(groups@);
        proof {
            assert(t2.drop_last() =~= t);
            assert(t2.last() == sv[i as int]);
            assert(sv[i as int] == (samples@[i as int].0@, samples@[i as int].1@));
            lemma_label_order_sorted(t);
        }
        let label = normalize_key(samples[i].0.as_str());
        if !label.as_str().is_empty() {
            let ghost l = label@;
            let lc = chars_of(label.as_str());
            assert(before.len() == order.len());
            assert(before.len() == groups.len());
            let mut p: usize = 0;
            while p < groups.len() && text_less(&chars_of(groups[p].label.as_str()), &lc)
                invariant
                    p <= groups.len(),
                    lc@ == l,
                    before == batch_group_views(groups@),
                    before == label_groups(t),
                    order == label_order(t),
                    order.len() == groups.len(),
                    forall|j: int| 0 <= j < p ==> text_lt(#[trigger] order[j], l),
                decreases groups.len() - p,
            {
                assert(before[p as int].0 == order[p as int]);
                p = p + 1;
            }
            proof {
                if p < groups.len() {
                    assert(before[p as int].0 == order[p as int]);
                }
                lemma_sorted_insert_at(order, l, p as int);
            }
            let image = copy_bytes(&samples[i].1);
            if p < groups.len() && groups[p].label == label {
                let ghost gb = groups@;
                let mut g = groups.remove(p);
                let ghost gv = g.samples@.map_values(|x: Vec<u8>| x@);
                g.samples.push(image);
                assert(g.samples@.map_values(|x: Vec<u8>| x@) =~= gv.push(sv[i as int].1));
                let ghost gnew = g;
                groups.insert(p, g);
                proof {
                    assert(groups@ =~= gb.update(p as int, gnew));
                    assert(label_order(t2) == order);
                    assert(order[p as int] == l);
                    assert forall|q: int| 0 <= q < order.len() implies #[trigger] batch_group_views(
                        groups@,
                    )[q] == label_groups(t2)[q] by {
                        assert(images_with_label(t2, order[q]) == if order[q] == l {
                            images_with_label(t, order[q]).push(sv[i as int].1)
                        } else {
                            images_with_label(t, order[q])
                        });
                        assert(label_groups(t2)[q] == (order[q], images_with_label(t2, order[q])));
                        assert(label_groups(t)[q] == (order[q], images_with_label(t, order[q])));
                        if q == p {
                            assert(gnew.label == gb[q].label);
                            assert(batch_group_views(gb)[q] == label_groups(t)[q]);
                            assert(gv == batch_group_views(gb)[q].1);
                        } else {
                            assert(groups@[q] == gb[q]);
                            assert(batch_group_views(gb)[q] == label_groups(t)[q]);
                            assert(order[q] != l) by {
                                lemma_text_lt_irreflexive(l);
                                if q < p {
                                    assert(text_lt(order[q], order[p as int]));
                                } else {
                                    assert(text_lt(order[p as int], order[q]));
                                }
                            }
                        }
                    }
                    assert(batch_group_views(groups@) =~= label_groups(t2));
                }
            } else {
                let mut imgs: Vec<Vec<u8>> = Vec::new();
                imgs.push(image);
                let g = CnnTrainerBatch { label, samples: imgs };
                let ghost gb = groups@;
                assert(g.samples@.map_values(|x: Vec<u8>| x@) =~= seq![sv[i as int].1]);
                groups.insert(p, g);
                proof {
                    let o2 = order.insert(p as int, l);
                    assert(label_order(t2) == o2);
                    assert(!order.contains(l)) by {
                        if order.contains(l) {
                            let k = choose|k: int| 0 <= k < order.len() && order[k] == l;
                            if k < p {
                                lemma_text_lt_irreflexive(l);
                            } else if k > p {
                                lemma_text_lt_total(l, order[p as int]);
                                lemma_text_lt_transitive(l, order[p as int], order[k]);
                                lemma_text_lt_irreflexive(l);
                            }
                        }
                    }
                    lemma_images_absent(t, l);
                    assert forall|q: int| 0 <= q < o2.len() implies #[trigger] batch_group_views(
                        groups@,
                    )[q] == label_groups(t2)[q] by {
                        assert(images_with_label(t2, o2[q]) == if o2[q] == l {
                            images_with_label(t, o2[q]).push(sv[i as int].1)
                        } else {
                            images_with_label(t, o2[q])
                        });
                        assert(label_groups(t2)[q] == (o2[q], images_with_label(t2, o2[q])));
                        if q < p {
                            assert(o2[q] == order[q]);
                            assert(groups@[q] == gb[q]);
                            assert(batch_group_views(gb)[q] == label_groups(t)[q]);
                            assert(label_groups(t)[q] == (order[q], images_with_label(t, order[q])));
                            lemma_text_lt_irreflexive(l);
                            assert(o2[q] != l);
                        } else if q > p {
                            assert(o2[q] == order[q - 1]);
                            assert(groups@[q] == gb[q - 1]);
                            assert(batch_group_views(gb)[q - 1] == label_groups(t)[q - 1]);
                            assert(label_groups(t)[q - 1] == (order[q - 1], images_with_label(t, order[q - 1])));
                            assert(o2[q] != l);
                        } else {
                            assert(o2[q] == l);
                            assert(groups@[q] == g);
                        }
                    }
                    assert(batch_group_views(groups@) =~= label_groups(t2));
                }
            }
        } else {
            proof {
                assert(label_order(t2) == order);
                assert forall|q: int| 0 <= q < order.len() implies #[trigger] batch_group_views(
                    groups@,
                )[q] == label_groups(t2)[q] by {
                    assert(order.contains(order[q]));
                    lemma_label_order_members(t, order[q]);
                    assert(images_with_label(t2, order[q]) == images_with_label(t, order[q]));
                }
                assert(batch_group_views(groups@) =~= label_groups(t2));
            }
        }
        i = i + 1;
    }
    assert(sv.take(samples.len() as int) =~= sv);
    groups
}

} // verus!
