//! Indexes of outcome records by outcome and by question: the records are
//! ordered by encoding and grouped by a key.

use std::collections::HashMap;
use vstd::prelude::*;
use crate::model::{groups_records, outcome_key, question_key, sorted_by_encoding};
use crate::records::{OutcomeMarketRecord, OutcomeMarketRecordView};

verus! {

broadcast use vstd::seq_lib::group_to_multiset_ensures;

pub open spec fn record_views(v: Seq<OutcomeMarketRecord>) -> Seq<OutcomeMarketRecordView> {
    v.map_values(|r: OutcomeMarketRecord| r@)
}

/// The view of an index from numbers to record lists.
pub open spec fn index_view(m: HashMap<u32, Vec<OutcomeMarketRecord>>) -> Map<
    u32,
    Seq<OutcomeMarketRecordView>,
> {
    Map::new(|k: u32| m@.contains_key(k), |k: u32| record_views(m@[k]@))
}

/// The records of `s` with key `k`, in order.
pub open spec fn with_key(
    s: Seq<OutcomeMarketRecordView>,
    key: spec_fn(OutcomeMarketRecordView) -> Option<u32>,
    k: u32,
) -> Seq<OutcomeMarketRecordView> {
    s.filter(|r: OutcomeMarketRecordView| key(r) == Some(k))
}

/// `s` grouped by `key`, each group in the order of `s`.
pub open spec fn grouped(
    s: Seq<OutcomeMarketRecordView>,
    key: spec_fn(OutcomeMarketRecordView) -> Option<u32>,
) -> Map<u32, Seq<OutcomeMarketRecordView>> {
    Map::new(
        |k: u32| exists|j: int| 0 <= j < s.len() && key(#[trigger] s[j]) == Some(k),
        |k: u32| with_key(s, key, k),
    )
}

/// How many leading records of `s` have an encoding of at most `e`: where
/// a record with encoding `e` goes so that it follows its equals.
pub open spec fn insert_position(s: Seq<OutcomeMarketRecordView>, e: u32) -> nat
    decreases s.len(),
{
    if s.len() == 0 || s[0].encoding > e {
        0
    } else {
        1 + insert_position(s.drop_first(), e)
    }
}

/// `s` ordered by encoding by inserting each record, in order, after every
/// earlier record whose encoding is at most its own; records with equal
/// encodings keep their order.
pub open spec fn encoding_sort(s: Seq<OutcomeMarketRecordView>) -> Seq<OutcomeMarketRecordView>
    decreases s.len(),
{
    if s.len() == 0 {
        s
    } else {
        let t = encoding_sort(s.drop_last());
        t.insert(insert_position(t, s.last().encoding) as int, s.last())
    }
}

/// The position where `s` stops having encodings of at most `e`.
pub proof fn lemma_insert_position(s: Seq<OutcomeMarketRecordView>, e: u32)
    ensures
        insert_position(s, e) <= s.len(),
        forall|j: int| 0 <= j < insert_position(s, e) ==> (#[trigger] s[j]).encoding <= e,
        insert_position(s, e) < s.len() ==> s[insert_position(s, e) as int].encoding > e,
    decreases s.len(),
{
    if s.len() > 0 && s[0].encoding <= e {
        let t = s.drop_first();
        lemma_insert_position(t, e);
        assert forall|j: int| 0 <= j < insert_position(s, e) implies (#[trigger] s[j]).encoding <= e by {
            if j > 0 {
                assert(s[j] == t[j - 1]);
            }
        }
        if insert_position(s, e) < s.len() {
            assert(s[insert_position(s, e) as int] == t[insert_position(t, e) as int]);
        }
    }
}

/// A position `p` before which every encoding is at most `e` and at which
/// the encoding exceeds `e` (or `s` ends) is the insert position.
proof fn lemma_insert_position_at(s: Seq<OutcomeMarketRecordView>, e: u32, p: int)
    requires
        0 <= p <= s.len(),
        forall|j: int| 0 <= j < p ==> (#[trigger] s[j]).encoding <= e,
        p < s.len() ==> s[p].encoding > e,
    ensures
        insert_position(s, e) == p,
    decreases p,
{
    if p > 0 {
        let t = s.drop_first();
        assert(s[0].encoding <= e);
        assert forall|j: int| 0 <= j < p - 1 implies (#[trigger] t[j]).encoding <= e by {
            assert(t[j] == s[j + 1]);
        }
        if p - 1 < t.len() {
            assert(t[p - 1] == s[p]);
        }
        lemma_insert_position_at(t, e, p - 1);
    }
}

proof fn lemma_insert_multiset<A>(s: Seq<A>, p: int, x: A)
    requires
        0 <= p <= s.len(),
    ensures
        s.insert(p, x).to_multiset() =~= s.to_multiset().insert(x),
{
    let t = s.insert(p, x);
    assert(t.remove(p) =~= s);
    assert(t[p] == x);
    assert(t.contains(x));
    assert(t.to_multiset().count(x) > 0);
    assert(t.remove(p).to_multiset() =~= t.to_multiset().remove(x));
}

proof fn lemma_filter_count<A>(s: Seq<A>, pred: spec_fn(A) -> bool, x: A)
    ensures
        s.filter(pred).to_multiset().count(x) == if pred(x) {
            s.to_multiset().count(x)
        } else {
            0
        },
    decreases s.len(),
{
    reveal(Seq::filter);
    if s.len() == 0 {
        assert(s.filter(pred) =~= Seq::<A>::empty());
    } else {
        let t = s.drop_last();
        lemma_filter_count(t, pred, x);
        assert(s =~= t.push(s.last()));
        if pred(s.last()) {
            assert(s.filter(pred) == t.filter(pred).push(s.last()));
        } else {
            assert(s.filter(pred) == t.filter(pred));
        }
    }
}

proof fn lemma_filter_same_multiset<A>(a: Seq<A>, b: Seq<A>, pred: spec_fn(A) -> bool)
    requires
        a.to_multiset() == b.to_multiset(),
    ensures
        a.filter(pred).to_multiset() =~= b.filter(pred).to_multiset(),
{
    assert forall|x: A| a.filter(pred).to_multiset().count(x) == b.filter(pred).to_multiset().count(x) by {
        lemma_filter_count(a, pred, x);
        lemma_filter_count(b, pred, x);
    }
}

proof fn lemma_filter_sorted(
    s: Seq<OutcomeMarketRecordView>,
    pred: spec_fn(OutcomeMarketRecordView) -> bool,
)
    requires
        sorted_by_encoding(s),
    ensures
        sorted_by_encoding(s.filter(pred)),
    decreases s.len(),
{
    reveal(Seq::filter);
    if s.len() > 0 {
        let t = s.drop_last();
        assert(sorted_by_encoding(t)) by {
            assert forall|i: int, j: int| 0 <= i < j < t.len() implies (#[trigger] t[i]).encoding
                <= (#[trigger] t[j]).encoding by {
                assert(t[i] == s[i] && t[j] == s[j]);
            }
        }
        lemma_filter_sorted(t, pred);
        if pred(s.last()) {
            let f = t.filter(pred);
            let g = f.push(s.last());
            assert forall|i: int, j: int| 0 <= i < j < g.len() implies (#[trigger] g[i]).encoding
                <= (#[trigger] g[j]).encoding by {
                if j == g.len() - 1 {
                    assert(f.contains(f[i]));
                    t.lemma_filter_contains_rev(pred, f[i]);
                    let k = choose|k: int| 0 <= k < t.len() && t[k] == f[i];
                    assert(s[k] == t[k]);
                } else {
                    assert(g[i] == f[i] && g[j] == f[j]);
                }
            }
        }
    }
}

/// `records` ordered by encoding; records with equal encodings keep their
/// order.
pub fn sort_by_encoding(records: &Vec<OutcomeMarketRecord>) -> (out: Vec<OutcomeMarketRecord>)
    ensures
        record_views(out@) == encoding_sort(record_views(records@)),
        sorted_by_encoding(record_views(out@)),
        record_views(out@).to_multiset() == record_views(records@).to_multiset(),
{
    let mut out: Vec<OutcomeMarketRecord> = Vec::new();
    let mut i: usize = 0;
    assert(record_views(out@) =~= encoding_sort(record_views(records@.take(0))));
    while i < records.len()
        invariant
            i <= records@.len(),
            sorted_by_encoding(record_views(out@)),
            record_views(out@).to_multiset() == record_views(records@.take(i as int)).to_multiset(),
            record_views(out@) == encoding_sort(record_views(records@.take(i as int))),
        decreases records@.len() - i,
    {
        let r = records[i].clone();
        let mut p: usize = 0;
        while p < out.len() && out[p].encoding <= r.encoding
            invariant
                p <= out@.len(),
                forall|j: int| 0 <= j < p ==> (#[trigger] out@[j]).encoding <= r.encoding,
            decreases out@.len() - p,
        {
            p = p + 1;
        }
        let ghost before = record_views(out@);
        proof {
            if p < out@.len() {
                assert(out@[p as int].encoding > r.encoding);
            }
        }
        out.insert(p, r);
        proof {
            let v = record_views(out@);
            assert(v =~= before.insert(p as int, r@));
            before.insert_ensures(p as int, r@);
            assert forall|a: int, b: int| 0 <= a < b < v.len() implies (#[trigger] v[a]).encoding
                <= (#[trigger] v[b]).encoding by {
                if a < p && b < p {
                    assert(v[a] == before[a] && v[b] == before[b]);
                } else if a < p && b == p {
                    assert(v[a] == before[a]);
                } else if a < p {
                    assert(v[a] == before[a] && v[b] == before[b - 1]);
                } else if a == p {
                    assert(v[b] == before[b - 1]);
                    assert(before[p as int].encoding > r.encoding);
                    if b - 1 > p {
                        assert(before[p as int].encoding <= before[b - 1].encoding);
                    }
                } else {
                    assert(v[a] == before[a - 1] && v[b] == before[b - 1]);
                }
            }
            lemma_insert_multiset(before, p as int, r@);
            let rv = record_views(records@.take(i + 1));
            assert(rv =~= record_views(records@.take(i as int)).push(records@[i as int]@));
            assert(rv.drop_last() =~= record_views(records@.take(i as int)));
            assert(rv.last() == r@);
            lemma_insert_position_at(before, r@.encoding, p as int);
        }
        i = i + 1;
    }
    assert(records@.take(records@.len() as int) =~= records@);
    out
}

proof fn lemma_grouped_step(
    s: Seq<OutcomeMarketRecordView>,
    key: spec_fn(OutcomeMarketRecordView) -> Option<u32>,
    x: OutcomeMarketRecordView,
)
    ensures
        grouped(s.push(x), key) =~= match key(x) {
            Some(k) => grouped(s, key).insert(
                k,
                if grouped(s, key).contains_key(k) {
                    grouped(s, key)[k].push(x)
                } else {
                    seq![x]
                },
            ),
            None => grouped(s, key),
        },
{
    let t = s.push(x);
    assert forall|k: u32| #![trigger grouped(t, key).contains_key(k)]
        (exists|j: int| 0 <= j < t.len() && key(#[trigger] t[j]) == Some(k)) <==> ((exists|j: int|
            0 <= j < s.len() && key(#[trigger] s[j]) == Some(k)) || key(x) == Some(k)) by {
        if exists|j: int| 0 <= j < t.len() && key(#[trigger] t[j]) == Some(k) {
            let j = choose|j: int| 0 <= j < t.len() && key(#[trigger] t[j]) == Some(k);
            if j < s.len() {
                assert(t[j] == s[j]);
            }
        }
        if exists|j: int| 0 <= j < s.len() && key(#[trigger] s[j]) == Some(k) {
            let j = choose|j: int| 0 <= j < s.len() && key(#[trigger] s[j]) == Some(k);
            assert(t[j] == s[j]);
        }
        if key(x) == Some(k) {
            assert(t[s.len() as int] == x);
        }
    }
    assert forall|k: u32| #[trigger] grouped(t, key).contains_key(k) implies with_key(t, key, k)
        == (if key(x) == Some(k) {
        if grouped(s, key).contains_key(k) {
            with_key(s, key, k).push(x)
        } else {
            seq![x]
        }
    } else {
        with_key(s, key, k)
    }) by {
        let pred = |r: OutcomeMarketRecordView| key(r) == Some(k);
        s.lemma_filter_push(x, pred);
        if key(x) == Some(k) && !grouped(s, key).contains_key(k) {
            let f = s.filter(pred);
            if f.len() > 0 {
                assert(f.contains(f[0]));
                s.lemma_filter_contains_rev(pred, f[0]);
                s.lemma_filter_pred(pred, 0);
                let j = choose|j: int| 0 <= j < s.len() && s[j] == f[0];
                assert(pred(f[0]));
                assert(key(s[j]) == Some(k));
            }
            assert(f =~= Seq::<OutcomeMarketRecordView>::empty());
            assert(f.push(x) =~= seq![x]);
        }
    }
}

/// Adds `r` at the end of the group of `k`.
fn push_to_group(index: &mut HashMap<u32, Vec<OutcomeMarketRecord>>, k: u32, r: OutcomeMarketRecord)
    ensures
        index_view(*final(index)) == index_view(*old(index)).insert(
            k,
            if index_view(*old(index)).contains_key(k) {
                index_view(*old(index))[k].push(r@)
            } else {
                seq![r@]
            },
        ),
{
    let ghost old_view = index_view(*index);
    let mut group = match index.remove(&k) {
        Some(g) => g,
        None => Vec::new(),
    };
    let ghost g0 = group@;
    group.push(r);
    assert(record_views(group@) =~= record_views(g0).push(r@));
    index.insert(k, group);
    proof {
        if !old_view.contains_key(k) {
            assert(record_views(group@) =~= seq![r@]);
        }
    }
    assert(index_view(*index) =~= old_view.insert(k, record_views(group@)));
}

/// Indexes `records` by outcome and by question, each group ordered by
/// encoding.
pub fn build_indexes(records: &Vec<OutcomeMarketRecord>) -> (r: (
    HashMap<u32, Vec<OutcomeMarketRecord>>,
    HashMap<u32, Vec<OutcomeMarketRecord>>,
))
    ensures
        groups_records(index_view(r.0), record_views(records@), outcome_key()),
        groups_records(index_view(r.1), record_views(records@), question_key()),
        index_view(r.0) == grouped(encoding_sort(record_views(records@)), outcome_key()),
        index_view(r.1) == grouped(encoding_sort(record_views(records@)), question_key()),
{
    let sorted = sort_by_encoding(records);
    let ghost s = record_views(sorted@);
    let mut by_outcome: HashMap<u32, Vec<OutcomeMarketRecord>> = HashMap::new();
    let mut by_question: HashMap<u32, Vec<OutcomeMarketRecord>> = HashMap::new();
    assert(index_view(by_outcome) =~= grouped(s.take(0), outcome_key()));
    assert(index_view(by_question) =~= grouped(s.take(0), question_key()));
    let mut i: usize = 0;
    while i < sorted.len()
        invariant
            i <= sorted@.len(),
            s == record_views(sorted@),
            index_view(by_outcome) == grouped(s.take(i as int), outcome_key()),
            index_view(by_question) == grouped(s.take(i as int), question_key()),
        decreases sorted@.len() - i,
    {
        let r = &sorted[i];
        proof {
            assert(s[i as int] == r@);
            assert(s.take(i + 1) =~= s.take(i as int).push(r@));
            lemma_grouped_step(s.take(i as int), outcome_key(), r@);
            lemma_grouped_step(s.take(i as int), question_key(), r@);
        }
        push_to_group(&mut by_outcome, r.outcome_id, r.clone());
        assert(outcome_key()(r@) == Some(r.outcome_id));
        assert(index_view(by_outcome) =~= grouped(s.take(i + 1), outcome_key()));
        match r.question_id {
            Some(q) => {
                push_to_group(&mut by_question, q, r.clone());
                assert(question_key()(r@) == Some(q));
            },
            None => {
                assert(question_key()(r@) == None::<u32>);
            },
        }
        assert(index_view(by_question) =~= grouped(s.take(i + 1), question_key()));
        i = i + 1;
    }
    proof {
        assert(s.take(s.len() as int) =~= s);
        lemma_grouped_matches(s, record_views(records@), outcome_key());
        lemma_grouped_matches(s, record_views(records@), question_key());
    }
    (by_outcome, by_question)
}

proof fn lemma_grouped_matches(
    s: Seq<OutcomeMarketRecordView>,
    records: Seq<OutcomeMarketRecordView>,
    key: spec_fn(OutcomeMarketRecordView) -> Option<u32>,
)
    requires
        sorted_by_encoding(s),
        s.to_multiset() == records.to_multiset(),
    ensures
        groups_records(grouped(s, key), records, key),
{
    assert forall|k: u32|
        grouped(s, key).contains_key(k) <==> exists|i: int|
            0 <= i < records.len() && key(#[trigger] records[i]) == Some(k) by {
        if exists|j: int| 0 <= j < s.len() && key(#[trigger] s[j]) == Some(k) {
            let j = choose|j: int| 0 <= j < s.len() && key(#[trigger] s[j]) == Some(k);
            assert(s.contains(s[j]));
            assert(records.to_multiset().count(s[j]) > 0);
            assert(records.contains(s[j]));
            let i = choose|i: int| 0 <= i < records.len() && records[i] == s[j];
            assert(key(records[i]) == Some(k));
        }
        if exists|i: int| 0 <= i < records.len() && key(#[trigger] records[i]) == Some(k) {
            let i = choose|i: int| 0 <= i < records.len() && key(#[trigger] records[i]) == Some(k);
            assert(records.contains(records[i]));
            assert(s.to_multiset().count(records[i]) > 0);
            assert(s.contains(records[i]));
            let j = choose|j: int| 0 <= j < s.len() && s[j] == records[i];
            assert(key(s[j]) == Some(k));
        }
    }
    assert forall|k: u32| #[trigger] grouped(s, key).contains_key(k) implies {
        &&& sorted_by_encoding(grouped(s, key)[k])
        &&& grouped(s, key)[k].to_multiset() == records.filter(
            |r: OutcomeMarketRecordView| key(r) == Some(k),
        ).to_multiset()
    } by {
        let pred = |r: OutcomeMarketRecordView| key(r) == Some(k);
        lemma_filter_sorted(s, pred);
        lemma_filter_same_multiset(s, records, pred);
    }
}

} // verus!
