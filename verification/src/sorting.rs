//! Insertion into a sorted sequence, as the queries' orderings are
//! specified: `insert_sorted_by` places a new element after every
//! element it compares less-or-equal against, so equal keys keep their
//! first-come order and the sort is stable.

use vstd::prelude::*;

verus! {

/// `x` inserted after every prefix element `e` with `leq(e, x)`.
pub open spec fn insert_sorted_by<A>(s: Seq<A>, x: A, leq: spec_fn(A, A) -> bool) -> Seq<A>
    decreases s.len(),
{
    if s.len() == 0 {
        seq![x]
    } else if leq(s[0], x) {
        seq![s[0]] + insert_sorted_by(s.drop_first(), x, leq)
    } else {
        seq![x] + s
    }
}

/// Stable insertion sort of `s` under `leq`, first element inserted first.
pub open spec fn sort_by_asc<A>(s: Seq<A>, leq: spec_fn(A, A) -> bool) -> Seq<A>
    decreases s.len(),
{
    if s.len() == 0 {
        Seq::empty()
    } else {
        insert_sorted_by(sort_by_asc(s.drop_last(), leq), s.last(), leq)
    }
}

/// The sequence is non-decreasing under `leq`.
pub open spec fn sorted_by<A>(s: Seq<A>, leq: spec_fn(A, A) -> bool) -> bool {
    forall|i: int, j: int| 0 <= i < j < s.len() ==> leq(s[i], s[j])
}

/// Inserting at the position an exec scan finds is what
/// [`insert_sorted_by`] means: splice `x` in at `idx`.
pub proof fn lemma_insert_sorted_by_at<A>(s: Seq<A>, x: A, leq: spec_fn(A, A) -> bool, idx: int)
    requires
        0 <= idx <= s.len(),
        forall|k: int| 0 <= k < idx ==> leq(s[k], x),
        idx < s.len() ==> !leq(s[idx], x),
    ensures
        insert_sorted_by(s, x, leq) == s.take(idx) + seq![x] + s.skip(idx),
    decreases idx,
{
    if s.len() == 0 {
        assert(s.take(0) + seq![x] + s.skip(0) =~= seq![x]);
    } else if idx == 0 {
        assert(!leq(s[0], x));
        assert(s.take(0) + seq![x] + s.skip(0) =~= seq![x] + s);
    } else {
        let rest = s.drop_first();
        assert forall|k: int| 0 <= k < idx - 1 implies leq(rest[k], x) by {
            assert(rest[k] == s[k + 1]);
        }
        assert(idx - 1 < rest.len() ==> !leq(rest[idx - 1], x)) by {
            if idx - 1 < rest.len() {
                assert(rest[idx - 1] == s[idx]);
            }
        }
        lemma_insert_sorted_by_at(rest, x, leq, idx - 1);
        assert(seq![s[0]] + (rest.take(idx - 1) + seq![x] + rest.skip(idx - 1)) =~= s.take(idx)
            + seq![x] + s.skip(idx));
    }
}

/// Sorting one more element is one more insertion.
pub proof fn lemma_sort_by_asc_push<A>(s: Seq<A>, x: A, leq: spec_fn(A, A) -> bool)
    ensures
        sort_by_asc(s.push(x), leq) == insert_sorted_by(sort_by_asc(s, leq), x, leq),
{
    assert(s.push(x).len() == s.len() + 1);
    assert(s.push(x).drop_last() =~= s);
    assert(s.push(x).last() == x);
}

/// Insertion keeps the length plus one.
pub proof fn lemma_insert_sorted_by_len<A>(s: Seq<A>, x: A, leq: spec_fn(A, A) -> bool)
    ensures
        insert_sorted_by(s, x, leq).len() == s.len() + 1,
    decreases s.len(),
{
    if s.len() > 0 && leq(s[0], x) {
        lemma_insert_sorted_by_len(s.drop_first(), x, leq);
    }
}

/// The sort is a permutation: same elements with the same counts.
pub proof fn lemma_insert_sorted_by_multiset<A>(s: Seq<A>, x: A, leq: spec_fn(A, A) -> bool)
    ensures
        insert_sorted_by(s, x, leq).to_multiset() == s.push(x).to_multiset(),
    decreases s.len(),
{
    broadcast use vstd::seq_lib::group_to_multiset_ensures;

    if s.len() == 0 {
        assert(seq![x] =~= Seq::<A>::empty().push(x));
    } else if leq(s[0], x) {
        lemma_insert_sorted_by_multiset(s.drop_first(), x, leq);
        let rec = insert_sorted_by(s.drop_first(), x, leq);
        assert((seq![s[0]] + rec).to_multiset() == rec.to_multiset().insert(s[0])) by {
            assert(seq![s[0]] + rec =~= rec.insert(0, s[0]));
        }
        assert(s.drop_first().push(x).to_multiset() == s.drop_first().to_multiset().insert(x));
        assert(s.push(x).to_multiset() == s.to_multiset().insert(x));
        assert(s.to_multiset() == s.drop_first().to_multiset().insert(s[0])) by {
            assert(s =~= s.drop_first().insert(0, s[0]));
        }
    } else {
        assert(seq![x] + s =~= s.insert(0, x));
        assert(s.push(x).to_multiset() == s.to_multiset().insert(x));
    }
}

/// The whole sort is a permutation of its input.
pub proof fn lemma_sort_by_asc_multiset<A>(s: Seq<A>, leq: spec_fn(A, A) -> bool)
    ensures
        sort_by_asc(s, leq).to_multiset() == s.to_multiset(),
    decreases s.len(),
{
    broadcast use vstd::seq_lib::group_to_multiset_ensures;

    if s.len() > 0 {
        lemma_sort_by_asc_multiset(s.drop_last(), leq);
        lemma_insert_sorted_by_multiset(sort_by_asc(s.drop_last(), leq), s.last(), leq);
        assert(s.drop_last().push(s.last()) =~= s);
        assert(sort_by_asc(s.drop_last(), leq).push(s.last()).to_multiset() == sort_by_asc(
            s.drop_last(),
            leq,
        ).to_multiset().insert(s.last()));
        assert(s.drop_last().push(s.last()).to_multiset() == s.drop_last().to_multiset().insert(
            s.last(),
        ));
    }
}

/// Inserting into a sorted sequence keeps it sorted, for a total,
/// transitive `leq`.
pub proof fn lemma_insert_sorted_by_sorted<A>(s: Seq<A>, x: A, leq: spec_fn(A, A) -> bool)
    requires
        forall|a: A, b: A| #[trigger] leq(a, b) || #[trigger] leq(b, a),
        forall|a: A, b: A, c: A| #[trigger] leq(a, b) && #[trigger] leq(b, c) ==> leq(a, c),
        sorted_by(s, leq),
    ensures
        sorted_by(insert_sorted_by(s, x, leq), leq),
    decreases s.len(),
{
    lemma_insert_sorted_by_len(s, x, leq);
    if s.len() == 0 {
    } else if leq(s[0], x) {
        assert(sorted_by(s.drop_first(), leq)) by {
            assert(forall|i: int, j: int| 0 <= i < j < s.drop_first().len() ==> leq(
                #[trigger] s.drop_first()[i],
                #[trigger] s.drop_first()[j],
            ));
        }
        lemma_insert_sorted_by_sorted(s.drop_first(), x, leq);
        let rec = insert_sorted_by(s.drop_first(), x, leq);
        let out = seq![s[0]] + rec;
        lemma_insert_sorted_by_multiset(s.drop_first(), x, leq);
        broadcast use vstd::seq_lib::group_to_multiset_ensures;

        assert forall|i: int, j: int| 0 <= i < j < out.len() implies leq(out[i], out[j]) by {
            if i == 0 {
                assert(out[j] == rec[j - 1]);
                assert(rec.to_multiset() == s.drop_first().push(x).to_multiset());
                assert(rec.to_multiset().contains(rec[j - 1]));
                assert(s.drop_first().push(x).to_multiset().contains(rec[j - 1]));
                assert(s.drop_first().push(x).contains(rec[j - 1]));
                let w = choose|w: int|
                    0 <= w < s.drop_first().push(x).len() && s.drop_first().push(x)[w] == rec[j
                        - 1];
                if w < s.drop_first().len() {
                    assert(s.drop_first()[w] == s[w + 1]);
                    assert(leq(s[0], s[w + 1]));
                } else {
                    assert(s.drop_first().push(x)[w] == x);
                    assert(leq(s[0], x));
                }
            } else {
                assert(out[i] == rec[i - 1] && out[j] == rec[j - 1]);
            }
        }
    } else {
        let out = seq![x] + s;
        assert forall|i: int, j: int| 0 <= i < j < out.len() implies leq(out[i], out[j]) by {
            if i == 0 {
                assert(out[j] == s[j - 1]);
                assert(leq(x, s[0]));
                if j > 1 {
                    assert(leq(s[0], s[j - 1]));
                }
            } else {
                assert(out[i] == s[i - 1] && out[j] == s[j - 1]);
            }
        }
    }
}

/// The sort's output is sorted, for a total, transitive `leq`.
pub proof fn lemma_sort_by_asc_sorted<A>(s: Seq<A>, leq: spec_fn(A, A) -> bool)
    requires
        forall|a: A, b: A| #[trigger] leq(a, b) || #[trigger] leq(b, a),
        forall|a: A, b: A, c: A| #[trigger] leq(a, b) && #[trigger] leq(b, c) ==> leq(a, c),
    ensures
        sorted_by(sort_by_asc(s, leq), leq),
    decreases s.len(),
{
    if s.len() > 0 {
        lemma_sort_by_asc_sorted(s.drop_last(), leq);
        lemma_insert_sorted_by_sorted(sort_by_asc(s.drop_last(), leq), s.last(), leq);
    }
}

/// Sorting an already-sorted sequence returns it unchanged.
pub proof fn lemma_sort_by_asc_of_sorted<A>(s: Seq<A>, leq: spec_fn(A, A) -> bool)
    requires
        sorted_by(s, leq),
    ensures
        sort_by_asc(s, leq) == s,
    decreases s.len(),
{
    if s.len() > 0 {
        let d = s.drop_last();
        assert(sorted_by(d, leq)) by {
            assert forall|i: int, j: int| 0 <= i < j < d.len() implies leq(d[i], d[j]) by {
                assert(d[i] == s[i] && d[j] == s[j]);
            }
        }
        lemma_sort_by_asc_of_sorted(d, leq);
        assert forall|k: int| 0 <= k < d.len() implies leq(d[k], s.last()) by {
            assert(d[k] == s[k]);
            assert(s.last() == s[s.len() - 1]);
        }
        lemma_insert_sorted_by_at(d, s.last(), leq, d.len() as int);
        assert(d.take(d.len() as int) + seq![s.last()] + d.skip(d.len() as int) =~= s);
    }
}


} // verus!
