//! Ordering of scored candidates: the caller-side policy of sorting by
//! descending score — stably, so equal scores keep their input order — and
//! truncating to a configured number of entries.

use vstd::prelude::*;
use vstd::seq_lib::*;

use crate::rank::{rank, ranked, TextView};

verus! {

/// Scores in the sequence never increase from left to right.
pub open spec fn sorted_desc<T>(s: Seq<(T, u16)>) -> bool {
    forall|i: int, j: int| 0 <= i < j < s.len() ==> s[i].1 >= s[j].1
}

/// One step of a stable descending sort: the new pair goes behind every
/// earlier pair whose score is at least as high.
pub open spec fn insert_desc<T>(s: Seq<(T, u16)>, x: (T, u16)) -> Seq<(T, u16)>
    decreases s.len(),
{
    if s.len() == 0 {
        seq![x]
    } else if s[0].1 >= x.1 {
        seq![s[0]] + insert_desc(s.drop_first(), x)
    } else {
        seq![x] + s
    }
}

/// Stable sort by descending score.
pub open spec fn sort_desc<T>(s: Seq<(T, u16)>) -> Seq<(T, u16)>
    decreases s.len(),
{
    if s.len() == 0 {
        Seq::empty()
    } else {
        insert_desc(sort_desc(s.drop_last()), s.last())
    }
}

/// At most the first `n` elements of a sequence.
pub open spec fn take_at_most<T>(s: Seq<T>, n: int) -> Seq<T> {
    if n < s.len() {
        s.take(n)
    } else {
        s
    }
}

proof fn lemma_insert_desc_props<T>(s: Seq<(T, u16)>, x: (T, u16))
    ensures
        insert_desc(s, x).len() == s.len() + 1,
        forall|k: int|
            0 <= k < insert_desc(s, x).len() ==> (#[trigger] insert_desc(s, x)[k] == x
                || s.contains(insert_desc(s, x)[k])),
        sorted_desc(s) ==> sorted_desc(insert_desc(s, x)),
        insert_desc(s, x).to_multiset() == s.push(x).to_multiset(),
    decreases s.len(),
{
    broadcast use lemma_multiset_commutative;
    broadcast use vstd::multiset::group_multiset_axioms;

    if s.len() == 0 {
        assert(seq![x] =~= s.push(x));
    } else if s[0].1 >= x.1 {
        let rest = s.drop_first();
        lemma_insert_desc_props(rest, x);
        assert(s =~= seq![s[0]] + rest);
        let r = seq![s[0]] + insert_desc(rest, x);
        assert forall|k: int| 0 <= k < r.len() implies (#[trigger] r[k] == x || s.contains(
            r[k],
        )) by {
            if k == 0 {
                assert(s[0] == r[0]);
            } else {
                let y = insert_desc(rest, x)[k - 1];
                if y != x {
                    let j = choose|j: int| 0 <= j < rest.len() && rest[j] == y;
                    assert(s[j + 1] == y);
                }
            }
        }
        if sorted_desc(s) {
            assert forall|i: int| 0 <= i < rest.len() implies rest[i].1 <= s[0].1 by {
                assert(s[i + 1] == rest[i]);
            }
            assert forall|i: int, j: int| 0 <= i < j < r.len() implies r[i].1 >= r[j].1 by {
                if i > 0 {
                    assert(insert_desc(rest, x)[i - 1].1 >= insert_desc(rest, x)[j - 1].1);
                } else {
                    let y = insert_desc(rest, x)[j - 1];
                    assert(y == x || rest.contains(y));
                }
            }
        }
        assert(s.push(x) =~= seq![s[0]] + rest.push(x));
        assert(r.to_multiset() == (seq![s[0]]).to_multiset().add(insert_desc(rest, x).to_multiset()));
        assert(s.push(x).to_multiset() == (seq![s[0]]).to_multiset().add(rest.push(x).to_multiset()));
    } else {
        let r = seq![x] + s;
        assert forall|k: int| 0 <= k < r.len() implies (#[trigger] r[k] == x || s.contains(
            r[k],
        )) by {
            if k > 0 {
                assert(s[k - 1] == r[k]);
            }
        }
        if sorted_desc(s) {
            assert forall|i: int, j: int| 0 <= i < j < r.len() implies r[i].1 >= r[j].1 by {
                if i > 0 {
                    assert(s[i - 1].1 >= s[j - 1].1);
                }
            }
        }
        r.to_multiset_ensures();
        s.to_multiset_ensures();
        assert(r.remove(0) =~= s);
        assert(r[0] == x);
        assert(r.contains(x));
        assert(s.to_multiset() == r.to_multiset().remove(x));
        assert(s.push(x).to_multiset() =~= s.to_multiset().insert(x));
        assert(r.to_multiset().remove(x).insert(x) =~= r.to_multiset());
    }
}

/// Sorting reorders but neither drops, invents nor rescores anything: the
/// result is a permutation of the input, ordered by descending score.
pub proof fn lemma_sort_desc_props<T>(s: Seq<(T, u16)>)
    ensures
        sort_desc(s).len() == s.len(),
        sorted_desc(sort_desc(s)),
        sort_desc(s).to_multiset() == s.to_multiset(),
    decreases s.len(),
{
    broadcast use vstd::multiset::group_multiset_axioms;

    if s.len() == 0 {
        assert(sort_desc(s) =~= s);
    } else {
        let dl = s.drop_last();
        lemma_sort_desc_props(dl);
        lemma_insert_desc_props(sort_desc(dl), s.last());
        dl.to_multiset_ensures();
        sort_desc(dl).to_multiset_ensures();
        assert(s =~= dl.push(s.last()));
        assert(sort_desc(dl).push(s.last()).to_multiset() =~= sort_desc(dl).to_multiset().insert(
            s.last(),
        ));
        assert(dl.push(s.last()).to_multiset() =~= dl.to_multiset().insert(s.last()));
    }
}

/// The pairs carrying one given score, in sequence order.
pub open spec fn with_score<T>(s: Seq<(T, u16)>, v: u16) -> Seq<(T, u16)> {
    s.filter(|p: (T, u16)| p.1 == v)
}

proof fn lemma_with_score_none<T>(s: Seq<(T, u16)>, v: u16)
    requires
        forall|i: int| 0 <= i < s.len() ==> (#[trigger] s[i]).1 != v,
    ensures
        with_score(s, v) == Seq::<(T, u16)>::empty(),
    decreases s.len(),
{
    reveal_with_fuel(Seq::filter, 2);
    if s.len() > 0 {
        lemma_with_score_none(s.drop_last(), v);
        assert(with_score(s, v) =~= Seq::<(T, u16)>::empty());
    } else {
        assert(with_score(s, v) =~= Seq::<(T, u16)>::empty());
    }
}

proof fn lemma_insert_desc_with_score<T>(s: Seq<(T, u16)>, x: (T, u16), v: u16)
    requires
        sorted_desc(s),
    ensures
        x.1 == v ==> with_score(insert_desc(s, x), v) == with_score(s, v).push(x),
        x.1 != v ==> with_score(insert_desc(s, x), v) == with_score(s, v),
    decreases s.len(),
{
    reveal_with_fuel(Seq::filter, 3);
    let pred = |p: (T, u16)| p.1 == v;
    broadcast use Seq::filter_distributes_over_add;

    if s.len() == 0 {
        assert(seq![x].drop_last() =~= Seq::<(T, u16)>::empty());
        if x.1 == v {
            assert(with_score(insert_desc(s, x), v) =~= with_score(s, v).push(x));
        } else {
            assert(with_score(insert_desc(s, x), v) =~= with_score(s, v));
        }
    } else if s[0].1 >= x.1 {
        let rest = s.drop_first();
        assert forall|i: int, j: int| 0 <= i < j < rest.len() implies rest[i].1 >= rest[j].1 by {
            assert(s[i + 1].1 >= s[j + 1].1);
        }
        lemma_insert_desc_with_score(rest, x, v);
        assert(s =~= seq![s[0]] + rest);
        assert(insert_desc(s, x) == seq![s[0]] + insert_desc(rest, x));
        assert(seq![s[0]].drop_last() =~= Seq::<(T, u16)>::empty());
        assert(seq![s[0]].filter(pred) =~= if pred(s[0]) {
            seq![s[0]]
        } else {
            Seq::<(T, u16)>::empty()
        });
        if x.1 == v {
            assert(with_score(insert_desc(s, x), v) =~= seq![s[0]].filter(pred) + with_score(
                rest,
                v,
            ).push(x));
            assert(seq![s[0]].filter(pred) + with_score(rest, v).push(x) =~= (seq![s[0]].filter(
                pred,
            ) + with_score(rest, v)).push(x));
            assert(with_score(s, v) =~= seq![s[0]].filter(pred) + with_score(rest, v));
        } else {
            assert(with_score(insert_desc(s, x), v) =~= with_score(s, v));
        }
    } else {
        assert(insert_desc(s, x) == seq![x] + s);
        assert(seq![x].drop_last() =~= Seq::<(T, u16)>::empty());
        assert(seq![x].filter(pred) =~= if pred(x) {
            seq![x]
        } else {
            Seq::<(T, u16)>::empty()
        });
        if x.1 == v {
            assert forall|i: int| 0 <= i < s.len() implies (#[trigger] s[i]).1 != v by {
                assert(s[0].1 >= s[i].1);
            }
            lemma_with_score_none(s, v);
            assert(with_score(insert_desc(s, x), v) =~= with_score(s, v).push(x));
        } else {
            assert(with_score(insert_desc(s, x), v) =~= with_score(s, v));
        }
    }
}

/// Stability of the caller-side sort: for every score, the pairs carrying
/// it come out of the descending sort in the order they went in, so
/// candidates with equal scores keep their relative order.
pub proof fn lemma_sort_desc_stable<T>(s: Seq<(T, u16)>, v: u16)
    ensures
        with_score(sort_desc(s), v) == with_score(s, v),
    decreases s.len(),
{
    reveal_with_fuel(Seq::filter, 2);
    if s.len() == 0 {
        assert(with_score(sort_desc(s), v) =~= with_score(s, v));
    } else {
        let dl = s.drop_last();
        lemma_sort_desc_stable(dl, v);
        lemma_sort_desc_props(dl);
        lemma_insert_desc_with_score(sort_desc(dl), s.last(), v);
        assert(s =~= dl.push(s.last()));
        assert(s.drop_last() == dl && s.last() == dl.push(s.last()).last());
        if s.last().1 == v {
            assert(with_score(s, v) =~= with_score(dl, v).push(s.last()));
        } else {
            assert(with_score(s, v) =~= with_score(dl, v));
        }
    }
}

proof fn lemma_insert_desc_at<T>(s: Seq<(T, u16)>, x: (T, u16), p: int)
    requires
        0 <= p <= s.len(),
        forall|j: int| 0 <= j < p ==> s[j].1 >= x.1,
        p == s.len() || s[p].1 < x.1,
    ensures
        insert_desc(s, x) == s.insert(p, x),
    decreases s.len(),
{
    if s.len() == 0 {
        assert(insert_desc(s, x) =~= s.insert(0, x));
    } else if p == 0 {
        assert(insert_desc(s, x) =~= s.insert(0, x));
    } else {
        let rest = s.drop_first();
        assert forall|j: int| 0 <= j < p - 1 implies rest[j].1 >= x.1 by {
            assert(s[j + 1] == rest[j]);
        }
        lemma_insert_desc_at(rest, x, p - 1);
        assert(seq![s[0]] + rest.insert(p - 1, x) =~= s.insert(p, x));
    }
}

/// Sorts scored candidates by descending score; pairs with equal scores
/// keep their relative order.
pub fn sort_by_score_desc<T>(items: Vec<(T, u16)>) -> (r: Vec<(T, u16)>)
    ensures
        r@ == sort_desc(items@),
{
    let ghost orig = items@;
    let mut items = items;
    let mut out: Vec<(T, u16)> = Vec::new();
    proof {
        assert(orig.take(0) =~= Seq::<(T, u16)>::empty());
    }
    while items.len() > 0
        invariant
            items@.len() <= orig.len(),
            items@ == orig.skip(orig.len() - items@.len()),
            out@ == sort_desc(orig.take(orig.len() - items@.len())),
        decreases items.len(),
    {
        let ghost before = items@;
        let ghost k = orig.len() - before.len();
        proof {
            assert(before == orig.skip(k));
            assert(0 <= k < orig.len());
        }
        let x = items.remove(0);
        proof {
            assert(x == before[0]);
            assert(before[0] == orig.skip(k)[0]);
            assert(orig.skip(k)[0] == orig[k]);
            assert(items@ =~= orig.skip(k + 1));
            assert(orig.len() - items@.len() == k + 1);
        }
        let mut p: usize = 0;
        while p < out.len() && out[p].1 >= x.1
            invariant
                p <= out.len(),
                forall|j: int| 0 <= j < p ==> out@[j].1 >= x.1,
            decreases out.len() - p,
        {
            p = p + 1;
        }
        proof {
            lemma_insert_desc_at(out@, x, p as int);
            assert(orig.take(k + 1).drop_last() =~= orig.take(k));
            assert(orig.take(k + 1).last() == orig[k]);
        }
        out.insert(p, x);
        proof {
            assert(out@ == sort_desc(orig.take(k + 1)));
        }
    }
    proof {
        assert(orig.take(orig.len() as int) =~= orig);
    }
    out
}

/// The engine call as the plugins make it: score the candidates, keep the
/// matches, and hand them back ordered by descending score, ties in input
/// order.
pub fn fuzzy_match<T: TextView>(pattern: &str, items: Vec<T>) -> (r: Vec<(T, u16)>)
    ensures
        r@ == sort_desc(ranked(pattern@, items@)),
{
    let scored = rank(pattern, items);
    sort_by_score_desc(scored)
}

/// The whole caller-side policy: rank, order by descending score, and keep
/// at most `max_entries` results.
pub fn top_matches<T: TextView>(pattern: &str, items: Vec<T>, max_entries: usize) -> (r: Vec<
    (T, u16),
>)
    ensures
        r@ == take_at_most(sort_desc(ranked(pattern@, items@)), max_entries as int),
{
    let mut scored = fuzzy_match(pattern, items);
    let ghost full = scored@;
    scored.truncate(max_entries);
    proof {
        if max_entries < full.len() {
            assert(full.subrange(0, max_entries as int) =~= full.take(max_entries as int));
        }
    }
    scored
}

} // verus!
