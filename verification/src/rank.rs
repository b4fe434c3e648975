//! The ranking engine: scores a collection of candidates against a query.
//!
//! A candidate is anything that offers a searchable text through the
//! [`TextView`] capability; whatever else it carries rides along untouched.
//! `rank` keeps exactly the matching candidates, pairs each with its score,
//! and emits them in candidate input order, so ties keep their original
//! relative order.  The engine never fails: its worst answer is empty.
//! It also keeps no scratch state between calls: there is no shared
//! mutable resource to serialize, concurrent calls cannot observe one
//! another, and repeated calls with the same inputs return the same
//! scores.

use vstd::prelude::*;
use vstd::seq_lib::*;

use crate::matcher::{match_score, query_matches, score, subsequence_of};
use crate::text::has_ascii_upper;

verus! {

/// The capability of producing a searchable text; the engine is generic
/// over it, examining nothing of a candidate but this projection.
pub trait TextView {
    /// The candidate's searchable text, as the engine reasons about it.
    spec fn text_view(&self) -> Seq<char>;

    /// The candidate's searchable text.
    fn text(&self) -> (r: &str)
        ensures
            r@ == self.text_view(),
    ;
}

impl TextView for String {
    open spec fn text_view(&self) -> Seq<char> {
        self@
    }

    fn text(&self) -> (r: &str) {
        self.as_str()
    }
}

/// What ranking returns: the matching candidates in input order, each
/// paired with its positive score.
pub open spec fn ranked<T: TextView>(q: Seq<char>, items: Seq<T>) -> Seq<(T, u16)>
    decreases items.len(),
{
    if items.len() == 0 {
        Seq::empty()
    } else {
        let rest = ranked(q, items.drop_first());
        match match_score(q, items[0].text_view()) {
            Some(s) => seq![(items[0], s)] + rest,
            None => rest,
        }
    }
}

/// Scores every candidate against the query and keeps the matches, paired
/// with their scores, in candidate input order.
pub fn rank<T: TextView>(q: &str, items: Vec<T>) -> (r: Vec<(T, u16)>)
    ensures
        r@ == ranked(q@, items@),
{
    let ghost orig = items@;
    let mut items = items;
    let mut out: Vec<(T, u16)> = Vec::new();
    proof {
        assert(out@ + ranked(q@, items@) =~= ranked(q@, orig));
    }
    while items.len() > 0
        invariant
            ranked(q@, orig) == out@ + ranked(q@, items@),
        decreases items.len(),
    {
        let ghost before = items@;
        let x = items.remove(0);
        proof {
            assert(items@ =~= before.drop_first());
        }
        match score(q, x.text()) {
            Some(s) => {
                let ghost out_before = out@;
                out.push((x, s));
                proof {
                    assert(out@ + ranked(q@, items@) =~= out_before + ranked(q@, before));
                }
            },
            None => {
                proof {
                    assert(ranked(q@, before) == ranked(q@, items@));
                }
            },
        }
    }
    proof {
        assert(out@ + ranked(q@, items@) =~= out@);
    }
    out
}

/// Every returned pair is a candidate whose text the query matches, with
/// the score the matcher defines, strictly positive.
pub proof fn lemma_rank_only_matches<T: TextView>(q: Seq<char>, items: Seq<T>)
    ensures
        forall|i: int|
            0 <= i < ranked(q, items).len() ==> {
                &&& query_matches(q, #[trigger] ranked(q, items)[i].0.text_view())
                &&& match_score(q, ranked(q, items)[i].0.text_view()) == Some(
                    ranked(q, items)[i].1,
                )
                &&& ranked(q, items)[i].1 > 0
            },
    decreases items.len(),
{
    if items.len() > 0 {
        lemma_rank_only_matches(q, items.drop_first());
        crate::matcher::lemma_score_positive(q, items[0].text_view());
    }
}

/// An empty query keeps every candidate, exactly once, in input order.
pub proof fn lemma_rank_empty_query<T: TextView>(q: Seq<char>, items: Seq<T>)
    requires
        q.len() == 0,
    ensures
        ranked(q, items).len() == items.len(),
        forall|i: int| 0 <= i < items.len() ==> (#[trigger] ranked(q, items)[i]).0 == items[i],
    decreases items.len(),
{
    if items.len() > 0 {
        crate::matcher::lemma_empty_query_matches(q, items[0].text_view());
        lemma_rank_empty_query(q, items.drop_first());
    }
}

/// Ranking the same query and candidates again yields the same answer:
/// the result is a function of the inputs alone.
pub proof fn lemma_rank_deterministic<T: TextView>(
    q: Seq<char>,
    items: Seq<T>,
    r1: Seq<(T, u16)>,
    r2: Seq<(T, u16)>,
)
    requires
        r1 == ranked(q, items),
        r2 == ranked(q, items),
    ensures
        r1 == r2,
{
}

/// Every candidate the engine returns contains the query's characters as
/// an ordered subsequence — compared case-insensitively when the query is
/// all-lowercase, exactly otherwise — and carries a strictly positive
/// score.
pub proof fn lemma_rank_returns_subsequences<T: TextView>(q: Seq<char>, items: Seq<T>)
    ensures
        forall|i: int|
            0 <= i < ranked(q, items).len() ==> {
                &&& subsequence_of(q, (#[trigger] ranked(q, items)[i]).0.text_view(), !has_ascii_upper(q))
                &&& ranked(q, items)[i].1 > 0
            },
{
    lemma_rank_only_matches(q, items);
    assert forall|i: int| 0 <= i < ranked(q, items).len() implies {
        &&& subsequence_of(q, (#[trigger] ranked(q, items)[i]).0.text_view(), !has_ascii_upper(q))
        &&& ranked(q, items)[i].1 > 0
    } by {
        crate::matcher::lemma_match_iff_subsequence(q, ranked(q, items)[i].0.text_view());
    }
}

/// Stability: the candidates the engine returns are the matching ones in
/// candidate input order, so two candidates keep their relative order.
pub proof fn lemma_rank_stable<T: TextView>(q: Seq<char>, items: Seq<T>)
    ensures
        ranked(q, items).map_values(|p: (T, u16)| p.0) == items.filter(
            |x: T| query_matches(q, x.text_view()),
        ),
    decreases items.len(),
{
    broadcast use Seq::filter_distributes_over_add;

    reveal_with_fuel(Seq::filter, 3);
    let pred = |x: T| query_matches(q, x.text_view());
    if items.len() == 0 {
        assert(ranked(q, items).map_values(|p: (T, u16)| p.0) =~= items.filter(pred));
    } else {
        lemma_rank_stable(q, items.drop_first());
        assert(items =~= seq![items[0]] + items.drop_first());
        assert(seq![items[0]].drop_last() =~= Seq::<T>::empty());
        assert(Seq::<T>::empty().filter(pred) =~= Seq::<T>::empty());
        assert(seq![items[0]].last() == items[0]);
        assert(seq![items[0]].filter(pred) =~= if pred(items[0]) {
            seq![items[0]]
        } else {
            Seq::empty()
        });
        assert(ranked(q, items).map_values(|p: (T, u16)| p.0) =~= items.filter(pred));
    }
}

} // verus!
