//! The fuzzy matching and scoring rules.
//!
//! A query matches a candidate when the query's characters occur in the
//! candidate's text in order, not necessarily adjacently.  Case handling is
//! "smart": comparison is case-insensitive unless the query itself holds an
//! ASCII capital letter, in which case every position compares exactly.
//! Matched positions are found greedily from the left, and each one earns a
//! bonus: the largest for the very start of the text, a smaller one for
//! extending a contiguous run, and one for starting right after a word
//! boundary.  A match is worth a fixed base score plus those bonuses, plus a
//! final bonus when the query equals the whole text; scores saturate instead
//! of overflowing.  An empty query matches everything and is worth the base
//! score alone (plus the exact bonus on an empty candidate), so empty-query
//! scores are deterministic and uniform.

use vstd::prelude::*;
use vstd::string::StrSliceExecFns;

use crate::text::{
    exec_fold_char, exec_is_boundary, fold_char, has_ascii_upper, is_boundary,
};
use crate::text::contains_ascii_upper;

verus! {

/// Worth of any match before bonuses; keeps every score strictly positive.
pub const SCORE_BASE: u16 = 64;

/// Bonus for a query character matched at the very start of the text.
pub const BONUS_START: u16 = 16;

/// Bonus for a query character matched right after a word boundary.
pub const BONUS_BOUNDARY: u16 = 12;

/// Bonus for a query character matched right after the previous match.
pub const BONUS_CONTIGUOUS: u16 = 4;

/// Bonus when the query equals the candidate text as a whole.
pub const BONUS_EXACT: u16 = 32;

/// Addition that stops at the largest score instead of wrapping.
pub open spec fn sat_add(a: u16, b: u16) -> u16 {
    if a + b > 65535 {
        65535u16
    } else {
        (a + b) as u16
    }
}

/// One-character comparison under the smart-case rule; `ci` is true when
/// the query holds no ASCII capital letter.
pub open spec fn chars_match(q: char, t: char, ci: bool) -> bool {
    if ci {
        fold_char(q) == fold_char(t)
    } else {
        q == t
    }
}

/// The bonus earned by matching the text character at position `ti`, given
/// whether the previous text character was also matched.
pub open spec fn position_bonus(t: Seq<char>, ti: int, prev_matched: bool) -> u16 {
    if ti == 0 {
        BONUS_START
    } else if prev_matched {
        BONUS_CONTIGUOUS
    } else if is_boundary(t[ti - 1]) {
        BONUS_BOUNDARY
    } else {
        0u16
    }
}

/// Greedy placement of `q[qi..]` inside `t[ti..]`: the summed positional
/// bonuses of the leftmost match, or `None` when the rest of the query
/// cannot be placed in order.
pub open spec fn bonus_from(
    q: Seq<char>,
    t: Seq<char>,
    qi: int,
    ti: int,
    prev_matched: bool,
    ci: bool,
) -> Option<u16>
    decreases t.len() - ti,
{
    if qi >= q.len() {
        Some(0u16)
    } else if ti >= t.len() {
        None
    } else if chars_match(q[qi], t[ti], ci) {
        match bonus_from(q, t, qi + 1, ti + 1, true, ci) {
            Some(s) => Some(sat_add(s, position_bonus(t, ti, prev_matched))),
            None => None,
        }
    } else {
        bonus_from(q, t, qi, ti + 1, false, ci)
    }
}

/// Whole-string equality under the smart-case rule.
pub open spec fn exact_match(q: Seq<char>, t: Seq<char>, ci: bool) -> bool {
    q.len() == t.len() && (forall|i: int| 0 <= i < q.len() ==> chars_match(q[i], t[i], ci))
}

/// Whether the query matches the candidate text at all.
pub open spec fn query_matches(q: Seq<char>, t: Seq<char>) -> bool {
    bonus_from(q, t, 0, 0, false, !has_ascii_upper(q)) is Some
}

/// The score of a candidate: `None` for no match, otherwise base score plus
/// positional bonuses plus the exact-equality bonus, saturating.
pub open spec fn match_score(q: Seq<char>, t: Seq<char>) -> Option<u16> {
    let ci = !has_ascii_upper(q);
    match bonus_from(q, t, 0, 0, false, ci) {
        Some(b) => Some(
            sat_add(
                sat_add(b, SCORE_BASE),
                if exact_match(q, t, ci) {
                    BONUS_EXACT
                } else {
                    0u16
                },
            ),
        ),
        None => None,
    }
}

/// Every score the engine hands out is strictly positive.
pub proof fn lemma_score_positive(q: Seq<char>, t: Seq<char>)
    ensures
        match_score(q, t) matches Some(s) ==> s > 0,
{
}

/// An empty query matches every candidate text.
pub proof fn lemma_empty_query_matches(q: Seq<char>, t: Seq<char>)
    requires
        q.len() == 0,
    ensures
        query_matches(q, t),
        match_score(q, t) is Some,
{
}

/// A witness that `q[qi..]` occurs inside `t[ti..]` as an ordered
/// subsequence: `pos` lists the matched text positions, strictly increasing,
/// each comparing under the smart-case rule.
pub open spec fn is_witness(
    q: Seq<char>,
    t: Seq<char>,
    qi: int,
    ti: int,
    ci: bool,
    pos: Seq<int>,
) -> bool {
    &&& pos.len() == q.len() - qi
    &&& (forall|k: int| 0 <= k < pos.len() ==> ti <= #[trigger] pos[k] < t.len())
    &&& (forall|k: int| 0 <= k < pos.len() - 1 ==> #[trigger] pos[k] < pos[k + 1])
    &&& (forall|k: int| 0 <= k < pos.len() ==> chars_match(q[qi + k], t[#[trigger] pos[k]], ci))
}

/// The query's characters occur in the text in order, under the given case
/// mode.
pub open spec fn subsequence_of(q: Seq<char>, t: Seq<char>, ci: bool) -> bool {
    exists|pos: Seq<int>| #[trigger] is_witness(q, t, 0, 0, ci, pos)
}

#[verifier::rlimit(50)]
proof fn lemma_bonus_from_gives_witness(
    q: Seq<char>,
    t: Seq<char>,
    qi: int,
    ti: int,
    prev_matched: bool,
    ci: bool,
)
    requires
        0 <= qi <= q.len(),
        0 <= ti <= t.len(),
        bonus_from(q, t, qi, ti, prev_matched, ci) is Some,
    ensures
        exists|pos: Seq<int>| #[trigger] is_witness(q, t, qi, ti, ci, pos),
    decreases t.len() - ti,
{
    if qi >= q.len() {
        let pos = Seq::<int>::empty();
        assert(is_witness(q, t, qi, ti, ci, pos));
    } else if chars_match(q[qi], t[ti], ci) && bonus_from(q, t, qi + 1, ti + 1, true, ci)
        is Some {
        lemma_bonus_from_gives_witness(q, t, qi + 1, ti + 1, true, ci);
        let rest = choose|pos: Seq<int>| #[trigger] is_witness(q, t, qi + 1, ti + 1, ci, pos);
        let pos = seq![ti] + rest;
        assert forall|k: int| 0 <= k < pos.len() implies chars_match(
            q[qi + k],
            t[#[trigger] pos[k]],
            ci,
        ) by {
            if k > 0 {
                assert(chars_match(q[qi + 1 + (k - 1)], t[rest[k - 1]], ci));
            }
        }
        assert(is_witness(q, t, qi, ti, ci, pos));
    } else {
        lemma_bonus_from_gives_witness(q, t, qi, ti + 1, false, ci);
        let rest = choose|pos: Seq<int>| #[trigger] is_witness(q, t, qi, ti + 1, ci, pos);
        assert(is_witness(q, t, qi, ti, ci, rest));
    }
}

#[verifier::rlimit(50)]
proof fn lemma_witness_gives_bonus_from(
    q: Seq<char>,
    t: Seq<char>,
    qi: int,
    ti: int,
    prev_matched: bool,
    ci: bool,
    pos: Seq<int>,
)
    requires
        0 <= qi <= q.len(),
        0 <= ti <= t.len(),
        is_witness(q, t, qi, ti, ci, pos),
    ensures
        bonus_from(q, t, qi, ti, prev_matched, ci) is Some,
    decreases t.len() - ti,
{
    if qi >= q.len() {
    } else {
        assert(chars_match(q[qi + 0], t[pos[0]], ci));
        if chars_match(q[qi], t[ti], ci) {
            let rest = pos.drop_first();
            if pos[0] == ti {
                assert forall|k: int| 0 <= k < rest.len() implies ti + 1 <= #[trigger] rest[k]
                    < t.len() by {
                    assert(pos[k] < pos[k + 1]);
                    assert(ti <= pos[k]);
                }
            } else {
                assert(pos[0] > ti);
                assert forall|k: int| 0 <= k < rest.len() implies ti + 1 <= #[trigger] rest[k]
                    < t.len() by {
                    assert(pos[k] < pos[k + 1]);
                    assert(ti <= pos[k]);
                }
            }
            assert forall|k: int| 0 <= k < rest.len() implies chars_match(
                q[qi + 1 + k],
                t[#[trigger] rest[k]],
                ci,
            ) by {
                assert(chars_match(q[qi + (k + 1)], t[pos[k + 1]], ci));
            }
            assert(is_witness(q, t, qi + 1, ti + 1, ci, rest));
            lemma_witness_gives_bonus_from(q, t, qi + 1, ti + 1, true, ci, rest);
        } else {
            assert(pos[0] != ti);
            assert forall|k: int| 0 <= k < pos.len() implies ti + 1 <= #[trigger] pos[k]
                < t.len() by {
                if k == 0 {
                    assert(ti <= pos[0]);
                } else {
                    assert(pos[k - 1] < pos[k]);
                    assert(ti <= pos[k - 1]);
                }
            }
            assert(is_witness(q, t, qi, ti + 1, ci, pos));
            lemma_witness_gives_bonus_from(q, t, qi, ti + 1, false, ci, pos);
        }
    }
}

/// The matcher accepts a query exactly when its characters occur in the
/// candidate text as an ordered subsequence, compared case-insensitively
/// when the query holds no ASCII capital letter and exactly otherwise.
pub proof fn lemma_match_iff_subsequence(q: Seq<char>, t: Seq<char>)
    ensures
        query_matches(q, t) <==> subsequence_of(q, t, !has_ascii_upper(q)),
        match_score(q, t) is Some <==> subsequence_of(q, t, !has_ascii_upper(q)),
{
    let ci = !has_ascii_upper(q);
    if query_matches(q, t) {
        lemma_bonus_from_gives_witness(q, t, 0, 0, false, ci);
    }
    if subsequence_of(q, t, ci) {
        let pos = choose|pos: Seq<int>| #[trigger] is_witness(q, t, 0, 0, ci, pos);
        lemma_witness_gives_bonus_from(q, t, 0, 0, false, ci, pos);
    }
}

/// The smart-case law: a query with an ASCII capital letter matches only
/// exact-case occurrences, while an all-lowercase query matches with case
/// folded away on both sides.
pub proof fn lemma_smart_case(q: Seq<char>, t: Seq<char>)
    ensures
        has_ascii_upper(q) ==> (query_matches(q, t) <==> subsequence_of(q, t, false)),
        !has_ascii_upper(q) ==> (query_matches(q, t) <==> subsequence_of(q, t, true)),
{
    lemma_match_iff_subsequence(q, t);
}

/// Saturating addition of two scores.
pub fn exec_sat_add(a: u16, b: u16) -> (r: u16)
    ensures
        r == sat_add(a, b),
{
    if a as u32 + b as u32 > 65535 {
        65535u16
    } else {
        a + b
    }
}

/// Compares one query character with one text character.
fn exec_chars_match(q: char, t: char, ci: bool) -> (r: bool)
    ensures
        r == chars_match(q, t, ci),
{
    if ci {
        exec_fold_char(q) == exec_fold_char(t)
    } else {
        q == t
    }
}

/// Greedy matcher over string slices, mirroring `bonus_from`.
fn exec_bonus_from(
    q: &str,
    t: &str,
    qn: usize,
    tn: usize,
    qi: usize,
    ti: usize,
    prev_matched: bool,
    ci: bool,
) -> (r: Option<u16>)
    requires
        qn == q@.len(),
        tn == t@.len(),
        qi <= qn,
        ti <= tn,
    ensures
        r == bonus_from(q@, t@, qi as int, ti as int, prev_matched, ci),
    decreases tn - ti,
{
    if qi >= qn {
        Some(0u16)
    } else if ti >= tn {
        None
    } else {
        let qc = q.get_char(qi);
        let tc = t.get_char(ti);
        if exec_chars_match(qc, tc, ci) {
            match exec_bonus_from(q, t, qn, tn, qi + 1, ti + 1, true, ci) {
                Some(s) => {
                    let bonus: u16 = if ti == 0 {
                        BONUS_START
                    } else if prev_matched {
                        BONUS_CONTIGUOUS
                    } else if exec_is_boundary(t.get_char(ti - 1)) {
                        BONUS_BOUNDARY
                    } else {
                        0u16
                    };
                    Some(exec_sat_add(s, bonus))
                },
                None => None,
            }
        } else {
            exec_bonus_from(q, t, qn, tn, qi, ti + 1, false, ci)
        }
    }
}

/// Whole-string comparison under the smart-case rule.
fn exec_exact_match(q: &str, t: &str, qn: usize, tn: usize, ci: bool) -> (r: bool)
    requires
        qn == q@.len(),
        tn == t@.len(),
    ensures
        r == exact_match(q@, t@, ci),
{
    if qn != tn {
        return false;
    }
    let mut i: usize = 0;
    while i < qn
        invariant
            qn == q@.len(),
            tn == t@.len(),
            qn == tn,
            i <= qn,
            forall|j: int| 0 <= j < i ==> chars_match(q@[j], t@[j], ci),
        decreases qn - i,
    {
        if !exec_chars_match(q.get_char(i), t.get_char(i), ci) {
            return false;
        }
        i = i + 1;
    }
    true
}

/// Scores one candidate text against a query: `None` for no match,
/// otherwise the positive score that `match_score` defines.
pub fn score(q: &str, t: &str) -> (r: Option<u16>)
    ensures
        r == match_score(q@, t@),
        r matches Some(s) ==> s > 0,
{
    let ci = !contains_ascii_upper(q);
    let qn = q.unicode_len();
    let tn = t.unicode_len();
    match exec_bonus_from(q, t, qn, tn, 0, 0, false, ci) {
        Some(b) => {
            let exact = exec_exact_match(q, t, qn, tn, ci);
            let extra: u16 = if exact {
                BONUS_EXACT
            } else {
                0u16
            };
            Some(exec_sat_add(exec_sat_add(b, SCORE_BASE), extra))
        },
        None => None,
    }
}

} // verus!
