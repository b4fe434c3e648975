//! Clipboard-history entries and the parse of the helper's listing.
//!
//! The helper lists the remembered clipboard as text: one entry per line,
//! the helper's own key for the entry, a tab, then the content.  Lines
//! without a tab carry no entry and are skipped.  Entries are numbered in
//! order of appearance; the number is the identifier the plugin hands to
//! its caller and later looks up again.  Running the helper is I/O and
//! stays outside the library; the parse of its output stands here.

use vstd::prelude::*;
use vstd::string::{StrSliceExecFns, StringExecFns};

use crate::rank::TextView;

verus! {

/// One remembered clipboard entry.
#[derive(Clone)]
pub struct HistoryEntry {
    /// Position among the parsed entries; the identifier the UI sees.
    pub id: u64,
    /// The helper's own key, as listed before the tab.
    pub key: String,
    /// The text after the tab: what is shown and searched.
    pub content: String,
}

impl TextView for HistoryEntry {
    open spec fn text_view(&self) -> Seq<char> {
        self.content@
    }

    fn text(&self) -> (r: &str) {
        self.content.as_str()
    }
}

/// The lines of a text, split on newlines; the text after the last
/// newline is a line too, so there is always at least one line.
pub open spec fn split_lines(s: Seq<char>) -> Seq<Seq<char>>
    decreases s.len(),
{
    if s.len() == 0 {
        seq![s]
    } else if s[0] == '\n' {
        seq![Seq::<char>::empty()] + split_lines(s.drop_first())
    } else {
        let rest = split_lines(s.drop_first());
        seq![seq![s[0]] + rest[0]] + rest.drop_first()
    }
}

/// A line cut at its first tab: the part before it and the part after,
/// or nothing when the line holds no tab.
pub open spec fn tab_split(line: Seq<char>) -> Option<(Seq<char>, Seq<char>)>
    decreases line.len(),
{
    if line.len() == 0 {
        None
    } else if line[0] == '\t' {
        Some((Seq::<char>::empty(), line.drop_first()))
    } else {
        match tab_split(line.drop_first()) {
            Some(p) => Some((seq![line[0]] + p.0, p.1)),
            None => None,
        }
    }
}

/// The (key, content) pairs of the lines that hold a tab, in order.
pub open spec fn parsed_pairs(lines: Seq<Seq<char>>) -> Seq<(Seq<char>, Seq<char>)>
    decreases lines.len(),
{
    if lines.len() == 0 {
        Seq::empty()
    } else {
        let rest = parsed_pairs(lines.drop_first());
        match tab_split(lines[0]) {
            Some(p) => seq![p] + rest,
            None => rest,
        }
    }
}

/// What a helper listing parses to.
pub open spec fn history_view(s: Seq<char>) -> Seq<(Seq<char>, Seq<char>)> {
    parsed_pairs(split_lines(s))
}

/// The entries as bare pairs, for comparing against `history_view`.
pub open spec fn pairs_of(entries: Seq<HistoryEntry>) -> Seq<(Seq<char>, Seq<char>)> {
    entries.map_values(|e: HistoryEntry| (e.key@, e.content@))
}

proof fn lemma_split_segment(s: Seq<char>, start: int, i: int)
    requires
        0 <= start <= i <= s.len(),
        forall|j: int| start <= j < i ==> s[j] != '\n',
        i == s.len() || s[i] == '\n',
    ensures
        i == s.len() ==> split_lines(s.skip(start)) == seq![s.subrange(start, i)],
        i < s.len() ==> split_lines(s.skip(start)) == seq![s.subrange(start, i)] + split_lines(
            s.skip(i + 1),
        ),
    decreases i - start,
{
    if start == i {
        if i == s.len() {
            assert(s.skip(start) =~= Seq::<char>::empty());
            assert(s.subrange(start, i) =~= Seq::<char>::empty());
            assert(seq![s.subrange(start, i)] =~= split_lines(s.skip(start)));
        } else {
            assert(s.skip(start)[0] == s[start]);
            assert(s.skip(start).drop_first() =~= s.skip(start + 1));
            assert(s.subrange(start, i) =~= Seq::<char>::empty());
            assert(split_lines(s.skip(start)) =~= seq![s.subrange(start, i)] + split_lines(
                s.skip(i + 1),
            ));
        }
    } else {
        lemma_split_segment(s, start + 1, i);
        let tail = s.skip(start + 1);
        assert(s.skip(start)[0] == s[start]);
        assert(s.skip(start).len() > 0);
        assert(s.skip(start).drop_first() =~= tail);
        let rest = split_lines(tail);
        assert(split_lines(s.skip(start)) == seq![seq![s[start]] + rest[0]] + rest.drop_first());
        if i == s.len() {
            assert(rest == seq![s.subrange(start + 1, i)]);
            assert(seq![s[start]] + s.subrange(start + 1, i) =~= s.subrange(start, i));
            assert(rest.drop_first() =~= Seq::<Seq<char>>::empty());
            assert(split_lines(s.skip(start)) =~= seq![s.subrange(start, i)]);
        } else {
            assert(rest == seq![s.subrange(start + 1, i)] + split_lines(s.skip(i + 1)));
            assert(rest[0] == s.subrange(start + 1, i));
            assert(seq![s[start]] + s.subrange(start + 1, i) =~= s.subrange(start, i));
            assert(rest.drop_first() =~= split_lines(s.skip(i + 1)));
            assert(split_lines(s.skip(start)) =~= seq![s.subrange(start, i)] + split_lines(
                s.skip(i + 1),
            ));
        }
    }
}

proof fn lemma_tab_segment(line: Seq<char>, j: int)
    requires
        0 <= j <= line.len(),
        forall|k: int| 0 <= k < j ==> line[k] != '\t',
        j == line.len() || line[j] == '\t',
    ensures
        j == line.len() ==> tab_split(line) is None,
        j < line.len() ==> tab_split(line) == Some((line.take(j), line.skip(j + 1))),
    decreases j + 1,
{
    if j == 0 {
        if line.len() > 0 && line[0] == '\t' {
            assert(line.take(0) =~= Seq::<char>::empty());
            assert(line.skip(1) =~= line.drop_first());
        }
    } else {
        let tail = line.drop_first();
        assert forall|k: int| 0 <= k < j - 1 implies tail[k] != '\t' by {
            assert(line[k + 1] == tail[k]);
        }
        assert(j - 1 == tail.len() || tail[j - 1] == line[j]);
        lemma_tab_segment(tail, j - 1);
        if j < line.len() {
            assert(seq![line[0]] + tail.take(j - 1) =~= line.take(j));
            assert(tail.skip(j) =~= line.skip(j + 1));
        }
    }
}

/// Parses a helper listing: one entry per line holding a tab, the key
/// before it and the content after it, numbered in order of appearance.
pub fn parse_history(text: &str) -> (r: Vec<HistoryEntry>)
    ensures
        pairs_of(r@) == history_view(text@),
        forall|i: int| 0 <= i < r@.len() ==> (#[trigger] r@[i]).id == i,
{
    let n = text.unicode_len();
    let mut out: Vec<HistoryEntry> = Vec::new();
    let mut start: usize = 0;
    proof {
        assert(text@.skip(0) =~= text@);
        assert(pairs_of(out@) =~= Seq::<(Seq<char>, Seq<char>)>::empty());
    }
    loop
        invariant_except_break
            history_view(text@) == pairs_of(out@) + parsed_pairs(split_lines(text@.skip(start as int))),
        invariant
            n == text@.len(),
            start <= n,
            forall|i: int| 0 <= i < out@.len() ==> (#[trigger] out@[i]).id == i,
        ensures
            history_view(text@) == pairs_of(out@),
            forall|i: int| 0 <= i < out@.len() ==> (#[trigger] out@[i]).id == i,
        decreases n - start,
    {
        let mut i: usize = start;
        while i < n && text.get_char(i) != '\n'
            invariant
                n == text@.len(),
                start <= i <= n,
                forall|j: int| start <= j < i ==> text@[j] != '\n',
            decreases n - i,
        {
            i = i + 1;
        }
        let ghost line = text@.subrange(start as int, i as int);
        proof {
            lemma_split_segment(text@, start as int, i as int);
        }
        let mut j: usize = start;
        while j < i && text.get_char(j) != '\t'
            invariant
                n == text@.len(),
                i <= n,
                start <= j <= i,
                forall|k: int| start <= k < j ==> text@[k] != '\t',
            decreases i - j,
        {
            j = j + 1;
        }
        proof {
            assert forall|k: int| 0 <= k < j - start implies line[k] != '\t' by {
                assert(line[k] == text@[start + k]);
            }
            if j < i {
                assert(line[j - start] == text@[j as int]);
            }
            lemma_tab_segment(line, j - start);
        }
        let ghost out_before = out@;
        if j < i {
            let key = text.substring_char(start, j).to_owned();
            let content = text.substring_char(j + 1, i).to_owned();
            let id = out.len() as u64;
            out.push(HistoryEntry { id, key, content });
            proof {
                assert(key@ =~= line.take(j - start));
                assert(content@ =~= line.skip(j - start + 1));
                assert(pairs_of(out@) =~= pairs_of(out_before).push((key@, content@)));
                assert(pairs_of(out_before).push((key@, content@)) =~= pairs_of(out_before)
                    + seq![(key@, content@)]);
            }
        }
        proof {
            let remaining = split_lines(text@.skip(start as int));
            if i < n {
                let after = split_lines(text@.skip(i + 1));
                assert(remaining == seq![line] + after);
                assert(remaining.drop_first() =~= after);
                assert(remaining[0] == line);
                assert(pairs_of(out_before) + parsed_pairs(remaining) =~= pairs_of(out@)
                    + parsed_pairs(after));
            } else {
                assert(remaining == seq![line]);
                assert(remaining[0] == line);
                assert(remaining.drop_first() =~= Seq::<Seq<char>>::empty());
                assert(parsed_pairs(Seq::<Seq<char>>::empty()) =~= Seq::<
                    (Seq<char>, Seq<char>),
                >::empty());
                assert(pairs_of(out_before) + parsed_pairs(remaining) =~= pairs_of(out@));
            }
        }
        if i < n {
            start = i + 1;
        } else {
            break;
        }
    }
    out
}

/// The key of the first entry carrying the selected identifier.
pub fn find_key(entries: &Vec<HistoryEntry>, id: u64) -> (r: Option<String>)
    ensures
        r matches Some(key) ==> exists|i: int|
            {
                &&& 0 <= i < entries@.len()
                &&& (#[trigger] entries@[i]).id == id
                &&& entries@[i].key@ == key@
                &&& forall|j: int| 0 <= j < i ==> (#[trigger] entries@[j]).id != id
            },
        r is None ==> forall|i: int| 0 <= i < entries@.len() ==> (#[trigger] entries@[i]).id
            != id,
{
    let mut i: usize = 0;
    while i < entries.len()
        invariant
            i <= entries@.len(),
            forall|j: int| 0 <= j < i ==> (#[trigger] entries@[j]).id != id,
        decreases entries@.len() - i,
    {
        if entries[i].id == id {
            let key = entries[i].key.clone();
            assert(entries@[i as int].id == id && entries@[i as int].key@ == key@);
            return Some(key);
        }
        i = i + 1;
    }
    None
}

/// The payload handed to the helper's decode call: the selected entry's
/// key, a tab, and a space.
pub fn decode_request(key: &String) -> (r: String)
    ensures
        r@ == key@ + "\t "@,
{
    key.clone().concat("\t ")
}

} // verus!
