//! Character-level helpers for the ranking engine: ASCII case folding,
//! word-boundary classification, and detection of uppercase query letters
//! (the trigger for case-sensitive "smart case" matching).

use vstd::prelude::*;
use vstd::string::StrSliceExecFns;

verus! {

/// True of an ASCII capital letter.
pub open spec fn is_ascii_upper(c: char) -> bool {
    65 <= c as u32 && c as u32 <= 90
}

/// ASCII case folding: capital letters map to their lowercase forms,
/// every other character is unchanged.
pub open spec fn fold_char(c: char) -> char {
    if is_ascii_upper(c) {
        ((c as u32 + 32) as char)
    } else {
        c
    }
}

/// Characters that end a word inside a candidate text; a query character
/// matched right after one of these earns the word-boundary bonus.
pub open spec fn is_boundary(c: char) -> bool {
    c == ' ' || c == '\t' || c == '/' || c == '\\' || c == '-' || c == '_' || c == '.'
        || c == ':'
}

/// True when the sequence holds at least one ASCII capital letter.
pub open spec fn has_ascii_upper(s: Seq<char>) -> bool {
    exists|i: int| 0 <= i < s.len() && is_ascii_upper(s[i])
}

/// Folds one character to lowercase.
pub fn exec_fold_char(c: char) -> (r: char)
    ensures
        r == fold_char(c),
{
    let u = c as u32;
    if 65 <= u && u <= 90 {
        ((u + 32) as u8) as char
    } else {
        c
    }
}

/// Decides the word-boundary class of one character.
pub fn exec_is_boundary(c: char) -> (r: bool)
    ensures
        r == is_boundary(c),
{
    c == ' ' || c == '\t' || c == '/' || c == '\\' || c == '-' || c == '_' || c == '.'
        || c == ':'
}

/// The blanks trimming removes at either end of a query.
pub open spec fn is_blank(c: char) -> bool {
    c == ' ' || c == '\t' || c == '\n' || c == '\r'
}

/// The sequence with its leading blanks removed.
pub open spec fn drop_leading_blanks(s: Seq<char>) -> Seq<char>
    decreases s.len(),
{
    if s.len() > 0 && is_blank(s[0]) {
        drop_leading_blanks(s.drop_first())
    } else {
        s
    }
}

/// The sequence with its trailing blanks removed.
pub open spec fn drop_trailing_blanks(s: Seq<char>) -> Seq<char>
    decreases s.len(),
{
    if s.len() > 0 && is_blank(s.last()) {
        drop_trailing_blanks(s.drop_last())
    } else {
        s
    }
}

/// What trimming leaves: the text with blanks removed at both ends.
pub open spec fn trimmed(s: Seq<char>) -> Seq<char> {
    drop_trailing_blanks(drop_leading_blanks(s))
}

/// Decides the blank class of one character.
pub fn exec_is_blank(c: char) -> (r: bool)
    ensures
        r == is_blank(c),
{
    c == ' ' || c == '\t' || c == '\n' || c == '\r'
}

proof fn lemma_leading_segment(s: Seq<char>, a: int)
    requires
        0 <= a <= s.len(),
        forall|j: int| 0 <= j < a ==> is_blank(s[j]),
        a == s.len() || !is_blank(s[a]),
    ensures
        drop_leading_blanks(s) == s.skip(a),
    decreases a,
{
    if a == 0 {
        assert(s.skip(0) =~= s);
    } else {
        let tail = s.drop_first();
        assert forall|j: int| 0 <= j < a - 1 implies is_blank(tail[j]) by {
            assert(tail[j] == s[j + 1]);
        }
        assert(a - 1 == tail.len() || tail[a - 1] == s[a]);
        lemma_leading_segment(tail, a - 1);
        assert(tail.skip(a - 1) =~= s.skip(a));
    }
}

proof fn lemma_trailing_segment(s: Seq<char>, b: int)
    requires
        0 <= b <= s.len(),
        forall|j: int| b <= j < s.len() ==> is_blank(s[j]),
        b == 0 || !is_blank(s[b - 1]),
    ensures
        drop_trailing_blanks(s) == s.take(b),
    decreases s.len() - b,
{
    if b == s.len() {
        assert(s.take(b) =~= s);
    } else {
        let head = s.drop_last();
        assert(is_blank(s.last()));
        assert forall|j: int| b <= j < head.len() implies is_blank(head[j]) by {
            assert(head[j] == s[j]);
        }
        lemma_trailing_segment(head, b);
        assert(head.take(b) =~= s.take(b));
    }
}

/// Removes blanks from both ends, as a prefixed plugin does to what
/// follows its prefix.
pub fn trim_blanks<'a>(s: &'a str) -> (r: &'a str)
    ensures
        r@ == trimmed(s@),
{
    let n = s.unicode_len();
    let mut a: usize = 0;
    while a < n && exec_is_blank(s.get_char(a))
        invariant
            n == s@.len(),
            a <= n,
            forall|j: int| 0 <= j < a ==> is_blank(s@[j]),
        decreases n - a,
    {
        a = a + 1;
    }
    let mut b: usize = n;
    while b > a && exec_is_blank(s.get_char(b - 1))
        invariant
            n == s@.len(),
            a <= b <= n,
            forall|j: int| b <= j < n ==> is_blank(s@[j]),
        decreases b,
    {
        b = b - 1;
    }
    proof {
        lemma_leading_segment(s@, a as int);
        let mid = s@.skip(a as int);
        assert forall|j: int| b - a <= j < mid.len() implies is_blank(mid[j]) by {
            assert(mid[j] == s@[a + j]);
        }
        if b > a {
            assert(mid[b - a - 1] == s@[b - 1]);
        }
        lemma_trailing_segment(mid, b - a);
        assert(mid.take(b - a) =~= s@.subrange(a as int, b as int));
    }
    s.substring_char(a, b)
}

/// The input with the plugin's prefix removed, when it starts with it.
pub fn strip_prefix_str<'a>(input: &'a str, prefix: &str) -> (r: Option<&'a str>)
    ensures
        r is Some <==> prefix@.is_prefix_of(input@),
        r matches Some(rest) ==> rest@ == input@.skip(prefix@.len() as int),
{
    let np = prefix.unicode_len();
    let ni = input.unicode_len();
    if np > ni {
        return None;
    }
    let mut i: usize = 0;
    while i < np
        invariant
            np == prefix@.len(),
            ni == input@.len(),
            np <= ni,
            i <= np,
            forall|j: int| 0 <= j < i ==> input@[j] == prefix@[j],
        decreases np - i,
    {
        if input.get_char(i) != prefix.get_char(i) {
            assert(input@[i as int] != prefix@[i as int]);
            return None;
        }
        i = i + 1;
    }
    proof {
        assert(prefix@ =~= input@.subrange(0, np as int));
    }
    Some(input.substring_char(np, ni))
}

/// Scans a query for ASCII capital letters; their presence switches
/// matching to the case-sensitive mode.
pub fn contains_ascii_upper(s: &str) -> (r: bool)
    ensures
        r == has_ascii_upper(s@),
{
    let n = s.unicode_len();
    let mut i: usize = 0;
    while i < n
        invariant
            n == s@.len(),
            i <= n,
            forall|j: int| 0 <= j < i ==> !is_ascii_upper(s@[j]),
        decreases n - i,
    {
        let c = s.get_char(i);
        let u = c as u32;
        if 65 <= u && u <= 90 {
            assert(is_ascii_upper(s@[i as int]));
            return true;
        }
        i = i + 1;
    }
    false
}

} // verus!
