//! Scanning of selector text: names, strings, brackets and top-level commas.

use vstd::prelude::*;
use crate::text::{
    alnum, alpha, ascii, is_alnum, is_alpha, is_ascii_char, is_ws, joined, rows, whitespace,
};

verus! {

/// A character of a CSS name.
pub open spec fn name_char(c: char) -> bool {
    is_alnum(c) || c == '-' || c == '_' || !is_ascii_char(c)
}

/// A character that can start a CSS name.
pub open spec fn name_start(c: char) -> bool {
    is_alpha(c) || c == '_' || !is_ascii_char(c)
}

pub open spec fn is_quote(c: char) -> bool {
    c == '"' || c == '\''
}

pub open spec fn is_combinator(c: char) -> bool {
    c == '>' || c == '+' || c == '~'
}

pub open spec fn is_plain_space(c: char) -> bool {
    c == ' ' || c == '\t' || c == '\n' || c == '\r'
}

/// The character at `i`, if there is one.
pub open spec fn at(s: Seq<char>, i: int) -> Option<char> {
    if 0 <= i < s.len() {
        Some(s[i])
    } else {
        None
    }
}

pub fn is_name_char(c: char) -> (r: bool)
    ensures
        r == name_char(c),
{
    alnum(c) || c == '-' || c == '_' || !ascii(c)
}

pub fn is_name_start(c: char) -> (r: bool)
    ensures
        r == name_start(c),
{
    alpha(c) || c == '_' || !ascii(c)
}

/// The character at `i`, if there is one.
pub fn get(s: &[char], i: usize) -> (r: Option<char>)
    ensures
        r == at(s@, i as int),
{
    if i < s.len() {
        Some(s[i])
    } else {
        None
    }
}

/// The index past an escape at `i`: two places on, or the length if that lies beyond the end.
pub open spec fn escape_end(s: Seq<char>, i: int) -> int {
    if i + 2 <= s.len() {
        i + 2
    } else {
        s.len() as int
    }
}

pub fn past_escape(s: &[char], i: usize) -> (r: usize)
    requires
        i < s@.len(),
    ensures
        r == escape_end(s@, i as int),
        i < r <= s@.len(),
{
    let n: usize = s.len();
    if i < n - 1 {
        i + 2
    } else {
        n
    }
}

/// The first index from `i` on that holds no white space.
pub open spec fn ws_end(s: Seq<char>, i: int) -> int
    decreases s.len() - i,
{
    if 0 <= i < s.len() && is_ws(s[i]) {
        ws_end(s, i + 1)
    } else {
        i
    }
}

pub fn skip_ws(s: &[char], start: usize) -> (r: usize)
    requires
        start <= s@.len(),
    ensures
        r == ws_end(s@, start as int),
        start <= r <= s@.len(),
        r < s@.len() ==> !is_ws(s@[r as int]),
{
    let mut i: usize = start;
    while i < s.len() && whitespace(s[i])
        invariant
            start <= i <= s@.len(),
            ws_end(s@, i as int) == ws_end(s@, start as int),
        decreases s@.len() - i,
    {
        i += 1;
    }
    i
}

/// The index just past the quote `q` that closes a string whose text starts at `i`; the length if
/// none does. A backslash takes the character after it along.
pub open spec fn string_close(s: Seq<char>, q: char, i: int) -> int
    decreases s.len() - i,
{
    if i < 0 || i >= s.len() {
        s.len() as int
    } else if s[i] == '\\' {
        string_close(s, q, escape_end(s, i))
    } else if s[i] == q {
        i + 1
    } else {
        string_close(s, q, i + 1)
    }
}

/// The index just past the string that the quote at `start` opens.
pub open spec fn string_end(s: Seq<char>, start: int) -> int {
    string_close(s, s[start], start + 1)
}

pub proof fn lemma_string_close_range(s: Seq<char>, q: char, i: int)
    requires
        0 <= i,
    ensures
        string_close(s, q, i) <= s.len(),
        i <= s.len() ==> i <= string_close(s, q, i),
        i < s.len() ==> i < string_close(s, q, i),
    decreases s.len() - i,
{
    if i < s.len() {
        if s[i] == '\\' {
            lemma_string_close_range(s, q, escape_end(s, i));
        } else if s[i] != q {
            lemma_string_close_range(s, q, i + 1);
        }
    }
}

/// Index just past the quoted string that starts at `start`; the length if it is unterminated.
pub fn skip_string(s: &[char], start: usize) -> (r: usize)
    requires
        start < s@.len(),
    ensures
        r == string_end(s@, start as int),
        start < r <= s@.len(),
{
    let n: usize = s.len();
    let quote = s[start];
    let mut i: usize = start + 1;
    while i < n
        invariant
            n == s@.len(),
            start < i <= s@.len(),
            quote == s@[start as int],
            string_close(s@, quote, i as int) == string_end(s@, start as int),
        decreases s@.len() - i,
    {
        let c = s[i];
        if c == '\\' {
            i = past_escape(s, i);
        } else if c == quote {
            return i + 1;
        } else {
            i += 1;
        }
    }
    s.len()
}

/// The index of the first `]` from `i` on that no string or escape holds; the length if there is
/// none.
pub open spec fn bracket_close(s: Seq<char>, i: int) -> int
    decreases s.len() - i via bracket_close_terminates
{
    if i < 0 || i >= s.len() {
        s.len() as int
    } else if s[i] == '\\' {
        bracket_close(s, escape_end(s, i))
    } else if is_quote(s[i]) {
        bracket_close(s, string_end(s, i))
    } else if s[i] == ']' {
        i
    } else {
        bracket_close(s, i + 1)
    }
}

#[via_fn]
proof fn bracket_close_terminates(s: Seq<char>, i: int) {
    if 0 <= i < s.len() {
        lemma_string_close_range(s, s[i], i + 1);
    }
}

pub proof fn lemma_bracket_close_range(s: Seq<char>, i: int)
    requires
        0 <= i,
    ensures
        bracket_close(s, i) <= s.len(),
        i <= s.len() ==> i <= bracket_close(s, i),
        bracket_close(s, i) < s.len() ==> s[bracket_close(s, i)] == ']',
    decreases s.len() - i,
{
    if i < s.len() {
        if s[i] == '\\' {
            lemma_bracket_close_range(s, escape_end(s, i));
        } else if is_quote(s[i]) {
            lemma_string_close_range(s, s[i], i + 1);
            lemma_bracket_close_range(s, string_end(s, i));
        } else if s[i] != ']' {
            lemma_bracket_close_range(s, i + 1);
        }
    }
}

/// Index of the `]` that closes the `[` at `open`; the length if none does.
pub fn matching_bracket(s: &[char], open: usize) -> (r: usize)
    requires
        open < s@.len(),
    ensures
        r == bracket_close(s@, open + 1),
        open < r <= s@.len(),
        r < s@.len() ==> s@[r as int] == ']',
{
    let n: usize = s.len();
    let mut i: usize = open + 1;
    proof {
        lemma_bracket_close_range(s@, open + 1);
    }
    while i < n
        invariant
            n == s@.len(),
            open < i <= s@.len(),
            bracket_close(s@, i as int) == bracket_close(s@, open + 1),
            bracket_close(s@, open + 1) <= s@.len(),
            bracket_close(s@, open + 1) > open,
            bracket_close(s@, open + 1) < s@.len() ==> s@[bracket_close(s@, open + 1)] == ']',
        decreases s@.len() - i,
    {
        let c = s[i];
        if c == '\\' {
            i = past_escape(s, i);
        } else if c == '"' || c == '\'' {
            i = skip_string(s, i);
        } else if c == ']' {
            return i;
        } else {
            i += 1;
        }
    }
    s.len()
}

/// How many more times `a` than `b` occurs in `s`.
pub open spec fn surplus(s: Seq<char>, a: char, b: char) -> int
    decreases s.len(),
{
    if s.len() == 0 {
        0
    } else {
        surplus(s.drop_last(), a, b) + if s.last() == a {
            1int
        } else if s.last() == b {
            -1int
        } else {
            0
        }
    }
}

/// Whether what follows `s` stands outside all parentheses and square brackets.
pub open spec fn at_top_level(s: Seq<char>) -> bool {
    surplus(s, '(', ')') == 0 && surplus(s, '[', ']') == 0
}

/// The parts of `s` between its top-level commas.
pub open spec fn comma_parts(s: Seq<char>) -> Seq<Seq<char>>
    decreases s.len(),
{
    if s.len() == 0 {
        seq![Seq::empty()]
    } else {
        let before = comma_parts(s.drop_last());
        if s.last() == ',' && at_top_level(s.drop_last()) {
            before.push(Seq::empty())
        } else {
            before.drop_last().push(before.last().push(s.last()))
        }
    }
}

/// Split on top-level commas; commas inside `(...)` or `[...]` stay within their part.
pub fn split_commas(s: &[char]) -> (r: Vec<Vec<char>>)
    ensures
        rows(r@) == comma_parts(s@),
        r@.len() > 0,
{
    let mut out: Vec<Vec<char>> = Vec::new();
    let mut cur: Vec<char> = Vec::new();
    let mut paren: i128 = 0;
    let mut bracket: i128 = 0;
    let mut i: usize = 0;
    proof {
        assert(s@.take(0) =~= Seq::empty());
        assert(rows(out@).push(cur@) =~= comma_parts(s@.take(0)));
    }
    while i < s.len()
        invariant
            i <= s@.len(),
            rows(out@).push(cur@) == comma_parts(s@.take(i as int)),
            paren == surplus(s@.take(i as int), '(', ')'),
            bracket == surplus(s@.take(i as int), '[', ']'),
            -i <= paren <= i,
            -i <= bracket <= i,
        decreases s@.len() - i,
    {
        let c = s[i];
        proof {
            assert(s@.take(i + 1).drop_last() =~= s@.take(i as int));
        }
        let ghost prev_out = rows(out@);
        let ghost prev_cur = cur@;
        if c == ',' && paren == 0 && bracket == 0 {
            out.push(cur);
            cur = Vec::new();
            proof {
                assert(rows(out@) =~= prev_out.push(prev_cur));
                assert(rows(out@).push(cur@) =~= prev_out.push(prev_cur).push(Seq::empty()));
            }
        } else {
            if c == '(' {
                paren += 1;
            } else if c == ')' {
                paren -= 1;
            } else if c == '[' {
                bracket += 1;
            } else if c == ']' {
                bracket -= 1;
            }
            cur.push(c);
            proof {
                assert(prev_out.push(prev_cur).drop_last() =~= prev_out);
            }
        }
        i += 1;
    }
    let ghost last = cur@;
    let ghost before = rows(out@);
    out.push(cur);
    proof {
        assert(s@.take(i as int) =~= s@);
        assert(rows(out@) =~= before.push(last));
    }
    out
}

/// Joining the parts of a text with commas gives the text back.
pub proof fn comma_parts_rejoin(s: Seq<char>)
    ensures
        comma_parts(s).len() > 0,
        joined(comma_parts(s), seq![',']) == s,
    decreases s.len(),
{
    if s.len() > 0 {
        let h = s.drop_last();
        comma_parts_rejoin(h);
        let before = comma_parts(h);
        let after = comma_parts(s);
        if s.last() == ',' && at_top_level(h) {
            assert(after.drop_last() =~= before);
            assert(joined(after, seq![',']) =~= h.push(','));
        } else if before.len() == 1 {
            assert(after =~= seq![h.push(s.last())]);
        } else {
            assert(after.drop_last() =~= before.drop_last());
            assert(joined(after, seq![',']) =~= h.push(s.last()));
        }
        assert(h.push(s.last()) =~= s);
    } else {
        assert(joined(comma_parts(s), seq![',']) =~= s);
    }
}

} // verus!
