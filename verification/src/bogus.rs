//! Selectors whose combinators match nothing, and which are left out of the output.

use vstd::prelude::*;
use crate::scan::{
    at, bracket_close, comma_parts, escape_end, is_combinator, is_name_char, is_quote,
    lemma_bracket_close_range, lemma_string_close_range, matching_bracket, name_char, past_escape,
    skip_string, split_commas, string_end,
};
use crate::selector_text::{
    lemma_trimmed_end_prefix, pseudo_name_start, trim_selector_part, trimmed_part,
};
use crate::text::{is_ws, lower, rows, spells, to_lower, to_vec, trim, trimmed, trimmed_start};

verus! {

/// A piece of a complex selector.
#[derive(Debug)]
pub enum SelToken {
    Combinator,
    Compound(Vec<char>),
}

/// What a [`SelToken`] stands for: `None` for a combinator, the text of a compound otherwise.
pub open spec fn token_text(t: SelToken) -> Option<Seq<char>> {
    match t {
        SelToken::Combinator => None,
        SelToken::Compound(c) => Some(c@),
    }
}

pub open spec fn token_texts(v: Seq<SelToken>) -> Seq<Option<Seq<char>>> {
    Seq::new(v.len(), |i: int| token_text(v[i]))
}

/// The compound in `s`, if it holds something once trimmed.
pub open spec fn compound_tokens(s: Seq<char>) -> Seq<Option<Seq<char>>> {
    let t = trimmed_part(s);
    if t.len() > 0 {
        seq![Some(t)]
    } else {
        Seq::empty()
    }
}

/// The tokens of `s` from `start` on, where everything up to `i` has been looked at: compounds
/// and the combinators between them, at the top level and outside strings and escapes.
pub open spec fn tokens_from(
    s: Seq<char>,
    start: int,
    i: int,
    paren: int,
    bracket: int,
) -> Seq<Option<Seq<char>>>
    decreases s.len() - i via tokens_from_terminates
{
    if i < 0 || i >= s.len() {
        compound_tokens(s.skip(start))
    } else {
        let c = s[i];
        if c == '\\' {
            tokens_from(s, start, escape_end(s, i), paren, bracket)
        } else if is_quote(c) {
            tokens_from(s, start, string_end(s, i), paren, bracket)
        } else if c == '(' {
            tokens_from(s, start, i + 1, paren + 1, bracket)
        } else if c == ')' {
            tokens_from(s, start, i + 1, paren - 1, bracket)
        } else if c == '[' {
            tokens_from(s, start, i + 1, paren, bracket + 1)
        } else if c == ']' {
            tokens_from(s, start, i + 1, paren, bracket - 1)
        } else if is_combinator(c) && paren == 0 && bracket == 0 {
            compound_tokens(s.subrange(start, i)).push(None) + tokens_from(s, i + 1, i + 1, paren, bracket)
        } else {
            tokens_from(s, start, i + 1, paren, bracket)
        }
    }
}

#[via_fn]
proof fn tokens_from_terminates(s: Seq<char>, start: int, i: int, paren: int, bracket: int) {
    if 0 <= i < s.len() {
        lemma_string_close_range(s, s[i], i + 1);
    }
}

pub open spec fn tokens(s: Seq<char>) -> Seq<Option<Seq<char>>> {
    tokens_from(s, 0, 0, 0, 0)
}

fn push_compound(s: &[char], from: usize, to: usize, out: &mut Vec<SelToken>)
    requires
        from <= to <= s@.len(),
    ensures
        token_texts(final(out)@) == token_texts(old(out)@) + compound_tokens(
            s@.subrange(from as int, to as int),
        ),
{
    let t = trim_selector_part(vstd::slice::slice_subrange(s, from, to));
    if t.len() > 0 {
        out.push(SelToken::Compound(to_vec(t)));
    }
    proof {
        assert(token_texts(final(out)@) =~= token_texts(old(out)@) + compound_tokens(
            s@.subrange(from as int, to as int),
        ));
    }
}

/// Split a complex selector into combinators and compounds.
pub fn tokenize_complex(s: &[char]) -> (r: Vec<SelToken>)
    ensures
        token_texts(r@) == tokens(s@),
{
    let n: usize = s.len();
    let mut out: Vec<SelToken> = Vec::new();
    let mut paren: i128 = 0;
    let mut bracket: i128 = 0;
    let mut start: usize = 0;
    let mut i: usize = 0;
    proof {
        assert(token_texts(out@) + tokens(s@) =~= tokens(s@));
    }
    while i < n
        invariant
            n == s@.len(),
            start <= i <= n,
            -i <= paren <= i,
            -i <= bracket <= i,
            token_texts(out@) + tokens_from(s@, start as int, i as int, paren as int, bracket as int)
                == tokens(s@),
        decreases n - i,
    {
        let c = s[i];
        if c == '\\' {
            i = past_escape(s, i);
        } else if c == '"' || c == '\'' {
            i = skip_string(s, i);
        } else if (c == '>' || c == '+' || c == '~') && paren == 0 && bracket == 0 {
            let ghost before = token_texts(out@);
            let ghost rest = tokens_from(s@, i + 1, i + 1, 0, 0);
            let ghost piece = compound_tokens(s@.subrange(start as int, i as int));
            push_compound(s, start, i, &mut out);
            out.push(SelToken::Combinator);
            proof {
                assert(token_texts(out@) =~= (before + piece).push(None));
                assert((before + piece).push(None) + rest =~= before + (piece.push(None) + rest));
            }
            i += 1;
            start = i;
        } else {
            if c == '(' {
                paren += 1;
            } else if c == ')' {
                paren -= 1;
            } else if c == '[' {
                bracket += 1;
            } else if c == ']' {
                bracket -= 1;
            }
            i += 1;
        }
    }
    proof {
        assert(s@.skip(start as int) =~= s@.subrange(start as int, n as int));
    }
    push_compound(s, start, n, &mut out);
    out
}

// ---- lengths -------------------------------------------------------------

proof fn lemma_trimmed_start_len(s: Seq<char>)
    ensures
        trimmed_start(s).len() <= s.len(),
    decreases s.len(),
{
    if s.len() > 0 && is_ws(s[0]) {
        lemma_trimmed_start_len(s.skip(1));
    }
}

proof fn lemma_trimmed_len(s: Seq<char>)
    ensures
        trimmed(s).len() <= s.len(),
        trimmed_part(s).len() <= s.len(),
{
    lemma_trimmed_start_len(s);
    lemma_trimmed_end_prefix(trimmed_start(s));
}

proof fn lemma_tokens_len(s: Seq<char>, start: int, i: int, paren: int, bracket: int)
    requires
        0 <= start <= i <= s.len(),
    ensures
        forall|k: int|
            0 <= k < tokens_from(s, start, i, paren, bracket).len() && (#[trigger] tokens_from(
                s,
                start,
                i,
                paren,
                bracket,
            )[k]) is Some ==> tokens_from(s, start, i, paren, bracket)[k]->0.len() <= s.len(),
    decreases s.len() - i,
{
    lemma_trimmed_len(s.skip(start));
    lemma_trimmed_len(s.subrange(start, i));
    if i < s.len() {
        lemma_string_close_range(s, s[i], i + 1);
        let c = s[i];
        if c == '\\' {
            lemma_tokens_len(s, start, escape_end(s, i), paren, bracket);
        } else if is_quote(c) {
            lemma_tokens_len(s, start, string_end(s, i), paren, bracket);
        } else if c == '(' {
            lemma_tokens_len(s, start, i + 1, paren + 1, bracket);
        } else if c == ')' {
            lemma_tokens_len(s, start, i + 1, paren - 1, bracket);
        } else if c == '[' {
            lemma_tokens_len(s, start, i + 1, paren, bracket + 1);
        } else if c == ']' {
            lemma_tokens_len(s, start, i + 1, paren, bracket - 1);
        } else if is_combinator(c) && paren == 0 && bracket == 0 {
            lemma_tokens_len(s, i + 1, i + 1, paren, bracket);
            let head = compound_tokens(s.subrange(start, i)).push(None);
            let rest = tokens_from(s, i + 1, i + 1, paren, bracket);
            assert forall|k: int| 0 <= k < (head + rest).len() && (#[trigger] (head + rest)[k]) is Some
            implies (head + rest)[k]->0.len() <= s.len() by {
                if k >= head.len() {
                    assert((head + rest)[k] == rest[k - head.len()]);
                }
            }
        } else {
            lemma_tokens_len(s, start, i + 1, paren, bracket);
        }
    }
}

proof fn lemma_comma_part_len(s: Seq<char>)
    ensures
        comma_parts(s).len() > 0,
        forall|k: int| 0 <= k < comma_parts(s).len() ==> (#[trigger] comma_parts(s)[k]).len() <= s.len(),
    decreases s.len(),
{
    if s.len() > 0 {
        lemma_comma_part_len(s.drop_last());
    }
}

// ---- bogus combinators ---------------------------------------------------

pub open spec fn is_trigger(c: char) -> bool {
    is_combinator(c) || c == '('
}

/// Whether `s` holds a character without which it cannot be bogus.
pub open spec fn has_trigger(s: Seq<char>) -> bool {
    exists|k: int| 0 <= k < s.len() && is_trigger(#[trigger] s[k])
}

pub fn has_bogus_trigger(s: &[char]) -> (r: bool)
    ensures
        r == has_trigger(s@),
{
    let mut i: usize = 0;
    while i < s.len()
        invariant
            i <= s@.len(),
            forall|k: int| 0 <= k < i ==> !is_trigger(#[trigger] s@[k]),
        decreases s@.len() - i,
    {
        let c = s[i];
        if c == '>' || c == '+' || c == '~' || c == '(' {
            return true;
        }
        i += 1;
    }
    false
}

/// Whether the argument of the pseudo `name` is a selector list.
pub open spec fn selector_pseudo(name: Seq<char>) -> bool {
    let n = lower(name);
    n == "not"@ || n == "is"@ || n == "matches"@ || n == "where"@ || n == "current"@ || n == "any"@ || n
        == "has"@ || n == "host"@ || n == "host-context"@ || n == "slotted"@
}

pub fn is_selector_pseudo(name: &[char]) -> (r: bool)
    ensures
        r == selector_pseudo(name@),
{
    let low = to_lower(name);
    let n = low.as_slice();
    spells(n, "not") || spells(n, "is") || spells(n, "matches") || spells(n, "where") || spells(
        n,
        "current",
    ) || spells(n, "any") || spells(n, "has") || spells(n, "host") || spells(n, "host-context") || spells(
        n,
        "slotted",
    )
}

/// The index past the pseudo name that starts at `i`.
pub open spec fn pseudo_name_end(s: Seq<char>, i: int) -> int
    decreases s.len() - i,
{
    if i < 0 || i >= s.len() {
        i
    } else if s[i] == '\\' {
        pseudo_name_end(s, escape_end(s, i))
    } else if name_char(s[i]) {
        pseudo_name_end(s, i + 1)
    } else {
        i
    }
}

proof fn lemma_pseudo_name_end_range(s: Seq<char>, i: int)
    requires
        0 <= i <= s.len(),
    ensures
        i <= pseudo_name_end(s, i) <= s.len(),
    decreases s.len() - i,
{
    if i < s.len() {
        if s[i] == '\\' {
            lemma_pseudo_name_end_range(s, escape_end(s, i));
        } else if name_char(s[i]) {
            lemma_pseudo_name_end_range(s, i + 1);
        }
    }
}

fn skip_pseudo_name(s: &[char], start: usize) -> (r: usize)
    requires
        start <= s@.len(),
    ensures
        r == pseudo_name_end(s@, start as int),
        start <= r <= s@.len(),
{
    let n: usize = s.len();
    let mut i: usize = start;
    while i < n && (s[i] == '\\' || is_name_char(s[i]))
        invariant
            n == s@.len(),
            start <= i <= n,
            pseudo_name_end(s@, i as int) == pseudo_name_end(s@, start as int),
        decreases n - i,
    {
        if s[i] == '\\' {
            i = past_escape(s, i);
        } else {
            i += 1;
        }
    }
    i
}

/// The index of the `)` that brings the nesting, `depth` before `i`, down to zero, outside strings
/// and escapes; the length if there is none.
pub open spec fn argument_close(s: Seq<char>, i: int, depth: int) -> int
    decreases s.len() - i via argument_close_terminates
{
    if i < 0 || i >= s.len() {
        s.len() as int
    } else if s[i] == '\\' {
        argument_close(s, escape_end(s, i), depth)
    } else if is_quote(s[i]) {
        argument_close(s, string_end(s, i), depth)
    } else if s[i] == '(' {
        argument_close(s, i + 1, depth + 1)
    } else if s[i] == ')' {
        if depth == 1 {
            i
        } else {
            argument_close(s, i + 1, depth - 1)
        }
    } else {
        argument_close(s, i + 1, depth)
    }
}

#[via_fn]
proof fn argument_close_terminates(s: Seq<char>, i: int, depth: int) {
    if 0 <= i < s.len() {
        lemma_string_close_range(s, s[i], i + 1);
    }
}

proof fn lemma_argument_close_range(s: Seq<char>, i: int, depth: int)
    requires
        0 <= i <= s.len(),
    ensures
        i <= argument_close(s, i, depth) <= s.len(),
    decreases s.len() - i,
{
    if i < s.len() {
        lemma_string_close_range(s, s[i], i + 1);
        if s[i] == '\\' {
            lemma_argument_close_range(s, escape_end(s, i), depth);
        } else if is_quote(s[i]) {
            lemma_argument_close_range(s, string_end(s, i), depth);
        } else if s[i] == '(' {
            lemma_argument_close_range(s, i + 1, depth + 1);
        } else if s[i] == ')' {
            if depth != 1 {
                lemma_argument_close_range(s, i + 1, depth - 1);
            }
        } else {
            lemma_argument_close_range(s, i + 1, depth);
        }
    }
}

fn find_argument_close(s: &[char], open: usize) -> (r: usize)
    requires
        open < s@.len(),
        s@[open as int] == '(',
    ensures
        r == argument_close(s@, open + 1, 1),
        open < r <= s@.len(),
{
    let n: usize = s.len();
    let mut depth: i128 = 1;
    let mut i: usize = open + 1;
    while i < n
        invariant
            n == s@.len(),
            open < i <= n,
            1 - i <= depth <= 1 + i,
            argument_close(s@, i as int, depth as int) == argument_close(s@, open + 1, 1),
        decreases n - i,
    {
        let c = s[i];
        if c == '\\' {
            i = past_escape(s, i);
            continue;
        }
        if c == '"' || c == '\'' {
            i = skip_string(s, i);
            continue;
        }
        if c == '(' {
            depth += 1;
        } else if c == ')' {
            if depth == 1 {
                return i;
            }
            depth -= 1;
        }
        i += 1;
    }
    n
}

/// Whether two combinators follow each other.
pub open spec fn adjacent_combinators(t: Seq<Option<Seq<char>>>) -> bool {
    exists|k: int| 0 <= k && k + 1 < t.len() && (#[trigger] t[k]) is None && t[k + 1] is None
}

/// Whether a complex selector has combinators that match nothing: two in a row; inside a pseudo
/// argument also one at the end, or one at the start unless `lead` allows it; or the like inside
/// an argument of its own.
pub open spec fn bogus(s: Seq<char>, in_pseudo: bool, lead: bool) -> bool
    decreases s.len(), 3nat, 0int,
{
    let t = tokens(s);
    &&& has_trigger(s)
    &&& t.len() > 0
    &&& {
        ||| adjacent_combinators(t)
        ||| in_pseudo && !lead && t[0] is None
        ||| in_pseudo && t.last() is None
        ||| bogus_compound_from(s, 0)
    }
}

/// Whether one of the compounds of `s`, from token `k` on, holds a bogus argument.
pub open spec fn bogus_compound_from(s: Seq<char>, k: int) -> bool
    decreases s.len(), 2nat, tokens(s).len() - k via bogus_compound_terminates
{
    if k < 0 || k >= tokens(s).len() {
        false
    } else {
        ||| tokens(s)[k] is Some && bogus_argument_from(tokens(s)[k]->0, 0)
        ||| bogus_compound_from(s, k + 1)
    }
}

#[via_fn]
proof fn bogus_compound_terminates(s: Seq<char>, k: int) {
    lemma_tokens_len(s, 0, 0, 0, 0);
}

/// Whether a pseudo selector of the compound `s`, from `i` on, has a bogus selector list.
pub open spec fn bogus_argument_from(s: Seq<char>, i: int) -> bool
    decreases s.len(), 1nat, s.len() - i via bogus_argument_terminates
{
    if i < 0 || i >= s.len() {
        false
    } else if s[i] == '\\' {
        bogus_argument_from(s, escape_end(s, i))
    } else if s[i] == '[' {
        let end = bracket_close(s, i + 1);
        bogus_argument_from(
            s,
            if end < s.len() {
                end + 1
            } else {
                end
            },
        )
    } else if s[i] == ':' {
        let from = pseudo_name_start(s, i);
        let open = pseudo_name_end(s, from);
        if at(s, open) == Some('(') {
            let name = s.subrange(from, open);
            let close = argument_close(s, open + 1, 1);
            ||| selector_pseudo(name) && bogus_part_from(
                s.subrange(open + 1, close),
                lower(name) == "has"@,
                0,
            )
            ||| bogus_argument_from(
                s,
                if close < s.len() {
                    close + 1
                } else {
                    close
                },
            )
        } else {
            bogus_argument_from(s, open)
        }
    } else {
        bogus_argument_from(s, i + 1)
    }
}

#[via_fn]
proof fn bogus_argument_terminates(s: Seq<char>, i: int) {
    if 0 <= i < s.len() {
        lemma_bracket_close_range(s, i + 1);
        let from = pseudo_name_start(s, i);
        lemma_pseudo_name_end_range(s, from);
        let open = pseudo_name_end(s, from);
        if at(s, open) == Some('(') {
            lemma_argument_close_range(s, open + 1, 1);
        }
    }
}

/// Whether one of the comma parts of `arg`, from `k` on, is bogus as a pseudo argument.
pub open spec fn bogus_part_from(arg: Seq<char>, lead: bool, k: int) -> bool
    decreases arg.len(), 4nat, comma_parts(arg).len() - k via bogus_part_terminates
{
    if k < 0 || k >= comma_parts(arg).len() {
        false
    } else {
        let p = trimmed(comma_parts(arg)[k]);
        ||| p.len() > 0 && bogus(p, true, lead)
        ||| bogus_part_from(arg, lead, k + 1)
    }
}

#[via_fn]
proof fn bogus_part_terminates(arg: Seq<char>, lead: bool, k: int) {
    lemma_comma_part_len(arg);
    if 0 <= k < comma_parts(arg).len() {
        lemma_trimmed_len(comma_parts(arg)[k]);
    }
}

/// Whether a complex selector has combinators that match nothing.
pub fn complex_selector_is_bogus(s: &[char], in_pseudo: bool, allow_leading: bool) -> (r: bool)
    ensures
        r == bogus(s@, in_pseudo, allow_leading),
    decreases s@.len(), 3nat, 0int,
{
    if !has_bogus_trigger(s) {
        return false;
    }
    let toks = tokenize_complex(s);
    let n: usize = toks.len();
    let ghost t = tokens(s@);
    if n == 0 {
        return false;
    }
    let mut prev: bool = false;
    let mut i: usize = 0;
    while i < n
        invariant
            n == toks@.len(),
            token_texts(toks@) == t,
            t == tokens(s@),
            has_trigger(s@),
            i <= n,
            prev == (i > 0 && t[i - 1] is None),
            forall|k: int| 0 <= k && k + 1 < i ==> !((#[trigger] t[k]) is None && t[k + 1] is None),
        decreases n - i,
    {
        proof {
            assert(t[i as int] == token_text(toks@[i as int]));
        }
        match &toks[i] {
            SelToken::Combinator => {
                if prev {
                    proof {
                        assert(t[i - 1] is None);
                    }
                    return true;
                }
                prev = true;
            },
            SelToken::Compound(_) => {
                prev = false;
            },
        }
        i += 1;
    }
    if in_pseudo {
        proof {
            assert(t[0] == token_text(toks@[0]));
            assert(t[n - 1] == token_text(toks@[n - 1]));
        }
        if !allow_leading && matches!(&toks[0], SelToken::Combinator) {
            return true;
        }
        if matches!(&toks[n - 1], SelToken::Combinator) {
            return true;
        }
    }
    proof {
        lemma_tokens_len(s@, 0, 0, 0, 0);
    }
    let mut k: usize = 0;
    while k < n
        invariant
            n == toks@.len() == t.len(),
            token_texts(toks@) == t,
            t == tokens(s@),
            k <= n,
            has_trigger(s@),
            n > 0,
            forall|j: int| 0 <= j < t.len() && (#[trigger] t[j]) is Some ==> t[j]->0.len() <= s@.len(),
            bogus(s@, in_pseudo, allow_leading) == bogus_compound_from(s@, k as int),
        decreases n - k,
    {
        proof {
            assert(t[k as int] == token_text(toks@[k as int]));
        }
        if let SelToken::Compound(comp) = &toks[k] {
            if compound_has_bogus_pseudo(comp.as_slice()) {
                return true;
            }
        }
        k += 1;
    }
    false
}

/// Whether a selector list in a pseudo selector of this compound has a bogus member.
pub fn compound_has_bogus_pseudo(s: &[char]) -> (r: bool)
    ensures
        r == bogus_argument_from(s@, 0),
    decreases s@.len(), 1nat, 0int,
{
    let n: usize = s.len();
    let mut i: usize = 0;
    while i < n
        invariant
            n == s@.len(),
            i <= n,
            bogus_argument_from(s@, i as int) == bogus_argument_from(s@, 0),
        decreases n - i,
    {
        let c = s[i];
        if c == '\\' {
            i = past_escape(s, i);
        } else if c == '[' {
            let end: usize = matching_bracket(s, i);
            i = if end < n { end + 1 } else { end };
        } else if c == ':' {
            let from: usize = if i < n - 1 && s[i + 1] == ':' { i + 2 } else { i + 1 };
            let open: usize = skip_pseudo_name(s, from);
            if open < n && s[open] == '(' {
                let close: usize = find_argument_close(s, open);
                let name = vstd::slice::slice_subrange(s, from, open);
                if is_selector_pseudo(name) {
                    let low = to_lower(name);
                    let lead = spells(low.as_slice(), "has");
                    let arg = vstd::slice::slice_subrange(s, open + 1, close);
                    if part_is_bogus(arg, lead) {
                        return true;
                    }
                }
                i = if close < n { close + 1 } else { close };
            } else {
                i = open;
            }
        } else {
            i += 1;
        }
    }
    false
}

fn part_is_bogus(arg: &[char], lead: bool) -> (r: bool)
    ensures
        r == bogus_part_from(arg@, lead, 0),
    decreases arg@.len(), 4nat, 0int,
{
    let parts = split_commas(arg);
    let ghost all = comma_parts(arg@);
    proof {
        lemma_comma_part_len(arg@);
    }
    let mut k: usize = 0;
    while k < parts.len()
        invariant
            k <= parts@.len(),
            rows(parts@) == all,
            all == comma_parts(arg@),
            forall|j: int| 0 <= j < all.len() ==> (#[trigger] all[j]).len() <= arg@.len(),
            bogus_part_from(arg@, lead, k as int) == bogus_part_from(arg@, lead, 0),
        decreases parts@.len() - k,
    {
        proof {
            assert(all[k as int] == parts@[k as int]@);
            lemma_trimmed_len(parts@[k as int]@);
        }
        let p = trim(parts[k].as_slice());
        if p.len() > 0 && complex_selector_is_bogus(p, true, lead) {
            return true;
        }
        k += 1;
    }
    false
}

/// Whether the block of a complex selector is left out: the selector is bogus, or it ends in a
/// combinator.
pub open spec fn block_bogus(s: Seq<char>) -> bool {
    has_trigger(s) && (bogus(s, false, false) || (tokens(s).len() > 0 && tokens(s).last() is None))
}

pub fn complex_selector_block_is_bogus(s: &[char]) -> (r: bool)
    ensures
        r == block_bogus(s@),
{
    if !has_bogus_trigger(s) {
        return false;
    }
    if complex_selector_is_bogus(s, false, false) {
        return true;
    }
    let toks = tokenize_complex(s);
    let n: usize = toks.len();
    if n == 0 {
        return false;
    }
    proof {
        assert(tokens(s@)[n - 1] == token_text(toks@[n - 1]));
    }
    matches!(&toks[n - 1], SelToken::Combinator)
}

} // verus!
