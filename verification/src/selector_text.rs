//! The canonical spelling of a selector: white space, combinators, attribute selectors, and the
//! space between adjacent compounds.

use vstd::prelude::*;
use crate::scan::{
    at, bracket_close, escape_end, is_combinator, is_name_char, is_name_start, is_plain_space,
    is_quote, lemma_bracket_close_range, matching_bracket, name_char, name_start, past_escape,
    skip_ws, ws_end,
};
use crate::selector_check::{
    attr_name_stop, attr_op, attr_op_len, attr_op_start, attr_tail, attr_value_end,
    attr_value_start, skip_attr_name, skip_attr_value,
};
use crate::text::{
    alnum, alpha, append, chars_of, find_from, first_from, has_char, hex, is_alnum, is_alpha,
    is_hex, is_ws, lower, pop_spaces, spells, to_lower, to_vec, trim, trim_end, trim_start,
    trimmed, trimmed_end, trimmed_start, whitespace, without_trailing_spaces,
};

verus! {

/// The spelling that the selector parser gives to an escaped name, a closed attribute selector or
/// a pseudo selector. A text without an entry keeps its own spelling.
#[derive(Debug)]
pub struct Spellings {
    pub names: Vec<(String, String)>,
    pub attributes: Vec<(String, String)>,
    pub pseudos: Vec<(String, String)>,
}

/// What the first entry for `key` says, or `key` itself.
pub open spec fn respelled(entries: Seq<(String, String)>, key: Seq<char>) -> Seq<char>
    decreases entries.len(),
{
    if entries.len() == 0 {
        key
    } else if entries[0].0@ == key {
        entries[0].1@
    } else {
        respelled(entries.skip(1), key)
    }
}

pub fn respell(entries: &Vec<(String, String)>, key: &[char]) -> (r: Vec<char>)
    ensures
        r@ == respelled(entries@, key@),
{
    let mut i: usize = 0;
    proof {
        assert(entries@.skip(0) =~= entries@);
    }
    while i < entries.len()
        invariant
            i <= entries@.len(),
            respelled(entries@.skip(i as int), key@) == respelled(entries@, key@),
        decreases entries@.len() - i,
    {
        proof {
            assert(entries@.skip(i as int).skip(1) =~= entries@.skip(i + 1));
        }
        if spells(key, entries[i].0.as_str()) {
            return chars_of(entries[i].1.as_str());
        }
        i += 1;
    }
    to_vec(key)
}

/// A name as it is written out: one with an escape is respelled, any other is kept.
pub open spec fn spelled_name(sp: Spellings, raw: Seq<char>) -> Seq<char> {
    if raw.contains('\\') {
        respelled(sp.names@, raw)
    } else {
        raw
    }
}

// ---- attribute selectors -------------------------------------------------

/// Whether `s` is an identifier that needs no escape.
pub open spec fn plain_identifier(s: Seq<char>) -> bool {
    let first = if s.len() > 0 && s[0] == '-' {
        1int
    } else {
        0
    };
    &&& first < s.len()
    &&& name_start(s[first])
    &&& forall|k: int| first <= k < s.len() ==> name_char(s[k])
}

pub fn is_plain_css_identifier(s: &[char]) -> (r: bool)
    ensures
        r == plain_identifier(s@),
{
    let n: usize = s.len();
    if n == 0 {
        return false;
    }
    let first: usize = if s[0] == '-' { 1 } else { 0 };
    if first >= n || !is_name_start(s[first]) {
        return false;
    }
    let mut i: usize = first;
    while i < n
        invariant
            n == s@.len(),
            first <= i <= n,
            first == if s@[0] == '-' { 1int } else { 0 },
            forall|k: int| first <= k < i ==> name_char(s@[k]),
        decreases n - i,
    {
        if !is_name_char(s[i]) {
            return false;
        }
        i += 1;
    }
    true
}

/// An attribute value without its quotes, where what they hold is a plain identifier.
pub open spec fn unquoted_value(s: Seq<char>) -> Seq<char> {
    if s.len() >= 2 && is_quote(s[0]) && s.last() == s[0] && plain_identifier(
        s.subrange(1, s.len() - 1),
    ) {
        s.subrange(1, s.len() - 1)
    } else {
        s
    }
}

pub fn unquote_plain_attribute_value(raw: &[char]) -> (r: &[char])
    ensures
        r@ == unquoted_value(raw@),
{
    let n: usize = raw.len();
    if n >= 2 && (raw[0] == '"' || raw[0] == '\'') && raw[n - 1] == raw[0] {
        let content = vstd::slice::slice_subrange(raw, 1, n - 1);
        if is_plain_css_identifier(content) {
            return content;
        }
    }
    raw
}

/// The canonical form of the text inside `[...]`: no white space but one space before a modifier,
/// and no quotes that are not needed. Text of any other shape is only trimmed.
pub open spec fn attribute_text(s: Seq<char>) -> Seq<char> {
    let name_at = ws_end(s, 0);
    let name_to = attr_name_stop(s);
    let op_at = attr_op_start(s);
    let op_to = op_at + attr_op_len(s, op_at);
    let value_at = attr_value_start(s);
    let value_to = attr_value_end(s, value_at);
    let tail = attr_tail(s);
    let name = s.subrange(name_at, name_to);
    let head = name + s.subrange(op_at, op_to) + unquoted_value(s.subrange(value_at, value_to));
    if name_to == name_at {
        trimmed(s)
    } else if op_at >= s.len() {
        name
    } else if op_to == op_at || value_at >= s.len() {
        trimmed(s)
    } else if tail >= s.len() {
        head
    } else if is_alpha(s[tail]) && tail + 1 == s.len() {
        head.push(' ').push(s[tail])
    } else {
        trimmed(s)
    }
}

pub fn normalize_attribute_text(s: &[char]) -> (r: Vec<char>)
    ensures
        r@ == attribute_text(s@),
{
    let n: usize = s.len();
    let name_at: usize = skip_ws(s, 0);
    let name_to: usize = skip_attr_name(s, name_at);
    if name_to == name_at {
        return to_vec(trim(s));
    }
    let name = vstd::slice::slice_subrange(s, name_at, name_to);
    let op_at: usize = skip_ws(s, name_to);
    if op_at >= n {
        return to_vec(name);
    }
    let op: usize = attr_op(s, op_at);
    if op == 0 {
        return to_vec(trim(s));
    }
    let value_at: usize = skip_ws(s, op_at + op);
    if value_at >= n {
        return to_vec(trim(s));
    }
    let value_to: usize = skip_attr_value(s, value_at);
    let value = vstd::slice::slice_subrange(s, value_at, value_to);
    let tail: usize = skip_ws(s, value_to);
    if tail < n && !(alpha(s[tail]) && tail == n - 1) {
        return to_vec(trim(s));
    }
    let mut out = to_vec(name);
    append(&mut out, vstd::slice::slice_subrange(s, op_at, op_at + op));
    append(&mut out, unquote_plain_attribute_value(value));
    if tail < n {
        out.push(' ');
        out.push(s[tail]);
    }
    out
}

// ---- trailing escapes ----------------------------------------------------

/// How many hex digits `s` ends with, counting at most `limit`.
pub open spec fn hex_tail(s: Seq<char>, limit: nat) -> nat
    decreases limit,
{
    if limit > 0 && s.len() > 0 && is_hex(s.last()) {
        1 + hex_tail(s.drop_last(), (limit - 1) as nat)
    } else {
        0
    }
}

/// Whether `s` ends in a backslash and one to six hex digits.
pub open spec fn ends_in_hex_escape(s: Seq<char>) -> bool {
    let d = hex_tail(s, 6);
    0 < d < s.len() && s[s.len() - 1 - d] == '\\'
}

pub fn ends_with_hex_escape(s: &[char]) -> (r: bool)
    ensures
        r == ends_in_hex_escape(s@),
{
    let mut i: usize = s.len();
    let mut digits: usize = 0;
    proof {
        assert(s@.take(i as int) =~= s@);
    }
    while i > 0 && digits < 6 && hex(s[i - 1])
        invariant
            i <= s@.len(),
            digits <= 6,
            i + digits == s@.len(),
            digits + hex_tail(s@.take(i as int), (6 - digits) as nat) == hex_tail(s@, 6),
        decreases i,
    {
        proof {
            assert(s@.take(i as int).drop_last() =~= s@.take(i - 1));
        }
        i -= 1;
        digits += 1;
    }
    digits > 0 && i > 0 && s[i - 1] == '\\'
}

/// How many backslashes `s` ends with.
pub open spec fn backslash_tail(s: Seq<char>) -> nat
    decreases s.len(),
{
    if s.len() > 0 && s.last() == '\\' {
        1 + backslash_tail(s.drop_last())
    } else {
        0
    }
}

pub fn ends_with_escaping_backslash(s: &[char]) -> (r: bool)
    ensures
        r == (backslash_tail(s@) % 2 == 1),
{
    let mut i: usize = s.len();
    let mut odd: bool = false;
    proof {
        assert(s@.take(i as int) =~= s@);
    }
    while i > 0 && s[i - 1] == '\\'
        invariant
            i <= s@.len(),
            backslash_tail(s@) % 2 == (backslash_tail(s@.take(i as int)) + if odd {
                1int
            } else {
                0
            }) % 2,
        decreases i,
    {
        proof {
            assert(s@.take(i as int).drop_last() =~= s@.take(i - 1));
        }
        i -= 1;
        odd = !odd;
    }
    odd
}

/// Whether the character after `s` belongs to an escape that `s` ends in.
pub open spec fn ends_in_escape(s: Seq<char>) -> bool {
    ends_in_hex_escape(s) || backslash_tail(s) % 2 == 1
}

/// `p` without white space around it, but for the one character that belongs to a trailing
/// escape.
pub open spec fn trimmed_part(p: Seq<char>) -> Seq<char> {
    let t0 = trimmed_start(p);
    let t = trimmed_end(t0);
    if t.len() < t0.len() && ends_in_escape(t) {
        t0.take(t.len() as int + 1)
    } else {
        t
    }
}

pub proof fn lemma_trimmed_end_prefix(s: Seq<char>)
    ensures
        trimmed_end(s).len() <= s.len(),
        trimmed_end(s) == s.take(trimmed_end(s).len() as int),
    decreases s.len(),
{
    if s.len() > 0 && is_ws(s.last()) {
        lemma_trimmed_end_prefix(s.drop_last());
        let n = trimmed_end(s).len() as int;
        assert(s.drop_last().take(n) =~= s.take(n));
    } else {
        assert(s.take(s.len() as int) =~= s);
    }
}

pub fn trim_selector_part(p: &[char]) -> (r: &[char])
    ensures
        r@ == trimmed_part(p@),
{
    let t0 = trim_start(p);
    let t = trim_end(t0);
    proof {
        lemma_trimmed_end_prefix(t0@);
    }
    if t.len() < t0.len() && (ends_with_hex_escape(t) || ends_with_escaping_backslash(t)) {
        let r = vstd::slice::slice_subrange(t0, 0, t.len() + 1);
        proof {
            assert(r@ =~= t0@.take(t@.len() as int + 1));
        }
        r
    } else {
        t
    }
}

// ---- white space ---------------------------------------------------------

/// The index past the run of at most `limit` hex digits that starts at `i`.
pub open spec fn hex_end(s: Seq<char>, i: int, limit: nat) -> int
    decreases limit,
{
    if limit > 0 && 0 <= i < s.len() && is_hex(s[i]) {
        hex_end(s, i + 1, (limit - 1) as nat)
    } else {
        i
    }
}

pub fn skip_hex(s: &[char], start: usize, limit: usize) -> (r: usize)
    requires
        start <= s@.len(),
    ensures
        r == hex_end(s@, start as int, limit as nat),
        start <= r <= s@.len(),
{
    let mut i: usize = start;
    let mut left: usize = limit;
    while left > 0 && i < s.len() && hex(s[i])
        invariant
            start <= i <= s@.len(),
            hex_end(s@, i as int, left as nat) == hex_end(s@, start as int, limit as nat),
        decreases left,
    {
        i += 1;
        left -= 1;
    }
    i
}

pub proof fn lemma_hex_end_range(s: Seq<char>, i: int, limit: nat)
    requires
        0 <= i <= s.len(),
    ensures
        i <= hex_end(s, i, limit) <= s.len(),
    decreases limit,
{
    if limit > 0 && i < s.len() && is_hex(s[i]) {
        lemma_hex_end_range(s, i + 1, (limit - 1) as nat);
    }
}

/// `out`, and then `s` from `i` on with each run of white space made one space. `spaced` says
/// that a space would follow a space or the start. An escape, with the white space that ends it,
/// is kept.
pub open spec fn collapse(s: Seq<char>, i: int, out: Seq<char>, spaced: bool) -> Seq<char>
    decreases s.len() - i via collapse_terminates
{
    if i < 0 || i >= s.len() {
        if spaced && out.len() > 0 && out.last() == ' ' {
            out.drop_last()
        } else {
            out
        }
    } else if s[i] == '\\' && i + 1 < s.len() && is_hex(s[i + 1]) {
        let e = hex_end(s, i + 1, 6);
        let kept = out + s.subrange(i, e);
        if e < s.len() && is_ws(s[e]) {
            collapse(s, e + 1, kept.push(' '), false)
        } else {
            collapse(s, e, kept, false)
        }
    } else if s[i] == '\\' && i + 1 < s.len() {
        collapse(s, i + 2, out.push('\\').push(s[i + 1]), false)
    } else if is_ws(s[i]) {
        collapse(
            s,
            i + 1,
            if spaced {
                out
            } else {
                out.push(' ')
            },
            true,
        )
    } else {
        collapse(s, i + 1, out.push(s[i]), false)
    }
}

#[via_fn]
proof fn collapse_terminates(s: Seq<char>, i: int, out: Seq<char>, spaced: bool) {
    if 0 <= i && i + 1 < s.len() {
        lemma_hex_end_range(s, i + 1, 6);
    }
}

/// `s` with its white space collapsed and trimmed.
pub open spec fn collapsed(s: Seq<char>) -> Seq<char> {
    collapse(s, 0, Seq::empty(), true)
}

pub fn collapse_whitespace(s: &[char]) -> (r: Vec<char>)
    ensures
        r@ == collapsed(s@),
{
    let n: usize = s.len();
    let mut out: Vec<char> = Vec::new();
    let mut spaced: bool = true;
    let mut i: usize = 0;
    while i < n
        invariant
            n == s@.len(),
            i <= n,
            collapse(s@, i as int, out@, spaced) == collapsed(s@),
        decreases n - i,
    {
        let c = s[i];
        if c == '\\' && i < n - 1 && hex(s[i + 1]) {
            let e: usize = skip_hex(s, i + 1, 6);
            append(&mut out, vstd::slice::slice_subrange(s, i, e));
            i = e;
            if e < n && whitespace(s[e]) {
                out.push(' ');
                i += 1;
            }
            spaced = false;
        } else if c == '\\' && i < n - 1 {
            out.push('\\');
            out.push(s[i + 1]);
            i += 2;
            spaced = false;
        } else if whitespace(c) {
            if !spaced {
                out.push(' ');
            }
            spaced = true;
            i += 1;
        } else {
            out.push(c);
            spaced = false;
            i += 1;
        }
    }
    if spaced && out.len() > 0 && out[out.len() - 1] == ' ' {
        out.pop();
    }
    out
}

// ---- names, pseudos and types --------------------------------------------

/// The index past the name that starts at `i`. A backslash takes the next character along; a hex
/// escape takes up to six digits and one character of white space.
pub open spec fn name_end(s: Seq<char>, i: int) -> int
    decreases s.len() - i via name_end_terminates
{
    if i < 0 || i >= s.len() {
        i
    } else if s[i] == '\\' {
        if i + 1 < s.len() && is_hex(s[i + 1]) {
            let e = hex_end(s, i + 1, 6);
            name_end(
                s,
                if e < s.len() && is_ws(s[e]) {
                    e + 1
                } else {
                    e
                },
            )
        } else {
            name_end(s, escape_end(s, i))
        }
    } else if name_char(s[i]) {
        name_end(s, i + 1)
    } else {
        i
    }
}

#[via_fn]
proof fn name_end_terminates(s: Seq<char>, i: int) {
    if 0 <= i && i + 1 < s.len() {
        lemma_hex_end_range(s, i + 1, 6);
    }
}

pub proof fn lemma_name_end_range(s: Seq<char>, i: int)
    requires
        0 <= i <= s.len(),
    ensures
        i <= name_end(s, i) <= s.len(),
        i < s.len() && (name_char(s[i]) || s[i] == '\\') ==> i < name_end(s, i),
    decreases s.len() - i,
{
    if i < s.len() {
        if s[i] == '\\' {
            if i + 1 < s.len() && is_hex(s[i + 1]) {
                lemma_hex_end_range(s, i + 1, 6);
                let e = hex_end(s, i + 1, 6);
                lemma_name_end_range(
                    s,
                    if e < s.len() && is_ws(s[e]) {
                        e + 1
                    } else {
                        e
                    },
                );
            } else {
                lemma_name_end_range(s, escape_end(s, i));
            }
        } else if name_char(s[i]) {
            lemma_name_end_range(s, i + 1);
        }
    }
}

pub fn skip_name(s: &[char], start: usize) -> (r: usize)
    requires
        start <= s@.len(),
    ensures
        r == name_end(s@, start as int),
        start <= r <= s@.len(),
{
    let n: usize = s.len();
    let mut i: usize = start;
    while i < n && (s[i] == '\\' || is_name_char(s[i]))
        invariant
            n == s@.len(),
            start <= i <= n,
            name_end(s@, i as int) == name_end(s@, start as int),
        decreases n - i,
    {
        if s[i] != '\\' {
            i += 1;
        } else if i < n - 1 && hex(s[i + 1]) {
            i = skip_hex(s, i + 1, 6);
            if i < n && whitespace(s[i]) {
                i += 1;
            }
        } else {
            i = past_escape(s, i);
        }
    }
    i
}

/// Write out the name between `from` and `to`.
fn copy_name(sp: &Spellings, s: &[char], from: usize, to: usize, out: &mut Vec<char>)
    requires
        from <= to <= s@.len(),
    ensures
        final(out)@ == old(out)@ + spelled_name(*sp, s@.subrange(from as int, to as int)),
{
    let raw = vstd::slice::slice_subrange(s, from, to);
    if has_char(raw, '\\') {
        let name = respell(&sp.names, raw);
        append(out, name.as_slice());
    } else {
        append(out, raw);
    }
}

/// A name in lower case without its vendor prefix: what follows the second `-` of a name that
/// starts with one.
pub open spec fn unvendored(s: Seq<char>) -> Seq<char> {
    if s.len() > 0 && s[0] == '-' && first_from(s, '-', 1) < s.len() {
        s.skip(first_from(s, '-', 1) + 1)
    } else {
        s
    }
}

/// Whether a pseudo element of this name takes a selector.
pub open spec fn selector_pseudo_element(name: Seq<char>) -> bool {
    let n = unvendored(lower(name));
    n == "slotted"@ || n == "cue"@ || n == "cue-region"@
}

pub fn is_selector_pseudo_element(name: &[char]) -> (r: bool)
    ensures
        r == selector_pseudo_element(name@),
{
    let low = to_lower(name);
    let n: usize = low.len();
    let mut from: usize = 0;
    if n > 0 && low[0] == '-' {
        let dash: usize = find_from(low.as_slice(), '-', 1);
        if dash < n {
            from = dash + 1;
        }
    }
    let base = vstd::slice::slice_subrange(low.as_slice(), from, n);
    proof {
        assert(base@ =~= unvendored(lower(name@)));
    }
    spells(base, "slotted") || spells(base, "cue") || spells(base, "cue-region")
}

/// The first index from `i` on that holds no space.
pub open spec fn spaces_end(s: Seq<char>, i: int) -> int
    decreases s.len() - i,
{
    if 0 <= i < s.len() && s[i] == ' ' {
        spaces_end(s, i + 1)
    } else {
        i
    }
}

pub proof fn lemma_spaces_end_range(s: Seq<char>, i: int)
    requires
        0 <= i <= s.len(),
    ensures
        i <= spaces_end(s, i) <= s.len(),
    decreases s.len() - i,
{
    if i < s.len() && s[i] == ' ' {
        lemma_spaces_end_range(s, i + 1);
    }
}

fn skip_spaces(s: &[char], start: usize) -> (r: usize)
    requires
        start <= s@.len(),
    ensures
        r == spaces_end(s@, start as int),
        start <= r <= s@.len(),
{
    let mut i: usize = start;
    while i < s.len() && s[i] == ' '
        invariant
            start <= i <= s@.len(),
            spaces_end(s@, i as int) == spaces_end(s@, start as int),
        decreases s@.len() - i,
    {
        i += 1;
    }
    i
}

/// The index of the `)` that closes the innermost of `depth` parentheses opened before `i`, all
/// opened after it being closed; the length if there is none.
pub open spec fn paren_close(s: Seq<char>, i: int, depth: int) -> int
    decreases s.len() - i,
{
    if i < 0 || i >= s.len() {
        s.len() as int
    } else if s[i] == '\\' {
        paren_close(s, escape_end(s, i), depth)
    } else if s[i] == '(' {
        paren_close(s, i + 1, depth + 1)
    } else if s[i] == ')' {
        if depth == 1 {
            i
        } else {
            paren_close(s, i + 1, depth - 1)
        }
    } else {
        paren_close(s, i + 1, depth)
    }
}

pub proof fn lemma_paren_close_range(s: Seq<char>, i: int, depth: int)
    requires
        0 <= i <= s.len(),
    ensures
        i <= paren_close(s, i, depth) <= s.len(),
    decreases s.len() - i,
{
    if i < s.len() {
        if s[i] == '\\' {
            lemma_paren_close_range(s, escape_end(s, i), depth);
        } else if s[i] == '(' {
            lemma_paren_close_range(s, i + 1, depth + 1);
        } else if s[i] == ')' {
            if depth != 1 {
                lemma_paren_close_range(s, i + 1, depth - 1);
            }
        } else {
            lemma_paren_close_range(s, i + 1, depth);
        }
    }
}

fn find_paren_close(s: &[char], start: usize) -> (r: usize)
    requires
        start <= s@.len(),
    ensures
        r == paren_close(s@, start as int, 1),
        start <= r <= s@.len(),
{
    let n: usize = s.len();
    let mut depth: i128 = 1;
    let mut i: usize = start;
    while i < n
        invariant
            n == s@.len(),
            start <= i <= n,
            1 - i <= depth <= 1 + i,
            paren_close(s@, i as int, depth as int) == paren_close(s@, start as int, 1),
        decreases n - i,
    {
        let c = s[i];
        if c == '\\' {
            i = past_escape(s, i);
            continue;
        }
        if c == '(' {
            depth += 1;
        } else if c == ')' {
            if depth == 1 {
                return i;
            }
            depth -= 1;
        }
        i += 1;
    }
    n
}

/// Where the name of the pseudo selector at `i` starts: past one colon, or two.
pub open spec fn pseudo_name_start(s: Seq<char>, i: int) -> int {
    if at(s, i + 1) == Some(':') {
        i + 2
    } else {
        i + 1
    }
}

pub open spec fn pseudo_name_stop(s: Seq<char>, i: int) -> int {
    name_end(s, pseudo_name_start(s, i))
}

/// Where the argument text of the pseudo selector at `i` starts, past the spaces after its `(`.
pub open spec fn pseudo_arg_start(s: Seq<char>, i: int) -> int {
    spaces_end(s, pseudo_name_stop(s, i) + 1)
}

/// The text of the pseudo selector at `i`, its name respelled and the spaces inside its
/// parentheses dropped; a pseudo element that takes no selector keeps those at the end.
pub open spec fn pseudo_text(sp: Spellings, s: Seq<char>, i: int) -> Seq<char> {
    let from = pseudo_name_start(s, i);
    let to = pseudo_name_stop(s, i);
    let raw = s.subrange(from, to);
    let head = s.subrange(i, from) + spelled_name(sp, raw);
    if at(s, to) == Some('(') {
        let a = pseudo_arg_start(s, i);
        let close = paren_close(s, a, 1);
        let arg = head.push('(') + s.subrange(a, close);
        if close >= s.len() {
            arg
        } else if from == i + 1 || selector_pseudo_element(raw) {
            without_trailing_spaces(arg).push(')')
        } else {
            arg.push(')')
        }
    } else {
        head
    }
}

/// The index past the pseudo selector at `i`.
pub open spec fn pseudo_end(s: Seq<char>, i: int) -> int {
    let to = pseudo_name_stop(s, i);
    if at(s, to) == Some('(') {
        let close = paren_close(s, pseudo_arg_start(s, i), 1);
        if close < s.len() {
            close + 1
        } else {
            close
        }
    } else {
        to
    }
}

pub proof fn lemma_pseudo_end_range(s: Seq<char>, i: int)
    requires
        0 <= i < s.len(),
    ensures
        i < pseudo_end(s, i) <= s.len(),
{
    lemma_name_end_range(s, pseudo_name_start(s, i));
    let to = pseudo_name_stop(s, i);
    if at(s, to) == Some('(') {
        lemma_spaces_end_range(s, to + 1);
        lemma_paren_close_range(s, pseudo_arg_start(s, i), 1);
    }
}

fn copy_pseudo(sp: &Spellings, s: &[char], i: usize) -> (r: (Vec<char>, usize))
    requires
        i < s@.len(),
    ensures
        r.0@ == pseudo_text(*sp, s@, i as int),
        r.1 == pseudo_end(s@, i as int),
        i < r.1 <= s@.len(),
{
    let n: usize = s.len();
    let element = i < n - 1 && s[i + 1] == ':';
    let from: usize = if element { i + 2 } else { i + 1 };
    let to: usize = skip_name(s, from);
    let mut out = to_vec(vstd::slice::slice_subrange(s, i, from));
    copy_name(sp, s, from, to, &mut out);
    if to < n && s[to] == '(' {
        let a: usize = skip_spaces(s, to + 1);
        let close: usize = find_paren_close(s, a);
        out.push('(');
        append(&mut out, vstd::slice::slice_subrange(s, a, close));
        if close < n {
            if !element || is_selector_pseudo_element(vstd::slice::slice_subrange(s, from, to)) {
                pop_spaces(&mut out);
            }
            out.push(')');
            (out, close + 1)
        } else {
            (out, close)
        }
    } else {
        (out, to)
    }
}

/// Whether a type selector starts at `i`: an identifier, or a `*|`, `|` or `ns|` prefix.
pub open spec fn type_starts(s: Seq<char>, i: int) -> bool {
    let c = s[i];
    let next = at(s, i + 1);
    if c == '*' {
        next == Some('|') && at(s, i + 2) != Some('=')
    } else if c == '|' {
        next != Some('=')
    } else if name_start(c) {
        true
    } else if c == '-' {
        next is Some && (name_start(next->0) || next->0 == '-' || next->0 == '\\')
    } else {
        c == '\\'
    }
}

fn type_selector_starts_at(s: &[char], i: usize) -> (r: bool)
    requires
        i < s@.len(),
    ensures
        r == type_starts(s@, i as int),
{
    let n: usize = s.len();
    let c = s[i];
    if c == '*' {
        i < n - 1 && s[i + 1] == '|' && !(i + 1 < n - 1 && s[i + 2] == '=')
    } else if c == '|' {
        !(i < n - 1 && s[i + 1] == '=')
    } else if is_name_start(c) {
        true
    } else if c == '-' {
        i < n - 1 && (is_name_start(s[i + 1]) || s[i + 1] == '-' || s[i + 1] == '\\')
    } else {
        c == '\\'
    }
}

/// The index past the first segment of the type selector at `i`: a `*`, nothing, or a name.
pub open spec fn type_head_end(s: Seq<char>, i: int) -> int {
    if s[i] == '*' {
        i + 1
    } else if s[i] == '|' {
        i
    } else {
        name_end(s, i)
    }
}

/// The text of the segment of a type selector between `i` and `j`: a `*`, or a name respelled.
pub open spec fn type_segment(sp: Spellings, s: Seq<char>, i: int, j: int) -> Seq<char> {
    if at(s, i) == Some('*') {
        seq!['*']
    } else {
        spelled_name(sp, s.subrange(i, j))
    }
}

pub open spec fn has_type_tail(s: Seq<char>, j: int) -> bool {
    at(s, j) == Some('|') && at(s, j + 1) != Some('=')
}

pub open spec fn type_tail_end(s: Seq<char>, k: int) -> int {
    if at(s, k) == Some('*') {
        k + 1
    } else {
        name_end(s, k)
    }
}

pub open spec fn type_text(sp: Spellings, s: Seq<char>, i: int) -> Seq<char> {
    let j = type_head_end(s, i);
    let head = type_segment(sp, s, i, j);
    if has_type_tail(s, j) {
        head.push('|') + type_segment(sp, s, j + 1, type_tail_end(s, j + 1))
    } else {
        head
    }
}

pub open spec fn type_end(s: Seq<char>, i: int) -> int {
    let j = type_head_end(s, i);
    if has_type_tail(s, j) {
        type_tail_end(s, j + 1)
    } else {
        j
    }
}

pub proof fn lemma_type_end_range(s: Seq<char>, i: int)
    requires
        0 <= i < s.len(),
        type_starts(s, i),
    ensures
        i < type_end(s, i) <= s.len(),
{
    lemma_name_end_range(s, i);
    let j = type_head_end(s, i);
    if has_type_tail(s, j) {
        lemma_name_end_range(s, j + 1);
    }
}

fn copy_type_selector(sp: &Spellings, s: &[char], i: usize) -> (r: (Vec<char>, usize))
    requires
        i < s@.len(),
        type_starts(s@, i as int),
    ensures
        r.0@ == type_text(*sp, s@, i as int),
        r.1 == type_end(s@, i as int),
        i < r.1 <= s@.len(),
{
    let n: usize = s.len();
    let mut out: Vec<char> = Vec::new();
    let mut j: usize = i;
    if s[i] == '*' {
        out.push('*');
        j = i + 1;
    } else if s[i] == '|' {
        proof {
            assert(s@.subrange(i as int, i as int) =~= Seq::empty());
        }
    } else {
        j = skip_name(s, i);
        copy_name(sp, s, i, j, &mut out);
    }
    proof {
        lemma_type_end_range(s@, i as int);
        assert(out@ =~= type_segment(*sp, s@, i as int, j as int));
    }
    if j < n && s[j] == '|' && !(j < n - 1 && s[j + 1] == '=') {
        let ghost head = out@;
        out.push('|');
        let k: usize = j + 1;
        if k < n && s[k] == '*' {
            out.push('*');
            proof {
                assert(out@ =~= head.push('|') + seq!['*']);
            }
            (out, k + 1)
        } else {
            let m: usize = skip_name(s, k);
            copy_name(sp, s, k, m, &mut out);
            (out, m)
        }
    } else {
        (out, j)
    }
}

// ---- the whole selector --------------------------------------------------

/// `out`, and then the canonical form of `s` from `i` on. `mid` says that the current compound
/// already holds a simple selector, so that a type selector starts a new one.
pub open spec fn assembled(sp: Spellings, s: Seq<char>, i: int, out: Seq<char>, mid: bool) -> Seq<char>
    decreases s.len() - i via assembled_terminates
{
    if i < 0 || i >= s.len() {
        out
    } else {
        let c = s[i];
        if c == '[' {
            let end = bracket_close(s, i + 1);
            if end < s.len() {
                assembled(
                    sp,
                    s,
                    end + 1,
                    out + respelled(sp.attributes@, s.subrange(i, end + 1)),
                    true,
                )
            } else {
                out.push('[') + attribute_text(s.skip(i + 1))
            }
        } else if c == '.' || c == '#' || c == '%' {
            let e = name_end(s, i + 1);
            assembled(sp, s, e, out.push(c) + spelled_name(sp, s.subrange(i + 1, e)), true)
        } else if c == ':' {
            assembled(
                sp,
                s,
                pseudo_end(s, i),
                out + respelled(sp.pseudos@, pseudo_text(sp, s, i)),
                true,
            )
        } else if c == '*' && (at(s, i + 1) != Some('|') || at(s, i + 2) == Some('=')) {
            assembled(sp, s, i + 1, out.push('*'), true)
        } else if is_combinator(c) {
            assembled(
                sp,
                s,
                spaces_end(s, i + 1),
                without_trailing_spaces(out).push(' ').push(c).push(' '),
                false,
            )
        } else if is_plain_space(c) {
            assembled(sp, s, i + 1, out.push(c), false)
        } else if type_starts(s, i) {
            let gap = mid && !(out.len() > 0 && out.last() == ' ');
            let lead = if gap {
                out.push(' ')
            } else {
                out
            };
            assembled(sp, s, type_end(s, i), lead + type_text(sp, s, i), true)
        } else {
            assembled(sp, s, i + 1, out.push(c), false)
        }
    }
}

#[via_fn]
proof fn assembled_terminates(sp: Spellings, s: Seq<char>, i: int, out: Seq<char>, mid: bool) {
    if 0 <= i < s.len() {
        lemma_bracket_close_range(s, i + 1);
        lemma_name_end_range(s, i + 1);
        lemma_pseudo_end_range(s, i);
        lemma_spaces_end_range(s, i + 1);
        if type_starts(s, i) {
            lemma_type_end_range(s, i);
        }
    }
}

fn assemble(sp: &Spellings, s: &[char]) -> (r: Vec<char>)
    ensures
        r@ == assembled(*sp, s@, 0, Seq::empty(), false),
{
    let n: usize = s.len();
    let mut out: Vec<char> = Vec::new();
    let mut i: usize = 0;
    let mut mid: bool = false;
    while i < n
        invariant
            n == s@.len(),
            i <= n,
            assembled(*sp, s@, i as int, out@, mid) == assembled(*sp, s@, 0, Seq::empty(), false),
        decreases n - i,
    {
        let c = s[i];
        if c == '[' {
            let end: usize = matching_bracket(s, i);
            if end < n {
                let text = respell(&sp.attributes, vstd::slice::slice_subrange(s, i, end + 1));
                append(&mut out, text.as_slice());
                i = end + 1;
                mid = true;
            } else {
                let inner = vstd::slice::slice_subrange(s, i + 1, n);
                proof {
                    assert(inner@ =~= s@.skip(i + 1));
                }
                let text = normalize_attribute_text(inner);
                out.push('[');
                append(&mut out, text.as_slice());
                return out;
            }
        } else if c == '.' || c == '#' || c == '%' {
            let e: usize = skip_name(s, i + 1);
            out.push(c);
            copy_name(sp, s, i + 1, e, &mut out);
            i = e;
            mid = true;
        } else if c == ':' {
            let (text, e) = copy_pseudo(sp, s, i);
            let text = respell(&sp.pseudos, text.as_slice());
            append(&mut out, text.as_slice());
            i = e;
            mid = true;
        } else if c == '*' && (!(i < n - 1 && s[i + 1] == '|') || (i + 1 < n - 1 && s[i + 2] == '=')) {
            out.push('*');
            i += 1;
            mid = true;
        } else if c == '>' || c == '~' || c == '+' {
            pop_spaces(&mut out);
            out.push(' ');
            out.push(c);
            out.push(' ');
            i = skip_spaces(s, i + 1);
            mid = false;
        } else if c == ' ' || c == '\t' || c == '\n' || c == '\r' {
            out.push(c);
            i += 1;
            mid = false;
        } else if type_selector_starts_at(s, i) {
            if mid && !(out.len() > 0 && out[out.len() - 1] == ' ') {
                out.push(' ');
            }
            let (text, e) = copy_type_selector(sp, s, i);
            append(&mut out, text.as_slice());
            i = e;
            mid = true;
        } else {
            out.push(c);
            i += 1;
            mid = false;
        }
    }
    out
}

/// `out` trimmed, but for a space that belongs to a trailing escape.
pub open spec fn trimmed_result(out: Seq<char>) -> Seq<char> {
    let t0 = trimmed_start(out);
    let t = trimmed_end(t0);
    if t.len() < t0.len() && t0[t.len() as int] == ' ' && ends_in_escape(t) {
        t.push(' ')
    } else {
        t
    }
}

/// The canonical spelling of any selector.
pub open spec fn respelled_selector(sp: Spellings, s: Seq<char>) -> Seq<char> {
    trimmed_result(assembled(sp, collapsed(s), 0, Seq::empty(), false))
}

pub fn normalize_selector_slow(sp: &Spellings, s: &[char]) -> (r: Vec<char>)
    ensures
        r@ == respelled_selector(*sp, s@),
{
    let tidy = collapse_whitespace(s);
    let out = assemble(sp, tidy.as_slice());
    let t0 = trim_start(out.as_slice());
    let t = trim_end(t0);
    let mut r = to_vec(t);
    proof {
        lemma_trimmed_end_prefix(t0@);
    }
    if t.len() < t0.len() && t0[t.len()] == ' ' && (ends_with_hex_escape(t)
        || ends_with_escaping_backslash(t)) {
        r.push(' ');
    }
    r
}

/// A character of a selector that no rule of this module rewrites.
pub open spec fn plain_char(c: char) -> bool {
    is_alnum(c) || c == '_' || c == '-' || c == '.' || c == '#' || c == '%'
}

/// Whether `s` is made of plain characters in runs with single spaces between them.
pub open spec fn canonical_plain(s: Seq<char>) -> bool {
    &&& s.len() > 0
    &&& s[0] != ' '
    &&& s.last() != ' '
    &&& forall|k: int| 0 <= k < s.len() ==> plain_char(#[trigger] s[k]) || s[k] == ' '
    &&& forall|k: int| 0 < k < s.len() && #[trigger] s[k] == ' ' ==> s[k - 1] != ' '
}

pub fn is_canonical_plain(s: &[char]) -> (r: bool)
    ensures
        r == canonical_plain(s@),
{
    let n: usize = s.len();
    if n == 0 || s[0] == ' ' || s[n - 1] == ' ' {
        return false;
    }
    let mut spaced: bool = false;
    let mut i: usize = 0;
    while i < n
        invariant
            n == s@.len(),
            i <= n,
            spaced == (i > 0 && s@[i - 1] == ' '),
            forall|k: int| 0 <= k < i ==> plain_char(#[trigger] s@[k]) || s@[k] == ' ',
            forall|k: int| 0 < k < i && #[trigger] s@[k] == ' ' ==> s@[k - 1] != ' ',
        decreases n - i,
    {
        let c = s[i];
        if c == ' ' {
            if spaced {
                return false;
            }
            spaced = true;
        } else if alnum(c) || c == '_' || c == '-' || c == '.' || c == '#' || c == '%' {
            spaced = false;
        } else {
            return false;
        }
        i += 1;
    }
    true
}

/// The canonical spelling of a selector; one that is canonical already is kept as it is.
pub open spec fn normalized(sp: Spellings, s: Seq<char>) -> Seq<char> {
    if canonical_plain(s) {
        s
    } else {
        respelled_selector(sp, s)
    }
}

/// The canonical spelling of a selector: white space collapsed, one space round each combinator,
/// attribute selectors, names and pseudos as `sp` spells them, and a space between a compound and
/// a type selector glued to it.
pub fn normalize_selector(sp: &Spellings, s: &[char]) -> (r: Vec<char>)
    ensures
        r@ == normalized(*sp, s@),
{
    if is_canonical_plain(s) {
        return to_vec(s);
    }
    normalize_selector_slow(sp, s)
}

// ---- laws ----------------------------------------------------------------

proof fn lemma_collapse_keeps_canonical(s: Seq<char>, i: int)
    requires
        canonical_plain(s),
        0 <= i <= s.len(),
    ensures
        collapse(s, i, s.take(i), i == 0 || s[i - 1] == ' ') == s,
    decreases s.len() - i,
{
    if i < s.len() {
        assert(plain_char(s[i]) || s[i] == ' ');
        assert(s.take(i).push(s[i]) =~= s.take(i + 1));
        lemma_collapse_keeps_canonical(s, i + 1);
        assert((i + 1 == 0 || s[i] == ' ') == (s[i] == ' '));
    } else {
        assert(s.take(i) =~= s);
        assert(s.last() == s[i - 1]);
    }
}

proof fn lemma_plain_name(s: Seq<char>, i: int)
    requires
        canonical_plain(s),
        0 <= i <= s.len(),
    ensures
        i <= name_end(s, i) <= s.len(),
        name_end(s, i) < s.len() ==> !name_char(s[name_end(s, i)]),
        !s.subrange(i, name_end(s, i)).contains('\\'),
    decreases s.len() - i,
{
    if i < s.len() {
        assert(plain_char(s[i]) || s[i] == ' ');
        if name_char(s[i]) {
            lemma_plain_name(s, i + 1);
        }
    }
    lemma_name_end_range(s, i);
    let raw = s.subrange(i, name_end(s, i));
    assert forall|k: int| 0 <= k < raw.len() implies raw[k] != '\\' by {
        assert(plain_char(s[i + k]) || s[i + k] == ' ');
    }
}

proof fn lemma_assembled_keeps_canonical(sp: Spellings, s: Seq<char>, i: int, mid: bool)
    requires
        canonical_plain(s),
        0 <= i <= s.len(),
        mid && i < s.len() ==> !name_char(s[i]),
    ensures
        assembled(sp, s, i, s.take(i), mid) == s,
    decreases s.len() - i,
{
    if i >= s.len() {
        assert(s.take(i) =~= s);
    } else {
        let c = s[i];
        assert(plain_char(c) || c == ' ');
        assert(s.take(i).push(c) =~= s.take(i + 1));
        if c == '.' || c == '#' || c == '%' {
            let e = name_end(s, i + 1);
            lemma_plain_name(s, i + 1);
            assert(s.take(i).push(c) + s.subrange(i + 1, e) =~= s.take(e));
            lemma_assembled_keeps_canonical(sp, s, e, true);
        } else if c == ' ' {
            lemma_assembled_keeps_canonical(sp, s, i + 1, false);
        } else if type_starts(s, i) {
            let e = name_end(s, i);
            lemma_plain_name(s, i);
            lemma_type_end_range(s, i);
            if e < s.len() {
                assert(plain_char(s[e]) || s[e] == ' ');
            }
            assert(!has_type_tail(s, e));
            assert(s.take(i) + s.subrange(i, e) =~= s.take(e));
            lemma_assembled_keeps_canonical(sp, s, e, true);
        } else {
            lemma_assembled_keeps_canonical(sp, s, i + 1, false);
        }
    }
}

/// A selector that is canonical already is its own canonical spelling, whatever the spellings of
/// names, attributes and pseudos: the shortcut of [`normalize_selector`] changes no result.
pub proof fn canonical_selector_is_fixed(sp: Spellings, s: Seq<char>)
    requires
        canonical_plain(s),
    ensures
        respelled_selector(sp, s) == s,
        normalized(sp, s) == respelled_selector(sp, s),
{
    assert(s.take(0) =~= Seq::empty());
    lemma_collapse_keeps_canonical(s, 0);
    lemma_assembled_keeps_canonical(sp, s, 0, false);
    assert(plain_char(s[0]) || s[0] == ' ');
    assert(plain_char(s.last()) || s.last() == ' ') by {
        assert(s.last() == s[s.len() - 1]);
    }
}

} // verus!
