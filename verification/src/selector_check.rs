//! Which selectors are rejected, and with what message.

use vstd::prelude::*;
use crate::error::{Error, verdict};
use crate::scan::{
    at, bracket_close, comma_parts, escape_end, is_combinator, is_name_char, is_plain_space,
    is_quote, lemma_bracket_close_range, lemma_string_close_range, matching_bracket, name_char,
    past_escape, skip_string, skip_ws, split_commas, string_end, ws_end,
};
use crate::text::{
    alnum, alpha, ascii, chars_of, digit, is_alnum, is_alpha, is_ascii_char, is_digit, is_ws,
    lower, rows, starts, starts_with, to_lower, trim, trim_start, trimmed, trimmed_start,
    whitespace,
};

verus! {

// ---- attribute selectors -------------------------------------------------

pub open spec fn attr_name_char(c: char) -> bool {
    name_char(c) || c == '|' || c == '*'
}

/// The index past the attribute name that starts at `i`.
pub open spec fn attr_name_end(s: Seq<char>, i: int) -> int
    decreases s.len() - i,
{
    if i < 0 || i >= s.len() {
        i
    } else if s[i] == '\\' {
        attr_name_end(s, escape_end(s, i))
    } else if attr_name_char(s[i]) {
        attr_name_end(s, i + 1)
    } else {
        i
    }
}

/// The index past the unquoted attribute value that starts at `i`.
pub open spec fn bare_value_end(s: Seq<char>, i: int) -> int
    decreases s.len() - i,
{
    if i < 0 || i >= s.len() {
        i
    } else if s[i] == '\\' {
        bare_value_end(s, escape_end(s, i))
    } else if is_ws(s[i]) {
        i
    } else {
        bare_value_end(s, i + 1)
    }
}

/// The index past the attribute value, quoted or not, that starts at `i`.
pub open spec fn attr_value_end(s: Seq<char>, i: int) -> int {
    if is_quote(s[i]) {
        string_end(s, i)
    } else {
        bare_value_end(s, i)
    }
}

pub fn skip_attr_name(s: &[char], start: usize) -> (r: usize)
    requires
        start <= s@.len(),
    ensures
        r == attr_name_end(s@, start as int),
        start <= r <= s@.len(),
{
    let n: usize = s.len();
    let mut i: usize = start;
    while i < n && (s[i] == '\\' || is_name_char(s[i]) || s[i] == '|' || s[i] == '*')
        invariant
            n == s@.len(),
            start <= i <= n,
            attr_name_end(s@, i as int) == attr_name_end(s@, start as int),
        decreases n - i,
    {
        if s[i] == '\\' {
            i = past_escape(s, i);
        } else {
            i += 1;
        }
    }
    i
}

pub fn skip_attr_value(s: &[char], start: usize) -> (r: usize)
    requires
        start < s@.len(),
    ensures
        r == attr_value_end(s@, start as int),
        start <= r <= s@.len(),
{
    if s[start] == '"' || s[start] == '\'' {
        return skip_string(s, start);
    }
    let n: usize = s.len();
    let mut i: usize = start;
    while i < n && (s[i] == '\\' || !whitespace(s[i]))
        invariant
            n == s@.len(),
            start <= i <= n,
            bare_value_end(s@, i as int) == bare_value_end(s@, start as int),
        decreases n - i,
    {
        if s[i] == '\\' {
            i = past_escape(s, i);
        } else {
            i += 1;
        }
    }
    i
}

/// How many characters the attribute operator at `i` has: `=` is one, `~= |= ^= $= *=` are two,
/// and anything else is none.
pub open spec fn attr_op_len(s: Seq<char>, i: int) -> int {
    if at(s, i) == Some('=') {
        1
    } else if (at(s, i) == Some('~') || at(s, i) == Some('|') || at(s, i) == Some('^') || at(s, i)
        == Some('$') || at(s, i) == Some('*')) && at(s, i + 1) == Some('=') {
        2
    } else {
        0
    }
}

pub fn attr_op(s: &[char], i: usize) -> (r: usize)
    requires
        i < s@.len(),
    ensures
        r == attr_op_len(s@, i as int),
        i + r <= s@.len(),
{
    let n: usize = s.len();
    let c = s[i];
    if c == '=' {
        1
    } else if (c == '~' || c == '|' || c == '^' || c == '$' || c == '*') && i < n - 1 && s[i + 1] == '=' {
        2
    } else {
        0
    }
}

/// Where the attribute text `s` is split: past the name, past the operator, past the value.
pub open spec fn attr_name_stop(s: Seq<char>) -> int {
    attr_name_end(s, ws_end(s, 0))
}

pub open spec fn attr_op_start(s: Seq<char>) -> int {
    ws_end(s, attr_name_stop(s))
}

pub open spec fn attr_value_start(s: Seq<char>) -> int {
    ws_end(s, attr_op_start(s) + attr_op_len(s, attr_op_start(s)))
}

pub open spec fn attr_tail(s: Seq<char>) -> int {
    ws_end(s, attr_value_end(s, attr_value_start(s)))
}

/// Whether the text between `[` and `]` is a name alone, or a name, an operator, a value, and
/// then at most one ASCII letter right before the end.
pub open spec fn attribute_ok(s: Seq<char>) -> bool {
    ||| attr_op_start(s) >= s.len()
    ||| {
        &&& attr_op_len(s, attr_op_start(s)) > 0
        &&& attr_value_start(s) < s.len()
        &&& {
            ||| attr_tail(s) >= s.len()
            ||| is_alpha(s[attr_tail(s)]) && attr_tail(s) + 1 == s.len()
        }
    }
}

pub open spec fn attribute_fault(s: Seq<char>) -> Option<Seq<char>> {
    if attribute_ok(s) {
        None
    } else {
        Some("expected \"]\"."@)
    }
}

/// Check the inside of an attribute selector.
pub fn validate_attribute(inner: &[char]) -> (r: Result<(), Error>)
    ensures
        verdict(r, attribute_fault(inner@)),
{
    let n: usize = inner.len();
    let name_at: usize = skip_ws(inner, 0);
    let name_to: usize = skip_attr_name(inner, name_at);
    let op_at: usize = skip_ws(inner, name_to);
    if op_at >= n {
        return Ok(());
    }
    let op: usize = attr_op(inner, op_at);
    if op == 0 {
        return Err(Error::unpositioned("expected \"]\"."));
    }
    let value_at: usize = skip_ws(inner, op_at + op);
    if value_at >= n {
        return Err(Error::unpositioned("expected \"]\"."));
    }
    let value_to: usize = skip_attr_value(inner, value_at);
    let tail: usize = skip_ws(inner, value_to);
    if tail >= n {
        return Ok(());
    }
    if alpha(inner[tail]) && tail == n - 1 {
        return Ok(());
    }
    Err(Error::unpositioned("expected \"]\"."))
}

// ---- selector lists ------------------------------------------------------

/// The start of the run of name characters that ends at `j`.
pub open spec fn name_run_start(s: Seq<char>, j: int) -> int
    decreases j,
{
    if 0 < j <= s.len() && name_char(s[j - 1]) {
        name_run_start(s, j - 1)
    } else {
        j
    }
}

/// Whether the parenthesis at `open` follows a pseudo name: a run of name characters after a `:`.
pub open spec fn follows_pseudo(s: Seq<char>, open: int) -> bool {
    let j = name_run_start(s, open);
    0 < j < open && s[j - 1] == ':'
}

pub fn paren_follows_pseudo(s: &[char], open: usize) -> (r: bool)
    requires
        open <= s@.len(),
    ensures
        r == follows_pseudo(s@, open as int),
{
    let mut j: usize = open;
    while j > 0 && is_name_char(s[j - 1])
        invariant
            j <= open <= s@.len(),
            name_run_start(s@, j as int) == name_run_start(s@, open as int),
        decreases j,
    {
        j -= 1;
    }
    j < open && j > 0 && s[j - 1] == ':'
}

/// What goes wrong with the nesting of `(`, `[` and quotes from `i` on. `stack` holds the open
/// brackets and `quote` the open quote. A backslash takes the character after it along.
pub open spec fn nesting_fault(
    s: Seq<char>,
    i: int,
    stack: Seq<char>,
    quote: Option<char>,
) -> Option<Seq<char>>
    decreases s.len() - i,
{
    if i < 0 || i >= s.len() {
        None
    } else {
        let c = s[i];
        let popped = if stack.len() > 0 {
            stack.drop_last()
        } else {
            stack
        };
        if c == '\\' {
            nesting_fault(s, escape_end(s, i), stack, quote)
        } else if is_quote(c) {
            let q = match quote {
                Some(open) => if open == c {
                    None
                } else {
                    quote
                },
                None => Some(c),
            };
            nesting_fault(s, i + 1, stack, q)
        } else if quote is Some {
            nesting_fault(s, i + 1, stack, quote)
        } else if c == '(' || c == '[' {
            nesting_fault(s, i + 1, stack.push(c), quote)
        } else if c == ')' {
            if stack.len() > 0 && stack.last() == '[' {
                Some("expected \"]\"."@)
            } else {
                nesting_fault(s, i + 1, popped, quote)
            }
        } else if c == ']' {
            if stack.len() > 0 && stack.last() == '(' {
                Some("expected \")\"."@)
            } else {
                nesting_fault(s, i + 1, popped, quote)
            }
        } else {
            nesting_fault(s, i + 1, stack, quote)
        }
    }
}

fn check_nesting(s: &[char]) -> (r: Result<(), Error>)
    ensures
        verdict(r, nesting_fault(s@, 0, Seq::empty(), None)),
{
    let n: usize = s.len();
    let mut stack: Vec<char> = Vec::new();
    let mut quote: Option<char> = None;
    let mut i: usize = 0;
    while i < n
        invariant
            n == s@.len(),
            i <= n,
            nesting_fault(s@, i as int, stack@, quote) == nesting_fault(s@, 0, Seq::empty(), None),
        decreases n - i,
    {
        let c = s[i];
        if c == '\\' {
            i = past_escape(s, i);
            continue;
        }
        if c == '"' || c == '\'' {
            quote = match quote {
                Some(open) => if open == c {
                    None
                } else {
                    Some(open)
                },
                None => Some(c),
            };
        } else if quote.is_some() {
        } else if c == '(' || c == '[' {
            stack.push(c);
        } else if c == ')' {
            if let Some(open) = stack.pop() {
                if open == '[' {
                    return Err(Error::unpositioned("expected \"]\"."));
                }
            }
        } else if c == ']' {
            if let Some(open) = stack.pop() {
                if open == '(' {
                    return Err(Error::unpositioned("expected \")\"."));
                }
            }
        }
        i += 1;
    }
    Ok(())
}

/// Whether `s`, in lower case, spells `pat` at `p`, and only white space stands between that and
/// a `)`.
pub open spec fn empty_argument_at(s: Seq<char>, pat: Seq<char>, p: int) -> bool {
    &&& 0 <= p
    &&& starts(lower(s).skip(p), pat)
    &&& p + pat.len() <= s.len()
    &&& starts(trimmed_start(lower(s).skip(p + pat.len())), seq![')'])
}

/// Whether the pseudo `pat` occurs with an empty argument.
pub open spec fn has_empty_argument(s: Seq<char>, pat: Seq<char>) -> bool {
    exists|p: int| p <= s.len() && #[trigger] empty_argument_at(s, pat, p)
}

/// Whether one of the `:nth-*` pseudos, which need an argument, has an empty one.
pub open spec fn has_empty_nth(s: Seq<char>) -> bool {
    ||| has_empty_argument(s, ":nth-child("@)
    ||| has_empty_argument(s, ":nth-last-child("@)
    ||| has_empty_argument(s, ":nth-of-type("@)
    ||| has_empty_argument(s, ":nth-last-of-type("@)
}

fn empty_argument(s: &[char], low: &[char], pat: &str) -> (r: bool)
    requires
        low@ == lower(s@),
    ensures
        r == has_empty_argument(s@, pat@),
{
    let n: usize = low.len();
    let chars = chars_of(pat);
    let m: usize = chars.len();
    let mut p: usize = 0;
    while p < n
        invariant
            n == low@.len() == s@.len(),
            low@ == lower(s@),
            m == pat@.len(),
            p <= n,
            forall|k: int| 0 <= k < p ==> !empty_argument_at(s@, pat@, k),
        decreases n - p,
    {
        let rest = vstd::slice::slice_subrange(low, p, n);
        proof {
            assert(rest@ =~= lower(s@).skip(p as int));
        }
        if starts_with(rest, pat) {
            let after = vstd::slice::slice_subrange(rest, m, rest.len());
            proof {
                assert(after@ =~= lower(s@).skip(p + pat@.len()));
            }
            let tail = trim_start(after);
            if tail.len() > 0 && tail[0] == ')' {
                proof {
                    assert(tail@.take(1) =~= seq![')']);
                    assert(empty_argument_at(s@, pat@, p as int));
                }
                return true;
            }
            proof {
                if starts(tail@, seq![')']) {
                    assert(tail@.take(1)[0] == tail@[0]);
                    assert(seq![')'][0] == ')');
                }
            }
        }
        p += 1;
    }
    proof {
        lemma_no_empty_argument_at_end(s@, pat@);
    }
    false
}

proof fn lemma_no_empty_argument_at_end(s: Seq<char>, pat: Seq<char>)
    ensures
        !empty_argument_at(s, pat, s.len() as int),
{
    if empty_argument_at(s, pat, s.len() as int) {
        let rest = lower(s).skip((s.len() + pat.len()) as int);
        assert(rest.len() == 0);
        assert(trimmed_start(rest).len() == 0);
    }
}

fn check_nth(s: &[char]) -> (r: bool)
    ensures
        r == has_empty_nth(s@),
{
    let low = to_lower(s);
    empty_argument(s, low.as_slice(), ":nth-child(") || empty_argument(s, low.as_slice(), ":nth-last-child(")
        || empty_argument(s, low.as_slice(), ":nth-of-type(") || empty_argument(
        s,
        low.as_slice(),
        ":nth-last-of-type(",
    )
}

/// Whether `c` glues a suffix onto a parent reference.
pub open spec fn is_suffix_char(c: char) -> bool {
    is_alnum(c) || c == '-' || c == '_' || c == '\\'
}

/// Whether `c` can start a placeholder name.
pub open spec fn starts_placeholder(c: char) -> bool {
    is_alpha(c) || c == '-' || c == '_' || c == '\\'
}

pub open spec fn digit_before(s: Seq<char>, i: int) -> bool {
    0 < i <= s.len() && is_digit(s[i - 1])
}

/// What is wrong with one comma part from `i` on. `start` holds at the start of a compound
/// selector; `depth` counts the open brackets; `has_parent` says whether an enclosing rule exists.
pub open spec fn part_fault(
    s: Seq<char>,
    i: int,
    start: bool,
    depth: int,
    has_parent: bool,
) -> Option<Seq<char>>
    decreases s.len() - i via part_fault_terminates
{
    if i < 0 || i >= s.len() {
        None
    } else {
        let c = s[i];
        let next = at(s, i + 1);
        if c == '\\' {
            part_fault(s, escape_end(s, i), false, depth, has_parent)
        } else if is_quote(c) {
            part_fault(s, string_end(s, i), false, depth, has_parent)
        } else if c == '[' && depth == 0 {
            let end = bracket_close(s, i + 1);
            match attribute_fault(s.subrange(i + 1, end)) {
                Some(m) => Some(m),
                None => part_fault(
                    s,
                    if end < s.len() {
                        end + 1
                    } else {
                        end
                    },
                    false,
                    depth,
                    has_parent,
                ),
            }
        } else if c == '(' && depth == 0 {
            if follows_pseudo(s, i) {
                part_fault(s, i + 1, false, depth + 1, has_parent)
            } else {
                Some("expected selector."@)
            }
        } else if c == ')' && depth == 0 {
            Some("Unexpected \")\"."@)
        } else if c == '[' || c == '(' {
            part_fault(s, i + 1, false, depth + 1, has_parent)
        } else if c == ']' || c == ')' {
            part_fault(s, i + 1, false, depth - 1, has_parent)
        } else if depth > 0 {
            part_fault(s, i + 1, start, depth, has_parent)
        } else if is_plain_space(c) || is_combinator(c) {
            part_fault(s, i + 1, true, depth, has_parent)
        } else if c == '&' {
            if !start {
                Some("\"&\" may only used at the beginning of a compound selector."@)
            } else if next is Some && is_suffix_char(next->0) && !has_parent {
                Some("A top-level selector may not contain a parent selector with a suffix."@)
            } else {
                part_fault(s, i + 1, false, depth, has_parent)
            }
        } else if c == '%' {
            if !digit_before(s, i) && !(next is Some && starts_placeholder(next->0)) {
                Some("Expected identifier."@)
            } else {
                part_fault(s, i + 1, false, depth, has_parent)
            }
        } else if c == '#' || (c == '.' && !digit_before(s, i)) {
            if !(next is Some && (starts_placeholder(next->0) || !is_ascii_char(next->0))) {
                Some("Expected identifier."@)
            } else {
                part_fault(s, i + 1, false, depth, has_parent)
            }
        } else if c == '/' {
            Some("expected selector."@)
        } else {
            part_fault(s, i + 1, false, depth, has_parent)
        }
    }
}

#[via_fn]
proof fn part_fault_terminates(s: Seq<char>, i: int, start: bool, depth: int, has_parent: bool) {
    if 0 <= i < s.len() {
        lemma_string_close_range(s, s[i], i + 1);
        lemma_bracket_close_range(s, i + 1);
    }
}

fn suffix_char(c: char) -> (r: bool)
    ensures
        r == is_suffix_char(c),
{
    alnum(c) || c == '-' || c == '_' || c == '\\'
}

fn placeholder_start(c: char) -> (r: bool)
    ensures
        r == starts_placeholder(c),
{
    alpha(c) || c == '-' || c == '_' || c == '\\'
}

fn check_part(s: &[char], has_parent: bool) -> (r: Result<(), Error>)
    ensures
        verdict(r, part_fault(s@, 0, true, 0, has_parent)),
{
    let n: usize = s.len();
    let mut i: usize = 0;
    let mut start: bool = true;
    let mut depth: i128 = 0;
    while i < n
        invariant
            n == s@.len(),
            i <= n,
            -i <= depth <= i,
            part_fault(s@, i as int, start, depth as int, has_parent) == part_fault(
                s@,
                0,
                true,
                0,
                has_parent,
            ),
        decreases n - i,
    {
        let c = s[i];
        let next = if i < n - 1 { Some(s[i + 1]) } else { None };
        proof {
            assert(next == at(s@, i + 1));
        }
        if c == '\\' {
            i = past_escape(s, i);
            start = false;
            continue;
        }
        if c == '"' || c == '\'' {
            i = skip_string(s, i);
            start = false;
            continue;
        }
        if c == '[' && depth == 0 {
            let end: usize = matching_bracket(s, i);
            let inner = vstd::slice::slice_subrange(s, i + 1, end);
            match validate_attribute(inner) {
                Ok(()) => {},
                Err(e) => {
                    return Err(e);
                },
            }
            i = if end < n { end + 1 } else { end };
            start = false;
            continue;
        }
        if c == '(' && depth == 0 {
            if !paren_follows_pseudo(s, i) {
                return Err(Error::unpositioned("expected selector."));
            }
            depth += 1;
            start = false;
        } else if c == ')' && depth == 0 {
            return Err(Error::unpositioned("Unexpected \")\"."));
        } else if c == '[' || c == '(' {
            depth += 1;
            start = false;
        } else if c == ']' || c == ')' {
            depth -= 1;
            start = false;
        } else if depth > 0 {
        } else if c == ' ' || c == '\t' || c == '\n' || c == '\r' || c == '>' || c == '+' || c == '~' {
            start = true;
        } else if c == '&' {
            if !start {
                return Err(
                    Error::unpositioned("\"&\" may only used at the beginning of a compound selector."),
                );
            }
            let suffix = match next {
                Some(m) => suffix_char(m),
                None => false,
            };
            if suffix && !has_parent {
                return Err(
                    Error::unpositioned(
                        "A top-level selector may not contain a parent selector with a suffix.",
                    ),
                );
            }
            start = false;
        } else if c == '%' {
            let after_digit = i > 0 && digit(s[i - 1]);
            let starts_ident = match next {
                Some(m) => placeholder_start(m),
                None => false,
            };
            if !after_digit && !starts_ident {
                return Err(Error::unpositioned("Expected identifier."));
            }
            start = false;
        } else if c == '#' || (c == '.' && !(i > 0 && digit(s[i - 1]))) {
            let starts_ident = match next {
                Some(m) => placeholder_start(m) || !ascii(m),
                None => false,
            };
            if !starts_ident {
                return Err(Error::unpositioned("Expected identifier."));
            }
            start = false;
        } else if c == '/' {
            return Err(Error::unpositioned("expected selector."));
        } else {
            start = false;
        }
        i += 1;
    }
    Ok(())
}

/// The fault of the first comma part, from `k` on, that has one.
pub open spec fn parts_fault(parts: Seq<Seq<char>>, k: int, has_parent: bool) -> Option<Seq<char>>
    decreases parts.len() - k,
{
    if k < 0 || k >= parts.len() {
        None
    } else {
        match part_fault(parts[k], 0, true, 0, has_parent) {
            Some(m) => Some(m),
            None => parts_fault(parts, k + 1, has_parent),
        }
    }
}

/// What is wrong with a selector list; `None` if nothing is.
pub open spec fn selector_fault(sel: Seq<char>, has_parent: bool) -> Option<Seq<char>> {
    if at(trimmed_start(sel), 0) == Some(',') {
        Some("expected selector."@)
    } else if nesting_fault(sel, 0, Seq::empty(), None) is Some {
        nesting_fault(sel, 0, Seq::empty(), None)
    } else if has_empty_nth(sel) {
        Some("Expected \"n\"."@)
    } else {
        parts_fault(comma_parts(sel), 0, has_parent)
    }
}

/// Check a selector list whose interpolation is resolved. `has_parent` says whether an enclosing
/// style rule gives `&` a meaning.
pub fn validate_selector(sel: &str, has_parent: bool) -> (r: Result<(), Error>)
    ensures
        verdict(r, selector_fault(sel@, has_parent)),
{
    let chars = chars_of(sel);
    let s = chars.as_slice();
    let lead = trim_start(s);
    if lead.len() > 0 && lead[0] == ',' {
        return Err(Error::unpositioned("expected selector."));
    }
    match check_nesting(s) {
        Ok(()) => {},
        Err(e) => {
            return Err(e);
        },
    }
    if check_nth(s) {
        return Err(Error::unpositioned("Expected \"n\"."));
    }
    let parts = split_commas(s);
    let ghost all = comma_parts(sel@);
    let mut k: usize = 0;
    while k < parts.len()
        invariant
            k <= parts@.len(),
            rows(parts@) == all,
            parts_fault(all, k as int, has_parent) == selector_fault(sel@, has_parent),
        decreases parts@.len() - k,
    {
        proof {
            assert(rows(parts@)[k as int] == parts@[k as int]@);
        }
        match check_part(parts[k].as_slice(), has_parent) {
            Ok(()) => {},
            Err(e) => {
                return Err(e);
            },
        }
        k += 1;
    }
    Ok(())
}

// ---- plain CSS -----------------------------------------------------------

/// What plain CSS forbids in one comma part, from `i` on.
pub open spec fn plain_part_fault(s: Seq<char>, i: int, start: bool, depth: int) -> Option<Seq<char>>
    decreases s.len() - i,
{
    if i < 0 || i >= s.len() {
        None
    } else {
        let c = s[i];
        let next = at(s, i + 1);
        if c == '\\' {
            plain_part_fault(s, escape_end(s, i), false, depth)
        } else if c == '[' || c == '(' {
            plain_part_fault(s, i + 1, start, depth + 1)
        } else if c == ']' || c == ')' {
            plain_part_fault(s, i + 1, start, depth - 1)
        } else if depth > 0 {
            plain_part_fault(s, i + 1, start, depth)
        } else if is_plain_space(c) || is_combinator(c) {
            plain_part_fault(s, i + 1, true, depth)
        } else if c == '%' && start {
            Some("Placeholder selectors aren't allowed in plain CSS."@)
        } else if c == '&' && next is Some && is_suffix_char(next->0) {
            Some("Parent selectors can't have suffixes in plain CSS."@)
        } else {
            plain_part_fault(s, i + 1, false, depth)
        }
    }
}

/// What plain CSS forbids in one comma part of a selector list.
pub open spec fn plain_selector_fault(part: Seq<char>, top_level: bool) -> Option<Seq<char>> {
    let s = trimmed(part);
    if top_level && s.len() > 0 && is_combinator(s[0]) {
        Some("Top-level leading combinators aren't allowed in plain CSS."@)
    } else if s.len() > 0 && is_combinator(s.last()) {
        Some("expected selector."@)
    } else {
        plain_part_fault(s, 0, true, 0)
    }
}

fn combinator(c: char) -> (r: bool)
    ensures
        r == is_combinator(c),
{
    c == '>' || c == '+' || c == '~'
}

/// Reject the selector forms that plain CSS forbids: a placeholder, a parent reference with a
/// suffix, a leading combinator at the top level, a trailing combinator.
pub fn validate_plain_css_selector(part: &str, top_level: bool) -> (r: Result<(), Error>)
    ensures
        verdict(r, plain_selector_fault(part@, top_level)),
{
    let chars = chars_of(part);
    let s = trim(chars.as_slice());
    let n: usize = s.len();
    if top_level && n > 0 && combinator(s[0]) {
        return Err(Error::unpositioned("Top-level leading combinators aren't allowed in plain CSS."));
    }
    if n > 0 && combinator(s[n - 1]) {
        return Err(Error::unpositioned("expected selector."));
    }
    let mut i: usize = 0;
    let mut start: bool = true;
    let mut depth: i128 = 0;
    while i < n
        invariant
            n == s@.len(),
            i <= n,
            -i <= depth <= i,
            plain_part_fault(s@, i as int, start, depth as int) == plain_selector_fault(part@, top_level),
        decreases n - i,
    {
        let c = s[i];
        if c == '\\' {
            i = past_escape(s, i);
            start = false;
            continue;
        }
        if c == '[' || c == '(' {
            depth += 1;
        } else if c == ']' || c == ')' {
            depth -= 1;
        } else if depth > 0 {
        } else if c == ' ' || c == '\t' || c == '\n' || c == '\r' || combinator(c) {
            start = true;
        } else if c == '%' && start {
            return Err(Error::unpositioned("Placeholder selectors aren't allowed in plain CSS."));
        } else if c == '&' {
            if i < n - 1 && suffix_char(s[i + 1]) {
                return Err(Error::unpositioned("Parent selectors can't have suffixes in plain CSS."));
            }
            start = false;
        } else {
            start = false;
        }
        i += 1;
    }
    Ok(())
}

} // verus!
