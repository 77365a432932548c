//! Names of members, modules, functions and namespaces.

use vstd::prelude::*;
use crate::error::{Error, Pos, fault_at};
use crate::text::{
    alnum, alpha, append, append_str, ascii, chars_of, digit, ends, ends_with, find_from,
    first_from, has_char, is_alpha, is_ascii_char, is_digit, is_ws, lower, replace, replaced,
    same_str, spells, starts, starts_with, string_of, to_lower, trim, trim_start, trimmed,
    trimmed_start, whitespace,
};

verus! {

// ---- members -------------------------------------------------------------

/// A member name in canonical form: `_` and `-` are the same character.
pub open spec fn dashed(s: Seq<char>) -> Seq<char> {
    s.map_values(
        |c: char|
            if c == '_' {
                '-'
            } else {
                c
            },
    )
}

pub fn dash(s: &str) -> (r: String)
    ensures
        r@ == dashed(s@),
{
    let chars = chars_of(s);
    let mut out: Vec<char> = Vec::new();
    let mut i: usize = 0;
    while i < chars.len()
        invariant
            i <= chars@.len(),
            out@ == dashed(chars@.take(i as int)),
        decreases chars@.len() - i,
    {
        out.push(
            if chars[i] == '_' {
                '-'
            } else {
                chars[i]
            },
        );
        i += 1;
        proof {
            assert(out@ =~= dashed(chars@.take(i as int)));
        }
    }
    proof {
        assert(chars@.take(i as int) =~= chars@);
    }
    string_of(out.as_slice())
}

/// The canonical form of an argument or parameter name.
pub fn normalize_arg_name(name: &str) -> (r: String)
    ensures
        r@ == dashed(name@),
{
    dash(name)
}

/// The canonical form of a variable name.
pub fn normalize_var_name(name: &str) -> (r: String)
    ensures
        r@ == dashed(name@),
{
    dash(name)
}

/// A canonical name is its own canonical form.
pub proof fn dashed_is_canonical(s: Seq<char>)
    ensures
        dashed(dashed(s)) == dashed(s),
        dashed(s).len() == s.len(),
        !dashed(s).contains('_'),
{
    assert(dashed(dashed(s)) =~= dashed(s));
}

/// Whether a member of this name is private to its module.
pub open spec fn private_name(s: Seq<char>) -> bool {
    s.len() > 0 && (s[0] == '-' || s[0] == '_')
}

pub fn is_private_member(name: &str) -> (r: bool)
    ensures
        r == private_name(name@),
{
    let s = chars_of(name);
    s.len() > 0 && (s[0] == '-' || s[0] == '_')
}

/// Privacy does not depend on which of the interchangeable characters a name is spelled with.
pub proof fn privacy_ignores_spelling(s: Seq<char>)
    ensures
        private_name(dashed(s)) == private_name(s),
{
}

// ---- namespaces ----------------------------------------------------------

pub open spec fn namespace_start(c: char) -> bool {
    c == '_' || c == '-' || is_alpha(c) || !is_ascii_char(c)
}

pub open spec fn namespace_char(c: char) -> bool {
    namespace_start(c) || is_digit(c)
}

/// Whether `s` can name a module.
pub open spec fn valid_namespace(s: Seq<char>) -> bool {
    &&& s.len() > 0
    &&& namespace_start(s[0])
    &&& forall|k: int| 0 <= k < s.len() ==> namespace_char(#[trigger] s[k])
}

pub fn is_valid_namespace(s: &[char]) -> (r: bool)
    ensures
        r == valid_namespace(s@),
{
    let n: usize = s.len();
    if n == 0 || !(s[0] == '_' || s[0] == '-' || alpha(s[0]) || !ascii(s[0])) {
        return false;
    }
    let mut i: usize = 0;
    while i < n
        invariant
            n == s@.len(),
            i <= n,
            forall|k: int| 0 <= k < i ==> namespace_char(#[trigger] s@[k]),
        decreases n - i,
    {
        let c = s[i];
        if !(c == '_' || c == '-' || alnum(c) || !ascii(c)) {
            return false;
        }
        i += 1;
    }
    true
}

/// What follows the last `c` of `s`; all of `s` if it holds none.
pub open spec fn after_last(s: Seq<char>, c: char) -> Seq<char>
    decreases s.len(),
{
    if s.len() == 0 {
        s
    } else if s.last() == c {
        Seq::empty()
    } else {
        after_last(s.drop_last(), c).push(s.last())
    }
}

pub fn tail_after_last(s: &[char], c: char) -> (r: &[char])
    ensures
        r@ == after_last(s@, c),
{
    let n: usize = s.len();
    let mut i: usize = n;
    proof {
        assert(s@.take(n as int) =~= s@);
        assert(s@.subrange(n as int, n as int) =~= Seq::empty());
        assert(after_last(s@, c) =~= after_last(s@, c) + Seq::<char>::empty());
    }
    while i > 0 && s[i - 1] != c
        invariant
            n == s@.len(),
            i <= n,
            after_last(s@, c) == after_last(s@.take(i as int), c) + s@.subrange(i as int, n as int),
        decreases i,
    {
        proof {
            let h = s@.take(i as int);
            assert(h.drop_last() =~= s@.take(i - 1));
            assert(after_last(h, c) == after_last(s@.take(i - 1), c).push(s@[i - 1]));
            assert(after_last(s@.take(i - 1), c).push(s@[i - 1]) + s@.subrange(i as int, n as int)
                =~= after_last(s@.take(i - 1), c) + s@.subrange(i - 1, n as int));
        }
        i -= 1;
    }
    let r = vstd::slice::slice_subrange(s, i, n);
    proof {
        if i == 0 {
            assert(s@.take(0) =~= Seq::empty());
        }
        assert(after_last(s@.take(i as int), c) =~= Seq::empty());
        assert(r@ =~= after_last(s@, c));
    }
    r
}

/// The stem that a module URL gives its namespace: the last path component, without a leading `_`
/// and without anything from its first `.` on.
pub open spec fn namespace_stem(url: Seq<char>) -> Seq<char> {
    let last = after_last(url, '/');
    let base = if last.len() > 0 && last[0] == '_' {
        last.skip(1)
    } else {
        last
    };
    base.take(first_from(base, '.', 0))
}

pub fn default_namespace(url: &str, pos: Pos) -> (r: Result<String, Error>)
    ensures
        match r {
            Ok(ns) => valid_namespace(namespace_stem(url@)) && ns@ == namespace_stem(url@),
            Err(e) => !valid_namespace(namespace_stem(url@)) && e@ == fault_at(
                "The default namespace \""@ + namespace_stem(url@)
                    + "\" is not a valid Sass identifier."@,
                pos,
            ),
        },
{
    let chars = chars_of(url);
    let last = tail_after_last(chars.as_slice(), '/');
    let from: usize = if last.len() > 0 && last[0] == '_' { 1 } else { 0 };
    let base = vstd::slice::slice_subrange(last, from, last.len());
    let dot: usize = find_from(base, '.', 0);
    let stem = vstd::slice::slice_subrange(base, 0, dot);
    proof {
        let l = after_last(url@, '/');
        if l.len() > 0 && l[0] == '_' {
            assert(base@ =~= l.skip(1));
        } else {
            assert(base@ =~= l);
        }
        assert(stem@ =~= namespace_stem(url@));
    }
    if !is_valid_namespace(stem) {
        let mut m = chars_of("The default namespace \"");
        append(&mut m, stem);
        append_str(&mut m, "\" is not a valid Sass identifier.");
        let m = string_of(m.as_slice());
        return Err(Error::at(m.as_str(), pos));
    }
    Ok(string_of(stem))
}

/// What follows the last `/` or `\` of `s`.
pub open spec fn base_name(s: Seq<char>) -> Seq<char>
    decreases s.len(),
{
    if s.len() == 0 {
        s
    } else if s.last() == '/' || s.last() == '\\' {
        Seq::empty()
    } else {
        base_name(s.drop_last()).push(s.last())
    }
}

/// The URL under which a module is shown in diagnostics: the file name of its key, or the URL it
/// was loaded by where the key has none.
pub open spec fn shown_url(url: Seq<char>, key: Seq<char>) -> Seq<char> {
    if base_name(key).len() == 0 {
        url
    } else {
        base_name(key)
    }
}

pub fn module_diag_url(url: &str, key: &str) -> (r: String)
    ensures
        r@ == shown_url(url@, key@),
{
    let k = chars_of(key);
    let n: usize = k.len();
    let mut i: usize = n;
    proof {
        assert(k@.take(n as int) =~= k@);
        assert(base_name(k@) =~= base_name(k@) + k@.subrange(n as int, n as int));
    }
    while i > 0 && k[i - 1] != '/' && k[i - 1] != '\\'
        invariant
            n == k@.len(),
            i <= n,
            base_name(k@) == base_name(k@.take(i as int)) + k@.subrange(i as int, n as int),
        decreases i,
    {
        proof {
            let h = k@.take(i as int);
            assert(h.drop_last() =~= k@.take(i - 1));
            assert(base_name(k@.take(i - 1)).push(k@[i - 1]) + k@.subrange(i as int, n as int)
                =~= base_name(k@.take(i - 1)) + k@.subrange(i - 1, n as int));
        }
        i -= 1;
    }
    let base = vstd::slice::slice_subrange(k.as_slice(), i, n);
    proof {
        if i == 0 {
            assert(k@.take(0) =~= Seq::empty());
        }
        assert(base_name(k@.take(i as int)) =~= Seq::empty());
        assert(base@ =~= base_name(k@));
    }
    if base.len() == 0 {
        url.to_owned()
    } else {
        string_of(base)
    }
}

// ---- URLs and at-rules ---------------------------------------------------

/// Whether an `@import` argument is plain CSS.
pub open spec fn css_import(s: Seq<char>) -> bool {
    ends(s, ".css"@) || starts(s, "http://"@) || starts(s, "https://"@) || starts(s, "//"@)
}

pub fn is_css_import(arg: &str) -> (r: bool)
    ensures
        r == css_import(arg@),
{
    let s = chars_of(arg);
    ends_with(s.as_slice(), ".css") || starts_with(s.as_slice(), "http://") || starts_with(
        s.as_slice(),
        "https://",
    ) || starts_with(s.as_slice(), "//")
}

/// Whether an at-rule is `@keyframes`, with or without a vendor prefix.
pub open spec fn keyframes_name(s: Seq<char>) -> bool {
    lower(s) == "keyframes"@ || ends(lower(s), "-keyframes"@)
}

pub fn is_keyframes_name(name: &str) -> (r: bool)
    ensures
        r == keyframes_name(name@),
{
    let s = chars_of(name);
    let low = to_lower(s.as_slice());
    spells(low.as_slice(), "keyframes") || ends_with(low.as_slice(), "-keyframes")
}

/// The stack-frame name of a mixin: its name and empty parentheses.
pub fn mixin_frame_name(name: &str) -> (r: String)
    ensures
        r@ == name@ + "()"@,
{
    let mut s = chars_of(name);
    append_str(&mut s, "()");
    string_of(s.as_slice())
}

/// Whether a built-in module exposes a mixin of this name.
pub open spec fn builtin_mixin(module: Seq<char>, name: Seq<char>) -> bool {
    module == "meta"@ && (dashed(name) == "load-css"@ || dashed(name) == "apply"@)
}

pub fn is_builtin_mixin(module: &str, name: &str) -> (r: bool)
    ensures
        r == builtin_mixin(module@, name@),
{
    let n = normalize_arg_name(name);
    same_str(module, "meta") && (same_str(n.as_str(), "load-css") || same_str(n.as_str(), "apply"))
}

// ---- calculation functions -----------------------------------------------

/// A calculation function that takes no rest argument: `clamp`, `hypot`, and the functions of
/// exponents and angles.
#[verifier::opaque]
pub open spec fn strict_calc_function(n: Seq<char>) -> bool {
    n == "clamp"@ || n == "hypot"@ || n == "pow"@ || n == "sqrt"@ || n == "log"@ || n == "exp"@ || n
        == "sin"@ || n == "cos"@ || n == "tan"@ || n == "asin"@ || n == "acos"@ || n == "atan"@ || n
        == "atan2"@
}

pub fn is_calc_function(name: &str) -> (r: bool)
    ensures
        r == strict_calc_function(name@),
{
    proof {
        reveal(strict_calc_function);
    }
    same_str(name, "clamp") || same_str(name, "hypot") || same_str(name, "pow") || same_str(name, "sqrt")
        || same_str(name, "log") || same_str(name, "exp") || same_str(name, "sin") || same_str(name, "cos")
        || same_str(name, "tan") || same_str(name, "asin") || same_str(name, "acos")
        || same_str(name, "atan") || same_str(name, "atan2")
}

/// A math function, in lower case, that is parsed as a calculation and nothing else.
pub open spec fn math_word(n: Seq<char>) -> bool {
    n == "sin"@ || n == "cos"@ || n == "tan"@ || n == "asin"@ || n == "acos"@ || n == "atan"@ || n
        == "atan2"@ || n == "exp"@ || n == "log"@ || n == "pow"@ || n == "hypot"@ || n == "sqrt"@ || n
        == "sign"@ || n == "mod"@ || n == "rem"@
}

#[verifier::opaque]
pub open spec fn pure_calc_function(name: Seq<char>) -> bool {
    math_word(lower(name))
}

/// A math function that is kept as it is inside a `@supports` declaration.
#[verifier::opaque]
pub open spec fn supports_calc_function(name: Seq<char>) -> bool {
    let n = lower(name);
    math_word(n) || n == "min"@ || n == "max"@ || n == "clamp"@ || n == "round"@ || n == "abs"@
}

fn spells_math(low: &[char]) -> (r: bool)
    ensures
        r == math_word(low@),
{
    spells(low, "sin") || spells(low, "cos") || spells(low, "tan") || spells(low, "asin") || spells(
        low,
        "acos",
    ) || spells(low, "atan") || spells(low, "atan2") || spells(low, "exp") || spells(low, "log")
        || spells(low, "pow") || spells(low, "hypot") || spells(low, "sqrt") || spells(low, "sign")
        || spells(low, "mod") || spells(low, "rem")
}

pub fn is_pure_calc_math_function(name: &str) -> (r: bool)
    ensures
        r == pure_calc_function(name@),
{
    proof {
        reveal(pure_calc_function);
    }
    let s = chars_of(name);
    let low = to_lower(s.as_slice());
    spells_math(low.as_slice())
}

pub fn is_supports_calc_function(name: &str) -> (r: bool)
    ensures
        r == supports_calc_function(name@),
{
    proof {
        reveal(supports_calc_function);
    }
    let s = chars_of(name);
    let low = to_lower(s.as_slice());
    let n = low.as_slice();
    spells_math(n) || spells(n, "min") || spells(n, "max") || spells(n, "clamp") || spells(n, "round")
        || spells(n, "abs")
}

/// The name of a calculation that needs no `calc()` round it.
pub open spec fn calculation_name(n: Seq<char>) -> bool {
    math_word(n) || n == "calc"@ || n == "min"@ || n == "max"@ || n == "clamp"@ || n == "round"@ || n
        == "abs"@ || n == "calc-size"@
}

/// The index of the `)` that first brings the nesting back to zero, where it is `depth` at `i`;
/// the length if none does.
pub open spec fn call_close(s: Seq<char>, i: int, depth: int) -> int
    decreases s.len() - i,
{
    if i < 0 || i >= s.len() {
        s.len() as int
    } else if s[i] == '(' {
        call_close(s, i + 1, depth + 1)
    } else if s[i] == ')' {
        if depth <= 1 {
            i
        } else {
            call_close(s, i + 1, depth - 1)
        }
    } else {
        call_close(s, i + 1, depth)
    }
}

/// Whether `text` is one call of a calculation function, from its name to its last parenthesis.
pub open spec fn complete_calculation(text: Seq<char>) -> bool {
    let s = trimmed(text);
    let open = first_from(s, '(', 0);
    &&& open < s.len()
    &&& s.last() == ')'
    &&& calculation_name(lower(trimmed(s.take(open))))
    &&& call_close(s, 0, 0) == s.len() - 1
}

pub fn is_complete_calculation(text: &str) -> (r: bool)
    ensures
        r == complete_calculation(text@),
{
    let chars = chars_of(text);
    let s = trim(chars.as_slice());
    let n: usize = s.len();
    let open: usize = find_from(s, '(', 0);
    if open >= n || s[n - 1] != ')' {
        return false;
    }
    let head = vstd::slice::slice_subrange(s, 0, open);
    proof {
        assert(head@ =~= s@.take(open as int));
    }
    let low = to_lower(trim(head));
    let name = low.as_slice();
    if !(spells_math(name) || spells(name, "calc") || spells(name, "min") || spells(name, "max") || spells(
        name,
        "clamp",
    ) || spells(name, "round") || spells(name, "abs") || spells(name, "calc-size")) {
        return false;
    }
    let mut depth: usize = 0;
    let mut i: usize = 0;
    while i < n
        invariant
            n == s@.len(),
            i <= n,
            depth <= i,
            call_close(s@, i as int, depth as int) == call_close(s@, 0, 0),
            s@ == trimmed(text@),
            complete_calculation(text@) <==> call_close(s@, 0, 0) == n - 1,
        decreases n - i,
    {
        if s[i] == '(' {
            depth += 1;
        } else if s[i] == ')' {
            if depth <= 1 {
                return i == n - 1;
            }
            depth -= 1;
        }
        i += 1;
    }
    false
}

/// Whether the text of a nested `calc()` is put in parentheses where it stands: it is no complete
/// calculation, and it is a `var()` or holds white space, `*`, `/` or `\`.
pub open spec fn needs_parens(s: Seq<char>) -> bool {
    &&& !complete_calculation(s)
    &&& {
        ||| starts(lower(trimmed_start(s)), "var("@)
        ||| exists|k: int|
            0 <= k < s.len() && (is_ws(#[trigger] s[k]) || s[k] == '*' || s[k] == '/' || s[k] == '\\')
    }
}

pub fn nested_calc_needs_parens(text: &str) -> (r: bool)
    ensures
        r == needs_parens(text@),
{
    if is_complete_calculation(text) {
        return false;
    }
    let s = chars_of(text);
    let low = to_lower(trim_start(s.as_slice()));
    if starts_with(low.as_slice(), "var(") {
        return true;
    }
    let mut i: usize = 0;
    while i < s.len()
        invariant
            i <= s@.len(),
            s@ == text@,
            !complete_calculation(text@),
            forall|k: int|
                0 <= k < i ==> !(is_ws(#[trigger] s@[k]) || s@[k] == '*' || s@[k] == '/' || s@[k] == '\\'),
        decreases s@.len() - i,
    {
        if whitespace(s[i]) || s[i] == '*' || s[i] == '/' || s[i] == '\\' {
            return true;
        }
        i += 1;
    }
    false
}

// ---- small texts ---------------------------------------------------------

/// An unquoted string as it is written out: each newline becomes a space, and the whitespace right
/// after a newline is dropped. `after` says that only whitespace follows the last newline.
pub open spec fn unfolded(s: Seq<char>, i: int, after: bool) -> Seq<char>
    decreases s.len() - i,
{
    if i < 0 || i >= s.len() {
        Seq::empty()
    } else if s[i] == '\n' {
        seq![' '] + unfolded(s, i + 1, true)
    } else if after && is_ws(s[i]) {
        unfolded(s, i + 1, true)
    } else {
        seq![s[i]] + unfolded(s, i + 1, false)
    }
}

pub fn unquoted_string_css(text: &str) -> (r: String)
    ensures
        r@ == unfolded(text@, 0, false),
{
    let s = chars_of(text);
    let mut out: Vec<char> = Vec::new();
    let mut after: bool = false;
    let mut i: usize = 0;
    proof {
        assert(out@ + unfolded(s@, 0, false) =~= unfolded(s@, 0, false));
    }
    while i < s.len()
        invariant
            i <= s@.len(),
            out@ + unfolded(s@, i as int, after) == unfolded(s@, 0, false),
        decreases s@.len() - i,
    {
        let c = s[i];
        let ghost before = out@;
        if c == '\n' {
            out.push(' ');
            after = true;
        } else if !(after && whitespace(c)) {
            after = false;
            out.push(c);
        }
        i += 1;
        proof {
            let rest = unfolded(s@, i as int, after);
            if out@ != before {
                assert(out@ + rest =~= before + (seq![out@.last()] + rest));
            }
        }
    }
    proof {
        assert(out@ + Seq::<char>::empty() =~= out@);
    }
    string_of(out.as_slice())
}

/// A character of a percentage in scientific notation.
pub open spec fn percent_char(c: char) -> bool {
    is_digit(c) || c == '.' || c == '+' || c == '-' || c == 'e' || c == 'E'
}

/// Whether `t` is a number followed by `%`.
pub open spec fn is_percentage(t: Seq<char>) -> bool {
    &&& t.len() > 0
    &&& t.last() == '%'
    &&& forall|k: int| 0 <= k < t.len() - 1 ==> percent_char(#[trigger] t[k])
}

/// A keyframe selector in canonical form: the `E` of a percentage is written `e`.
pub open spec fn keyframe_selector(s: Seq<char>) -> Seq<char> {
    if is_percentage(trimmed(s)) {
        replaced(s, 'E', seq!['e'])
    } else {
        s
    }
}

/// Replacing a character that does not occur changes nothing.
pub proof fn lemma_replaced_absent(s: Seq<char>, c: char, by: Seq<char>)
    requires
        !s.contains(c),
    ensures
        replaced(s, c, by) == s,
    decreases s.len(),
{
    if s.len() > 0 {
        assert(s[s.len() - 1] != c);
        assert forall|k: int| 0 <= k < s.drop_last().len() implies s.drop_last()[k] != c by {
            assert(s[k] != c);
        }
        lemma_replaced_absent(s.drop_last(), c, by);
        assert(replaced(s, c, by) =~= s);
    } else {
        assert(replaced(s, c, by) =~= s);
    }
}

pub fn normalize_keyframe_selector(text: &str) -> (r: String)
    ensures
        r@ == keyframe_selector(text@),
{
    let s = chars_of(text);
    if !has_char(s.as_slice(), 'E') {
        proof {
            lemma_replaced_absent(text@, 'E', seq!['e']);
        }
        return text.to_owned();
    }
    let t = trim(s.as_slice());
    let n: usize = t.len();
    if n == 0 || t[n - 1] != '%' {
        return text.to_owned();
    }
    let mut i: usize = 0;
    while i < n - 1
        invariant
            n == t@.len(),
            n > 0,
            i <= n - 1,
            t@ == trimmed(text@),
            forall|k: int| 0 <= k < i ==> percent_char(#[trigger] t@[k]),
        decreases n - i,
    {
        let c = t[i];
        if !(digit(c) || c == '.' || c == '+' || c == '-' || c == 'e' || c == 'E') {
            return text.to_owned();
        }
        i += 1;
    }
    let mut e: Vec<char> = Vec::new();
    e.push('e');
    proof {
        assert(e@ =~= seq!['e']);
    }
    let out = replace(s.as_slice(), 'E', e.as_slice());
    string_of(out.as_slice())
}

// ---- loops ---------------------------------------------------------------

/// The numbers that a `@for` loop runs through: from `start` towards `end`, which is among them
/// where the loop is inclusive.
pub open spec fn indices(start: int, end: int, inclusive: bool) -> Seq<int> {
    let extra = if inclusive {
        1int
    } else {
        0
    };
    if start <= end {
        Seq::new((end - start + extra) as nat, |k: int| start + k)
    } else {
        Seq::new((start - end + extra) as nat, |k: int| start - k)
    }
}

pub open spec fn as_ints(v: Seq<i64>) -> Seq<int> {
    Seq::new(v.len(), |k: int| v[k] as int)
}

pub fn for_indices(start: i64, end: i64, inclusive: bool) -> (r: Vec<i64>)
    ensures
        as_ints(r@) == indices(start as int, end as int, inclusive),
{
    let mut out: Vec<i64> = Vec::new();
    let ghost all = indices(start as int, end as int, inclusive);
    if start <= end {
        let mut i: i64 = start;
        while i < end
            invariant
                start <= i <= end,
                out@.len() == i - start,
                forall|k: int| 0 <= k < out@.len() ==> #[trigger] out@[k] == start + k,
            decreases end - i,
        {
            out.push(i);
            i += 1;
        }
        if inclusive {
            out.push(end);
        }
    } else {
        let mut i: i64 = start;
        while i > end
            invariant
                end <= i <= start,
                out@.len() == start - i,
                forall|k: int| 0 <= k < out@.len() ==> #[trigger] out@[k] == start - k,
            decreases i - end,
        {
            out.push(i);
            i -= 1;
        }
        if inclusive {
            out.push(end);
        }
    }
    proof {
        assert(as_ints(out@) =~= all);
    }
    out
}

/// An exclusive loop runs through the same numbers as an inclusive one, all but the last.
pub proof fn inclusive_adds_the_end(start: int, end: int)
    ensures
        indices(start, end, true) == indices(start, end, false).push(end),
        indices(start, start, false).len() == 0,
{
    assert(indices(start, end, true) =~= indices(start, end, false).push(end));
}

} // verus!
