//! Resolution of a nested selector against the selectors of the enclosing rule.

use vstd::prelude::*;
use crate::error::{Error, fault, verdict};
use crate::scan::{
    at, comma_parts, escape_end, is_combinator, is_quote, past_escape, split_commas, surplus,
};
use crate::selector_text::{
    Spellings, lemma_trimmed_end_prefix, normalize_selector, normalized, trim_selector_part,
    trimmed_part,
};
use crate::text::{
    alnum, append, append_str, ascii, chars_of, has_char, is_alnum, is_ascii_char, is_ws, joined,
    replace, replaced, rows, string_of, texts, to_vec, trim, trim_end, trim_start, trimmed,
    trimmed_end, trimmed_start,
};

verus! {

/// What `char::is_alphanumeric` says of a character beyond ASCII.
pub uninterp spec fn unicode_alphanumeric(c: char) -> bool;

/// `char::is_alphanumeric`: the answer depends on the character alone.
#[verifier::external_body]
fn char_is_alphanumeric(c: char) -> (r: bool)
    ensures
        r == unicode_alphanumeric(c),
{
    c.is_alphanumeric()
}

/// A letter or a digit of any script.
pub open spec fn any_alnum(c: char) -> bool {
    if is_ascii_char(c) {
        is_alnum(c)
    } else {
        unicode_alphanumeric(c)
    }
}

pub fn is_any_alnum(c: char) -> (r: bool)
    ensures
        r == any_alnum(c),
{
    if ascii(c) {
        alnum(c)
    } else {
        char_is_alphanumeric(c)
    }
}

// ---- the parts of a selector list ----------------------------------------

/// The parts that hold something once trimmed, trimmed.
pub open spec fn kept_parts(parts: Seq<Seq<char>>) -> Seq<Seq<char>>
    decreases parts.len(),
{
    if parts.len() == 0 {
        Seq::empty()
    } else {
        let before = kept_parts(parts.drop_last());
        let t = trimmed_part(parts.last());
        if t.len() == 0 {
            before
        } else {
            before.push(t)
        }
    }
}

fn keep_parts(parts: &Vec<Vec<char>>) -> (r: Vec<Vec<char>>)
    ensures
        rows(r@) == kept_parts(rows(parts@)),
{
    let mut out: Vec<Vec<char>> = Vec::new();
    let mut i: usize = 0;
    proof {
        assert(rows(out@) =~= Seq::empty());
    }
    while i < parts.len()
        invariant
            i <= parts@.len(),
            rows(out@) == kept_parts(rows(parts@).take(i as int)),
        decreases parts@.len() - i,
    {
        let t = trim_selector_part(parts[i].as_slice());
        let ghost before = rows(out@);
        proof {
            assert(rows(parts@).take(i + 1).drop_last() =~= rows(parts@).take(i as int));
            assert(rows(parts@).take(i + 1).last() == parts@[i as int]@);
        }
        if t.len() > 0 {
            out.push(to_vec(t));
            proof {
                assert(rows(out@) =~= before.push(t@));
            }
        }
        i += 1;
    }
    proof {
        assert(rows(parts@).take(i as int) =~= rows(parts@));
    }
    out
}

// ---- parents that cannot be glued ----------------------------------------

/// A character that, right after `&`, makes it part of a compound.
pub open spec fn glues(c: char) -> bool {
    any_alnum(c) || c == '.' || c == '#' || c == ':' || c == '[' || c == '%' || c == '\\' || c == '-'
        || c == '_'
}

/// Whether some `&` of `part` is part of a compound.
pub open spec fn has_glued_ref(part: Seq<char>) -> bool {
    exists|i: int| 0 <= i && i + 1 < part.len() && #[trigger] part[i] == '&' && glues(part[i + 1])
}

/// The message for a parent that ends in a combinator and stands for a glued `&`.
pub open spec fn compound_parent_fault(part: Seq<char>, parent: Seq<char>) -> Option<Seq<char>> {
    let t = trimmed_end(parent);
    if t.len() > 0 && is_combinator(t.last()) && has_glued_ref(part) {
        Some(
            "Selector \""@ + t + "\" can't be used as a parent in a compound selector."@,
        )
    } else {
        None
    }
}

fn glued(c: char) -> (r: bool)
    ensures
        r == glues(c),
{
    is_any_alnum(c) || c == '.' || c == '#' || c == ':' || c == '[' || c == '%' || c == '\\' || c == '-'
        || c == '_'
}

fn check_compound_parent(part: &[char], parent: &[char]) -> (r: Result<(), Error>)
    ensures
        verdict(r, compound_parent_fault(part@, parent@)),
{
    let t = trim_end(parent);
    if !(t.len() > 0 && (t[t.len() - 1] == '>' || t[t.len() - 1] == '+' || t[t.len() - 1] == '~')) {
        return Ok(());
    }
    let n: usize = part.len();
    let mut i: usize = 0;
    while i < n
        invariant
            n == part@.len(),
            i <= n,
            t@ == trimmed_end(parent@),
            t@.len() > 0 && is_combinator(t@.last()),
            forall|k: int|
                0 <= k < i && k + 1 < part@.len() ==> !(#[trigger] part@[k] == '&' && glues(
                    part@[k + 1],
                )),
        decreases n - i,
    {
        if part[i] == '&' && i < n - 1 && glued(part[i + 1]) {
            let mut m = chars_of("Selector \"");
            append(&mut m, t);
            append_str(&mut m, "\" can't be used as a parent in a compound selector.");
            let m = string_of(m.as_slice());
            return Err(Error::unpositioned(m.as_str()));
        }
        i += 1;
    }
    Ok(())
}

/// The fault of the first parent, from `k` on, that cannot be glued into `part`.
pub open spec fn parents_fault(part: Seq<char>, parents: Seq<Seq<char>>, k: int) -> Option<Seq<char>>
    decreases parents.len() - k,
{
    if k < 0 || k >= parents.len() {
        None
    } else {
        match compound_parent_fault(part, parents[k]) {
            Some(m) => Some(m),
            None => parents_fault(part, parents, k + 1),
        }
    }
}

fn check_parents(part: &[char], parents: &Vec<Vec<char>>) -> (r: Result<(), Error>)
    ensures
        verdict(r, parents_fault(part@, rows(parents@), 0)),
{
    let mut k: usize = 0;
    while k < parents.len()
        invariant
            k <= parents@.len(),
            parents_fault(part@, rows(parents@), k as int) == parents_fault(part@, rows(parents@), 0),
        decreases parents@.len() - k,
    {
        match check_compound_parent(part, parents[k].as_slice()) {
            Ok(()) => {},
            Err(e) => {
                return Err(e);
            },
        }
        k += 1;
    }
    Ok(())
}

// ---- references inside pseudo arguments ----------------------------------

/// The index past the name suffix that starts at `i`.
pub open spec fn suffix_end(s: Seq<char>, i: int) -> int
    decreases s.len() - i,
{
    if 0 <= i < s.len() && (any_alnum(s[i]) || s[i] == '-' || s[i] == '_') {
        suffix_end(s, i + 1)
    } else {
        i
    }
}

pub proof fn lemma_suffix_end_range(s: Seq<char>, i: int)
    requires
        0 <= i <= s.len(),
    ensures
        i <= suffix_end(s, i) <= s.len(),
    decreases s.len() - i,
{
    if i < s.len() && (any_alnum(s[i]) || s[i] == '-' || s[i] == '_') {
        lemma_suffix_end_range(s, i + 1);
    }
}

fn skip_suffix(s: &[char], start: usize) -> (r: usize)
    requires
        start <= s@.len(),
    ensures
        r == suffix_end(s@, start as int),
        start <= r <= s@.len(),
{
    let mut i: usize = start;
    while i < s.len() && (is_any_alnum(s[i]) || s[i] == '-' || s[i] == '_')
        invariant
            start <= i <= s@.len(),
            suffix_end(s@, i as int) == suffix_end(s@, start as int),
        decreases s@.len() - i,
    {
        i += 1;
    }
    i
}

/// A character that, after `&` and its suffix, keeps the reference from standing for the whole
/// parent list.
pub open spec fn bars_list(c: Option<char>) -> bool {
    c == Some('.') || c == Some('#') || c == Some(':') || c == Some('[') || c == Some('%') || c == Some(
        '\\',
    ) || c == Some('&')
}

/// Every parent with `suffix` after it.
pub open spec fn suffixed(parents: Seq<Seq<char>>, suffix: Seq<char>) -> Seq<Seq<char>> {
    Seq::new(parents.len(), |i: int| parents[i] + suffix)
}

/// `out`, and then `part` from `i` on with each `&` inside parentheses replaced by the parent
/// list. `None` if a `&` stands outside all parentheses, if one is glued to something other than
/// a name suffix, or if there is none at all.
pub open spec fn list_substituted(
    part: Seq<char>,
    parents: Seq<Seq<char>>,
    i: int,
    depth: int,
    out: Seq<char>,
    found: bool,
) -> Option<Seq<char>>
    decreases part.len() - i via list_substituted_terminates
{
    if i < 0 || i >= part.len() {
        if found {
            Some(out)
        } else {
            None
        }
    } else if part[i] == '&' {
        let j = suffix_end(part, i + 1);
        if depth == 0 || bars_list(at(part, j)) {
            None
        } else {
            list_substituted(
                part,
                parents,
                j,
                depth,
                out + joined(suffixed(parents, part.subrange(i + 1, j)), ", "@),
                true,
            )
        }
    } else {
        let d = if part[i] == '(' {
            depth + 1
        } else if part[i] == ')' {
            depth - 1
        } else {
            depth
        };
        list_substituted(part, parents, i + 1, d, out.push(part[i]), found)
    }
}

#[via_fn]
proof fn list_substituted_terminates(
    part: Seq<char>,
    parents: Seq<Seq<char>>,
    i: int,
    depth: int,
    out: Seq<char>,
    found: bool,
) {
    if 0 <= i < part.len() {
        lemma_suffix_end_range(part, i + 1);
    }
}

/// `part` with the parent list in place of each `&`, where every `&` stands inside a pseudo
/// argument.
pub open spec fn pseudo_refs(part: Seq<char>, parents: Seq<Seq<char>>) -> Option<Seq<char>> {
    list_substituted(part, parents, 0, 0, Seq::empty(), false)
}

/// Append the parents with `suffix` after each, separated by commas.
fn append_suffixed(out: &mut Vec<char>, parents: &Vec<Vec<char>>, suffix: &[char])
    ensures
        final(out)@ == old(out)@ + joined(suffixed(rows(parents@), suffix@), ", "@),
{
    let ghost all = suffixed(rows(parents@), suffix@);
    let mut k: usize = 0;
    proof {
        assert(old(out)@ + joined(all.take(0), ", "@) =~= old(out)@);
    }
    while k < parents.len()
        invariant
            k <= parents@.len(),
            all == suffixed(rows(parents@), suffix@),
            out@ == old(out)@ + joined(all.take(k as int), ", "@),
        decreases parents@.len() - k,
    {
        proof {
            assert(all.take(k + 1).drop_last() =~= all.take(k as int));
            assert(all.take(k + 1).last() == parents@[k as int]@ + suffix@);
        }
        if k > 0 {
            append_str(out, ", ");
        }
        append(out, parents[k].as_slice());
        append(out, suffix);
        k += 1;
        proof {
            assert(out@ =~= old(out)@ + joined(all.take(k as int), ", "@));
        }
    }
    proof {
        assert(all.take(k as int) =~= all);
    }
}

fn substitute_pseudo_refs(part: &[char], parents: &Vec<Vec<char>>) -> (r: Option<Vec<char>>)
    ensures
        match r {
            Some(t) => pseudo_refs(part@, rows(parents@)) == Some(t@),
            None => pseudo_refs(part@, rows(parents@)) is None,
        },
{
    let n: usize = part.len();
    let mut depth: i128 = 0;
    let mut out: Vec<char> = Vec::new();
    let mut found: bool = false;
    let mut i: usize = 0;
    while i < n
        invariant
            n == part@.len(),
            i <= n,
            -i <= depth <= i,
            list_substituted(part@, rows(parents@), i as int, depth as int, out@, found)
                == pseudo_refs(part@, rows(parents@)),
        decreases n - i,
    {
        let c = part[i];
        if c == '&' {
            if depth == 0 {
                return None;
            }
            let j: usize = skip_suffix(part, i + 1);
            if j < n && (part[j] == '.' || part[j] == '#' || part[j] == ':' || part[j] == '[' || part[j]
                == '%' || part[j] == '\\' || part[j] == '&') {
                return None;
            }
            append_suffixed(&mut out, parents, vstd::slice::slice_subrange(part, i + 1, j));
            found = true;
            i = j;
        } else {
            if c == '(' {
                depth += 1;
            } else if c == ')' {
                depth -= 1;
            }
            out.push(c);
            i += 1;
        }
    }
    if found {
        Some(out)
    } else {
        None
    }
}

// ---- several references --------------------------------------------------

/// How deep in parentheses and brackets, counted together, what follows `s` stands.
pub open spec fn depth_after(s: Seq<char>) -> int {
    surplus(s, '(', ')') + surplus(s, '[', ']')
}

/// The texts between the top-level `&` of `s`.
pub open spec fn ref_segments(s: Seq<char>) -> Seq<Seq<char>>
    decreases s.len(),
{
    if s.len() == 0 {
        seq![Seq::empty()]
    } else {
        let before = ref_segments(s.drop_last());
        if s.last() == '&' && depth_after(s.drop_last()) == 0 {
            before.push(Seq::empty())
        } else {
            before.drop_last().push(before.last().push(s.last()))
        }
    }
}

fn split_parent_refs(s: &[char]) -> (r: Vec<Vec<char>>)
    ensures
        rows(r@) == ref_segments(s@),
        r@.len() > 0,
{
    let mut out: Vec<Vec<char>> = Vec::new();
    let mut cur: Vec<char> = Vec::new();
    let mut depth: i128 = 0;
    let mut i: usize = 0;
    proof {
        assert(s@.take(0) =~= Seq::empty());
        assert(rows(out@).push(cur@) =~= ref_segments(s@.take(0)));
    }
    while i < s.len()
        invariant
            i <= s@.len(),
            rows(out@).push(cur@) == ref_segments(s@.take(i as int)),
            depth == depth_after(s@.take(i as int)),
            -i <= depth <= i,
        decreases s@.len() - i,
    {
        let c = s[i];
        proof {
            assert(s@.take(i + 1).drop_last() =~= s@.take(i as int));
        }
        let ghost prev_out = rows(out@);
        let ghost prev_cur = cur@;
        if c == '&' && depth == 0 {
            out.push(cur);
            cur = Vec::new();
            proof {
                assert(rows(out@) =~= prev_out.push(prev_cur));
                assert(rows(out@).push(cur@) =~= prev_out.push(prev_cur).push(Seq::empty()));
            }
        } else {
            if c == '(' || c == '[' {
                depth += 1;
            } else if c == ')' || c == ']' {
                depth -= 1;
            }
            cur.push(c);
            proof {
                assert(prev_out.push(prev_cur).drop_last() =~= prev_out);
            }
        }
        i += 1;
    }
    let ghost last = cur@;
    let ghost before = rows(out@);
    out.push(cur);
    proof {
        assert(s@.take(i as int) =~= s@);
        assert(rows(out@) =~= before.push(last));
    }
    out
}

/// `heads` with each head followed by `seg` and each parent in turn.
pub open spec fn crossed(heads: Seq<Seq<char>>, seg: Seq<char>, parents: Seq<Seq<char>>) -> Seq<Seq<char>>
    decreases heads.len(),
{
    if heads.len() == 0 {
        Seq::empty()
    } else {
        crossed(heads.drop_last(), seg, parents) + Seq::new(
            parents.len(),
            |i: int| heads.last() + seg + parents[i],
        )
    }
}

/// Every way to put a parent after each of the first `m` segments, the last choice varying
/// fastest.
pub open spec fn choices(segs: Seq<Seq<char>>, parents: Seq<Seq<char>>, m: nat) -> Seq<Seq<char>>
    decreases m,
{
    if m == 0 {
        seq![Seq::empty()]
    } else {
        crossed(choices(segs, parents, (m - 1) as nat), segs[m - 1], parents)
    }
}

/// Every way to put a parent between neighbouring segments.
pub open spec fn cartesian(segs: Seq<Seq<char>>, parents: Seq<Seq<char>>) -> Seq<Seq<char>> {
    suffixed(choices(segs, parents, (segs.len() - 1) as nat), segs.last())
}

fn cross(heads: &Vec<Vec<char>>, seg: &[char], parents: &Vec<Vec<char>>) -> (r: Vec<Vec<char>>)
    ensures
        rows(r@) == crossed(rows(heads@), seg@, rows(parents@)),
{
    let mut out: Vec<Vec<char>> = Vec::new();
    let mut h: usize = 0;
    let ghost hs = rows(heads@);
    let ghost ps = rows(parents@);
    proof {
        assert(rows(out@) =~= Seq::empty());
    }
    while h < heads.len()
        invariant
            h <= heads@.len(),
            hs == rows(heads@),
            ps == rows(parents@),
            rows(out@) == crossed(hs.take(h as int), seg@, ps),
        decreases heads@.len() - h,
    {
        let ghost before = rows(out@);
        let ghost added = Seq::new(ps.len(), |i: int| hs[h as int] + seg@ + ps[i]);
        let mut k: usize = 0;
        proof {
            assert(before + added.take(0) =~= before);
        }
        while k < parents.len()
            invariant
                k <= parents@.len(),
                h < heads@.len(),
                hs == rows(heads@),
                ps == rows(parents@),
                added == Seq::new(ps.len(), |i: int| hs[h as int] + seg@ + ps[i]),
                rows(out@) == before + added.take(k as int),
            decreases parents@.len() - k,
        {
            let ghost prev = rows(out@);
            let mut t = to_vec(heads[h].as_slice());
            append(&mut t, seg);
            append(&mut t, parents[k].as_slice());
            let ghost tv = t@;
            out.push(t);
            proof {
                assert(tv == added[k as int]);
                assert(rows(out@) =~= prev.push(tv));
                assert(added.take(k + 1) =~= added.take(k as int).push(added[k as int]));
                assert(before + added.take(k + 1) =~= (before + added.take(k as int)).push(tv));
            }
            k += 1;
        }
        proof {
            assert(added.take(k as int) =~= added);
            assert(hs.take(h + 1).drop_last() =~= hs.take(h as int));
            assert(hs.take(h + 1).last() == hs[h as int]);
        }
        h += 1;
    }
    proof {
        assert(hs.take(h as int) =~= hs);
    }
    out
}

fn expand_cartesian(segs: &Vec<Vec<char>>, parents: &Vec<Vec<char>>) -> (r: Vec<Vec<char>>)
    requires
        segs@.len() > 0,
    ensures
        rows(r@) == cartesian(rows(segs@), rows(parents@)),
{
    let mut heads: Vec<Vec<char>> = Vec::new();
    heads.push(Vec::new());
    let mut m: usize = 0;
    proof {
        assert(rows(heads@) =~= choices(rows(segs@), rows(parents@), 0));
    }
    while m < segs.len() - 1
        invariant
            m <= segs@.len() - 1,
            rows(heads@) == choices(rows(segs@), rows(parents@), m as nat),
        decreases segs@.len() - m,
    {
        heads = cross(&heads, segs[m].as_slice(), parents);
        m += 1;
    }
    let last = &segs[m];
    let mut out: Vec<Vec<char>> = Vec::new();
    let ghost all = cartesian(rows(segs@), rows(parents@));
    let mut h: usize = 0;
    while h < heads.len()
        invariant
            h <= heads@.len(),
            all.len() == heads@.len(),
            all == suffixed(rows(heads@), last@),
            rows(out@) == all.take(h as int),
        decreases heads@.len() - h,
    {
        let ghost prev = rows(out@);
        let mut t = to_vec(heads[h].as_slice());
        append(&mut t, last.as_slice());
        let ghost tv = t@;
        out.push(t);
        h += 1;
        proof {
            assert(rows(out@) =~= prev.push(tv));
            assert(all.take(h as int) =~= all.take(h - 1).push(all[h - 1]));
        }
    }
    proof {
        assert(all.take(h as int) =~= all);
    }
    out
}

// ---- resolution ----------------------------------------------------------

/// `part` with each parent in turn in place of `&`.
pub open spec fn each_parent(part: Seq<char>, parents: Seq<Seq<char>>) -> Seq<Seq<char>> {
    Seq::new(parents.len(), |i: int| replaced(part, '&', parents[i]))
}

/// The selectors that a part gives where it stays at the root unless it names the parent: one
/// that names it expands over the parents.
pub open spec fn explicit_texts(part: Seq<char>, parents: Seq<Seq<char>>) -> Result<
    Seq<Seq<char>>,
    Seq<char>,
> {
    if pseudo_refs(part, parents) is Some {
        Ok(seq![pseudo_refs(part, parents)->0])
    } else if !part.contains('&') {
        Ok(seq![part])
    } else if parents_fault(part, parents, 0) is Some {
        Err(parents_fault(part, parents, 0)->0)
    } else if ref_segments(part).len() >= 3 {
        Ok(cartesian(ref_segments(part), parents))
    } else {
        Ok(each_parent(part, parents))
    }
}

/// The selectors that a part gives in the round of parent `p` where a part that does not name the
/// parent is its descendant. What expands over all parents at once does so in the first round.
pub open spec fn implicit_texts(part: Seq<char>, parents: Seq<Seq<char>>, p: int) -> Result<
    Seq<Seq<char>>,
    Seq<char>,
> {
    if pseudo_refs(part, parents) is Some {
        Ok(
            if p == 0 {
                seq![pseudo_refs(part, parents)->0]
            } else {
                Seq::empty()
            },
        )
    } else if ref_segments(part).len() >= 3 {
        if p != 0 {
            Ok(Seq::empty())
        } else if parents_fault(part, parents, 0) is Some {
            Err(parents_fault(part, parents, 0)->0)
        } else {
            Ok(cartesian(ref_segments(part), parents))
        }
    } else if part.contains('&') {
        match compound_parent_fault(part, parents[p]) {
            Some(m) => Err(m),
            None => Ok(seq![replaced(part, '&', parents[p])]),
        }
    } else {
        Ok(seq![parents[p].push(' ') + part])
    }
}

/// The selectors of the parts from `k` on, after `out`; the first fault ends it.
pub open spec fn explicit_round(
    parts: Seq<Seq<char>>,
    parents: Seq<Seq<char>>,
    k: int,
    out: Seq<Seq<char>>,
) -> Result<Seq<Seq<char>>, Seq<char>>
    decreases parts.len() - k,
{
    if k < 0 || k >= parts.len() {
        Ok(out)
    } else {
        match explicit_texts(parts[k], parents) {
            Err(m) => Err(m),
            Ok(l) => explicit_round(parts, parents, k + 1, out + l),
        }
    }
}

/// The selectors of the rounds from parent `p` and part `k` on, after `out`.
pub open spec fn implicit_rounds(
    parts: Seq<Seq<char>>,
    parents: Seq<Seq<char>>,
    p: int,
    k: int,
    out: Seq<Seq<char>>,
) -> Result<Seq<Seq<char>>, Seq<char>>
    decreases parents.len() - p, parts.len() - k,
{
    if p < 0 || p >= parents.len() {
        Ok(out)
    } else if k < 0 || k >= parts.len() {
        implicit_rounds(parts, parents, p + 1, 0, out)
    } else {
        match implicit_texts(parts[k], parents, p) {
            Err(m) => Err(m),
            Ok(l) => implicit_rounds(parts, parents, p, k + 1, out + l),
        }
    }
}

/// The selectors that `sel` stands for under `parents`, as they are spelled there, or the message of
/// the first fault. Without parents `&` is kept; with `implicit` a part without `&` joins every
/// parent.
pub open spec fn substituted(sel: Seq<char>, parents: Seq<Seq<char>>, implicit: bool) -> Result<
    Seq<Seq<char>>,
    Seq<char>,
> {
    let parts = kept_parts(comma_parts(sel));
    if parents.len() == 0 {
        Ok(parts)
    } else if implicit {
        implicit_rounds(parts, parents, 0, 0, Seq::empty())
    } else {
        explicit_round(parts, parents, 0, Seq::empty())
    }
}

/// The canonical spellings of a list of selectors.
pub open spec fn all_normalized(sp: Spellings, list: Seq<Seq<char>>) -> Seq<Seq<char>> {
    Seq::new(list.len(), |i: int| normalized(sp, list[i]))
}

/// The selectors that `sel` stands for under `parents`, in canonical spelling, or the message of the
/// first fault.
pub open spec fn resolved(
    sp: Spellings,
    sel: Seq<char>,
    parents: Seq<Seq<char>>,
    implicit: bool,
) -> Result<Seq<Seq<char>>, Seq<char>> {
    match substituted(sel, parents, implicit) {
        Ok(l) => Ok(all_normalized(sp, l)),
        Err(m) => Err(m),
    }
}

/// Whether `r` is the list, or fails with the message, that `m` says.
pub open spec fn list_or_fault(
    r: Result<Vec<String>, Error>,
    m: Result<Seq<Seq<char>>, Seq<char>>,
) -> bool {
    match m {
        Ok(l) => r is Ok && texts(r->Ok_0@) == l,
        Err(e) => r is Err && r->Err_0@ == fault(e),
    }
}

/// Append the texts of `list` to `out`.
fn push_all(list: &Vec<Vec<char>>, out: &mut Vec<String>)
    ensures
        texts(final(out)@) == texts(old(out)@) + rows(list@),
{
    let ghost all = rows(list@);
    let mut i: usize = 0;
    proof {
        assert(texts(old(out)@) + all.take(0) =~= texts(old(out)@));
    }
    while i < list.len()
        invariant
            i <= list@.len(),
            all == rows(list@),
            texts(out@) == texts(old(out)@) + all.take(i as int),
        decreases list@.len() - i,
    {
        let ghost prev = texts(out@);
        out.push(string_of(list[i].as_slice()));
        i += 1;
        proof {
            assert(texts(out@) =~= prev.push(all[i - 1]));
            assert(all.take(i as int) =~= all.take(i - 1).push(all[i - 1]));
            assert(texts(old(out)@) + all.take(i as int) =~= (texts(old(out)@) + all.take(i - 1)).push(
                all[i - 1],
            ));
        }
    }
    proof {
        assert(all.take(i as int) =~= all);
    }
}

/// Append one text to `out`.
fn push_one(t: &[char], out: &mut Vec<String>)
    ensures
        texts(final(out)@) == texts(old(out)@) + seq![t@],
{
    out.push(string_of(t));
    proof {
        assert(texts(final(out)@) =~= texts(old(out)@) + seq![t@]);
    }
}

fn substitute_each(part: &[char], parents: &Vec<Vec<char>>) -> (r: Vec<Vec<char>>)
    ensures
        rows(r@) == each_parent(part@, rows(parents@)),
{
    let ghost all = each_parent(part@, rows(parents@));
    let mut out: Vec<Vec<char>> = Vec::new();
    let mut k: usize = 0;
    proof {
        assert(rows(out@) =~= all.take(0));
    }
    while k < parents.len()
        invariant
            k <= parents@.len(),
            all == each_parent(part@, rows(parents@)),
            rows(out@) == all.take(k as int),
        decreases parents@.len() - k,
    {
        let ghost prev = rows(out@);
        let t = replace(part, '&', parents[k].as_slice());
        let ghost tv = t@;
        out.push(t);
        k += 1;
        proof {
            assert(rows(out@) =~= prev.push(tv));
            assert(all.take(k as int) =~= all.take(k - 1).push(all[k - 1]));
        }
    }
    proof {
        assert(all.take(k as int) =~= all);
    }
    out
}

fn explicit_part(
    part: &[char],
    parents: &Vec<Vec<char>>,
    out: &mut Vec<String>,
) -> (r: Result<(), Error>)
    ensures
        match explicit_texts(part@, rows(parents@)) {
            Ok(l) => r is Ok && texts(final(out)@) == texts(old(out)@) + l,
            Err(m) => r is Err && r->Err_0@ == fault(m),
        },
{
    if let Some(t) = substitute_pseudo_refs(part, parents) {
        push_one(t.as_slice(), out);
        return Ok(());
    }
    let segs = split_parent_refs(part);
    proof {
        lemma_segments_need_refs(part@);
    }
    if !has_char(part, '&') {
        push_one(part, out);
        return Ok(());
    }
    match check_parents(part, parents) {
        Ok(()) => {},
        Err(e) => {
            return Err(e);
        },
    }
    if segs.len() >= 3 {
        let list = expand_cartesian(&segs, parents);
        push_all(&list, out);
    } else {
        let list = substitute_each(part, parents);
        push_all(&list, out);
    }
    Ok(())
}

/// A text without `&` has one segment.
proof fn lemma_segments_need_refs(s: Seq<char>)
    ensures
        !s.contains('&') ==> ref_segments(s).len() == 1,
    decreases s.len(),
{
    if s.len() > 0 {
        lemma_segments_need_refs(s.drop_last());
        if !s.contains('&') {
            assert(s[s.len() - 1] != '&');
            assert forall|k: int| 0 <= k < s.drop_last().len() implies s.drop_last()[k] != '&' by {
                assert(s[k] != '&');
            }
        }
    }
}

fn implicit_part(
    part: &[char],
    parents: &Vec<Vec<char>>,
    p: usize,
    out: &mut Vec<String>,
) -> (r: Result<(), Error>)
    requires
        p < parents@.len(),
    ensures
        match implicit_texts(part@, rows(parents@), p as int) {
            Ok(l) => r is Ok && texts(final(out)@) == texts(old(out)@) + l,
            Err(m) => r is Err && r->Err_0@ == fault(m),
        },
{
    let ghost before = texts(out@);
    proof {
        assert(before + Seq::<Seq<char>>::empty() =~= before);
    }
    if let Some(t) = substitute_pseudo_refs(part, parents) {
        if p == 0 {
            push_one(t.as_slice(), out);
        }
        return Ok(());
    }
    let segs = split_parent_refs(part);
    if segs.len() >= 3 {
        if p == 0 {
            match check_parents(part, parents) {
                Ok(()) => {},
                Err(e) => {
                    return Err(e);
                },
            }
            let list = expand_cartesian(&segs, parents);
            push_all(&list, out);
        }
        return Ok(());
    }
    if has_char(part, '&') {
        match check_compound_parent(part, parents[p].as_slice()) {
            Ok(()) => {},
            Err(e) => {
                return Err(e);
            },
        }
        let t = replace(part, '&', parents[p].as_slice());
        push_one(t.as_slice(), out);
    } else {
        let mut t = to_vec(parents[p].as_slice());
        t.push(' ');
        append(&mut t, part);
        push_one(t.as_slice(), out);
    }
    Ok(())
}

/// Put the selectors of the enclosing rule into a selector list.
pub fn substitute_parents(sel: &str, parents: &Vec<String>, implicit_parent: bool) -> (r: Result<
    Vec<String>,
    Error,
>)
    ensures
        list_or_fault(r, substituted(sel@, texts(parents@), implicit_parent)),
{
    let chars = chars_of(sel);
    let all = split_commas(chars.as_slice());
    let parts = keep_parts(&all);
    let ghost kept = rows(parts@);
    let ghost goal = substituted(sel@, texts(parents@), implicit_parent);
    let mut out: Vec<String> = Vec::new();
    proof {
        assert(texts(out@) =~= Seq::empty());
    }
    if parents.len() == 0 {
        push_all(&parts, &mut out);
        proof {
            assert(Seq::empty() + kept =~= kept);
        }
        return Ok(out);
    }
    let rows_of_parents = parent_rows(parents);
    let ghost ps = texts(parents@);
    if implicit_parent {
        let mut p: usize = 0;
        while p < rows_of_parents.len()
            invariant
                p <= rows_of_parents@.len(),
                rows(rows_of_parents@) == ps,
                rows(parts@) == kept,
                ps == texts(parents@),
                goal == substituted(sel@, texts(parents@), implicit_parent),
                implicit_rounds(kept, ps, p as int, 0, texts(out@)) == goal,
            decreases rows_of_parents@.len() - p,
        {
            let mut k: usize = 0;
            while k < parts.len()
                invariant
                    k <= parts@.len(),
                    p < rows_of_parents@.len(),
                    rows(rows_of_parents@) == ps,
                    rows(parts@) == kept,
                    ps == texts(parents@),
                    goal == substituted(sel@, texts(parents@), implicit_parent),
                    implicit_rounds(kept, ps, p as int, k as int, texts(out@)) == goal,
                decreases parts@.len() - k,
            {
                match implicit_part(parts[k].as_slice(), &rows_of_parents, p, &mut out) {
                    Ok(()) => {},
                    Err(e) => {
                        return Err(e);
                    },
                }
                k += 1;
            }
            p += 1;
        }
    } else {
        let mut k: usize = 0;
        while k < parts.len()
            invariant
                k <= parts@.len(),
                rows(rows_of_parents@) == ps,
                rows(parts@) == kept,
                ps == texts(parents@),
                goal == substituted(sel@, texts(parents@), implicit_parent),
                explicit_round(kept, ps, k as int, texts(out@)) == goal,
            decreases parts@.len() - k,
        {
            match explicit_part(parts[k].as_slice(), &rows_of_parents, &mut out) {
                Ok(()) => {},
                Err(e) => {
                    return Err(e);
                },
            }
            k += 1;
        }
    }
    Ok(out)
}

/// Spell selectors canonically.
pub fn spell_selectors(sp: &Spellings, list: &Vec<String>) -> (r: Vec<String>)
    ensures
        texts(r@) == all_normalized(*sp, texts(list@)),
{
    let ghost all = all_normalized(*sp, texts(list@));
    let mut out: Vec<String> = Vec::new();
    let mut i: usize = 0;
    proof {
        assert(texts(out@) =~= all.take(0));
    }
    while i < list.len()
        invariant
            i <= list@.len(),
            all == all_normalized(*sp, texts(list@)),
            texts(out@) == all.take(i as int),
        decreases list@.len() - i,
    {
        let ghost prev = texts(out@);
        let chars = chars_of(list[i].as_str());
        let t = normalize_selector(sp, chars.as_slice());
        out.push(string_of(t.as_slice()));
        i += 1;
        proof {
            assert(texts(out@) =~= prev.push(t@));
            assert(all.take(i as int) =~= all.take(i - 1).push(all[i - 1]));
        }
    }
    proof {
        assert(all.take(i as int) =~= all);
    }
    out
}

/// Resolve a selector list against the selectors of the enclosing rule, in canonical spelling.
pub fn resolve_selectors_opt(
    sp: &Spellings,
    sel: &str,
    parents: &Vec<String>,
    implicit_parent: bool,
) -> (r: Result<Vec<String>, Error>)
    ensures
        list_or_fault(r, resolved(*sp, sel@, texts(parents@), implicit_parent)),
{
    match substitute_parents(sel, parents, implicit_parent) {
        Ok(list) => Ok(spell_selectors(sp, &list)),
        Err(e) => Err(e),
    }
}

fn parent_rows(parents: &Vec<String>) -> (r: Vec<Vec<char>>)
    ensures
        rows(r@) == texts(parents@),
{
    let mut out: Vec<Vec<char>> = Vec::new();
    let mut i: usize = 0;
    while i < parents.len()
        invariant
            i <= parents@.len(),
            out@.len() == i,
            forall|k: int| 0 <= k < i ==> #[trigger] out@[k]@ == parents@[k]@,
        decreases parents@.len() - i,
    {
        out.push(chars_of(parents[i].as_str()));
        i += 1;
    }
    proof {
        assert(rows(out@) =~= texts(parents@));
    }
    out
}

// ---- line breaks ---------------------------------------------------------

/// Whether a `&` outside `[...]` and quotes occurs from `i` on.
pub open spec fn has_ref_from(s: Seq<char>, i: int, bracket: int, quote: Option<char>) -> bool
    decreases s.len() - i,
{
    if i < 0 || i >= s.len() {
        false
    } else {
        let c = s[i];
        match quote {
            Some(q) => {
                if c == '\\' {
                    has_ref_from(s, escape_end(s, i), bracket, quote)
                } else if c == q {
                    has_ref_from(s, i + 1, bracket, None)
                } else {
                    has_ref_from(s, i + 1, bracket, quote)
                }
            },
            None => {
                if is_quote(c) {
                    has_ref_from(s, i + 1, bracket, Some(c))
                } else if c == '[' {
                    has_ref_from(s, i + 1, bracket + 1, quote)
                } else if c == ']' {
                    has_ref_from(
                        s,
                        i + 1,
                        if bracket > 0 {
                            bracket - 1
                        } else {
                            0
                        },
                        quote,
                    )
                } else if c == '&' && bracket == 0 {
                    true
                } else {
                    has_ref_from(s, i + 1, bracket, quote)
                }
            },
        }
    }
}

/// Whether a part refers to the parent.
pub open spec fn has_parent_ref(s: Seq<char>) -> bool {
    has_ref_from(s, 0, 0, None)
}

pub fn part_has_parent_ref(s: &[char]) -> (r: bool)
    ensures
        r == has_parent_ref(s@),
{
    let n: usize = s.len();
    let mut bracket: usize = 0;
    let mut quote: Option<char> = None;
    let mut i: usize = 0;
    while i < n
        invariant
            n == s@.len(),
            i <= n,
            bracket <= i,
            has_ref_from(s@, i as int, bracket as int, quote) == has_parent_ref(s@),
        decreases n - i,
    {
        let c = s[i];
        match quote {
            Some(q) => {
                if c == '\\' {
                    i = past_escape(s, i);
                    continue;
                }
                if c == q {
                    quote = None;
                }
            },
            None => {
                if c == '"' || c == '\'' {
                    quote = Some(c);
                } else if c == '[' {
                    bracket += 1;
                } else if c == ']' {
                    if bracket > 0 {
                        bracket -= 1;
                    }
                } else if c == '&' && bracket == 0 {
                    return true;
                }
            },
        }
        i += 1;
    }
    false
}

/// Whether the white space at the start of `s` holds a newline.
pub open spec fn leads_with_newline(s: Seq<char>) -> bool {
    s.take(s.len() - trimmed_start(s).len()).contains('\n')
}

/// Whether the white space at the end of `s` holds a newline.
pub open spec fn trails_with_newline(s: Seq<char>) -> bool {
    s.skip(trimmed_end(s).len() as int).contains('\n')
}

/// The line-break flags of the parts from `i` on that hold something. `pending` says that an empty
/// part before held a newline. In a nested rule a part that refers to the parent has none.
pub open spec fn breaks_from(parts: Seq<Seq<char>>, i: int, pending: bool, nested: bool) -> Seq<bool>
    decreases parts.len() - i,
{
    if i < 0 || i >= parts.len() {
        Seq::empty()
    } else {
        let s = parts[i];
        if trimmed(s).len() == 0 {
            breaks_from(parts, i + 1, pending || (i > 0 && s.contains('\n')), nested)
        } else {
            let before = i > 0 && (leads_with_newline(s) || trails_with_newline(parts[i - 1]));
            seq![(before || pending) && !(nested && has_parent_ref(s))] + breaks_from(
                parts,
                i + 1,
                false,
                nested,
            )
        }
    }
}

proof fn lemma_trimmed_start_suffix(s: Seq<char>)
    ensures
        trimmed_start(s).len() <= s.len(),
        trimmed_start(s) == s.skip(s.len() - trimmed_start(s).len()),
    decreases s.len(),
{
    if s.len() > 0 && is_ws(s[0]) {
        lemma_trimmed_start_suffix(s.skip(1));
        let d = s.skip(1).len() - trimmed_start(s).len();
        assert(s.skip(1).skip(d) =~= s.skip(d + 1));
    } else {
        assert(s.skip(0) =~= s);
    }
}

fn leading_newline(s: &[char]) -> (r: bool)
    ensures
        r == leads_with_newline(s@),
{
    let rest = trim_start(s);
    proof {
        lemma_trimmed_start_suffix(s@);
    }
    let lead = vstd::slice::slice_subrange(s, 0, s.len() - rest.len());
    proof {
        assert(lead@ =~= s@.take(s@.len() - rest@.len()));
    }
    has_char(lead, '\n')
}

fn trailing_newline(s: &[char]) -> (r: bool)
    ensures
        r == trails_with_newline(s@),
{
    let rest = trim_end(s);
    proof {
        lemma_trimmed_end_prefix(s@);
    }
    let tail = vstd::slice::slice_subrange(s, rest.len(), s.len());
    proof {
        assert(tail@ =~= s@.skip(rest@.len() as int));
    }
    has_char(tail, '\n')
}

/// For each comma part that holds something, whether its selector starts on a line of its own.
pub fn comma_linebreaks(sel: &str, nested: bool) -> (r: Vec<bool>)
    ensures
        r@ == breaks_from(comma_parts(sel@), 0, false, nested),
{
    let chars = chars_of(sel);
    let segs = split_commas(chars.as_slice());
    let ghost all = comma_parts(sel@);
    let mut out: Vec<bool> = Vec::new();
    let mut pending: bool = false;
    let mut i: usize = 0;
    proof {
        assert(Seq::<bool>::empty() + breaks_from(all, 0, false, nested) =~= breaks_from(
            all,
            0,
            false,
            nested,
        ));
    }
    while i < segs.len()
        invariant
            i <= segs@.len(),
            rows(segs@) == all,
            out@ + breaks_from(all, i as int, pending, nested) == breaks_from(all, 0, false, nested),
        decreases segs@.len() - i,
    {
        let s = segs[i].as_slice();
        let ghost prev = out@;
        let ghost was_pending = pending;
        proof {
            assert(all[i as int] == s@);
            if i > 0 {
                assert(all[i - 1] == segs@[i - 1]@);
            }
        }
        if trim(s).len() == 0 {
            pending = pending || (i > 0 && has_char(s, '\n'));
        } else {
            let before = i > 0 && (leading_newline(s) || trailing_newline(segs[i - 1].as_slice()));
            let flag = (before || pending) && !(nested && part_has_parent_ref(s));
            out.push(flag);
            pending = false;
            proof {
                assert(out@ + breaks_from(all, i + 1, pending, nested) =~= prev + (seq![flag]
                    + breaks_from(all, i + 1, false, nested)));
            }
        }
        i += 1;
    }
    proof {
        assert(out@ + Seq::<bool>::empty() =~= out@);
    }
    out
}

// ---- laws ----------------------------------------------------------------

/// The parts below a parent.
pub open spec fn below_parent(parts: Seq<Seq<char>>, parent: Seq<char>) -> Seq<Seq<char>> {
    Seq::new(parts.len(), |k: int| parent.push(' ') + parts[k])
}

/// The parts below every parent, parent by parent.
pub open spec fn below_parents(parts: Seq<Seq<char>>, parents: Seq<Seq<char>>) -> Seq<Seq<char>>
    decreases parents.len(),
{
    if parents.len() == 0 {
        Seq::empty()
    } else {
        below_parents(parts, parents.drop_last()) + below_parent(parts, parents.last())
    }
}

/// A selector list that does not name the parent stands below every selector of the enclosing rule:
/// it gives every part below every parent, parent by parent, in canonical spelling.
pub proof fn nested_selectors_multiply(sp: Spellings, sel: Seq<char>, parents: Seq<Seq<char>>)
    requires
        parents.len() > 0,
        forall|k: int|
            0 <= k < kept_parts(comma_parts(sel)).len() ==> !(#[trigger] kept_parts(
                comma_parts(sel),
            )[k]).contains('&'),
    ensures
        resolved(sp, sel, parents, true) == Ok::<Seq<Seq<char>>, Seq<char>>(
            all_normalized(sp, below_parents(kept_parts(comma_parts(sel)), parents)),
        ),
        below_parents(kept_parts(comma_parts(sel)), parents).len() == parents.len() * kept_parts(
            comma_parts(sel),
        ).len(),
{
    let parts = kept_parts(comma_parts(sel));
    assert(parents.take(0) =~= Seq::empty());
    if parts.len() > 0 {
        assert(Seq::<Seq<char>>::empty() =~= below_parents(parts, parents.take(0))
            + below_parent(parts, parents[0]).take(0));
    }
    lemma_rounds(parts, parents, 0, 0);
    lemma_product_length(parts, parents);
}

proof fn lemma_product_length(parts: Seq<Seq<char>>, parents: Seq<Seq<char>>)
    ensures
        below_parents(parts, parents).len() == parents.len() * parts.len(),
    decreases parents.len(),
{
    if parents.len() > 0 {
        lemma_product_length(parts, parents.drop_last());
        let n = parents.len() as int;
        let m = parts.len() as int;
        assert((n - 1) * m + m == n * m) by (nonlinear_arith);
    }
}

proof fn lemma_no_reference(part: Seq<char>, parents: Seq<Seq<char>>, i: int, depth: int, out: Seq<char>)
    requires
        !part.contains('&'),
    ensures
        list_substituted(part, parents, i, depth, out, false) is None,
    decreases part.len() - i,
{
    if 0 <= i < part.len() {
        assert(part[i] != '&');
        let d = if part[i] == '(' {
            depth + 1
        } else if part[i] == ')' {
            depth - 1
        } else {
            depth
        };
        lemma_no_reference(part, parents, i + 1, d, out.push(part[i]));
    }
}

proof fn lemma_one_segment(s: Seq<char>)
    requires
        !s.contains('&'),
    ensures
        ref_segments(s).len() == 1,
    decreases s.len(),
{
    if s.len() > 0 {
        let t = s.drop_last();
        assert(s[s.len() - 1] != '&');
        assert(!t.contains('&')) by {
            if t.contains('&') {
                let k = choose|k: int| 0 <= k < t.len() && t[k] == '&';
                assert(s[k] == '&');
            }
        }
        lemma_one_segment(t);
    }
}

proof fn lemma_rounds(parts: Seq<Seq<char>>, parents: Seq<Seq<char>>, p: int, k: int)
    requires
        0 <= p <= parents.len(),
        0 <= k <= parts.len(),
        p == parents.len() ==> k == 0,
        forall|j: int| 0 <= j < parts.len() ==> !(#[trigger] parts[j]).contains('&'),
    ensures
        implicit_rounds(
            parts,
            parents,
            p,
            k,
            below_parents(parts, parents.take(p)) + (if p < parents.len() {
                below_parent(parts, parents[p]).take(k)
            } else {
                Seq::empty()
            }),
        ) == Ok::<Seq<Seq<char>>, Seq<char>>(below_parents(parts, parents)),
    decreases parents.len() - p, parts.len() - k,
{
    let done = below_parents(parts, parents.take(p));
    if p == parents.len() {
        assert(parents.take(p) =~= parents);
        assert(done + Seq::<Seq<char>>::empty() =~= done);
    } else {
        let row = below_parent(parts, parents[p]);
        if k < parts.len() {
            lemma_no_reference(parts[k], parents, 0, 0, Seq::empty());
            lemma_one_segment(parts[k]);
            let l = seq![parents[p].push(' ') + parts[k]];
            assert(done + row.take(k) + l =~= done + row.take(k + 1));
            lemma_rounds(parts, parents, p, k + 1);
        } else {
            assert(row.take(k) =~= row);
            assert(parents.take(p + 1).drop_last() =~= parents.take(p));
            assert(parents.take(p + 1).last() == parents[p]);
            let next = below_parents(parts, parents.take(p + 1));
            assert(next == done + row);
            if p + 1 < parents.len() {
                assert(next + below_parent(parts, parents[p + 1]).take(0) =~= next);
            } else {
                assert(next + Seq::<Seq<char>>::empty() =~= next);
            }
            lemma_rounds(parts, parents, p + 1, 0);
        }
    }
}

} // verus!
