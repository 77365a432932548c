//! How selectors are taken apart, and which of them are refused.

use vstd::prelude::*;
use crate::bogus::{
    block_bogus, bogus_argument_from, bogus_compound_from, compound_tokens, tokens, tokens_from,
};
use crate::plain::filled_parts;
use crate::scan::{at_top_level, comma_parts, is_combinator, name_char, surplus};
use crate::selector_check::{
    has_empty_argument, is_suffix_char, nesting_fault, part_fault, parts_fault, selector_fault,
};
use crate::selector_text::trimmed_part;
use crate::text::{is_ws, lower, trimmed, trimmed_start};

verus! {

// ---- lists ---------------------------------------------------------------

proof fn lemma_surplus(a: Seq<char>, b: Seq<char>, x: char, y: char)
    ensures
        surplus(a + b, x, y) == surplus(a, x, y) + surplus(b, x, y),
    decreases b.len(),
{
    if b.len() == 0 {
        assert(a + b =~= a);
    } else {
        lemma_surplus(a, b.drop_last(), x, y);
        assert((a + b).drop_last() =~= a + b.drop_last());
        assert((a + b).last() == b.last());
    }
}

/// A comma outside brackets parts a list of selectors: what stands before it and what stands behind it
/// are parted on their own.
pub proof fn top_level_comma_parts(a: Seq<char>, b: Seq<char>)
    requires
        at_top_level(a),
    ensures
        comma_parts(a + seq![','] + b) == comma_parts(a) + comma_parts(b),
    decreases b.len(),
{
    let s = a + seq![','] + b;
    if b.len() == 0 {
        assert(s =~= a.push(','));
        assert(s.drop_last() =~= a);
        assert(comma_parts(a) + comma_parts(b) =~= comma_parts(a).push(Seq::empty()));
    } else {
        let less = b.drop_last();
        let t = a + seq![','] + less;
        top_level_comma_parts(a, less);
        assert(s.drop_last() =~= t);
        assert(s.last() == b.last());
        assert(t =~= a.push(',') + less);
        lemma_surplus(a.push(','), less, '(', ')');
        lemma_surplus(a.push(','), less, '[', ']');
        assert(a.push(',').drop_last() =~= a);
        assert(at_top_level(t) == at_top_level(less));
        crate::scan::comma_parts_rejoin(less);
        let x = comma_parts(a);
        let y = comma_parts(less);
        if b.last() == ',' && at_top_level(less) {
            assert((x + y).push(Seq::empty()) =~= x + y.push(Seq::empty()));
        } else {
            assert((x + y).last() == y.last());
            assert((x + y).drop_last().push(y.last().push(b.last())) =~= x + y.drop_last().push(
                y.last().push(b.last()),
            ));
        }
    }
}

/// A text without a comma is one part; so is one whose commas all stand in brackets.
pub proof fn nothing_parts_without_a_comma(s: Seq<char>)
    requires
        forall|k: int| 0 <= k < s.len() && #[trigger] s[k] == ',' ==> !at_top_level(s.take(k)),
    ensures
        comma_parts(s) == seq![s],
    decreases s.len(),
{
    if s.len() > 0 {
        let less = s.drop_last();
        assert forall|k: int| 0 <= k < less.len() && #[trigger] less[k] == ',' implies !at_top_level(
            less.take(k),
        ) by {
            assert(s[k] == ',');
            assert(less.take(k) =~= s.take(k));
        }
        nothing_parts_without_a_comma(less);
        assert(s.take(s.len() - 1) =~= less);
        assert(s[s.len() - 1] == s.last());
        assert(less.push(s.last()) =~= s);
        assert(seq![less].drop_last().push(seq![less].last().push(s.last())) =~= seq![s]);
    } else {
        assert(s =~= Seq::<char>::empty());
    }
}

/// Of the parts of a list those that hold anything are kept, in their order, without white space round
/// them.
pub proof fn filled_parts_are_kept(parts: Seq<Seq<char>>, p: Seq<char>)
    ensures
        trimmed(p).len() > 0 ==> filled_parts(parts.push(p)) == filled_parts(parts).push(trimmed(p)),
        trimmed(p).len() == 0 ==> filled_parts(parts.push(p)) == filled_parts(parts),
        filled_parts(Seq::empty()) == Seq::<Seq<char>>::empty(),
{
    assert(parts.push(p).drop_last() =~= parts);
}

// ---- combinators ---------------------------------------------------------

/// Whether a text is made of names, spaces and the marks of classes and ids.
pub open spec fn plain_text(s: Seq<char>) -> bool {
    forall|k: int|
        0 <= k < s.len() ==> name_char(#[trigger] s[k]) || s[k] == ' ' || s[k] == '.' || s[k] == '#'
}

proof fn lemma_plain_run(s: Seq<char>, start: int, i: int, to: int)
    requires
        0 <= start <= i <= to <= s.len(),
        plain_text(s.subrange(i, to)),
    ensures
        tokens_from(s, start, i, 0, 0) == tokens_from(s, start, to, 0, 0),
    decreases to - i,
{
    if i < to {
        let part = s.subrange(i, to);
        let rest = s.subrange(i + 1, to);
        assert(part[0] == s[i]);
        assert forall|k: int| 0 <= k < rest.len() implies name_char(#[trigger] rest[k]) || rest[k] == ' '
            || rest[k] == '.' || rest[k] == '#' by {
            assert(rest[k] == part[k + 1]);
        }
        lemma_plain_run(s, start, i + 1, to);
    }
}

/// A combinator parts a selector: what stands on either side of it is a compound of its own.
pub proof fn combinator_parts_compounds(a: Seq<char>, c: char, b: Seq<char>)
    requires
        plain_text(a),
        plain_text(b),
        is_combinator(c),
    ensures
        tokens(a + seq![c] + b) == compound_tokens(a).push(None) + compound_tokens(b),
        tokens(a) == compound_tokens(a),
{
    let s = a + seq![c] + b;
    let n = a.len() as int;
    assert(s.subrange(0, n) =~= a);
    assert(s.subrange(n + 1, s.len() as int) =~= b);
    assert(s.skip(n + 1) =~= b);
    lemma_plain_run(s, 0, 0, n);
    lemma_plain_run(s, n + 1, n + 1, s.len() as int);
    assert(s[n] == c);
    assert(a.subrange(0, n) =~= a);
    assert(a.skip(0) =~= a);
    lemma_plain_run(a, 0, 0, n);
}

proof fn lemma_two_combinators(a: Seq<char>, c: char, m: Seq<char>, d: char, b: Seq<char>)
    requires
        plain_text(a),
        plain_text(m),
        plain_text(b),
        is_combinator(c),
        is_combinator(d),
    ensures
        tokens(a + seq![c] + m + seq![d] + b) == compound_tokens(a).push(None) + (compound_tokens(m).push(
            None,
        ) + compound_tokens(b)),
{
    let s = a + seq![c] + m + seq![d] + b;
    let n = a.len() as int;
    let k = n + 1 + m.len();
    assert(s.subrange(0, n) =~= a);
    assert(s.subrange(n + 1, k) =~= m);
    assert(s.subrange(k + 1, s.len() as int) =~= b);
    assert(s.skip(k + 1) =~= b);
    lemma_plain_run(s, 0, 0, n);
    lemma_plain_run(s, n + 1, n + 1, k);
    lemma_plain_run(s, k + 1, k + 1, s.len() as int);
    assert(s[n] == c);
    assert(s[k] == d);
}

/// A selector with a combinator at its end cannot be written.
pub proof fn trailing_combinator_is_bogus(a: Seq<char>, c: char)
    requires
        plain_text(a),
        is_combinator(c),
    ensures
        block_bogus(a + seq![c]),
{
    let none = Seq::<char>::empty();
    combinator_parts_compounds(a, c, none);
    let s = a + seq![c];
    assert(a + seq![c] + none =~= s);
    assert(s[a.len() as int] == c);
    assert(crate::bogus::is_trigger(s[a.len() as int]));
    assert(trimmed_part(none).len() == 0);
    let t = tokens(s);
    assert(t =~= compound_tokens(a).push(None));
    assert(t.last() is None);
}

/// A selector with two combinators in a row cannot be written.
pub proof fn combinators_in_a_row_are_bogus(a: Seq<char>, c: char, m: Seq<char>, d: char, b: Seq<char>)
    requires
        plain_text(a),
        plain_text(m),
        plain_text(b),
        trimmed_part(m).len() == 0,
        is_combinator(c),
        is_combinator(d),
    ensures
        block_bogus(a + seq![c] + m + seq![d] + b),
{
    lemma_two_combinators(a, c, m, d, b);
    let s = a + seq![c] + m + seq![d] + b;
    assert(s[a.len() as int] == c);
    assert(crate::bogus::is_trigger(s[a.len() as int]));
    let t = tokens(s);
    let k = compound_tokens(a).len() as int;
    assert(t[k] is None);
    assert(compound_tokens(m).push(None)[0] is None);
    assert(t[k + 1] is None);
    assert(crate::bogus::adjacent_combinators(t));
}

proof fn lemma_plain_compound(s: Seq<char>, i: int)
    requires
        plain_text(s),
        0 <= i,
    ensures
        !bogus_argument_from(s, i),
    decreases s.len() - i,
{
    if i < s.len() {
        assert(name_char(s[i]) || s[i] == ' ' || s[i] == '.' || s[i] == '#');
        lemma_plain_compound(s, i + 1);
    }
}

proof fn lemma_trimmed_plain(s: Seq<char>)
    requires
        plain_text(s),
    ensures
        plain_text(trimmed_part(s)),
{
    let t0 = trimmed_start(s);
    lemma_trimmed_start_plain(s);
    let t = crate::text::trimmed_end(t0);
    crate::selector_text::lemma_trimmed_end_prefix(t0);
    assert forall|k: int| 0 <= k < trimmed_part(s).len() implies name_char(#[trigger] trimmed_part(s)[k])
        || trimmed_part(s)[k] == ' ' || trimmed_part(s)[k] == '.' || trimmed_part(s)[k] == '#' by {
        assert(trimmed_part(s)[k] == t0[k]);
    }
}

proof fn lemma_trimmed_start_plain(s: Seq<char>)
    requires
        plain_text(s),
    ensures
        plain_text(trimmed_start(s)),
    decreases s.len(),
{
    if s.len() > 0 && is_ws(s[0]) {
        let rest = s.skip(1);
        assert forall|k: int| 0 <= k < rest.len() implies name_char(#[trigger] rest[k]) || rest[k] == ' '
            || rest[k] == '.' || rest[k] == '#' by {
            assert(rest[k] == s[k + 1]);
        }
        lemma_trimmed_start_plain(rest);
    }
}

/// Two compounds with one combinator between them can be written, and so can one that stands behind a
/// combinator.
pub proof fn one_combinator_is_fine(a: Seq<char>, c: char, b: Seq<char>)
    requires
        plain_text(a),
        plain_text(b),
        trimmed_part(b).len() > 0,
        is_combinator(c),
    ensures
        !block_bogus(a + seq![c] + b),
{
    let s = a + seq![c] + b;
    combinator_parts_compounds(a, c, b);
    lemma_trimmed_plain(a);
    lemma_trimmed_plain(b);
    lemma_plain_compound(trimmed_part(a), 0);
    lemma_plain_compound(trimmed_part(b), 0);
    let t = tokens(s);
    let n = compound_tokens(a).len() as int;
    assert(t.len() == n + 2);
    assert(n <= 1);
    assert(t[n] is None);
    assert(t[n + 1] == Some(trimmed_part(b)));
    assert(t.last() is Some);
    if n == 1 {
        assert(t[0] == Some(trimmed_part(a)));
    }
    assert(!crate::bogus::adjacent_combinators(t)) by {
        if crate::bogus::adjacent_combinators(t) {
            let k = choose|k: int| 0 <= k && k + 1 < t.len() && (#[trigger] t[k]) is None && t[k + 1] is None;
            assert(k == n || k + 1 == n);
        }
    }
    assert(!bogus_compound_from(s, 0)) by {
        reveal_with_fuel(bogus_compound_from, 4);
    }
}

// ---- what is refused -----------------------------------------------------

/// Whether a text is made of names and spaces.
pub open spec fn names_only(s: Seq<char>) -> bool {
    forall|k: int| 0 <= k < s.len() ==> name_char(#[trigger] s[k]) || s[k] == ' '
}

proof fn lemma_names_nest(s: Seq<char>, i: int)
    requires
        names_only(s),
        0 <= i,
    ensures
        nesting_fault(s, i, Seq::empty(), None) is None,
    decreases s.len() - i,
{
    if i < s.len() {
        assert(name_char(s[i]) || s[i] == ' ');
        lemma_names_nest(s, i + 1);
    }
}

proof fn lemma_names_part(s: Seq<char>, i: int, start: bool, has_parent: bool)
    requires
        names_only(s),
        0 <= i,
    ensures
        part_fault(s, i, start, 0, has_parent) is None,
    decreases s.len() - i,
{
    if i < s.len() {
        assert(name_char(s[i]) || s[i] == ' ');
        lemma_names_part(s, i + 1, false, has_parent);
        lemma_names_part(s, i + 1, true, has_parent);
    }
}

proof fn lemma_no_colon(s: Seq<char>, pat: Seq<char>)
    requires
        names_only(s),
        pat.len() > 0,
        pat[0] == ':',
    ensures
        !has_empty_argument(s, pat),
{
    if has_empty_argument(s, pat) {
        let p = choose|p: int|
            p <= s.len() && #[trigger] crate::selector_check::empty_argument_at(s, pat, p);
        let rest = lower(s).skip(p);
        assert(rest.take(pat.len() as int)[0] == pat[0]);
        assert(lower(s)[p] == ':');
        assert(name_char(s[p]) || s[p] == ' ');
        assert(lower(s)[p] == crate::text::lower_char(s[p]));
    }
}

/// A selector of names alone is never refused.
pub proof fn plain_names_are_accepted(s: Seq<char>, has_parent: bool)
    requires
        names_only(s),
    ensures
        selector_fault(s, has_parent) is None,
{
    lemma_names_nest(s, 0);
    reveal_strlit(":nth-child(");
    reveal_strlit(":nth-last-child(");
    reveal_strlit(":nth-of-type(");
    reveal_strlit(":nth-last-of-type(");
    lemma_no_colon(s, ":nth-child("@);
    lemma_no_colon(s, ":nth-last-child("@);
    lemma_no_colon(s, ":nth-of-type("@);
    lemma_no_colon(s, ":nth-last-of-type("@);
    assert forall|k: int| 0 <= k < s.len() && #[trigger] s[k] == ',' implies !at_top_level(s.take(k)) by {
        assert(name_char(s[k]) || s[k] == ' ');
    }
    nothing_parts_without_a_comma(s);
    lemma_names_part(s, 0, true, has_parent);
    assert(parts_fault(seq![s], 1, has_parent) is None);
    assert(trimmed_start(s).len() > 0 ==> trimmed_start(s)[0] != ',') by {
        lemma_start_names(s);
        if trimmed_start(s).len() > 0 {
            assert(name_char(trimmed_start(s)[0]) || trimmed_start(s)[0] == ' ');
        }
    }
}

proof fn lemma_start_names(s: Seq<char>)
    requires
        names_only(s),
    ensures
        names_only(trimmed_start(s)),
    decreases s.len(),
{
    if s.len() > 0 && is_ws(s[0]) {
        let rest = s.skip(1);
        assert forall|k: int| 0 <= k < rest.len() implies name_char(#[trigger] rest[k]) || rest[k] == ' ' by {
            assert(rest[k] == s[k + 1]);
        }
        lemma_start_names(rest);
    }
}

/// A parent reference stands at the start of a compound: behind a name it is refused. One with a suffix
/// is refused where there is no parent, and is fine where there is.
pub proof fn parent_references_are_checked(name: Seq<char>, suffix: Seq<char>)
    requires
        name.len() > 0,
        forall|k: int| 0 <= k < name.len() ==> name_char(#[trigger] name[k]),
        suffix.len() > 0,
        forall|k: int| 0 <= k < suffix.len() ==> name_char(#[trigger] suffix[k]),
        is_suffix_char(suffix[0]),
    ensures
        part_fault(name.push('&'), 0, true, 0, true) is Some,
        part_fault(name.push('&'), 0, true, 0, false) is Some,
        part_fault(seq!['&'] + suffix, 0, true, 0, false) is Some,
        part_fault(seq!['&'] + suffix, 0, true, 0, true) is None,
        part_fault(seq!['&'], 0, true, 0, false) is None,
{
    lemma_reference_behind(name, 0, true, true);
    lemma_reference_behind(name, 0, true, false);
    let s = seq!['&'] + suffix;
    assert(s[0] == '&');
    assert(s[1] == suffix[0]);
    lemma_suffix_part(s, 1);
    assert(part_fault(s, 0, true, 0, true) == part_fault(s, 1, false, 0, true));
    let one = seq!['&'];
    assert(one[0] == '&');
    assert(part_fault(one, 1, false, 0, false) is None);
}

proof fn lemma_reference_behind(name: Seq<char>, i: int, start: bool, has_parent: bool)
    requires
        0 <= i <= name.len(),
        i == name.len() ==> !start,
        forall|k: int| 0 <= k < name.len() ==> name_char(#[trigger] name[k]),
    ensures
        part_fault(name.push('&'), i, start, 0, has_parent) is Some,
    decreases name.len() - i,
{
    let s = name.push('&');
    if i < name.len() {
        assert(s[i] == name[i]);
        assert(name_char(name[i]));
        lemma_reference_behind(name, i + 1, false, has_parent);
    } else {
        assert(s[i] == '&');
    }
}

proof fn lemma_suffix_part(s: Seq<char>, i: int)
    requires
        1 <= i <= s.len(),
        forall|k: int| 1 <= k < s.len() ==> name_char(#[trigger] s[k]),
    ensures
        part_fault(s, i, false, 0, true) is None,
    decreases s.len() - i,
{
    if i < s.len() {
        assert(name_char(s[i]));
        lemma_suffix_part(s, i + 1);
    }
}

} // verus!
