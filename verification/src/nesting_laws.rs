//! What nested selectors stand for.

use vstd::prelude::*;
use crate::nesting::{
    any_alnum, bars_list, cartesian, choices, compound_parent_fault, crossed, depth_after, each_parent,
    explicit_round, explicit_texts, implicit_rounds, implicit_texts, kept_parts, list_substituted,
    parents_fault, pseudo_refs, ref_segments, substituted, suffix_end, suffixed,
};
use crate::scan::{at, comma_parts, surplus};
use crate::text::{joined, replaced};

verus! {

// ---- replacement ---------------------------------------------------------

/// Replacing a character goes piece by piece: of two texts together it gives what it gives of each,
/// the character itself becomes the new text, and every other one stays.
pub proof fn replacing_goes_piece_by_piece(s: Seq<char>, t: Seq<char>, c: char, by: Seq<char>)
    ensures
        replaced(s + t, c, by) == replaced(s, c, by) + replaced(t, c, by),
        replaced(seq![c], c, by) == by,
        forall|x: char| x != c ==> #[trigger] replaced(seq![x], c, by) == seq![x],
        !s.contains(c) ==> replaced(s, c, by) == s,
    decreases t.len(),
{
    reveal_with_fuel(replaced, 2);
    assert(seq![c].drop_last() =~= Seq::empty());
    assert(Seq::<char>::empty() + by =~= by);
    assert(replaced(seq![c], c, by) == by);
    assert forall|x: char| x != c implies #[trigger] replaced(seq![x], c, by) == seq![x] by {
        assert(seq![x].drop_last() =~= Seq::empty());
        assert(Seq::<char>::empty() + seq![x] =~= seq![x]);
    }
    lemma_nothing_to_replace(s, c, by);
    if t.len() == 0 {
        assert(s + t =~= s);
        assert(replaced(s, c, by) + replaced(t, c, by) =~= replaced(s, c, by));
    } else {
        replacing_goes_piece_by_piece(s, t.drop_last(), c, by);
        assert((s + t).drop_last() =~= s + t.drop_last());
        let last = if t.last() == c {
            by
        } else {
            seq![t.last()]
        };
        assert(replaced(s, c, by) + (replaced(t.drop_last(), c, by) + last) =~= replaced(s, c, by)
            + replaced(t.drop_last(), c, by) + last);
    }
}

proof fn lemma_nothing_to_replace(s: Seq<char>, c: char, by: Seq<char>)
    ensures
        !s.contains(c) ==> replaced(s, c, by) == s,
    decreases s.len(),
{
    if s.len() > 0 && !s.contains(c) {
        let t = s.drop_last();
        assert(!t.contains(c)) by {
            if t.contains(c) {
                let k = choose|k: int| 0 <= k < t.len() && t[k] == c;
                assert(s[k] == c);
            }
        }
        lemma_nothing_to_replace(t, c, by);
        assert(s[s.len() - 1] != c);
        assert(t + seq![s.last()] =~= s);
    }
}

// ---- several references --------------------------------------------------

/// How many `&` of a part stand outside brackets and parentheses.
pub open spec fn top_refs(part: Seq<char>) -> nat
    decreases part.len(),
{
    if part.len() == 0 {
        0
    } else {
        top_refs(part.drop_last()) + if part.last() == '&' && depth_after(part.drop_last()) == 0 {
            1nat
        } else {
            0nat
        }
    }
}

/// A part with a parent in place of every `&` outside brackets: which, the digits of `n` say, to the
/// base of the number of parents, the last of them for the last `&`.
pub open spec fn woven(part: Seq<char>, parents: Seq<Seq<char>>, n: int) -> Seq<char>
    decreases part.len(),
{
    if part.len() == 0 {
        Seq::empty()
    } else if part.last() == '&' && depth_after(part.drop_last()) == 0 {
        woven(part.drop_last(), parents, n / (parents.len() as int)) + parents[n % (
        parents.len() as int)]
    } else {
        woven(part.drop_last(), parents, n).push(part.last())
    }
}

/// `b` times itself, `e` times.
pub open spec fn times(b: nat, e: nat) -> nat
    decreases e,
{
    if e == 0 {
        1
    } else {
        times(b, (e - 1) as nat) * b
    }
}

proof fn lemma_crossed_len(heads: Seq<Seq<char>>, seg: Seq<char>, parents: Seq<Seq<char>>)
    ensures
        crossed(heads, seg, parents).len() == heads.len() * parents.len(),
    decreases heads.len(),
{
    if heads.len() > 0 {
        let h = heads.drop_last();
        lemma_crossed_len(h, seg, parents);
        assert(h.len() * parents.len() + parents.len() == heads.len() * parents.len()) by (nonlinear_arith)
            requires
                h.len() + 1 == heads.len(),
        ;
    } else {
        assert(heads.len() * parents.len() == 0) by (nonlinear_arith)
            requires
                heads.len() == 0,
        ;
    }
}

proof fn lemma_crossed_at(heads: Seq<Seq<char>>, seg: Seq<char>, parents: Seq<Seq<char>>, n: int)
    requires
        parents.len() > 0,
        0 <= n < crossed(heads, seg, parents).len(),
    ensures
        0 <= n / (parents.len() as int) < heads.len(),
        0 <= n % (parents.len() as int) < parents.len(),
        crossed(heads, seg, parents)[n] == heads[n / (parents.len() as int)] + seg + parents[n % (
        parents.len() as int)],
    decreases heads.len(),
{
    let w = parents.len() as int;
    if heads.len() > 0 {
        let h = heads.drop_last();
        let before = crossed(h, seg, parents);
        let row = Seq::new(parents.len(), |i: int| heads.last() + seg + parents[i]);
        let all = crossed(heads, seg, parents);
        assert(all == before + row);
        lemma_crossed_len(h, seg, parents);
        if n < before.len() {
            lemma_crossed_at(h, seg, parents, n);
            assert(all[n] == before[n]);
            assert(h[n / w] == heads[n / w]);
        } else {
            let i = n - before.len();
            vstd::arithmetic::div_mod::lemma_fundamental_div_mod_converse(n, w, h.len() as int, i);
            assert(all[n] == row[i]);
        }
    }
}

proof fn lemma_choices_prefix(a: Seq<Seq<char>>, b: Seq<Seq<char>>, parents: Seq<Seq<char>>, m: nat)
    requires
        m <= a.len(),
        m <= b.len(),
        forall|i: int| 0 <= i < m ==> #[trigger] a[i] == b[i],
    ensures
        choices(a, parents, m) == choices(b, parents, m),
    decreases m,
{
    if m > 0 {
        lemma_choices_prefix(a, b, parents, (m - 1) as nat);
        assert(a[m - 1] == b[m - 1]);
    }
}

/// A part with several `&` outside brackets stands for every way to put a parent in place of each of
/// them, all else of it unchanged: there are as many as the number of parents to the power of the
/// number of `&`, in an order in which the parent of the last `&` changes fastest.
pub proof fn several_references_multiply(part: Seq<char>, parents: Seq<Seq<char>>)
    requires
        parents.len() > 0,
    ensures
        ref_segments(part).len() == top_refs(part) + 1,
        cartesian(ref_segments(part), parents).len() == times(parents.len(), top_refs(part)),
        forall|n: int|
            0 <= n < times(parents.len(), top_refs(part)) ==> #[trigger] cartesian(
                ref_segments(part),
                parents,
            )[n] == woven(part, parents, n),
    decreases part.len(),
{
    let segs = ref_segments(part);
    let all = cartesian(segs, parents);
    let w = parents.len() as int;
    if part.len() == 0 {
        let c = choices(segs, parents, 0);
        assert(c == seq![Seq::<char>::empty()]);
        assert(all =~= seq![Seq::<char>::empty() + Seq::<char>::empty()]);
        assert(Seq::<char>::empty() + Seq::<char>::empty() =~= Seq::<char>::empty());
    } else {
        let t = part.drop_last();
        several_references_multiply(t, parents);
        let before = ref_segments(t);
        let prev = cartesian(before, parents);
        let heads = choices(before, parents, (before.len() - 1) as nat);
        if part.last() == '&' && depth_after(t) == 0 {
            assert(segs == before.push(Seq::empty()));
            lemma_choices_prefix(segs, before, parents, (before.len() - 1) as nat);
            let more = crossed(heads, before.last(), parents);
            assert(segs[before.len() - 1] == before.last());
            assert(choices(segs, parents, before.len()) == more);
            lemma_crossed_len(heads, before.last(), parents);
            assert(all == suffixed(more, Seq::empty()));
            assert(prev == suffixed(heads, before.last()));
            assert(heads.len() == prev.len());
            assert forall|n: int| 0 <= n < times(parents.len(), top_refs(part)) implies #[trigger] all[n]
                == woven(part, parents, n) by {
                lemma_crossed_at(heads, before.last(), parents, n);
                assert(prev[n / w] == heads[n / w] + before.last());
                assert(prev[n / w] == woven(t, parents, n / w));
                assert(all[n] =~= more[n]);
            }
        } else {
            let longer = before.last().push(part.last());
            assert(segs == before.drop_last().push(longer));
            lemma_choices_prefix(segs, before, parents, (before.len() - 1) as nat);
            assert(all == suffixed(heads, longer));
            assert forall|n: int| 0 <= n < times(parents.len(), top_refs(part)) implies #[trigger] all[n]
                == woven(part, parents, n) by {
                assert(prev[n] == heads[n] + before.last());
                assert(prev[n] == woven(t, parents, n));
                assert(all[n] =~= prev[n].push(part.last()));
            }
        }
    }
}

// ---- one parent ----------------------------------------------------------

/// Whether no `&` of a part stands inside brackets or parentheses.
pub open spec fn only_top_refs(part: Seq<char>) -> bool {
    forall|i: int|
        0 <= i < part.len() && #[trigger] part[i] == '&' ==> surplus(part.take(i), '(', ')') == 0
            && surplus(part.take(i), '[', ']') == 0
}

/// Putting a parent in place of every `&` outside brackets is plain replacement where there is no
/// other `&`, and one parent.
pub proof fn one_parent_is_put_in_place(part: Seq<char>, parents: Seq<Seq<char>>, n: int)
    requires
        only_top_refs(part),
        0 <= n < parents.len(),
        parents.len() == 1 || top_refs(part) <= 1,
    ensures
        woven(part, parents, n) == replaced(part, '&', parents[n]),
    decreases part.len(),
{
    if part.len() > 0 {
        let t = part.drop_last();
        let w = parents.len() as int;
        assert forall|i: int| 0 <= i < t.len() && #[trigger] t[i] == '&' implies surplus(
            t.take(i),
            '(',
            ')',
        ) == 0 && surplus(t.take(i), '[', ']') == 0 by {
            assert(part[i] == '&');
            assert(part.take(i) =~= t.take(i));
        }
        assert(part.take(part.len() - 1) =~= t);
        vstd::arithmetic::div_mod::lemma_small_mod(n as nat, w as nat);
        vstd::arithmetic::div_mod::lemma_basic_div(n, w);
        if part.last() == '&' {
            assert(part[part.len() - 1] == '&');
            assert(depth_after(t) == 0);
            if parents.len() == 1 {
                one_parent_is_put_in_place(t, parents, n);
            } else {
                lemma_no_top_ref(t);
                lemma_woven_without_refs(t, parents, 0);
                lemma_nothing_to_replace(t, '&', parents[n]);
            }
        } else {
            one_parent_is_put_in_place(t, parents, n);
            assert(replaced(t, '&', parents[n]) + seq![part.last()] =~= replaced(
                t,
                '&',
                parents[n],
            ).push(part.last()));
        }
    }
}

proof fn lemma_no_top_ref(t: Seq<char>)
    requires
        only_top_refs(t),
        top_refs(t) == 0,
    ensures
        !t.contains('&'),
    decreases t.len(),
{
    if t.len() > 0 {
        let u = t.drop_last();
        assert forall|i: int| 0 <= i < u.len() && #[trigger] u[i] == '&' implies surplus(
            u.take(i),
            '(',
            ')',
        ) == 0 && surplus(u.take(i), '[', ']') == 0 by {
            assert(t[i] == '&');
            assert(t.take(i) =~= u.take(i));
        }
        lemma_no_top_ref(u);
        assert(t.take(t.len() - 1) =~= u);
        if t.contains('&') {
            let i = choose|i: int| 0 <= i < t.len() && t[i] == '&';
            if i < u.len() {
                assert(u[i] == '&');
            } else {
                assert(depth_after(t.take(i)) == 0);
            }
        }
    }
}

proof fn lemma_woven_without_refs(t: Seq<char>, parents: Seq<Seq<char>>, n: int)
    requires
        !t.contains('&'),
    ensures
        woven(t, parents, n) == t,
    decreases t.len(),
{
    if t.len() > 0 {
        let u = t.drop_last();
        assert(t[t.len() - 1] != '&');
        assert(!u.contains('&')) by {
            if u.contains('&') {
                let k = choose|k: int| 0 <= k < u.len() && u[k] == '&';
                assert(t[k] == '&');
            }
        }
        lemma_woven_without_refs(u, parents, n);
        assert(u.push(t.last()) =~= t);
    }
}

/// A `&` inside a pseudo selector that stands for a single parent is replaced by it: a name that
/// follows the `&` follows the parent.
proof fn lemma_pseudo_of_one(
    part: Seq<char>,
    parents: Seq<Seq<char>>,
    i: int,
    depth: int,
    out: Seq<char>,
    found: bool,
)
    requires
        parents.len() == 1,
        0 <= i <= part.len(),
        out == replaced(part.take(i), '&', parents[0]),
    ensures
        match list_substituted(part, parents, i, depth, out, found) {
            Some(t) => t == replaced(part, '&', parents[0]),
            None => true,
        },
    decreases part.len() - i,
{
    let p = parents[0];
    if i >= part.len() {
        assert(part.take(i) =~= part);
    } else if part[i] == '&' {
        let j = suffix_end(part, i + 1);
        crate::nesting::lemma_suffix_end_range(part, i + 1);
        if !(depth == 0 || bars_list(at(part, j))) {
            let suffix = part.subrange(i + 1, j);
            let more = suffixed(parents, suffix);
            assert(joined(more, ", "@) == p + suffix) by {
                assert(more.len() == 1);
            }
            lemma_suffix_plain(part, i + 1);
            assert(part.take(j) =~= part.take(i) + seq!['&'] + suffix);
            replacing_goes_piece_by_piece(part.take(i) + seq!['&'], suffix, '&', p);
            replacing_goes_piece_by_piece(part.take(i), seq!['&'], '&', p);
            replacing_goes_piece_by_piece(suffix, seq!['&'], '&', p);
            assert(out + (p + suffix) =~= replaced(part.take(i), '&', p) + p + suffix);
            lemma_pseudo_of_one(part, parents, j, depth, out + joined(more, ", "@), true);
        }
    } else {
        let d = if part[i] == '(' {
            depth + 1
        } else if part[i] == ')' {
            depth - 1
        } else {
            depth
        };
        assert(part.take(i + 1) =~= part.take(i) + seq![part[i]]);
        replacing_goes_piece_by_piece(part.take(i), seq![part[i]], '&', p);
        assert(out.push(part[i]) =~= out + seq![part[i]]);
        lemma_pseudo_of_one(part, parents, i + 1, d, out.push(part[i]), found);
    }
}

proof fn lemma_suffix_plain(s: Seq<char>, i: int)
    requires
        0 <= i <= s.len(),
    ensures
        !s.subrange(i, suffix_end(s, i)).contains('&'),
    decreases s.len() - i,
{
    crate::nesting::lemma_suffix_end_range(s, i);
    let j = suffix_end(s, i);
    if i < s.len() && (any_alnum(s[i]) || s[i] == '-' || s[i] == '_') {
        lemma_suffix_plain(s, i + 1);
        crate::nesting::lemma_suffix_end_range(s, i + 1);
        assert(s[i] != '&');
        if s.subrange(i, j).contains('&') {
            let k = choose|k: int| 0 <= k < j - i && s.subrange(i, j)[k] == '&';
            assert(s.subrange(i + 1, j)[k - 1] == '&');
        }
    }
}

/// What a part becomes under a single parent: every `&` is the parent; without one, the part stands
/// below the parent, or at the root where `implicit` does not say so.
pub open spec fn under_one(part: Seq<char>, parent: Seq<char>, implicit: bool) -> Seq<char> {
    if part.contains('&') {
        replaced(part, '&', parent)
    } else if implicit {
        parent + seq![' '] + part
    } else {
        part
    }
}

/// Whether a part holds `&` in a way that a parent stands for all of them: not twice outside brackets
/// with another one inside.
pub open spec fn plainly_refers(part: Seq<char>) -> bool {
    top_refs(part) <= 1 || only_top_refs(part)
}

/// Below a single selector, each part of a selector list gives one selector, in the order of the
/// list: the part with the parent in place of every `&`, what stands around and between them
/// unchanged; or the part below the parent, where it does not name it.
pub proof fn one_parent_replaces_every_reference(sel: Seq<char>, parent: Seq<char>, implicit: bool)
    requires
        forall|k: int|
            0 <= k < kept_parts(comma_parts(sel)).len() ==> plainly_refers(
                #[trigger] kept_parts(comma_parts(sel))[k],
            ) && compound_parent_fault(kept_parts(comma_parts(sel))[k], parent) is None,
    ensures
        ({
            let parts = kept_parts(comma_parts(sel));
            substituted(sel, seq![parent], implicit) == Ok::<Seq<Seq<char>>, Seq<char>>(
                Seq::new(parts.len(), |k: int| under_one(parts[k], parent, implicit)),
            )
        }),
{
    let parts = kept_parts(comma_parts(sel));
    let all = Seq::new(parts.len(), |k: int| under_one(parts[k], parent, implicit));
    assert(all.take(0) =~= Seq::empty());
    if implicit {
        lemma_one_parent_implicit(parts, parent, 0);
    } else {
        lemma_one_parent_explicit(parts, parent, 0);
    }
}

proof fn lemma_under_one(part: Seq<char>, parent: Seq<char>)
    requires
        plainly_refers(part),
        compound_parent_fault(part, parent) is None,
    ensures
        explicit_texts(part, seq![parent]) == Ok::<Seq<Seq<char>>, Seq<char>>(
            seq![under_one(part, parent, false)],
        ),
        implicit_texts(part, seq![parent], 0) == Ok::<Seq<Seq<char>>, Seq<char>>(
            seq![under_one(part, parent, true)],
        ),
{
    let ps = seq![parent];
    assert(part.take(0) =~= Seq::empty());
    lemma_pseudo_of_one(part, ps, 0, 0, Seq::empty(), false);
    several_references_multiply(part, ps);
    assert(parents_fault(part, ps, 0) is None) by {
        reveal_with_fuel(parents_fault, 2);
    }
    if pseudo_refs(part, ps) is Some {
        assert(part.contains('&')) by {
            if !part.contains('&') {
                lemma_no_pseudo(part, ps, 0, 0, Seq::empty());
            }
        }
    } else if !part.contains('&') {
        lemma_no_top_refs_at_all(part);
        assert(parent.push(' ') + part =~= parent + seq![' '] + part);
    } else {
        assert(each_parent(part, ps) =~= seq![replaced(part, '&', parent)]);
        if top_refs(part) >= 2 {
            lemma_ones(top_refs(part));
            one_parent_is_put_in_place(part, ps, 0);
            assert(cartesian(ref_segments(part), ps) =~= seq![replaced(part, '&', parent)]);
        }
    }
}

proof fn lemma_ones(e: nat)
    ensures
        times(1, e) == 1,
    decreases e,
{
    if e > 0 {
        lemma_ones((e - 1) as nat);
    }
}

proof fn lemma_no_top_refs_at_all(part: Seq<char>)
    requires
        !part.contains('&'),
    ensures
        top_refs(part) == 0,
    decreases part.len(),
{
    if part.len() > 0 {
        let u = part.drop_last();
        assert(part[part.len() - 1] != '&');
        assert(!u.contains('&')) by {
            if u.contains('&') {
                let k = choose|k: int| 0 <= k < u.len() && u[k] == '&';
                assert(part[k] == '&');
            }
        }
        lemma_no_top_refs_at_all(u);
    }
}

proof fn lemma_no_pseudo(part: Seq<char>, parents: Seq<Seq<char>>, i: int, depth: int, out: Seq<char>)
    requires
        !part.contains('&'),
    ensures
        list_substituted(part, parents, i, depth, out, false) is None,
    decreases part.len() - i,
{
    if 0 <= i < part.len() {
        assert(part[i] != '&');
        let d = if part[i] == '(' {
            depth + 1
        } else if part[i] == ')' {
            depth - 1
        } else {
            depth
        };
        lemma_no_pseudo(part, parents, i + 1, d, out.push(part[i]));
    }
}

proof fn lemma_one_parent_implicit(parts: Seq<Seq<char>>, parent: Seq<char>, k: int)
    requires
        0 <= k <= parts.len(),
        forall|j: int|
            0 <= j < parts.len() ==> plainly_refers(#[trigger] parts[j]) && compound_parent_fault(
                parts[j],
                parent,
            ) is None,
    ensures
        ({
            let all = Seq::new(parts.len(), |j: int| under_one(parts[j], parent, true));
            implicit_rounds(parts, seq![parent], 0, k, all.take(k)) == Ok::<
                Seq<Seq<char>>,
                Seq<char>,
            >(all)
        }),
    decreases parts.len() - k,
{
    let all = Seq::new(parts.len(), |j: int| under_one(parts[j], parent, true));
    if k < parts.len() {
        lemma_under_one(parts[k], parent);
        assert(all.take(k) + seq![all[k]] =~= all.take(k + 1));
        lemma_one_parent_implicit(parts, parent, k + 1);
    } else {
        assert(all.take(k) =~= all);
        reveal_with_fuel(implicit_rounds, 3);
    }
}

proof fn lemma_one_parent_explicit(parts: Seq<Seq<char>>, parent: Seq<char>, k: int)
    requires
        0 <= k <= parts.len(),
        forall|j: int|
            0 <= j < parts.len() ==> plainly_refers(#[trigger] parts[j]) && compound_parent_fault(
                parts[j],
                parent,
            ) is None,
    ensures
        ({
            let all = Seq::new(parts.len(), |j: int| under_one(parts[j], parent, false));
            explicit_round(parts, seq![parent], k, all.take(k)) == Ok::<Seq<Seq<char>>, Seq<char>>(all)
        }),
    decreases parts.len() - k,
{
    let all = Seq::new(parts.len(), |j: int| under_one(parts[j], parent, false));
    if k < parts.len() {
        lemma_under_one(parts[k], parent);
        assert(all.take(k) + seq![all[k]] =~= all.take(k + 1));
        lemma_one_parent_explicit(parts, parent, k + 1);
    } else {
        assert(all.take(k) =~= all);
    }
}

// ---- several parents -----------------------------------------------------

/// Whether a part names the parent once at most, and outside brackets.
pub open spec fn refers_once(part: Seq<char>) -> bool {
    only_top_refs(part) && top_refs(part) <= 1
}

/// Below several selectors, a list whose parts name the parent once at most gives each part under each
/// parent: parent by parent, and the parts of each in the order of the list.
pub proof fn parts_go_under_every_parent(
    sel: Seq<char>,
    parents: Seq<Seq<char>>,
)
    requires
        parents.len() > 0,
        forall|k: int|
            0 <= k < kept_parts(comma_parts(sel)).len() ==> refers_once(
                #[trigger] kept_parts(comma_parts(sel))[k],
            ),
        forall|k: int, p: int|
            0 <= k < kept_parts(comma_parts(sel)).len() && 0 <= p < parents.len()
                ==> compound_parent_fault(
                #[trigger] kept_parts(comma_parts(sel))[k],
                #[trigger] parents[p],
            ) is None,
    ensures
        ({
            let parts = kept_parts(comma_parts(sel));
            substituted(sel, parents, true) == Ok::<Seq<Seq<char>>, Seq<char>>(
                under_all(parts, parents),
            )
        }),
{
    let parts = kept_parts(comma_parts(sel));
    assert(parents.take(0) =~= Seq::empty());
    assert(under_all(parts, parents.take(0)) + under_row(parts, parents[0]).take(0)
        =~= Seq::<Seq<char>>::empty());
    lemma_all_rounds(parts, parents, 0, 0);
}

/// The parts under one parent.
pub open spec fn under_row(parts: Seq<Seq<char>>, parent: Seq<char>) -> Seq<Seq<char>> {
    Seq::new(parts.len(), |k: int| under_one(parts[k], parent, true))
}

/// The parts under each parent in turn.
pub open spec fn under_all(parts: Seq<Seq<char>>, parents: Seq<Seq<char>>) -> Seq<Seq<char>>
    decreases parents.len(),
{
    if parents.len() == 0 {
        Seq::empty()
    } else {
        under_all(parts, parents.drop_last()) + under_row(parts, parents.last())
    }
}

proof fn lemma_no_pseudo_at_top(
    part: Seq<char>,
    parents: Seq<Seq<char>>,
    i: int,
    depth: int,
    out: Seq<char>,
    found: bool,
)
    requires
        only_top_refs(part),
        0 <= i <= part.len(),
        !found,
        depth == surplus(part.take(i), '(', ')'),
    ensures
        list_substituted(part, parents, i, depth, out, found) is None,
    decreases part.len() - i,
{
    if i < part.len() && part[i] != '&' {
        let d = if part[i] == '(' {
            depth + 1
        } else if part[i] == ')' {
            depth - 1
        } else {
            depth
        };
        assert(part.take(i + 1).drop_last() =~= part.take(i));
        lemma_no_pseudo_at_top(part, parents, i + 1, d, out.push(part[i]), found);
    }
}

proof fn lemma_implicit_once(part: Seq<char>, parents: Seq<Seq<char>>, p: int)
    requires
        0 <= p < parents.len(),
        refers_once(part),
        compound_parent_fault(part, parents[p]) is None,
        pseudo_refs(part, parents) is None,
    ensures
        implicit_texts(part, parents, p) == Ok::<Seq<Seq<char>>, Seq<char>>(
            seq![under_one(part, parents[p], true)],
        ),
{
    several_references_multiply(part, parents);
    assert(parents[p].push(' ') + part =~= parents[p] + seq![' '] + part);
}

proof fn lemma_all_rounds(parts: Seq<Seq<char>>, parents: Seq<Seq<char>>, p: int, k: int)
    requires
        0 <= p <= parents.len(),
        0 <= k <= parts.len(),
        p == parents.len() ==> k == 0,
        forall|j: int| 0 <= j < parts.len() ==> refers_once(#[trigger] parts[j]),
        forall|j: int, q: int|
            0 <= j < parts.len() && 0 <= q < parents.len() ==> compound_parent_fault(
                #[trigger] parts[j],
                #[trigger] parents[q],
            ) is None,
    ensures
        implicit_rounds(
            parts,
            parents,
            p,
            k,
            under_all(parts, parents.take(p)) + (if p < parents.len() {
                under_row(parts, parents[p]).take(k)
            } else {
                Seq::empty()
            }),
        ) == Ok::<Seq<Seq<char>>, Seq<char>>(under_all(parts, parents)),
    decreases parents.len() - p, parts.len() - k,
{
    let done = under_all(parts, parents.take(p));
    if p == parents.len() {
        assert(parents.take(p) =~= parents);
        assert(done + Seq::<Seq<char>>::empty() =~= done);
    } else {
        let row = under_row(parts, parents[p]);
        if k < parts.len() {
            assert(parts[k].take(0) =~= Seq::empty());
            lemma_no_pseudo_at_top(parts[k], parents, 0, 0, Seq::empty(), false);
            lemma_implicit_once(parts[k], parents, p);
            assert(done + row.take(k) + seq![under_one(parts[k], parents[p], true)] =~= done + row.take(
                k + 1,
            ));
            lemma_all_rounds(parts, parents, p, k + 1);
        } else {
            assert(row.take(k) =~= row);
            assert(parents.take(p + 1).drop_last() =~= parents.take(p));
            assert(parents.take(p + 1).last() == parents[p]);
            let next = under_all(parts, parents.take(p + 1));
            assert(next == done + row);
            if p + 1 < parents.len() {
                assert(next + under_row(parts, parents[p + 1]).take(0) =~= next);
            } else {
                assert(next + Seq::<Seq<char>>::empty() =~= next);
            }
            lemma_all_rounds(parts, parents, p + 1, 0);
        }
    }
}

/// Where a part without `&` stays at the root, a list gives what its parts give one after the other:
/// that of two lists of parts together is that of the first, and then that of the second.
pub proof fn explicit_parts_follow_each_other(
    first: Seq<Seq<char>>,
    second: Seq<Seq<char>>,
    parents: Seq<Seq<char>>,
    k: int,
    out: Seq<Seq<char>>,
)
    requires
        0 <= k <= first.len(),
    ensures
        explicit_round(first + second, parents, k, out) == match explicit_round(first, parents, k, out) {
            Err(m) => Err::<Seq<Seq<char>>, Seq<char>>(m),
            Ok(l) => explicit_round(first + second, parents, first.len() as int, l),
        },
    decreases first.len() - k,
{
    if k < first.len() {
        assert((first + second)[k] == first[k]);
        match explicit_texts(first[k], parents) {
            Ok(l) => {
                explicit_parts_follow_each_other(first, second, parents, k + 1, out + l);
            },
            Err(_) => {},
        }
    }
}

/// Where a part without `&` stays at the root, a part that names the parent outside brackets alone
/// gives a selector for every way to put parents in its place, and one without `&` gives itself.
pub proof fn explicit_part_goes_under_every_parent(part: Seq<char>, parents: Seq<Seq<char>>)
    requires
        parents.len() > 0,
        only_top_refs(part),
        parents_fault(part, parents, 0) is None,
    ensures
        explicit_texts(part, parents) == Ok::<Seq<Seq<char>>, Seq<char>>(
            if part.contains('&') {
                Seq::new(
                    times(parents.len(), top_refs(part)),
                    |n: int| woven(part, parents, n),
                )
            } else {
                seq![part]
            },
        ),
{
    assert(part.take(0) =~= Seq::empty());
    lemma_no_pseudo_at_top(part, parents, 0, 0, Seq::empty(), false);
    several_references_multiply(part, parents);
    if part.contains('&') {
        let all = Seq::new(
            times(parents.len(), top_refs(part)),
            |n: int| woven(part, parents, n),
        );
        if top_refs(part) == 0 {
            lemma_no_top_ref(part);
        } else if top_refs(part) == 1 {
            assert(times(parents.len(), 1) == parents.len()) by {
                reveal_with_fuel(times, 2);
                assert(1 * parents.len() == parents.len()) by (nonlinear_arith);
            }
            assert forall|n: int| 0 <= n < parents.len() implies each_parent(part, parents)[n]
                == all[n] by {
                one_parent_is_put_in_place(part, parents, n);
            }
            assert(each_parent(part, parents) =~= all);
        } else {
            assert(cartesian(ref_segments(part), parents) =~= all);
        }
    }
}

/// A part that names the parent several times outside brackets gives all its selectors in the round of
/// the first parent, and none in the others.
pub proof fn several_references_are_resolved_once(part: Seq<char>, parents: Seq<Seq<char>>, p: int)
    requires
        0 <= p < parents.len(),
        only_top_refs(part),
        top_refs(part) >= 2,
        parents_fault(part, parents, 0) is None,
    ensures
        implicit_texts(part, parents, p) == Ok::<Seq<Seq<char>>, Seq<char>>(
            if p == 0 {
                Seq::new(
                    times(parents.len(), top_refs(part)),
                    |n: int| woven(part, parents, n),
                )
            } else {
                Seq::empty()
            },
        ),
{
    assert(part.take(0) =~= Seq::empty());
    lemma_no_pseudo_at_top(part, parents, 0, 0, Seq::empty(), false);
    several_references_multiply(part, parents);
    let all = Seq::new(
        times(parents.len(), top_refs(part)),
        |n: int| woven(part, parents, n),
    );
    assert(cartesian(ref_segments(part), parents) =~= all);
}

/// A character that continues a name.
pub open spec fn name_char(c: char) -> bool {
    any_alnum(c) || c == '-' || c == '_'
}

/// A `&` inside the parentheses of a pseudo selector stands for the whole parent list: each parent
/// with the name suffix of the `&` after it, separated by commas, in place of the `&`; and the part
/// gives that one selector.
pub proof fn pseudo_reference_takes_the_whole_list(
    before: Seq<char>,
    suffix: Seq<char>,
    after: Seq<char>,
    parents: Seq<Seq<char>>,
)
    requires
        !before.contains('&'),
        !after.contains('&'),
        surplus(before, '(', ')') != 0,
        forall|i: int| 0 <= i < suffix.len() ==> name_char(#[trigger] suffix[i]),
        after.len() > 0 ==> !name_char(after[0]) && !bars_list(Some(after[0])),
    ensures
        pseudo_refs(before + seq!['&'] + suffix + after, parents) == Some(
            before + joined(Seq::new(parents.len(), |i: int| parents[i] + suffix), ", "@) + after,
        ),
{
    let part = before + seq!['&'] + suffix + after;
    assert(part.take(0) =~= Seq::empty());
    assert(before.take(0) =~= Seq::empty());
    assert(part.take(before.len() as int) =~= before);
    lemma_walk_before(part, before, parents, 0, 0, false, Seq::empty());
    let b = before.len() as int;
    let d = surplus(before, '(', ')');
    assert(part[b] == '&');
    lemma_suffix_stops(part, b + 1, b + 1 + suffix.len());
    let j = b + 1 + suffix.len();
    assert(part.subrange(b + 1, j) =~= suffix);
    let list = joined(suffixed(parents, suffix), ", "@);
    assert(suffixed(parents, suffix) =~= Seq::new(parents.len(), |i: int| parents[i] + suffix));
    assert(part.skip(j) =~= after);
    lemma_walk_after(part, parents, j, d, before + list);
    assert(before + list + part.skip(j) =~= before + list + after);
}

proof fn lemma_walk_before(
    part: Seq<char>,
    before: Seq<char>,
    parents: Seq<Seq<char>>,
    i: int,
    depth: int,
    found: bool,
    out: Seq<char>,
)
    requires
        0 <= i <= before.len() <= part.len(),
        before == part.take(before.len() as int),
        !before.contains('&'),
        out == before.take(i),
        depth == surplus(before.take(i), '(', ')'),
    ensures
        list_substituted(part, parents, i, depth, out, found) == list_substituted(
            part,
            parents,
            before.len() as int,
            surplus(before, '(', ')'),
            before,
            found,
        ),
    decreases before.len() - i,
{
    if i < before.len() {
        assert(part[i] == before[i]);
        assert(before[i] != '&');
        assert(before.take(i + 1).drop_last() =~= before.take(i));
        assert(before.take(i + 1) =~= out.push(part[i]));
        let d = if part[i] == '(' {
            depth + 1
        } else if part[i] == ')' {
            depth - 1
        } else {
            depth
        };
        lemma_walk_before(part, before, parents, i + 1, d, found, out.push(part[i]));
    } else {
        assert(before.take(i) =~= before);
    }
}

proof fn lemma_walk_after(part: Seq<char>, parents: Seq<Seq<char>>, i: int, depth: int, out: Seq<char>)
    requires
        0 <= i <= part.len(),
        !part.skip(i).contains('&'),
    ensures
        list_substituted(part, parents, i, depth, out, true) == Some(out + part.skip(i)),
    decreases part.len() - i,
{
    if i < part.len() {
        assert(part.skip(i)[0] == part[i]);
        assert(part[i] != '&');
        let d = if part[i] == '(' {
            depth + 1
        } else if part[i] == ')' {
            depth - 1
        } else {
            depth
        };
        assert(!part.skip(i + 1).contains('&')) by {
            if part.skip(i + 1).contains('&') {
                let rest = part.skip(i + 1);
                let k = choose|k: int| 0 <= k < rest.len() && rest[k] == '&';
                assert(part.skip(i)[k + 1] == '&');
            }
        }
        lemma_walk_after(part, parents, i + 1, d, out.push(part[i]));
        assert(out.push(part[i]) + part.skip(i + 1) =~= out + part.skip(i));
    } else {
        assert(out + part.skip(i) =~= out);
    }
}

proof fn lemma_suffix_stops(s: Seq<char>, i: int, j: int)
    requires
        0 <= i <= j <= s.len(),
        forall|k: int| i <= k < j ==> name_char(#[trigger] s[k]),
        j < s.len() ==> !name_char(s[j]),
    ensures
        suffix_end(s, i) == j,
    decreases j - i,
{
    if i < j {
        assert(name_char(s[i]));
        lemma_suffix_stops(s, i + 1, j);
    }
}

} // verus!
