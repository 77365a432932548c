//! What the rules of a stylesheet come to, from their text to their output.

use vstd::prelude::*;
use crate::ast::{CustomDecl, MediaQueryList, PropertySet, Rule, Stmt, SupportsCondition, TplPiece};
use crate::at_root::Layer;
use crate::compile::{Next, compilation, source_output};
use crate::decls::custom_declared;
use crate::error::fault_at;
use crate::eval::{Ev, asked_flag, styled_css};
use crate::extends::{Exts, any_holds, media_respected, root_holds};
use crate::host::{Answer, Halt, Task, ask_names};
use crate::media::{Query, all_rendered, merged_lists};
use crate::names::{css_import, keyframes_name};
use crate::nesting::{all_normalized, substituted};
use crate::options::Syntax;
use crate::out::{Item, Mark, Node, SrcLines, no_lines};
use crate::output_laws::{around, nothing_left, whole_body_stays_together};
use crate::plain::filled_parts;
use crate::queries::{resolved_queries, supports_text, trimmed_template, whole_template};
use crate::rules::{asked_spellings, emitted, rule_breaks, rule_entered, rule_selectors};
use crate::scan::{comma_parts, is_combinator};
use crate::selector_text::{
    Spellings, assembled, collapse, collapsed, name_end, normalized, spaces_end, trimmed_result,
};
use crate::semantics::eval;
use crate::sink::{
    Drain, flushed, with_at_rule, with_at_rules, with_childless, with_item, with_style_rule,
};
use crate::sources::builtin_url;
use crate::statements::{
    any_decl, at_body, at_rule, batches_taken, drain_nodes, media_block, media_closed, media_entered,
    media_left, media_rule, run_block, set_value, style_rule, supports_rule, with_layer,
};
use crate::text::{ends, is_ws, joined, lower, starts};
use crate::tree::block;
use crate::value::Val;

verus! {

// ---- style rules ---------------------------------------------------------

/// The selectors of a rule are those that its text stands for under the selectors around it, in
/// canonical spelling; within `@at-root` they are not put under them of themselves.
pub proof fn rule_has_the_selectors_of_its_text(
    s: Ev,
    ans: Seq<Answer>,
    text: Seq<char>,
    parents: Seq<Seq<char>>,
) -> (sp: Spellings)
    requires
        rule_selectors(s, ans, text, parents).0 is Ok,
        !s.page.keyframes,
    ensures
        substituted(text, parents, !s.page.at_root) is Ok,
        rule_selectors(s, ans, text, parents).0->Ok_0 == all_normalized(
            sp,
            substituted(text, parents, !s.page.at_root)->Ok_0,
        ),
        asked_spellings(
            s,
            ans,
            ask_names(Task::Spellings, substituted(text, parents, !s.page.at_root)->Ok_0),
        ).0 == Ok::<Spellings, Halt>(sp),
{
    reveal(rule_selectors);
    let l = substituted(text, parents, !s.page.at_root)->Ok_0;
    asked_spellings(s, ans, ask_names(Task::Spellings, l)).0->Ok_0
}

/// The selectors of a keyframe block are taken as they stand, and put under nothing.
pub proof fn keyframe_selectors_stay(s: Ev, ans: Seq<Answer>, text: Seq<char>, parents: Seq<Seq<char>>)
    requires
        rule_selectors(s, ans, text, parents).0 is Ok,
        s.page.keyframes,
    ensures
        rule_selectors(s, ans, text, parents).0->Ok_0 == filled_parts(comma_parts(text)),
        rule_selectors(s, ans, text, parents).1 == s,
{
    reveal(rule_selectors);
}

/// The body of a rule is run in a scope of its own, under the rule's selectors, which `&` stands for
/// there; what it leaves is put behind what is already written.
pub proof fn rule_runs_its_body_under_its_selectors(
    s: Ev,
    ans: Seq<Answer>,
    r: Rule,
    parents: Seq<Seq<char>>,
    d: Drain,
    fuel: nat,
) -> (at: (Ev, Drain))
    requires
        style_rule(s, ans, r, parents, d, fuel).0 is Ok,
    ensures
        ({
            let t = whole_template(s, ans, r.selector@, fuel);
            let current = rule_selectors(t.1, ans, t.0->Ok_0, parents);
            let x = run_block(at.0, ans, r.body@, current.0->Ok_0, at.1, fuel);
            &&& t.0 is Ok
            &&& current.0 is Ok
            &&& x.0 is Ok
            &&& at.0.selector == Some(current.0->Ok_0)
            &&& at.0.chain.scopes.len() == current.1.chain.scopes.len() + 1
            &&& !at.0.page.at_root
            &&& at.1 is Rule
            &&& at.1->selectors == emitted(
                current.1,
                current.0->Ok_0,
                rule_breaks(current.1, t.0->Ok_0, parents, current.0->Ok_0.len()),
                0,
                Seq::empty(),
                Seq::empty(),
            ).selectors
            &&& style_rule(s, ans, r, parents, d, fuel).0 == Ok::<Drain, Halt>(
                with_style_rule(d, drain_nodes(flushed(x.0->Ok_0))),
            )
        }),
{
    reveal(rule_entered);
    reveal(crate::decls::stamped);
    let t = whole_template(s, ans, r.selector@, fuel);
    let c = rule_selectors(t.1, ans, t.0->Ok_0, parents);
    let current = c.0->Ok_0;
    let lbs = rule_breaks(c.1, t.0->Ok_0, parents, current.len());
    let e = emitted(c.1, current, lbs, 0, Seq::empty(), Seq::empty());
    lemma_emitted_keeps(c.1, current, lbs, 0, Seq::empty(), Seq::empty());
    let (lines, s3) = crate::decls::stamped(
        rule_entered(e.s, current, lbs),
        crate::decls::block_lines(r.lines.start, r.lines.end),
    );
    (s3, crate::statements::rule_drain(e.selectors, e.breaks, lines))
}

proof fn lemma_emitted_keeps(
    s: Ev,
    current: Seq<Seq<char>>,
    lbs: Seq<bool>,
    i: int,
    selectors: Seq<Seq<char>>,
    breaks: Seq<bool>,
)
    ensures
        emitted(s, current, lbs, i, selectors, breaks).s.chain == s.chain,
    decreases current.len() - i,
{
    if 0 <= i < current.len() {
        let c = current[i];
        let b = Ev { page: crate::page::Leaf { bogus: s.page.bogus.push(c), ..s.page }, ..s };
        let s1 = if c.contains('%') {
            Ev {
                page: crate::page::Leaf {
                    placeholders: s.page.placeholders.push((s.page.module, c)),
                    ..s.page
                },
                ..s
            }
        } else {
            s
        };
        let sel = if s.page.keyframes {
            crate::names::keyframe_selector(c)
        } else {
            c
        };
        let b1 = if lbs.len() > 0 {
            breaks.push(crate::rules::flag_at(lbs, i))
        } else {
            breaks
        };
        lemma_emitted_keeps(b, current, lbs, i + 1, selectors, breaks);
        lemma_emitted_keeps(s1, current, lbs, i + 1, selectors.push(sel), b1);
    }
}

// ---- at-rules ------------------------------------------------------------

/// An at-rule comes out with its name, its prelude and what its body comes to; without a body it comes
/// out without a block.
pub proof fn at_rule_keeps_its_name_and_prelude(
    s: Ev,
    ans: Seq<Answer>,
    name: Seq<char>,
    prelude: Seq<TplPiece>,
    body: Option<Vec<Stmt>>,
    lines: SrcLines,
    parents: Seq<Seq<char>>,
    d: Drain,
    fuel: nat,
)
    requires
        at_rule(s, ans, name, prelude, body, lines, parents, d, fuel).0 is Ok,
        name != "charset"@,
    ensures
        ({
            let p = whole_template(s, ans, prelude, fuel);
            let under = if name == "font-face"@ || p.1.page.at_root {
                Seq::empty()
            } else {
                parents
            };
            let r = at_rule(s, ans, name, prelude, body, lines, parents, d, fuel);
            &&& p.0 is Ok
            &&& body is None ==> r.0->Ok_0 == with_childless(d, name, p.0->Ok_0, lines)
            &&& body is Some ==> r.0->Ok_0 == with_at_rule(
                d,
                block(name, p.0->Ok_0, at_body(p.1, ans, body->0@, under, fuel).0->Ok_0, lines),
            )
        }),
{
}

/// A `@media` rule within none has its own queries; within another it has the queries that mean both,
/// where they can be written, and leaves the outer one; where no device meets both nothing is left; and
/// where both cannot be written as one it stays within the outer one with its own.
pub proof fn nested_media_means_both(
    s: Ev,
    ans: Seq<Answer>,
    query: MediaQueryList,
    body: Seq<Stmt>,
    lines: SrcLines,
    parents: Seq<Seq<char>>,
    d: Drain,
    fuel: nat,
)
    requires
        parents.len() > 0 || !any_decl(body),
        resolved_queries(s, ans, query, fuel).0 is Ok,
        !resolved_queries(s, ans, query, fuel).1.page.keyframes,
    ensures
        ({
            let q = resolved_queries(s, ans, query, fuel);
            let outer = q.1.page.media;
            let both = merged_lists(outer, q.0->Ok_0);
            let r = media_rule(s, ans, query, body, lines, parents, d, fuel);
            &&& outer.len() == 0 || both is None ==> r == media_block(
                q.1,
                ans,
                q.0->Ok_0,
                false,
                body,
                lines,
                parents,
                d,
                fuel,
            )
            &&& outer.len() > 0 && both is Some && both->0.len() == 0 ==> r == (Ok::<Drain, Halt>(d), q.1)
            &&& outer.len() > 0 && both is Some && both->0.len() > 0 ==> r == media_block(
                q.1,
                ans,
                both->0,
                true,
                body,
                lines,
                parents,
                d,
                fuel,
            )
        }),
{
}

/// A `@media` rule runs its body within its queries. One that stays comes out round what its body comes
/// to, with its queries between commas; one that leaves the rule around it marks its place there and
/// waits to be put beside it.
pub proof fn media_comes_out_with_its_queries(
    s: Ev,
    ans: Seq<Answer>,
    qs: Seq<Query>,
    bubbles: bool,
    body: Seq<Stmt>,
    lines: SrcLines,
    parents: Seq<Seq<char>>,
    d: Drain,
    fuel: nat,
) -> (inside: Ev)
    requires
        media_block(s, ans, qs, bubbles, body, lines, parents, d, fuel).0 is Ok,
    ensures
        ({
            let x = at_body(inside, ans, body, parents, fuel);
            let out = around(x.0->Ok_0, "media"@, joined(all_rendered(qs), ", "@), lines);
            let r = media_block(s, ans, qs, bubbles, body, lines, parents, d, fuel);
            &&& inside.page.media == qs
            &&& inside.chain == s.chain
            &&& x.0 is Ok
            &&& nothing_left(x.0->Ok_0) && out.len() == 0 ==> r.0->Ok_0 == d
            &&& nothing_left(x.0->Ok_0) && out.len() > 0 && !bubbles ==> r.0->Ok_0 == with_at_rules(d, out)
            &&& nothing_left(x.0->Ok_0) && out.len() > 0 && bubbles ==> r.0->Ok_0 == with_at_rule(
                d,
                Node::Mark(Mark::MediaHoist),
            ) && r.1.page.media_hoist == s.page.media_hoist.push(out)
            &&& r.1.page.media == s.page.media
        }),
{
    reveal(media_entered);
    reveal(media_left);
    reveal(media_closed);
    reveal(batches_taken);
    let prelude = joined(all_rendered(qs), ", "@);
    let inside = media_entered(s, qs, prelude);
    let x = at_body(inside, ans, body, parents, fuel);
    let s1 = media_left(x.1, s);
    let outermost = s.page.layers.len() == 0;
    if nothing_left(x.0->Ok_0) {
        whole_body_stays_together(
            x.0->Ok_0,
            "media"@,
            prelude,
            lines,
            true,
            outermost,
            x.1.page.media_hoist,
            s1.page.at_root_hoist,
        );
    }
    inside
}

/// A `@supports` rule comes out round what its body comes to, with its condition.
pub proof fn supports_comes_out_with_its_condition(
    s: Ev,
    ans: Seq<Answer>,
    condition: SupportsCondition,
    body: Seq<Stmt>,
    parents: Seq<Seq<char>>,
    d: Drain,
    fuel: nat,
)
    requires
        supports_rule(s, ans, condition, body, parents, d, fuel).0 is Ok,
    ensures
        ({
            let t = supports_text(s, ans, condition, fuel);
            let inside = with_layer(t.1, Layer::Supports(t.0->Ok_0));
            let x = at_body(inside, ans, body, parents, fuel);
            let out = around(x.0->Ok_0, "supports"@, t.0->Ok_0, no_lines());
            &&& t.0 is Ok
            &&& x.0 is Ok
            &&& nothing_left(x.0->Ok_0) ==> supports_rule(s, ans, condition, body, parents, d, fuel).0
                == Ok::<Drain, Halt>(with_at_rules(d, out))
        }),
{
    let t = supports_text(s, ans, condition, fuel);
    let inside = with_layer(t.1, Layer::Supports(t.0->Ok_0));
    let x = at_body(inside, ans, body, parents, fuel);
    if nothing_left(x.0->Ok_0) {
        whole_body_stays_together(
            x.0->Ok_0,
            "supports"@,
            t.0->Ok_0,
            no_lines(),
            false,
            t.1.page.layers.len() == 0,
            Seq::empty(),
            crate::statements::without_layer(x.1).page.at_root_hoist,
        );
    }
}

/// A custom property keeps its name and the text of its value as they are written.
pub proof fn custom_properties_are_kept(s: Ev, ans: Seq<Answer>, x: CustomDecl, fuel: nat)
    requires
        custom_declared(s, ans, x, fuel).0 is Ok,
    ensures
        ({
            let p = trimmed_template(s, ans, x.property@, fuel);
            let v = whole_template(p.1, ans, x.value@, fuel);
            let i = custom_declared(s, ans, x, fuel).0->Ok_0;
            &&& p.0 is Ok && v.0 is Ok
            &&& i is Decl
            &&& i->Decl_prop == p.0->Ok_0
            &&& i->Decl_value == v.0->Ok_0
            &&& i->Decl_custom
        }),
{
    reveal(custom_declared);
}

/// The value of a property set is declared under the set's own name, before what stands in it; a set
/// without a value, or with `null`, declares nothing of its own.
pub proof fn property_set_has_its_own_value(
    s: Ev,
    ans: Seq<Answer>,
    x: PropertySet,
    full: Seq<char>,
    d: Drain,
    fuel: nat,
)
    requires
        set_value(s, ans, x, full, d, fuel).0 is Ok,
    ensures
        x.value is None ==> set_value(s, ans, x, full, d, fuel) == (Ok::<Drain, Halt>(d), s),
        x.value is Some ==> ({
            let v = eval(s, ans, x.value->0, fuel);
            let t = styled_css(v.1, ans, v.0->Ok_0);
            &&& v.0 is Ok
            &&& v.0->Ok_0 == Val::Null ==> set_value(s, ans, x, full, d, fuel).0->Ok_0 == d
            &&& v.0->Ok_0 != Val::Null ==> t.0 is Ok && set_value(s, ans, x, full, d, fuel).0->Ok_0
                == with_item(
                d,
                Item::Decl {
                    prop: full,
                    value: t.0->Ok_0,
                    important: x.important,
                    custom: false,
                    lines: no_lines(),
                },
            )
        }),
{
    reveal(set_value);
}

// ---- extensions ----------------------------------------------------------

/// An `@extend` within `@media` that would reach a rule outside of it is an error.
pub proof fn extension_in_media_stays_inside(s: Ev, ans: Seq<Answer>, x: Exts, i: int, list: Seq<Node>)
    requires
        0 <= i < x.list.len(),
    ensures
        !x.list[i].in_media ==> media_respected(s, ans, x, i, list) == media_respected(
            s,
            ans,
            x,
            i + 1,
            list,
        ),
        x.list[i].in_media && root_holds(s, ans, list, 0, x.list[i].target).0 == Ok::<bool, Halt>(true)
            ==> media_respected(s, ans, x, i, list).0 == Err::<(), Halt>(
            Halt::Error(
                fault_at("You may not @extend selectors across media queries."@, x.list[i].pos),
            ),
        ),
{
    reveal_with_fuel(media_respected, 2);
}

/// A target is held by a list of selectors where one of them holds it.
pub proof fn target_is_held_by_one(s: Ev, ans: Seq<Answer>, list: Seq<Seq<char>>, i: int, target: Seq<char>)
    requires
        0 <= i < list.len(),
        asked_flag(s, ans, ask_names(Task::HoldsSimple, seq![list[i], target])).0 is Ok,
    ensures
        ({
            let one = asked_flag(s, ans, ask_names(Task::HoldsSimple, seq![list[i], target]));
            &&& one.0->Ok_0 ==> any_holds(s, ans, list, i, target) == (Ok::<bool, Halt>(true), one.1)
            &&& !one.0->Ok_0 ==> any_holds(s, ans, list, i, target) == any_holds(
                one.1,
                ans,
                list,
                i + 1,
                target,
            )
        }),
        any_holds(s, ans, list, list.len() as int, target) == (Ok::<bool, Halt>(false), s),
{
    reveal_with_fuel(any_holds, 2);
}

// ---- names ---------------------------------------------------------------

/// A URL is that of a built-in module where it begins with `sass:`, and names what follows.
pub proof fn built_in_modules_are_named_by_their_url(name: Seq<char>)
    ensures
        builtin_url("sass:"@ + name) == Some(name),
        !starts(name, "sass:"@) ==> builtin_url(name) is None,
{
    let p = "sass:"@;
    assert((p + name).take(p.len() as int) =~= p);
    assert((p + name).skip(p.len() as int) =~= name);
}

/// An import is left to CSS where its URL ends in `.css` or names a host, and in no other case.
pub proof fn css_imports_are_told_by_their_url(x: Seq<char>)
    ensures
        css_import(x + ".css"@),
        css_import("http://"@ + x),
        css_import("https://"@ + x),
        css_import("//"@ + x),
        (x.len() > 0 && !x.contains('.') && !x.contains(':') && x[0] != '/') ==> !css_import(x),
{
    reveal_strlit(".css");
    reveal_strlit("http://");
    reveal_strlit("https://");
    reveal_strlit("//");
    let a = x + ".css"@;
    assert(a.skip(a.len() - 4) =~= ".css"@);
    assert(("http://"@ + x).take(7) =~= "http://"@);
    assert(("https://"@ + x).take(8) =~= "https://"@);
    assert(("//"@ + x).take(2) =~= "//"@);
    if x.len() > 0 && !x.contains('.') && !x.contains(':') && x[0] != '/' && css_import(x) {
        if ends(x, ".css"@) {
            assert(x.skip(x.len() - 4)[0] == '.');
            assert(x.contains(x[x.len() - 4]));
        } else if starts(x, "http://"@) {
            assert(x.take(7)[4] == ':');
            assert(x.contains(x[4]));
        } else if starts(x, "https://"@) {
            assert(x.take(8)[5] == ':');
            assert(x.contains(x[5]));
        } else {
            assert(x.take(2)[0] == '/');
        }
    }
}

/// An at-rule is one of keyframes in any case, and behind any vendor's prefix.
pub proof fn keyframes_are_told_by_their_name(prefix: Seq<char>)
    ensures
        keyframes_name("keyframes"@),
        keyframes_name(prefix + "-keyframes"@),
{
    reveal_strlit("keyframes");
    reveal_strlit("-keyframes");
    assert(lower("keyframes"@) =~= "keyframes"@);
    let a = lower(prefix + "-keyframes"@);
    assert(a.skip(a.len() - 10) =~= "-keyframes"@);
}

// ---- spelling ------------------------------------------------------------

/// Whether a text is a name that begins with a letter.
pub open spec fn simple_name(s: Seq<char>) -> bool {
    &&& s.len() > 0
    &&& crate::text::is_alpha(s[0])
    &&& forall|k: int| 0 <= k < s.len() ==> crate::text::is_alnum(#[trigger] s[k])
}

proof fn lemma_collapse(s: Seq<char>, i: int, out: Seq<char>)
    requires
        0 <= i <= s.len(),
        out.len() == 0 || out.last() != ' ',
        forall|k: int| 0 <= k < s.len() ==> !is_ws(#[trigger] s[k]) && s[k] != '\\',
    ensures
        collapse(s, i, out, i == 0) == out + s.skip(i),
        collapse(s, i, out, false) == out + s.skip(i),
    decreases s.len() - i,
{
    if i < s.len() {
        assert(!is_ws(s[i]) && s[i] != '\\');
        lemma_collapse(s, i + 1, out.push(s[i]));
        assert(out.push(s[i]) + s.skip(i + 1) =~= out + s.skip(i));
    } else {
        assert(out + s.skip(i) =~= out);
    }
}

proof fn lemma_name_run(s: Seq<char>, i: int, to: int)
    requires
        0 <= i <= to <= s.len(),
        forall|k: int| i <= k < to ==> crate::text::is_alnum(#[trigger] s[k]),
        to == s.len() || is_combinator(s[to]),
    ensures
        name_end(s, i) == to,
    decreases to - i,
{
    if i < to {
        assert(crate::text::is_alnum(s[i]));
        lemma_name_run(s, i + 1, to);
    }
}

/// A combinator between two names is written with a space on either side, however it is written.
pub proof fn combinators_get_spaces(sp: Spellings, a: Seq<char>, c: char, b: Seq<char>)
    requires
        simple_name(a),
        simple_name(b),
        is_combinator(c),
    ensures
        normalized(sp, a + seq![c] + b) == a + seq![' ', c, ' '] + b,
{
    let s = a + seq![c] + b;
    let n = a.len() as int;
    assert(s[n] == c);
    assert(!crate::selector_text::canonical_plain(s)) by {
        assert(!crate::selector_text::plain_char(s[n]) && s[n] != ' ');
    }
    assert forall|k: int| 0 <= k < s.len() implies !is_ws(#[trigger] s[k]) && s[k] != '\\' by {
        if k < n {
            assert(s[k] == a[k]);
            assert(crate::text::is_alnum(a[k]));
        } else if k > n {
            assert(s[k] == b[k - n - 1]);
            assert(crate::text::is_alnum(b[k - n - 1]));
        }
    }
    lemma_collapse(s, 0, Seq::empty());
    assert(Seq::<char>::empty() + s.skip(0) =~= s);
    assert(collapsed(s) == s);
    assert forall|k: int| 0 <= k < n implies crate::text::is_alnum(#[trigger] s[k]) by {
        assert(s[k] == a[k]);
    }
    assert forall|k: int| n + 1 <= k < s.len() implies crate::text::is_alnum(#[trigger] s[k]) by {
        assert(s[k] == b[k - n - 1]);
    }
    lemma_name_run(s, 0, n);
    lemma_name_run(s, n + 1, s.len() as int);
    assert(s.subrange(0, n) =~= a);
    assert(s.subrange(n + 1, s.len() as int) =~= b);
    lemma_no_backslash(a);
    lemma_no_backslash(b);
    assert(s[0] == a[0]);
    assert(s[n + 1] == b[0]);
    let none = Seq::<char>::empty();
    assert(none + a =~= a);
    assert(assembled(sp, s, 0, none, false) == assembled(sp, s, n, a, true));
    assert(spaces_end(s, n + 1) == n + 1);
    assert(crate::text::is_alnum(a[n - 1]));
    assert(crate::text::without_trailing_spaces(a) == a);
    let mid = a.push(' ').push(c).push(' ');
    assert(assembled(sp, s, n, a, true) == assembled(sp, s, n + 1, mid, false));
    let out = mid + b;
    assert(assembled(sp, s, n + 1, mid, false) == assembled(sp, s, s.len() as int, out, true));
    assert(assembled(sp, s, s.len() as int, out, true) == out);
    assert(out[0] == a[0]);
    assert(out.last() == b[b.len() - 1]);
    assert(crate::text::is_alnum(b[b.len() - 1]));
    assert(trimmed_result(out) == out);
    assert(out =~= a + seq![' ', c, ' '] + b);
}

proof fn lemma_no_backslash(a: Seq<char>)
    requires
        simple_name(a),
    ensures
        !a.contains('\\'),
{
    if a.contains('\\') {
        let k = choose|k: int| 0 <= k < a.len() && a[k] == '\\';
        assert(crate::text::is_alnum(a[k]));
    }
}

// ---- the whole -----------------------------------------------------------

/// A compilation is done with the text that is given for its output, and has the output written before
/// that; what is wrong with the source is its failure.
pub proof fn compilation_ends_with_its_text(
    source: Seq<char>,
    syntax: Syntax,
    url: Option<Seq<char>>,
    compressed: bool,
    ans: Seq<Answer>,
)
    ensures
        ({
            let r = source_output(source, syntax, url, compressed, ans);
            let c = compilation(source, syntax, url, compressed, ans);
            &&& r.0 is Ok && r.1.asked == ans.len() ==> c.0 == Next::Write(r.0->Ok_0)
            &&& r.0 is Ok && r.1.asked < ans.len() && ans[r.1.asked as int] is Text ==> c.0 == Next::Done(
                ans[r.1.asked as int]->Text_0@,
            )
            &&& r.0 is Err && r.0->Err_0 is Error ==> c.0 == Next::Failed(r.0->Err_0->Error_0)
            &&& c.1 == r.1.report.log
        }),
{
}

} // verus!
