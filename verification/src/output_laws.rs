//! In what order, and under what, the output of rules comes out.

use vstd::prelude::*;
use crate::at_root::{
    Layer, RootQuery, kept_layers, layer_name, leaves, leaves_style_rules, parsed_root_query,
    query_name, query_names, rewrapped, stripped_end, stripped_start, words, wrapped, wrapped_all,
};
use crate::error::Pos;
use crate::eval::Ev;
use crate::host::{Answer, Halt, TargetClass, Task, ask_names};
use crate::out::{Item, Mark, Node, SrcLines, no_lines, with_group};
use crate::page::Pending;
use crate::rules::{asked_target, emitted, targets_extended};
use crate::sink::{
    Drain, flushed, is_source_link, with_at_rule, with_comment, with_item, with_style_rule,
};
use crate::statements::{drain_nodes, rule_drain};
use crate::text::{first_from, is_ws, lower, trimmed};
use crate::tree::{Split, block, descendants, split_body, split_from};

verus! {

// ---- groups --------------------------------------------------------------

/// Whether a node is about layout alone: a blank line, or a mark for one.
pub open spec fn is_layout(n: Node) -> bool {
    n == Node::Blank || n == Node::Mark(Mark::StyleGroupEnd) || n == Node::Mark(Mark::PackTight)
}

/// The nodes that say something, in their order.
pub open spec fn seen(s: Seq<Node>) -> Seq<Node>
    decreases s.len(),
{
    if s.len() == 0 {
        Seq::empty()
    } else if is_layout(s.last()) {
        seen(s.drop_last())
    } else {
        seen(s.drop_last()).push(s.last())
    }
}

proof fn lemma_seen(a: Seq<Node>, b: Seq<Node>)
    ensures
        seen(a + b) == seen(a) + seen(b),
    decreases b.len(),
{
    if b.len() == 0 {
        assert(a + b =~= a);
        assert(seen(a) + seen(b) =~= seen(a));
    } else {
        let c = b.drop_last();
        lemma_seen(a, c);
        assert((a + b).drop_last() =~= a + c);
        assert((a + b).last() == b.last());
        if !is_layout(b.last()) {
            assert((seen(a) + seen(c)).push(b.last()) =~= seen(a) + seen(c).push(b.last()));
        }
    }
}

/// A group comes after what is already written, and nothing of either is lost.
pub proof fn groups_follow_each_other(out: Seq<Node>, group: Seq<Node>)
    ensures
        seen(with_group(out, group)) == seen(out) + seen(group),
{
    lemma_seen(out, group);
    if group.len() == 0 {
        assert(seen(out) + seen(group) =~= seen(out));
    } else {
        let base = crate::out::unmarked(out);
        assert(seen(base) == seen(out));
        lemma_seen(base, group);
        lemma_seen(base.push(Node::Blank), group);
        assert(base.push(Node::Blank).drop_last() =~= base);
        assert(seen(base.push(Node::Blank)) == seen(base));
    }
}

/// The output of a style rule comes after what is already written at the top level, or in an
/// `@at-root`; within another rule it comes after the declarations that stand before it.
pub proof fn style_rules_follow_what_is_written(d: Drain, output: Seq<Node>)
    ensures
        d is Top ==> with_style_rule(d, output) is Top && seen(with_style_rule(d, output)->Top_0) == seen(
            d->Top_0,
        ) + seen(output),
        d is AtRoot ==> with_style_rule(d, output) == Drain::AtRoot(d->AtRoot_0 + output),
        d is Rule ==> drain_nodes(flushed(with_style_rule(d, output))) == drain_nodes(flushed(d)) + output,
{
    if d is Top {
        groups_follow_each_other(d->Top_0, output);
        let g = with_group(d->Top_0, output);
        assert(g.push(Node::Mark(Mark::StyleGroupEnd)).drop_last() =~= g);
    }
}

/// After a style rule at the top level, whatever follows stands behind a blank line.
pub proof fn blank_line_follows_a_style_rule(out: Seq<Node>, output: Seq<Node>, group: Seq<Node>)
    requires
        output.len() > 0,
        !(output.len() == 1 && output[0] == Node::Mark(Mark::PackTight)),
        group.len() > 0,
        !(group.len() == 1 && group[0] == Node::Mark(Mark::PackTight)),
    ensures
        ({
            let before = with_style_rule(Drain::Top(out), output)->Top_0;
            with_group(before, group) == with_group(out, output) + seq![Node::Blank] + group
        }),
{
    let g = with_group(out, output);
    let before = g.push(Node::Mark(Mark::StyleGroupEnd));
    assert(g.len() > 0);
    assert(before.drop_last() =~= g);
    assert(g.push(Node::Blank) + group =~= g + seq![Node::Blank] + group);
}

/// An at-rule that follows an at-rule, a comment or a plain line directly has no blank line before it.
pub proof fn at_rules_stand_close(out: Seq<Node>, n: Node)
    requires
        out.len() > 0,
        out.last() is AtRule || out.last() is Comment || out.last() is Raw,
        n is AtRule || n is Comment || n is Raw,
    ensures
        with_group(out, seq![n]) == out.push(n),
{
    assert(out + seq![n] =~= out.push(n));
}

// ---- rules ---------------------------------------------------------------

/// Where a list of items is put, one after the other.
pub open spec fn with_all(d: Drain, list: Seq<Item>) -> Drain
    decreases list.len(),
{
    if list.len() == 0 {
        d
    } else {
        with_item(with_all(d, list.drop_last()), list.last())
    }
}

/// The declarations of a rule come out as one rule, in the order they are written, under the rule's
/// selectors; a rule without any leaves nothing.
pub proof fn declarations_come_out_in_order(
    selectors: Seq<Seq<char>>,
    breaks: Seq<bool>,
    lines: SrcLines,
    list: Seq<Item>,
)
    requires
        selectors.len() > 0,
    ensures
        ({
            let out = drain_nodes(flushed(with_all(rule_drain(selectors, breaks, lines), list)));
            &&& list.len() == 0 ==> out.len() == 0
            &&& list.len() > 0 ==> out == seq![
                Node::Rule { selectors, linebreaks: breaks, items: list, lines },
            ]
        }),
{
    lemma_with_all(selectors, breaks, lines, list);
    let none = Seq::<Node>::empty();
    let n = Node::Rule { selectors, linebreaks: breaks, items: list, lines };
    assert(none.insert(0, n) =~= seq![n]);
}

proof fn lemma_with_all(selectors: Seq<Seq<char>>, breaks: Seq<bool>, lines: SrcLines, list: Seq<Item>)
    ensures
        with_all(rule_drain(selectors, breaks, lines), list) == (Drain::Rule {
            selectors,
            linebreaks: breaks,
            lines,
            items: list,
            nested: Seq::empty(),
        }),
    decreases list.len(),
{
    if list.len() > 0 {
        lemma_with_all(selectors, breaks, lines, list.drop_last());
        assert(list.drop_last().push(list.last()) =~= list);
    } else {
        assert(list =~= Seq::<Item>::empty());
    }
}

/// Declarations after a nested rule stand in a rule of their own behind it.
pub proof fn declarations_after_a_nested_rule_come_after_it(
    selectors: Seq<Seq<char>>,
    breaks: Seq<bool>,
    lines: SrcLines,
    first: Seq<Item>,
    output: Seq<Node>,
    i: Item,
)
    requires
        selectors.len() > 0,
        first.len() > 0,
        !output.contains(Node::Mark(Mark::MediaHoist)),
    ensures
        ({
            let d = with_all(rule_drain(selectors, breaks, lines), first);
            drain_nodes(flushed(with_item(with_style_rule(d, output), i))) == seq![
                Node::Rule { selectors, linebreaks: breaks, items: first, lines },
            ] + output + seq![
                Node::Rule { selectors, linebreaks: breaks, items: seq![i], lines },
            ]
        }),
{
    lemma_with_all(selectors, breaks, lines, first);
    declarations_come_out_in_order(selectors, breaks, lines, first);
    let a = seq![Node::Rule { selectors, linebreaks: breaks, items: first, lines }];
    let nested = a + output;
    let n = Node::Rule { selectors, linebreaks: breaks, items: seq![i], lines };
    assert(Seq::<Item>::empty().push(i) =~= seq![i]);
    assert forall|k: int| 0 <= k < nested.len() implies nested[k] != Node::Mark(Mark::MediaHoist) by {
        if k > 0 {
            assert(nested[k] == output[k - 1]);
            assert(output.contains(output[k - 1]));
        }
    }
    lemma_no_media_mark(nested, 0);
    assert(nested.insert(nested.len() as int, n) =~= a + output + seq![n]);
}

proof fn lemma_no_media_mark(s: Seq<Node>, i: int)
    requires
        0 <= i <= s.len(),
        forall|k: int| 0 <= k < s.len() ==> s[k] != Node::Mark(Mark::MediaHoist),
    ensures
        crate::sink::first_media_mark(s, i) == s.len(),
    decreases s.len() - i,
{
    if i < s.len() {
        lemma_no_media_mark(s, i + 1);
    }
}

/// An at-rule within a rule comes after the declarations that stand before it.
pub proof fn at_rules_follow_what_is_written(d: Drain, n: Node)
    requires
        !(n is Mark),
        !is_layout(n),
    ensures
        d is Top ==> with_at_rule(d, n) is Top && seen(with_at_rule(d, n)->Top_0) == seen(d->Top_0).push(n),
        d is AtRoot ==> with_at_rule(d, n) == Drain::AtRoot((d->AtRoot_0).push(n)),
        d is Rule ==> drain_nodes(flushed(with_at_rule(d, n))) == drain_nodes(flushed(d)).push(n),
{
    if d is Top {
        groups_follow_each_other(d->Top_0, seq![n]);
        assert(seq![n].drop_last() =~= Seq::empty());
        assert(seen(seq![n]) =~= seq![n]) by {
            assert(seen(Seq::<Node>::empty()) == Seq::<Node>::empty());
        }
        assert(seen(d->Top_0) + seq![n] =~= seen(d->Top_0).push(n));
    } else if d is Rule {
        let x = drain_nodes(flushed(d));
        assert(x + seq![n] =~= x.push(n));
    }
}

/// A comment is kept where it stands; one that links to a source map is not.
pub proof fn comments_are_kept(d: Drain, text: Seq<char>, lines: SrcLines)
    ensures
        is_source_link(text) ==> with_comment(d, text, lines) == d,
        !is_source_link(text) && d is Top ==> with_comment(d, text, lines) is Top && seen(
            with_comment(d, text, lines)->Top_0,
        ) == seen(d->Top_0).push(Node::Comment(text, lines)),
        !is_source_link(text) && d is AtRoot ==> with_comment(d, text, lines) == Drain::AtRoot(
            (d->AtRoot_0).push(Node::Comment(text, lines)),
        ),
        !is_source_link(text) && d is Rule ==> with_comment(d, text, lines) == with_item(
            d,
            Item::Comment(text, lines),
        ),
{
    if d is Top {
        at_rules_follow_what_is_written(d, Node::Comment(text, lines));
    }
}

/// The selectors that a rule is written with are all of its selectors that can be, in their order.
pub proof fn rule_is_written_with_its_selectors(
    s: Ev,
    current: Seq<Seq<char>>,
    lbs: Seq<bool>,
    i: int,
    selectors: Seq<Seq<char>>,
    breaks: Seq<bool>,
)
    requires
        0 <= i <= current.len(),
        !s.page.keyframes,
        forall|k: int| 0 <= k < current.len() ==> !crate::bogus::block_bogus(#[trigger] current[k]),
    ensures
        emitted(s, current, lbs, i, selectors, breaks).selectors == selectors + current.skip(i),
    decreases current.len() - i,
{
    if i < current.len() {
        let c = current[i];
        let s1 = if c.contains('%') {
            Ev {
                page: crate::page::Leaf {
                    placeholders: s.page.placeholders.push((s.page.module, c)),
                    ..s.page
                },
                ..s
            }
        } else {
            s
        };
        let b1 = if lbs.len() > 0 {
            breaks.push(crate::rules::flag_at(lbs, i))
        } else {
            breaks
        };
        rule_is_written_with_its_selectors(s1, current, lbs, i + 1, selectors.push(c), b1);
        assert(selectors.push(c) + current.skip(i + 1) =~= selectors + current.skip(i));
    } else {
        assert(selectors + current.skip(i) =~= selectors);
    }
}

/// Each selector of a module loaded into a rule stands under each of the rule's selectors.
pub proof fn loaded_selectors_stand_under_the_rule(
    parents: Seq<Seq<char>>,
    selectors: Seq<Seq<char>>,
    p: int,
    i: int,
)
    requires
        0 <= p < parents.len(),
        0 <= i < selectors.len(),
    ensures
        descendants(parents, selectors).len() == parents.len() * selectors.len(),
        0 <= p * selectors.len() + i < descendants(parents, selectors).len(),
        descendants(parents, selectors)[p * selectors.len() + i] == parents[p] + seq![' '] + selectors[i],
    decreases parents.len(),
{
    let n = selectors.len() as int;
    let less = parents.drop_last();
    lemma_descendants_len(parents, selectors);
    lemma_descendants_len(less, selectors);
    assert(less.len() * n + n == parents.len() * n) by (nonlinear_arith)
        requires
            less.len() + 1 == parents.len(),
    ;
    assert(p * n + i < parents.len() * n) by (nonlinear_arith)
        requires
            0 <= p < parents.len(),
            0 <= i < n,
    ;
    assert(0 <= p * n) by (nonlinear_arith)
        requires
            0 <= p,
            0 <= n,
    ;
    if p == parents.len() - 1 {
        assert(parents.last().push(' ') + selectors[i] =~= parents[p] + seq![' '] + selectors[i]);
    } else {
        loaded_selectors_stand_under_the_rule(less, selectors, p, i);
        assert(less[p] == parents[p]);
    }
}

proof fn lemma_descendants_len(parents: Seq<Seq<char>>, selectors: Seq<Seq<char>>)
    ensures
        descendants(parents, selectors).len() == parents.len() * selectors.len(),
    decreases parents.len(),
{
    if parents.len() > 0 {
        let less = parents.drop_last();
        lemma_descendants_len(less, selectors);
        assert(less.len() * selectors.len() + selectors.len() == parents.len() * selectors.len())
            by (nonlinear_arith)
            requires
                less.len() + 1 == parents.len(),
        ;
    } else {
        assert(0 * selectors.len() == 0);
    }
}

/// An `@extend` of a simple selector is remembered with the selectors of its rule, whether it may go
/// without a target, and the module it stands in.
pub proof fn extension_is_remembered(
    s: Ev,
    ans: Seq<Answer>,
    target: Seq<char>,
    extenders: Seq<Seq<char>>,
    optional: bool,
    pos: Pos,
)
    requires
        trimmed(target).len() > 0,
        asked_target(s, ans, ask_names(Task::ExtendTarget, seq![trimmed(target)])).0 == Ok::<
            TargetClass,
            Halt,
        >(TargetClass::Simple),
    ensures
        ({
            let r = targets_extended(s, ans, seq![target], 0, extenders, optional, pos);
            &&& r.0 is Ok
            &&& r.1.page.extends == s.page.extends.push(
                Pending {
                    target: trimmed(target),
                    extenders,
                    breaks: s.page.linebreaks,
                    optional,
                    in_media: s.page.media.len() > 0,
                    origin: s.page.module,
                    pos,
                },
            )
        }),
{
    reveal_with_fuel(targets_extended, 3);
}

// ---- what leaves at-rules ------------------------------------------------

/// Whether nothing in a body is marked as having left it.
pub open spec fn nothing_left(s: Seq<Node>) -> bool {
    forall|k: int|
        0 <= k < s.len() ==> #[trigger] s[k] != Node::Mark(Mark::MediaHoist) && s[k] != Node::Mark(
            Mark::AtRootHoist,
        )
}

/// An at-rule around a body; none around an empty one.
pub open spec fn around(body: Seq<Node>, name: Seq<char>, prelude: Seq<char>, lines: SrcLines) -> Seq<Node> {
    if body.len() == 0 {
        Seq::empty()
    } else {
        seq![block(name, prelude, body, lines)]
    }
}

proof fn lemma_split_plain(
    body: Seq<Node>,
    i: int,
    to: int,
    name: Seq<char>,
    prelude: Seq<char>,
    lines: SrcLines,
    merging: bool,
    outermost: bool,
    batches: Seq<Seq<Node>>,
    queue: Seq<Seq<Node>>,
    segment: Seq<Node>,
    done: Split,
)
    requires
        0 <= i <= to <= body.len(),
        nothing_left(body.subrange(i, to)),
    ensures
        split_from(body, i, name, prelude, lines, merging, outermost, batches, queue, segment, done)
            == split_from(
            body,
            to,
            name,
            prelude,
            lines,
            merging,
            outermost,
            batches,
            queue,
            segment + body.subrange(i, to),
            done,
        ),
    decreases to - i,
{
    let part = body.subrange(i, to);
    if i < to {
        assert(part[0] == body[i]);
        let rest = body.subrange(i + 1, to);
        assert forall|k: int| 0 <= k < rest.len() implies #[trigger] rest[k] != Node::Mark(
            Mark::MediaHoist,
        ) && rest[k] != Node::Mark(Mark::AtRootHoist) by {
            assert(rest[k] == part[k + 1]);
        }
        lemma_split_plain(
            body,
            i + 1,
            to,
            name,
            prelude,
            lines,
            merging,
            outermost,
            batches,
            queue,
            segment.push(body[i]),
            done,
        );
        assert(segment.push(body[i]) + rest =~= segment + part);
    } else {
        assert(segment + part =~= segment);
    }
}

/// A body that nothing has left comes out whole, in its at-rule.
pub proof fn whole_body_stays_together(
    body: Seq<Node>,
    name: Seq<char>,
    prelude: Seq<char>,
    lines: SrcLines,
    merging: bool,
    outermost: bool,
    batches: Seq<Seq<Node>>,
    queue: Seq<Seq<Node>>,
)
    requires
        nothing_left(body),
    ensures
        split_body(body, name, prelude, lines, merging, outermost, batches, queue) == (Split {
            nodes: around(body, name, prelude, lines),
            media: 0,
            at_root: 0,
        }),
{
    let start = Split { nodes: Seq::empty(), media: 0, at_root: 0 };
    assert(body.subrange(0, body.len() as int) =~= body);
    lemma_split_plain(
        body,
        0,
        body.len() as int,
        name,
        prelude,
        lines,
        merging,
        outermost,
        batches,
        queue,
        Seq::empty(),
        start,
    );
    assert(Seq::<Node>::empty() + body =~= body);
    if body.len() > 0 {
        assert(start.nodes.push(block(name, prelude, body, lines)) =~= around(body, name, prelude, lines));
    }
}

/// A `@media` rule merged into the one around it comes out beside it: behind what stands before it
/// there, and before what stands behind it.
pub proof fn merged_media_comes_out_in_its_place(
    a: Seq<Node>,
    b: Seq<Node>,
    batch: Seq<Node>,
    name: Seq<char>,
    prelude: Seq<char>,
    lines: SrcLines,
    outermost: bool,
    queue: Seq<Seq<Node>>,
)
    requires
        nothing_left(a),
        nothing_left(b),
    ensures
        split_body(
            a + seq![Node::Mark(Mark::MediaHoist)] + b,
            name,
            prelude,
            lines,
            true,
            outermost,
            seq![batch],
            queue,
        ).nodes == around(a, name, prelude, lines) + batch + around(b, name, prelude, lines),
{
    let body = a + seq![Node::Mark(Mark::MediaHoist)] + b;
    assert(body.take(a.len() as int) =~= a);
    assert(body.skip(a.len() as int + 1) =~= b);
    lemma_split_at_mark(body, a, b, name, prelude, lines, true, outermost, seq![batch], queue);
    let flat = around(a, name, prelude, lines);
    lemma_split_tail(
        body,
        a,
        b,
        name,
        prelude,
        lines,
        true,
        outermost,
        seq![batch],
        queue,
        Split { nodes: flat + batch, media: 1, at_root: 0 },
    );
}

/// What an `@at-root` takes out of all at-rules comes out beside the outermost of them, in its place.
pub proof fn at_root_comes_out_in_its_place(
    a: Seq<Node>,
    b: Seq<Node>,
    batch: Seq<Node>,
    name: Seq<char>,
    prelude: Seq<char>,
    lines: SrcLines,
    merging: bool,
    batches: Seq<Seq<Node>>,
)
    requires
        nothing_left(a),
        nothing_left(b),
    ensures
        split_body(
            a + seq![Node::Mark(Mark::AtRootHoist)] + b,
            name,
            prelude,
            lines,
            merging,
            true,
            batches,
            seq![batch],
        ).nodes == around(a, name, prelude, lines) + batch + seq![Node::Mark(Mark::PackTight)] + around(
            b,
            name,
            prelude,
            lines,
        ),
        split_body(
            a + seq![Node::Mark(Mark::AtRootHoist)] + b,
            name,
            prelude,
            lines,
            merging,
            true,
            batches,
            seq![batch],
        ).at_root == 1,
{
    let body = a + seq![Node::Mark(Mark::AtRootHoist)] + b;
    assert(body.take(a.len() as int) =~= a);
    assert(body.skip(a.len() as int + 1) =~= b);
    lemma_split_at_mark(body, a, b, name, prelude, lines, merging, true, batches, seq![batch]);
    let flat = around(a, name, prelude, lines);
    let nodes = (flat + batch).push(Node::Mark(Mark::PackTight));
    assert(nodes =~= flat + batch + seq![Node::Mark(Mark::PackTight)]);
    lemma_split_tail(
        body,
        a,
        b,
        name,
        prelude,
        lines,
        merging,
        true,
        batches,
        seq![batch],
        Split { nodes, media: 0, at_root: 1 },
    );
}

/// In an at-rule within another the place of what an `@at-root` took out is handed outward.
pub proof fn at_root_goes_further_out(
    a: Seq<Node>,
    b: Seq<Node>,
    name: Seq<char>,
    prelude: Seq<char>,
    lines: SrcLines,
    merging: bool,
    batches: Seq<Seq<Node>>,
    queue: Seq<Seq<Node>>,
)
    requires
        nothing_left(a),
        nothing_left(b),
    ensures
        split_body(
            a + seq![Node::Mark(Mark::AtRootHoist)] + b,
            name,
            prelude,
            lines,
            merging,
            false,
            batches,
            queue,
        ) == (Split {
            nodes: around(a, name, prelude, lines) + seq![Node::Mark(Mark::AtRootHoist)] + around(
                b,
                name,
                prelude,
                lines,
            ),
            media: 0,
            at_root: 0,
        }),
{
    let body = a + seq![Node::Mark(Mark::AtRootHoist)] + b;
    assert(body.take(a.len() as int) =~= a);
    assert(body.skip(a.len() as int + 1) =~= b);
    lemma_split_at_mark(body, a, b, name, prelude, lines, merging, false, batches, queue);
    let flat = around(a, name, prelude, lines);
    let nodes = flat.push(Node::Mark(Mark::AtRootHoist));
    assert(nodes =~= flat + seq![Node::Mark(Mark::AtRootHoist)]);
    lemma_split_tail(
        body,
        a,
        b,
        name,
        prelude,
        lines,
        merging,
        false,
        batches,
        queue,
        Split { nodes, media: 0, at_root: 0 },
    );
}

proof fn lemma_split_at_mark(
    body: Seq<Node>,
    a: Seq<Node>,
    b: Seq<Node>,
    name: Seq<char>,
    prelude: Seq<char>,
    lines: SrcLines,
    merging: bool,
    outermost: bool,
    batches: Seq<Seq<Node>>,
    queue: Seq<Seq<Node>>,
)
    requires
        body.len() == a.len() + 1 + b.len(),
        body.take(a.len() as int) == a,
        nothing_left(a),
    ensures
        split_body(body, name, prelude, lines, merging, outermost, batches, queue) == split_from(
            body,
            a.len() as int,
            name,
            prelude,
            lines,
            merging,
            outermost,
            batches,
            queue,
            a,
            Split { nodes: Seq::empty(), media: 0, at_root: 0 },
        ),
        crate::tree::closed_segment(Seq::empty(), a, name, prelude, lines) == around(
            a,
            name,
            prelude,
            lines,
        ),
{
    assert(body.subrange(0, a.len() as int) =~= a);
    lemma_split_plain(
        body,
        0,
        a.len() as int,
        name,
        prelude,
        lines,
        merging,
        outermost,
        batches,
        queue,
        Seq::empty(),
        Split { nodes: Seq::empty(), media: 0, at_root: 0 },
    );
    assert(Seq::<Node>::empty() + a =~= a);
    assert(Seq::<Node>::empty().push(block(name, prelude, a, lines)) =~= seq![
        block(name, prelude, a, lines),
    ]);
}

proof fn lemma_split_tail(
    body: Seq<Node>,
    a: Seq<Node>,
    b: Seq<Node>,
    name: Seq<char>,
    prelude: Seq<char>,
    lines: SrcLines,
    merging: bool,
    outermost: bool,
    batches: Seq<Seq<Node>>,
    queue: Seq<Seq<Node>>,
    done: Split,
)
    requires
        body.len() == a.len() + 1 + b.len(),
        body.skip(a.len() as int + 1) == b,
        nothing_left(b),
    ensures
        split_from(
            body,
            a.len() as int + 1,
            name,
            prelude,
            lines,
            merging,
            outermost,
            batches,
            queue,
            Seq::empty(),
            done,
        ) == (Split { nodes: done.nodes + around(b, name, prelude, lines), ..done }),
{
    assert(body.subrange(a.len() as int + 1, body.len() as int) =~= b);
    lemma_split_plain(
        body,
        a.len() as int + 1,
        body.len() as int,
        name,
        prelude,
        lines,
        merging,
        outermost,
        batches,
        queue,
        Seq::empty(),
        done,
    );
    assert(Seq::<Node>::empty() + b =~= b);
    let x = block(name, prelude, b, lines);
    assert(done.nodes.push(x) =~= done.nodes + seq![x]);
    assert(done.nodes + Seq::<Node>::empty() =~= done.nodes);
}

// ---- `@at-root` ----------------------------------------------------------

/// An `@at-root` without a query leaves the style rules and no at-rule.
pub proof fn at_root_leaves_style_rules()
    ensures
        leaves_style_rules(parsed_root_query(None)),
        forall|l: Layer| !leaves(parsed_root_query(None), #[trigger] layer_name(l)),
{
    let q = parsed_root_query(None);
    assert(q.names[0] == "rule"@);
    assert(q.names.contains("rule"@));
    reveal_strlit("rule");
    reveal_strlit("all");
    reveal_strlit("media");
    reveal_strlit("supports");
    reveal_strlit("keyframes");
    assert("all"@.len() != "rule"@.len());
    assert("media"@.len() != "rule"@.len());
    assert("supports"@.len() != "rule"@.len());
    assert("keyframes"@.len() != "rule"@.len());
}

/// `without` leaves what is named, and `with` leaves what is not; `all` names everything.
pub proof fn with_and_without_are_opposites(names: Seq<Seq<char>>, name: Seq<char>)
    ensures
        leaves(RootQuery { with: false, names }, name) == (names.contains(name) || names.contains("all"@)),
        leaves(RootQuery { with: true, names }, name) == !leaves(RootQuery { with: false, names }, name),
        leaves_style_rules(RootQuery { with: false, names }) == leaves(
            RootQuery { with: false, names },
            "rule"@,
        ),
        leaves_style_rules(RootQuery { with: true, names }) == leaves(
            RootQuery { with: true, names },
            "rule"@,
        ),
{
}

/// The at-rules that an `@at-root` does not leave stay, in their order.
pub proof fn what_is_not_left_stays(q: RootQuery, a: Seq<Layer>, l: Layer)
    ensures
        leaves(q, layer_name(l)) ==> kept_layers(q, a.push(l)) == kept_layers(q, a),
        !leaves(q, layer_name(l)) ==> kept_layers(q, a.push(l)) == kept_layers(q, a).push(l),
        kept_layers(q, Seq::empty()) == Seq::<Layer>::empty(),
{
    assert(a.push(l).drop_last() =~= a);
}

/// The at-rules that stay are put around what left the others, the outermost outermost.
pub proof fn outermost_stays_outermost(l: Layer, inner: Seq<Layer>, body: Seq<Node>)
    ensures
        wrapped_all(seq![l] + inner, body) == seq![wrapped(l, wrapped_all(inner, body))],
        wrapped_all(Seq::empty(), body) == body,
    decreases inner.len(),
{
    let all = seq![l] + inner;
    if inner.len() == 0 {
        assert(all.drop_last() =~= Seq::<Layer>::empty());
        assert(all.last() == l);
        assert(wrapped_all(all.drop_last(), seq![wrapped(l, body)]) == seq![wrapped(l, body)]);
    } else {
        let less = inner.drop_last();
        assert(all.drop_last() =~= seq![l] + less);
        assert(all.last() == inner.last());
        outermost_stays_outermost(l, less, seq![wrapped(inner.last(), body)]);
    }
}

/// Whether a text is one word of a query: without white space, quotes, brackets and colons.
pub open spec fn is_word(w: Seq<char>) -> bool {
    &&& w.len() > 0
    &&& forall|k: int|
        0 <= k < w.len() ==> !is_ws(#[trigger] w[k]) && w[k] != '(' && w[k] != ')' && w[k] != ':' && w[k]
            != '"' && w[k] != '\''
}

/// A query names what stands behind its colon, in lower case, and says `with` or `without` before it.
pub proof fn query_says_with_or_without(key: Seq<char>, name: Seq<char>)
    requires
        is_word(key),
        is_word(name),
    ensures
        parsed_root_query(Some(seq!['('] + key + seq![':', ' '] + name + seq![')'])) == (RootQuery {
            with: lower(key) == "with"@,
            names: seq![lower(name)],
        }),
{
    let inner = key + seq![':', ' '] + name;
    let t = seq!['('] + key + seq![':', ' '] + name + seq![')'];
    assert(t =~= seq!['('] + inner + seq![')']);
    assert(inner[0] == key[0]);
    assert(inner.last() == name[name.len() - 1]);
    lemma_brackets(inner);
    assert forall|k: int| 0 <= k < key.len() implies inner[k] != ':' by {
        assert(inner[k] == key[k]);
    }
    lemma_first_at(inner, ':', 0, key.len() as int);
    assert(inner.take(key.len() as int) =~= key);
    lemma_word_is_trimmed(key);
    assert(inner.skip(key.len() as int + 1) =~= seq![' '] + name);
    lemma_one_word(name);
    lemma_word_is_trimmed(name);
    assert(query_names(seq![name]) =~= seq![lower(name)]);
}

proof fn lemma_brackets(inner: Seq<char>)
    requires
        inner.len() > 0,
        inner[0] != '(',
        inner.last() != ')',
    ensures
        stripped_end(stripped_start(trimmed(seq!['('] + inner + seq![')']), '('), ')') == inner,
{
    let t = seq!['('] + inner + seq![')'];
    let u = inner + seq![')'];
    assert(!is_ws('(') && !is_ws(')'));
    assert(t[0] == '(' && t.last() == ')');
    assert(trimmed(t) == t);
    assert(t.skip(1) =~= u);
    assert(u[0] == inner[0]);
    assert(stripped_start(u, '(') == u);
    assert(stripped_start(t, '(') == u);
    assert(u.last() == ')');
    assert(u.drop_last() =~= inner);
    assert(stripped_end(inner, ')') == inner);
    assert(stripped_end(u, ')') == stripped_end(u.drop_last(), ')'));
}

proof fn lemma_word_is_trimmed(w: Seq<char>)
    requires
        is_word(w),
    ensures
        trimmed(w) == w,
        query_name(w) == lower(w),
{
    let n = w.len() as int;
    assert(!is_ws(w[0]) && w[0] != '"' && w[0] != '\'');
    assert(!is_ws(w[n - 1]) && w[n - 1] != '"' && w[n - 1] != '\'');
    assert(stripped_start(w, '"') == w);
    assert(stripped_end(w, '"') == w);
    assert(stripped_start(w, '\'') == w);
    assert(stripped_end(w, '\'') == w);
}

proof fn lemma_first_at(s: Seq<char>, c: char, i: int, k: int)
    requires
        0 <= i <= k < s.len(),
        s[k] == c,
        forall|j: int| i <= j < k ==> s[j] != c,
    ensures
        first_from(s, c, i) == k,
    decreases k - i,
{
    if i < k {
        lemma_first_at(s, c, i + 1, k);
    }
}

proof fn lemma_one_word(w: Seq<char>)
    requires
        is_word(w),
    ensures
        words(seq![' '] + w) == seq![w],
    decreases w.len(),
{
    let s = seq![' '] + w;
    let less = w.drop_last();
    assert(s.drop_last() =~= seq![' '] + less);
    assert(s.last() == w[w.len() - 1]);
    assert(is_ws(' '));
    if less.len() == 0 {
        let sp = seq![' '];
        assert(s.drop_last() =~= sp);
        assert(sp.drop_last() =~= Seq::<char>::empty());
        assert(words(Seq::<char>::empty()) == Seq::<Seq<char>>::empty());
        assert(words(sp) == Seq::<Seq<char>>::empty());
        assert(s[s.len() - 2] == ' ');
        assert(seq![s.last()] =~= w);
        assert(Seq::<Seq<char>>::empty().push(w) =~= seq![w]);
    } else {
        assert forall|k: int| 0 <= k < less.len() implies !is_ws(#[trigger] less[k]) && less[k] != '('
            && less[k] != ')' && less[k] != ':' && less[k] != '"' && less[k] != '\'' by {
            assert(less[k] == w[k]);
        }
        lemma_one_word(less);
        assert(s[s.len() - 2] == w[w.len() - 2]);
        assert(!is_ws(w[w.len() - 2]));
        assert(less.push(w.last()) =~= w);
        assert(seq![less].drop_last().push(seq![less].last().push(w.last())) =~= seq![w]);
    }
}

/// Declarations directly in an `@at-root` that stays in its rule stand in a rule with its selectors;
/// several in a row stand in one.
pub proof fn declarations_stay_under_the_rule(list: Seq<Node>, i: int, parents: Seq<Seq<char>>, decls: Seq<Item>, out: Seq<Node>)
    requires
        0 <= i <= list.len(),
        forall|k: int| 0 <= k < list.len() ==> (#[trigger] list[k]) is AtDecl,
    ensures
        ({
            let rest = Seq::new(
                (list.len() - i) as nat,
                |k: int|
                    Item::Decl {
                        prop: list[i + k]->AtDecl_prop,
                        value: list[i + k]->AtDecl_value,
                        important: list[i + k]->AtDecl_important,
                        custom: list[i + k]->AtDecl_custom,
                        lines: list[i + k]->AtDecl_lines,
                    },
            );
            let items = decls + rest;
            &&& items.len() > 0 ==> rewrapped(list, i, parents, decls, out) == out.push(
                Node::Rule { selectors: parents, linebreaks: Seq::empty(), items, lines: no_lines() },
            )
            &&& items.len() == 0 ==> rewrapped(list, i, parents, decls, out) == out
        }),
    decreases list.len() - i,
{
    let rest = Seq::new(
        (list.len() - i) as nat,
        |k: int|
            Item::Decl {
                prop: list[i + k]->AtDecl_prop,
                value: list[i + k]->AtDecl_value,
                important: list[i + k]->AtDecl_important,
                custom: list[i + k]->AtDecl_custom,
                lines: list[i + k]->AtDecl_lines,
            },
    );
    if i < list.len() {
        let own = rest[0];
        declarations_stay_under_the_rule(list, i + 1, parents, decls.push(own), out);
        let less = Seq::new(
            (list.len() - (i + 1)) as nat,
            |k: int|
                Item::Decl {
                    prop: list[i + 1 + k]->AtDecl_prop,
                    value: list[i + 1 + k]->AtDecl_value,
                    important: list[i + 1 + k]->AtDecl_important,
                    custom: list[i + 1 + k]->AtDecl_custom,
                    lines: list[i + 1 + k]->AtDecl_lines,
                },
        );
        assert(list[i] is AtDecl);
        assert(decls.push(own) + less =~= decls + rest);
        assert(rewrapped(list, i, parents, decls, out) == rewrapped(
            list,
            i + 1,
            parents,
            decls.push(own),
            out,
        ));
    } else {
        assert(decls + rest =~= decls);
    }
}

} // verus!
