//! The extension pass: selectors rewritten under the `@extend` rules that see them.

use vstd::prelude::*;
use crate::edges::{reached, with_text};
use crate::error::fault_at;
use crate::eval::{Ev, Run, asked_flag, fail, next_answer};
use crate::host::{Answer, Ask, Halt, Task, ask_names};
use crate::names::keyframes_name;
use crate::out::Node;
use crate::page::Pending;
use crate::state::Vars;
use crate::text::texts;
use crate::value::Val;

verus! {

// ---- what an origin sees -------------------------------------------------

/// The keys that a key leads to, itself among them, after those seen already. `hops` bounds how
/// far.
pub open spec fn reach(
    edges: Seq<(Seq<char>, Seq<Seq<char>>)>,
    key: Seq<char>,
    seen: Seq<Seq<char>>,
    hops: nat,
) -> Seq<Seq<char>>
    decreases hops, 0nat, 0int,
{
    if hops == 0 || seen.contains(key) {
        seen
    } else {
        reach_all(edges, reached(edges, key), 0, seen.push(key), (hops - 1) as nat)
    }
}

pub open spec fn reach_all(
    edges: Seq<(Seq<char>, Seq<Seq<char>>)>,
    keys: Seq<Seq<char>>,
    i: int,
    seen: Seq<Seq<char>>,
    hops: nat,
) -> Seq<Seq<char>>
    decreases hops, 1nat, keys.len() - i,
{
    if i < 0 || i >= keys.len() {
        seen
    } else {
        reach_all(edges, keys, i + 1, reach(edges, keys[i], seen, hops), hops)
    }
}

/// All that a key leads to, itself among it.
pub open spec fn all_reached(edges: Seq<(Seq<char>, Seq<Seq<char>>)>, key: Seq<char>) -> Seq<Seq<char>> {
    reach(edges, key, Seq::empty(), edges.len() + 1)
}

/// What an origin sees, with the copies from `i` on of modules that lead to it.
pub open spec fn copies_seen(
    edges: Seq<(Seq<char>, Seq<Seq<char>>)>,
    copies: Seq<(Seq<char>, Seq<char>)>,
    i: int,
    origin: Seq<char>,
    seen: Seq<Seq<char>>,
) -> Seq<Seq<char>>
    decreases copies.len() - i,
{
    if i < 0 || i >= copies.len() {
        seen
    } else {
        copies_seen(
            edges,
            copies,
            i + 1,
            origin,
            if all_reached(edges, copies[i].1).contains(origin) {
                with_text(seen, copies[i].0)
            } else {
                seen
            },
        )
    }
}

pub open spec fn is_copy(copies: Seq<(Seq<char>, Seq<char>)>, key: Seq<char>) -> bool {
    exists|k: int| 0 <= k < copies.len() && (#[trigger] copies[k]).0 == key
}

/// The copies among keys.
pub open spec fn only_copies(copies: Seq<(Seq<char>, Seq<char>)>, keys: Seq<Seq<char>>) -> Seq<Seq<char>>
    decreases keys.len(),
{
    if keys.len() == 0 {
        Seq::empty()
    } else if is_copy(copies, keys.last()) {
        only_copies(copies, keys.drop_last()).push(keys.last())
    } else {
        only_copies(copies, keys.drop_last())
    }
}

/// The modules and copies whose CSS an `@extend` written in a module can rewrite: what the module
/// loads, and the copies that hold it. A module that the entry file does not lead to stands in
/// copies only.
pub open spec fn sight(
    edges: Seq<(Seq<char>, Seq<Seq<char>>)>,
    copies: Seq<(Seq<char>, Seq<char>)>,
    origin: Seq<char>,
) -> Seq<Seq<char>> {
    let seen = copies_seen(edges, copies, 0, origin, all_reached(edges, origin));
    if copies.len() > 0 && origin.len() > 0 && !all_reached(edges, Seq::empty()).contains(origin) {
        only_copies(copies, seen)
    } else {
        seen
    }
}

pub open spec fn sights(
    edges: Seq<(Seq<char>, Seq<Seq<char>>)>,
    copies: Seq<(Seq<char>, Seq<char>)>,
    list: Seq<Pending>,
) -> Seq<Seq<Seq<char>>> {
    Seq::new(list.len(), |i: int| sight(edges, copies, list[i].origin))
}

/// Where an extension goes among those ordered by how much they see: after those that see as much
/// or more.
pub open spec fn rank_place(sees: Seq<Seq<Seq<char>>>, order: Seq<int>, k: int, i: int) -> int
    decreases order.len() - i,
{
    if i < 0 || i >= order.len() {
        order.len() as int
    } else if sees[order[i]].len() < sees[k].len() {
        i
    } else {
        rank_place(sees, order, k, i + 1)
    }
}

/// The first `n` extensions, those that see more first, and in the order of the source where they
/// see as much.
pub open spec fn ranked(sees: Seq<Seq<Seq<char>>>, n: nat) -> Seq<int>
    decreases n,
{
    if n == 0 {
        Seq::empty()
    } else {
        let before = ranked(sees, (n - 1) as nat);
        before.insert(rank_place(sees, before, n - 1, 0), n - 1)
    }
}

// ---- extensions ----------------------------------------------------------

/// The extensions of a document: what each is, what it sees, and the order they apply in.
pub ghost struct Exts {
    pub list: Seq<Pending>,
    pub sees: Seq<Seq<Seq<char>>>,
    pub order: Seq<int>,
}

pub open spec fn exts_of(s: Ev) -> Exts {
    let sees = sights(s.page.deps, s.page.copies, s.page.extends);
    Exts { list: s.page.extends, sees, order: ranked(sees, s.page.extends.len()) }
}

/// A placeholder that only its own module may extend.
pub open spec fn private_target(t: Seq<char>) -> bool {
    t.len() >= 2 && t[0] == '%' && (t[1] == '-' || t[1] == '_')
}

/// Whether an extension rewrites the CSS of a module.
pub open spec fn applies(x: Exts, k: int, scope: Seq<char>) -> bool {
    let e = x.list[k];
    (e.origin == scope || x.sees[k].contains(scope)) && (private_target(e.target) ==> e.origin == scope)
}

/// The numbers of the extensions from `i` on that rewrite the CSS of a module, after `acc`.
pub open spec fn applying(x: Exts, scope: Seq<char>, i: int, acc: Seq<u64>) -> Seq<u64>
    decreases x.order.len() - i,
{
    if i < 0 || i >= x.order.len() {
        acc
    } else {
        applying(
            x,
            scope,
            i + 1,
            if applies(x, x.order[i], scope) {
                acc.push(x.order[i] as u64)
            } else {
                acc
            },
        )
    }
}

pub open spec fn bool_vals(l: Seq<bool>) -> Seq<Val> {
    Seq::new(l.len(), |i: int| Val::Bool(l[i]))
}

pub open spec fn key_vals(l: Seq<Seq<char>>) -> Vars {
    Seq::new(l.len(), |i: int| (l[i], Val::Null))
}

/// The statement of an extension: its number, its target and its origin, then its extenders, their
/// line breaks, and what it sees.
pub open spec fn ask_extension(x: Exts, k: int) -> Ask {
    let e = x.list[k];
    Ask {
        task: Task::Extension,
        values: bool_vals(e.breaks),
        names: seq![e.target, e.origin] + e.extenders,
        named: key_vals(x.sees[k]),
        numbers: seq![k as u64],
        pos: Some(e.pos),
    }
}

/// The state after every extension from `i` on has been stated.
pub open spec fn extensions_stated(s: Ev, ans: Seq<Answer>, x: Exts, i: int) -> Run<()>
    decreases x.order.len() - i,
{
    if i < 0 || i >= x.order.len() {
        (Ok(()), s)
    } else {
        match next_answer(s, ans, ask_extension(x, x.order[i])) {
            (Err(h), s1) => (Err(h), s1),
            (Ok(_), s1) => extensions_stated(s1, ans, x, i + 1),
        }
    }
}

// ---- rewriting -----------------------------------------------------------

pub open spec fn any_placeholder(selectors: Seq<Seq<char>>) -> bool {
    exists|k: int| 0 <= k < selectors.len() && (#[trigger] selectors[k]).contains('%')
}

pub open spec fn ask_extend(scope: Seq<char>, selectors: Seq<Seq<char>>, breaks: Seq<bool>, visible: Seq<u64>) -> Ask {
    Ask {
        task: Task::Extend,
        values: bool_vals(breaks),
        names: seq![scope] + selectors,
        named: Seq::empty(),
        numbers: visible,
        pos: None,
    }
}

/// What is left of a rule's selectors under extensions, and the numbers of those that matched;
/// nothing where only placeholders are left.
pub open spec fn extended_rule(
    s: Ev,
    ans: Seq<Answer>,
    selectors: Seq<Seq<char>>,
    breaks: Seq<bool>,
    scope: Seq<char>,
    visible: Seq<u64>,
) -> Run<Option<(Seq<Seq<char>>, Seq<bool>, Seq<u64>)>> {
    if visible.len() == 0 && !any_placeholder(selectors) {
        (Ok(Some((selectors, breaks, Seq::empty()))), s)
    } else {
        match next_answer(s, ans, ask_extend(scope, selectors, breaks, visible)) {
            (Err(h), s1) => (Err(h), s1),
            (Ok(a), s1) => match a {
                Answer::Extended { selectors, breaks, matched } => (
                    Ok(Some((texts(selectors@), breaks@, matched@))),
                    s1,
                ),
                Answer::Nothing => (Ok(None), s1),
                _ => (Err(Halt::Mismatch), s1),
            },
        }
    }
}

pub open spec fn all_blank(list: Seq<Node>) -> bool {
    forall|k: int| 0 <= k < list.len() ==> #[trigger] list[k] == Node::Blank
}

/// A node after the pass, and the numbers of the extensions that matched in it; nothing where it is
/// dropped.
pub open spec fn swept_node(s: Ev, ans: Seq<Answer>, n: Node, scope: Seq<char>, visible: Seq<u64>) -> Run<
    Option<(Node, Seq<u64>)>,
> {
    match n {
        Node::Rule { selectors, linebreaks, items, lines } => match extended_rule(
            s,
            ans,
            selectors,
            linebreaks,
            scope,
            visible,
        ) {
            (Err(h), s1) => (Err(h), s1),
            (Ok(None), s1) => (Ok(None), s1),
            (Ok(Some((sel, lbs, hits))), s1) => (
                Ok(Some((Node::Rule { selectors: sel, linebreaks: lbs, items, lines }, hits))),
                s1,
            ),
        },
        Node::ModuleScope { key, nodes } => (
            Ok(
                if all_blank(nodes) {
                    None
                } else {
                    Some((n, Seq::empty()))
                },
            ),
            s,
        ),
        Node::AtRule { name, prelude, body, has_block, lines } => (
            Ok(
                if has_block && body.len() == 0 && (name == "media"@ || name == "supports"@) {
                    None
                } else {
                    Some((n, Seq::empty()))
                },
            ),
            s,
        ),
        other => (Ok(Some((other, Seq::empty()))), s),
    }
}

/// The nodes from `i` on after the pass, after `out`. With a node that is dropped one blank line
/// next to it goes too, the one after it before the one in front of it.
pub open spec fn swept(
    s: Ev,
    ans: Seq<Answer>,
    list: Seq<Node>,
    i: int,
    scope: Seq<char>,
    visible: Seq<u64>,
    out: Seq<Node>,
    matched: Seq<u64>,
) -> Run<(Seq<Node>, Seq<u64>)>
    decreases list.len() - i,
{
    if i < 0 || i >= list.len() {
        (Ok((out, matched)), s)
    } else {
        match swept_node(s, ans, list[i], scope, visible) {
            (Err(h), s1) => (Err(h), s1),
            (Ok(Some((n, hits))), s1) => swept(
                s1,
                ans,
                list,
                i + 1,
                scope,
                visible,
                out.push(n),
                matched + hits,
            ),
            (Ok(None), s1) => if i + 1 < list.len() && list[i + 1] == Node::Blank {
                swept(s1, ans, list, i + 2, scope, visible, out, matched)
            } else if out.len() > 0 && out.last() == Node::Blank {
                swept(s1, ans, list, i + 1, scope, visible, out.drop_last(), matched)
            } else {
                swept(s1, ans, list, i + 1, scope, visible, out, matched)
            },
        }
    }
}

/// Nodes of a module after the pass: what is inside them first, the CSS of another module by what
/// sees that module.
pub open spec fn rewritten(
    s: Ev,
    ans: Seq<Answer>,
    x: Exts,
    list: Seq<Node>,
    scope: Seq<char>,
    matched: Seq<u64>,
) -> Run<(Seq<Node>, Seq<u64>)>
    decreases list, list.len() + 1,
{
    match rewritten_inside(s, ans, x, list, 0, scope, Seq::empty(), matched) {
        (Err(h), s1) => (Err(h), s1),
        (Ok((inner, m)), s1) => swept(
            s1,
            ans,
            inner,
            0,
            scope,
            applying(x, scope, 0, Seq::empty()),
            Seq::empty(),
            m,
        ),
    }
}

/// Nodes from `i` on with what is inside them rewritten, after `acc`.
pub open spec fn rewritten_inside(
    s: Ev,
    ans: Seq<Answer>,
    x: Exts,
    list: Seq<Node>,
    i: int,
    scope: Seq<char>,
    acc: Seq<Node>,
    matched: Seq<u64>,
) -> Run<(Seq<Node>, Seq<u64>)>
    decreases list, list.len() - i,
{
    if i < 0 || i >= list.len() {
        (Ok((acc, matched)), s)
    } else {
        match list[i] {
            Node::ModuleScope { key, nodes } => match rewritten(s, ans, x, nodes, key, matched) {
                (Err(h), s1) => (Err(h), s1),
                (Ok((inner, m)), s1) => rewritten_inside(
                    s1,
                    ans,
                    x,
                    list,
                    i + 1,
                    scope,
                    acc.push(Node::ModuleScope { key, nodes: inner }),
                    m,
                ),
            },
            Node::AtRule { name, prelude, body, has_block, lines } => if keyframes_name(name) {
                rewritten_inside(s, ans, x, list, i + 1, scope, acc.push(list[i]), matched)
            } else {
                match rewritten(s, ans, x, body, scope, matched) {
                    (Err(h), s1) => (Err(h), s1),
                    (Ok((inner, m)), s1) => rewritten_inside(
                        s1,
                        ans,
                        x,
                        list,
                        i + 1,
                        scope,
                        acc.push(Node::AtRule { name, prelude, body: inner, has_block, lines }),
                        m,
                    ),
                }
            },
            other => rewritten_inside(s, ans, x, list, i + 1, scope, acc.push(other), matched),
        }
    }
}

// ---- what must match -----------------------------------------------------

/// Whether one of the selectors from `i` on holds a target.
pub open spec fn any_holds(s: Ev, ans: Seq<Answer>, list: Seq<Seq<char>>, i: int, target: Seq<char>) -> Run<bool>
    decreases list.len() - i,
{
    if i < 0 || i >= list.len() {
        (Ok(false), s)
    } else {
        match asked_flag(s, ans, ask_names(Task::HoldsSimple, seq![list[i], target])) {
            (Err(h), s1) => (Err(h), s1),
            (Ok(true), s1) => (Ok(true), s1),
            (Ok(false), s1) => any_holds(s1, ans, list, i + 1, target),
        }
    }
}

/// Whether a style rule at the root, from `i` on, holds a target.
pub open spec fn root_holds(s: Ev, ans: Seq<Answer>, list: Seq<Node>, i: int, target: Seq<char>) -> Run<bool>
    decreases list.len() - i,
{
    if i < 0 || i >= list.len() {
        (Ok(false), s)
    } else {
        match list[i] {
            Node::Rule { selectors, linebreaks, items, lines } => match any_holds(
                s,
                ans,
                selectors,
                0,
                target,
            ) {
                (Err(h), s1) => (Err(h), s1),
                (Ok(true), s1) => (Ok(true), s1),
                (Ok(false), s1) => root_holds(s1, ans, list, i + 1, target),
            },
            _ => root_holds(s, ans, list, i + 1, target),
        }
    }
}

/// The state after no extension from `i` on was found to reach out of a `@media` rule.
pub open spec fn media_respected(s: Ev, ans: Seq<Answer>, x: Exts, i: int, list: Seq<Node>) -> Run<()>
    decreases x.list.len() - i,
{
    if i < 0 || i >= x.list.len() {
        (Ok(()), s)
    } else if !x.list[i].in_media {
        media_respected(s, ans, x, i + 1, list)
    } else {
        match root_holds(s, ans, list, 0, x.list[i].target) {
            (Err(h), s1) => (Err(h), s1),
            (Ok(true), s1) => fail(
                fault_at("You may not @extend selectors across media queries."@, x.list[i].pos),
                s1,
            ),
            (Ok(false), s1) => media_respected(s1, ans, x, i + 1, list),
        }
    }
}

/// The placeholder rules from `i` on that an extension sees.
pub open spec fn placeholders_seen(x: Exts, k: int, list: Seq<(Seq<char>, Seq<char>)>, i: int, acc: Seq<Seq<char>>) -> Seq<
    Seq<char>,
>
    decreases list.len() - i,
{
    if i < 0 || i >= list.len() {
        acc
    } else {
        let e = x.list[k];
        let visible = if private_target(e.target) {
            list[i].0 == e.origin
        } else {
            x.sees[k].contains(list[i].0)
        };
        placeholders_seen(
            x,
            k,
            list,
            i + 1,
            if visible {
                acc.push(list[i].1)
            } else {
                acc
            },
        )
    }
}

pub open spec fn missing_target(t: Seq<char>) -> Seq<char> {
    "The target selector was not found.\nUse \"@extend "@ + t + " !optional\" to avoid this error."@
}

/// The state after every extension from `i` on was found to match something: a rule, one left out
/// for its combinators, or a placeholder rule without content.
pub open spec fn targets_found(s: Ev, ans: Seq<Answer>, x: Exts, i: int, matched: Seq<u64>) -> Run<()>
    decreases x.list.len() - i,
{
    if i < 0 || i >= x.list.len() {
        (Ok(()), s)
    } else {
        let e = x.list[i];
        if e.optional || matched.contains(i as u64) {
            targets_found(s, ans, x, i + 1, matched)
        } else {
            match any_holds(s, ans, s.page.bogus, 0, e.target) {
                (Err(h), s1) => (Err(h), s1),
                (Ok(true), s1) => targets_found(s1, ans, x, i + 1, matched),
                (Ok(false), s1) => match any_holds(
                    s1,
                    ans,
                    placeholders_seen(x, i, s1.page.placeholders, 0, Seq::empty()),
                    0,
                    e.target,
                ) {
                    (Err(h), s2) => (Err(h), s2),
                    (Ok(true), s2) => targets_found(s2, ans, x, i + 1, matched),
                    (Ok(false), s2) => fail(fault_at(missing_target(e.target), e.pos), s2),
                },
            }
        }
    }
}

/// The document after the extension pass.
pub open spec fn extensions_applied(s: Ev, ans: Seq<Answer>, list: Seq<Node>) -> Run<Seq<Node>> {
    let x = exts_of(s);
    match extensions_stated(s, ans, x, 0) {
        (Err(h), s1) => (Err(h), s1),
        (Ok(_), s1) => match media_respected(s1, ans, x, 0, list) {
            (Err(h), s2) => (Err(h), s2),
            (Ok(_), s2) => match rewritten(s2, ans, x, list, Seq::empty(), Seq::empty()) {
                (Err(h), s3) => (Err(h), s3),
                (Ok((out, matched)), s3) => match targets_found(s3, ans, x, 0, matched) {
                    (Err(h), s4) => (Err(h), s4),
                    (Ok(_), s4) => (Ok(out), s4),
                },
            },
        },
    }
}

} // verus!
