//! Plain CSS files: their nesting is kept, `&` is left as it is written, and only interpolation is
//! evaluated.

use vstd::prelude::*;
use crate::ast::{Declaration, ImportArg, MediaQueryList, Rule, Stmt, TplPiece};
use crate::decls::{
    block_lines, custom_at_rule, custom_declared, decl_lines, empty_nodes, lines_of_decl,
    make_block, out_item, out_nodes, stamped,
};
use crate::error::fault;
use crate::eval::{Ev, Evaluator, Run, fail, out_text, same_place};
use crate::expr::{empty_strings, out_texts, push_string};
use crate::host::{Answer, Halt, Stop};
use crate::media::{all_rendered, serialize_media_queries};
use crate::out::{
    Item, Node, OutItem, OutNode, SrcLines, add_item, items, no_lines, node, nodes, one_node,
    push_node, push_nodes,
};
use crate::queries::{
    css_import_text, resolved_queries, supports_text, trimmed_template, whole_template, wide_text,
};
use crate::scan::{comma_parts, split_commas};
use crate::selector_check::{plain_selector_fault, validate_plain_css_selector};
use crate::sink::{Drain, Sink, lift_child, lifted_child, with_at_rules};
use crate::text::{cat3, chars_of, clone_strings, joined, rows, string_of, texts, trim, trimmed};
use crate::tree::{block, descendants, join_descendants};

verus! {

broadcast use crate::kept::group_kept;

// ---- selectors -----------------------------------------------------------

/// The parts that hold more than white space, without the white space round them.
pub open spec fn filled_parts(parts: Seq<Seq<char>>) -> Seq<Seq<char>>
    decreases parts.len(),
{
    if parts.len() == 0 {
        Seq::empty()
    } else if trimmed(parts.last()).len() == 0 {
        filled_parts(parts.drop_last())
    } else {
        filled_parts(parts.drop_last()).push(trimmed(parts.last()))
    }
}

/// The parts of a list between commas, empty ones left out.
pub fn split_filled(s: &str) -> (r: Vec<String>)
    ensures
        texts(r@) == filled_parts(comma_parts(s@)),
{
    let chars = chars_of(s);
    let parts = split_commas(chars.as_slice());
    let ghost all = rows(parts@);
    let mut out = empty_strings();
    let mut i: usize = 0;
    proof {
        assert(all.take(0) =~= Seq::empty());
    }
    while i < parts.len()
        invariant
            i <= parts@.len(),
            all == rows(parts@),
            texts(out@) == filled_parts(all.take(i as int)),
        decreases parts@.len() - i,
    {
        proof {
            assert(all.take(i + 1).drop_last() =~= all.take(i as int));
            assert(all.take(i + 1).last() == parts@[i as int]@);
        }
        let t = trim(parts[i].as_slice());
        if t.len() > 0 {
            push_string(&mut out, string_of(t));
        }
        i += 1;
    }
    proof {
        assert(all.take(i as int) =~= all);
    }
    out
}

/// What is wrong with the first part, from `i` on, that plain CSS does not allow.
pub open spec fn plain_parts_fault(parts: Seq<Seq<char>>, top: bool, i: int) -> Option<Seq<char>>
    decreases parts.len() - i,
{
    if i < 0 || i >= parts.len() {
        None
    } else {
        match plain_selector_fault(parts[i], top) {
            Some(m) => Some(m),
            None => plain_parts_fault(parts, top, i + 1),
        }
    }
}

/// The selectors of a rule in plain CSS.
#[verifier::opaque]
pub open spec fn plain_selectors(s: Ev, ans: Seq<Answer>, sel: Seq<TplPiece>, top: bool, fuel: nat) -> Run<
    Seq<Seq<char>>,
> {
    match whole_template(s, ans, sel, fuel) {
        (Err(h), s1) => (Err(h), s1),
        (Ok(t), s1) => {
            let parts = filled_parts(comma_parts(t));
            match plain_parts_fault(parts, top, 0) {
                Some(m) => fail(fault(m), s1),
                None => (Ok(parts), s1),
            }
        },
    }
}

// ---- the bodies of rules -------------------------------------------------

/// The texts of the arguments of an `@import`, from `i` on, after `acc`.
pub open spec fn import_texts(
    s: Ev,
    ans: Seq<Answer>,
    args: Seq<ImportArg>,
    i: int,
    acc: Seq<Seq<char>>,
    fuel: nat,
) -> Run<Seq<Seq<char>>>
    decreases args.len() - i,
{
    if i < 0 || i >= args.len() {
        (Ok(acc), s)
    } else {
        match args[i] {
            ImportArg::Css { url, modifiers } => match css_import_text(s, ans, url@, modifiers@, fuel) {
                (Err(h), s1) => (Err(h), s1),
                (Ok(t), s1) => import_texts(s1, ans, args, i + 1, acc.push(t), fuel),
            },
            ImportArg::Sass { path, pos, length } => import_texts(
                s,
                ans,
                args,
                i + 1,
                acc.push("\""@ + path@ + "\""@),
                fuel,
            ),
        }
    }
}

pub open spec fn import_items(ts: Seq<Seq<char>>) -> Seq<Item> {
    Seq::new(
        ts.len(),
        |i: int| Item::ChildlessAtRule { name: "import"@, prelude: ts[i], lines: no_lines() },
    )
}

pub open spec fn import_node(t: Seq<char>) -> Node {
    Node::Raw("@import "@ + t + ";"@)
}

pub open spec fn import_nodes(ts: Seq<Seq<char>>) -> Seq<Node> {
    Seq::new(ts.len(), |i: int| import_node(ts[i]))
}

/// The items with a nested at-rule, unless it is empty.
pub open spec fn with_nested(acc: Seq<Item>, name: Seq<char>, prelude: Seq<char>, inner: Seq<Item>) -> Seq<Item> {
    if inner.len() == 0 {
        acc
    } else {
        acc.push(Item::NestedAtRule { name, prelude, items: inner })
    }
}

/// A declaration in plain CSS.
#[verifier::opaque]
pub open spec fn plain_decl(s: Ev, ans: Seq<Answer>, d: Declaration, fuel: nat) -> Run<Item> {
    match trimmed_template(s, ans, d.property@, fuel) {
        (Err(h), s1) => (Err(h), s1),
        (Ok(prop), s1) => match wide_text(s1, ans, d.value, fuel) {
            (Err(h), s2) => (Err(h), s2),
            (Ok(value), s2) => {
                let (lines, s3) = stamped(s2, decl_lines(d.pos, d.end_line));
                (Ok(Item::Decl { prop, value, important: d.important, custom: false, lines }), s3)
            },
        },
    }
}

/// The text of the queries of a `@media` rule.
#[verifier::opaque]
pub open spec fn media_prelude(s: Ev, ans: Seq<Answer>, list: MediaQueryList, fuel: nat) -> Run<Seq<char>> {
    match resolved_queries(s, ans, list, fuel) {
        (Err(h), s1) => (Err(h), s1),
        (Ok(qs), s1) => (Ok(joined(all_rendered(qs), ", "@)), s1),
    }
}

/// The items that a statement inside a rule comes to, after `acc`.
pub open spec fn plain_item(s: Ev, ans: Seq<Answer>, stmt: Stmt, acc: Seq<Item>, fuel: nat) -> Run<Seq<Item>>
    decreases stmt, 0int,
{
    match stmt {
        Stmt::Decl(d) => match plain_decl(s, ans, d, fuel) {
            (Err(h), s1) => (Err(h), s1),
            (Ok(i), s1) => (Ok(acc.push(i)), s1),
        },
        Stmt::CustomDecl(d) => match custom_declared(s, ans, d, fuel) {
            (Err(h), s1) => (Err(h), s1),
            (Ok(i), s1) => (Ok(acc.push(i)), s1),
        },
        Stmt::Rule(r) => match plain_selectors(s, ans, r.selector@, false, fuel) {
            (Err(h), s1) => (Err(h), s1),
            (Ok(selectors), s1) => match plain_items(s1, ans, r.body@, 0, Seq::empty(), fuel) {
                (Err(h), s2) => (Err(h), s2),
                (Ok(inner), s2) => (
                    Ok(
                        if inner.len() == 0 {
                            acc
                        } else {
                            acc.push(Item::NestedRule { selectors, items: inner })
                        },
                    ),
                    s2,
                ),
            },
        },
        Stmt::Comment(c, lines) => match whole_template(s, ans, c@, fuel) {
            (Err(h), s1) => (Err(h), s1),
            (Ok(t), s1) => {
                let (l, s2) = stamped(s1, lines);
                (Ok(acc.push(Item::Comment(t, l))), s2)
            },
        },
        Stmt::Import(args) => match import_texts(s, ans, args@, 0, Seq::empty(), fuel) {
            (Err(h), s1) => (Err(h), s1),
            (Ok(ts), s1) => (Ok(acc + import_items(ts)), s1),
        },
        Stmt::Media { query, body, lines } => match media_prelude(s, ans, query, fuel) {
            (Err(h), s1) => (Err(h), s1),
            (Ok(p), s1) => match plain_items(s1, ans, body@, 0, Seq::empty(), fuel) {
                (Err(h), s2) => (Err(h), s2),
                (Ok(inner), s2) => (Ok(with_nested(acc, "media"@, p, inner)), s2),
            },
        },
        Stmt::Supports { condition, body } => match supports_text(s, ans, condition, fuel) {
            (Err(h), s1) => (Err(h), s1),
            (Ok(p), s1) => match plain_items(s1, ans, body@, 0, Seq::empty(), fuel) {
                (Err(h), s2) => (Err(h), s2),
                (Ok(inner), s2) => (Ok(with_nested(acc, "supports"@, p, inner)), s2),
            },
        },
        Stmt::AtRule { name, prelude, body, lines } => match trimmed_template(s, ans, prelude@, fuel) {
            (Err(h), s1) => (Err(h), s1),
            (Ok(p), s1) => match body {
                None => {
                    let (l, s2) = stamped(s1, lines);
                    (Ok(acc.push(Item::ChildlessAtRule { name: name@, prelude: p, lines: l })), s2)
                },
                Some(b) => match plain_items(s1, ans, b@, 0, Seq::empty(), fuel) {
                    (Err(h), s2) => (Err(h), s2),
                    (Ok(inner), s2) => (Ok(with_nested(acc, name@, p, inner)), s2),
                },
            },
        },
        Stmt::Keyframes { name, prelude, body, lines } => match trimmed_template(
            s,
            ans,
            prelude@,
            fuel,
        ) {
            (Err(h), s1) => (Err(h), s1),
            (Ok(p), s1) => match plain_items(s1, ans, body@, 0, Seq::empty(), fuel) {
                (Err(h), s2) => (Err(h), s2),
                (Ok(inner), s2) => (Ok(with_nested(acc, name@, p, inner)), s2),
            },
        },
        _ => (Ok(acc), s),
    }
}

/// The items that the statements inside a rule come to, from `i` on, after `acc`.
pub open spec fn plain_items(s: Ev, ans: Seq<Answer>, stmts: Seq<Stmt>, i: int, acc: Seq<Item>, fuel: nat) -> Run<
    Seq<Item>,
>
    decreases stmts, stmts.len() - i,
{
    if i < 0 || i >= stmts.len() {
        (Ok(acc), s)
    } else {
        match plain_item(s, ans, stmts[i], acc, fuel) {
            (Err(h), s1) => (Err(h), s1),
            (Ok(a), s1) => plain_items(s1, ans, stmts, i + 1, a, fuel),
        }
    }
}

// ---- outermost rules -----------------------------------------------------

/// What bubbles out of an outermost rule, with an at-rule round a copy of the rule, unless that is
/// empty.
pub open spec fn with_bubbled(
    acc: Seq<Node>,
    name: Seq<char>,
    prelude: Seq<char>,
    inner: Seq<Item>,
    selectors: Seq<Seq<char>>,
) -> Seq<Node> {
    if inner.len() == 0 {
        acc
    } else {
        acc.push(
            block(
                name,
                prelude,
                seq![
                    Node::Rule {
                        selectors,
                        linebreaks: Seq::empty(),
                        items: inner,
                        lines: no_lines(),
                    },
                ],
                no_lines(),
            ),
        )
    }
}

/// The items of an outermost rule and what bubbles out of it, from `i` on, after what is there.
pub open spec fn plain_children(
    s: Ev,
    ans: Seq<Answer>,
    stmts: Seq<Stmt>,
    i: int,
    selectors: Seq<Seq<char>>,
    items: Seq<Item>,
    bubbled: Seq<Node>,
    fuel: nat,
) -> Run<(Seq<Item>, Seq<Node>)>
    decreases stmts.len() - i,
{
    if i < 0 || i >= stmts.len() {
        (Ok((items, bubbled)), s)
    } else {
        match plain_child(s, ans, stmts[i], selectors, items, bubbled, fuel) {
            (Err(h), s1) => (Err(h), s1),
            (Ok((a, b)), s1) => plain_children(s1, ans, stmts, i + 1, selectors, a, b, fuel),
        }
    }
}

#[verifier::opaque]
pub open spec fn plain_child(
    s: Ev,
    ans: Seq<Answer>,
    stmt: Stmt,
    selectors: Seq<Seq<char>>,
    items: Seq<Item>,
    bubbled: Seq<Node>,
    fuel: nat,
) -> Run<(Seq<Item>, Seq<Node>)> {
    match stmt {
        Stmt::Media { query, body, lines } => match media_prelude(s, ans, query, fuel) {
            (Err(h), s1) => (Err(h), s1),
            (Ok(p), s1) => match plain_items(s1, ans, body@, 0, Seq::empty(), fuel) {
                (Err(h), s2) => (Err(h), s2),
                (Ok(inner), s2) => (
                    Ok((items, with_bubbled(bubbled, "media"@, p, inner, selectors))),
                    s2,
                ),
            },
        },
        Stmt::Supports { condition, body } => match supports_text(s, ans, condition, fuel) {
            (Err(h), s1) => (Err(h), s1),
            (Ok(p), s1) => match plain_items(s1, ans, body@, 0, Seq::empty(), fuel) {
                (Err(h), s2) => (Err(h), s2),
                (Ok(inner), s2) => (
                    Ok((items, with_bubbled(bubbled, "supports"@, p, inner, selectors))),
                    s2,
                ),
            },
        },
        Stmt::AtRule { name, prelude, body: Some(b), lines } => match trimmed_template(
            s,
            ans,
            prelude@,
            fuel,
        ) {
            (Err(h), s1) => (Err(h), s1),
            (Ok(p), s1) => match plain_items(s1, ans, b@, 0, Seq::empty(), fuel) {
                (Err(h), s2) => (Err(h), s2),
                (Ok(inner), s2) => (
                    Ok((items, with_bubbled(bubbled, name@, p, inner, selectors))),
                    s2,
                ),
            },
        },
        Stmt::Keyframes { name, prelude, body, lines } => match trimmed_template(
            s,
            ans,
            prelude@,
            fuel,
        ) {
            (Err(h), s1) => (Err(h), s1),
            (Ok(p), s1) => match plain_items(s1, ans, body@, 0, Seq::empty(), fuel) {
                (Err(h), s2) => (Err(h), s2),
                (Ok(inner), s2) => (
                    Ok((items, with_bubbled(bubbled, name@, p, inner, selectors))),
                    s2,
                ),
            },
        },
        other => match plain_item(s, ans, other, items, fuel) {
            (Err(h), s1) => (Err(h), s1),
            (Ok(a), s1) => (Ok((a, bubbled)), s1),
        },
    }
}

/// The nodes that an outermost rule comes to, below the parents, after `acc`.
#[verifier::opaque]
pub open spec fn plain_rule(
    s: Ev,
    ans: Seq<Answer>,
    r: Rule,
    top: bool,
    parents: Seq<Seq<char>>,
    acc: Seq<Node>,
    fuel: nat,
) -> Run<Seq<Node>> {
    match plain_selectors(s, ans, r.selector@, top, fuel) {
        (Err(h), s1) => (Err(h), s1),
        (Ok(own), s1) => {
            let selectors = if parents.len() == 0 {
                own
            } else {
                descendants(parents, own)
            };
            match plain_children(
                s1,
                ans,
                r.body@,
                0,
                selectors,
                Seq::empty(),
                Seq::empty(),
                fuel,
            ) {
                (Err(h), s2) => (Err(h), s2),
                (Ok((items, bubbled)), s2) => if items.len() == 0 {
                    (Ok(acc + bubbled), s2)
                } else {
                    let (lines, s3) = stamped(s2, block_lines(r.lines.start, r.lines.end));
                    (
                        Ok(
                            acc.push(
                                Node::Rule { selectors, linebreaks: Seq::empty(), items, lines },
                            ) + bubbled,
                        ),
                        s3,
                    )
                },
            }
        },
    }
}

/// A declaration as a node.
pub open spec fn decl_node(i: Item) -> Node {
    lifted_child(i)
}

/// The nodes with a `@media` or `@supports` rule, unless it is empty.
pub open spec fn with_block(acc: Seq<Node>, name: Seq<char>, prelude: Seq<char>, body: Seq<Node>, lines: SrcLines) -> Seq<
    Node,
> {
    if body.len() == 0 {
        acc
    } else {
        acc.push(block(name, prelude, body, lines))
    }
}

/// The nodes that a statement outside rules comes to, after `acc`: at the top level of the file, or
/// in an at-rule there.
pub open spec fn plain_node(
    s: Ev,
    ans: Seq<Answer>,
    stmt: Stmt,
    top: bool,
    parents: Seq<Seq<char>>,
    acc: Seq<Node>,
    fuel: nat,
) -> Run<Seq<Node>>
    decreases stmt, 0int,
{
    match stmt {
        Stmt::Rule(r) => plain_rule(s, ans, r, top, parents, acc, fuel),
        Stmt::Decl(d) => if top {
            (Ok(acc), s)
        } else {
            match plain_decl(s, ans, d, fuel) {
                (Err(h), s1) => (Err(h), s1),
                (Ok(i), s1) => (Ok(acc.push(decl_node(i))), s1),
            }
        },
        Stmt::CustomDecl(d) => if top {
            (Ok(acc), s)
        } else {
            match custom_declared(s, ans, d, fuel) {
                (Err(h), s1) => (Err(h), s1),
                (Ok(i), s1) => (Ok(acc.push(decl_node(i))), s1),
            }
        },
        Stmt::Comment(c, lines) => match whole_template(s, ans, c@, fuel) {
            (Err(h), s1) => (Err(h), s1),
            (Ok(t), s1) => {
                let (l, s2) = stamped(s1, lines);
                (Ok(acc.push(Node::Comment(t, l))), s2)
            },
        },
        Stmt::Import(args) => match import_texts(s, ans, args@, 0, Seq::empty(), fuel) {
            (Err(h), s1) => (Err(h), s1),
            (Ok(ts), s1) => (Ok(acc + import_nodes(ts)), s1),
        },
        Stmt::Media { query, body, lines } => match media_prelude(s, ans, query, fuel) {
            (Err(h), s1) => (Err(h), s1),
            (Ok(p), s1) => match plain_nodes(s1, ans, body@, 0, false, Seq::empty(), Seq::empty(), fuel) {
                (Err(h), s2) => (Err(h), s2),
                (Ok(inner), s2) => if inner.len() == 0 {
                    (Ok(acc), s2)
                } else {
                    let (l, s3) = stamped(s2, lines);
                    (Ok(acc.push(block("media"@, p, inner, l))), s3)
                },
            },
        },
        Stmt::Supports { condition, body } => match supports_text(s, ans, condition, fuel) {
            (Err(h), s1) => (Err(h), s1),
            (Ok(p), s1) => match plain_nodes(s1, ans, body@, 0, false, Seq::empty(), Seq::empty(), fuel) {
                (Err(h), s2) => (Err(h), s2),
                (Ok(inner), s2) => (Ok(with_block(acc, "supports"@, p, inner, no_lines())), s2),
            },
        },
        Stmt::AtRule { name, prelude, body, lines } => match trimmed_template(s, ans, prelude@, fuel) {
            (Err(h), s1) => (Err(h), s1),
            (Ok(p), s1) => {
                let (l, s2) = stamped(s1, lines);
                match body {
                    None => (
                        Ok(
                            acc.push(
                                Node::AtRule {
                                    name: name@,
                                    prelude: p,
                                    body: Seq::empty(),
                                    has_block: false,
                                    lines: l,
                                },
                            ),
                        ),
                        s2,
                    ),
                    Some(b) => match plain_nodes(
                        s2,
                        ans,
                        b@,
                        0,
                        false,
                        Seq::empty(),
                        Seq::empty(),
                        fuel,
                    ) {
                        (Err(h), s3) => (Err(h), s3),
                        (Ok(inner), s3) => (Ok(acc.push(block(name@, p, inner, l))), s3),
                    },
                }
            },
        },
        Stmt::Keyframes { name, prelude, body, lines } => match trimmed_template(
            s,
            ans,
            prelude@,
            fuel,
        ) {
            (Err(h), s1) => (Err(h), s1),
            (Ok(p), s1) => match plain_nodes(
                s1,
                ans,
                body@,
                0,
                false,
                Seq::empty(),
                Seq::empty(),
                fuel,
            ) {
                (Err(h), s2) => (Err(h), s2),
                (Ok(inner), s2) => {
                    let (l, s3) = stamped(s2, lines);
                    (Ok(acc.push(block(name@, p, inner, l))), s3)
                },
            },
        },
        Stmt::CssCustomAtRule { name, prelude, body } => match custom_at_rule(
            s,
            ans,
            name@,
            prelude@,
            body@,
            fuel,
        ) {
            (Err(h), s1) => (Err(h), s1),
            (Ok(n), s1) => (Ok(acc.push(n)), s1),
        },
        _ => (Ok(acc), s),
    }
}

/// The nodes that statements outside rules come to, from `i` on, after `acc`.
pub open spec fn plain_nodes(
    s: Ev,
    ans: Seq<Answer>,
    stmts: Seq<Stmt>,
    i: int,
    top: bool,
    parents: Seq<Seq<char>>,
    acc: Seq<Node>,
    fuel: nat,
) -> Run<Seq<Node>>
    decreases stmts, stmts.len() - i,
{
    if i < 0 || i >= stmts.len() {
        (Ok(acc), s)
    } else {
        match plain_node(s, ans, stmts[i], top, parents, acc, fuel) {
            (Err(h), s1) => (Err(h), s1),
            (Ok(a), s1) => plain_nodes(s1, ans, stmts, i + 1, top, parents, a, fuel),
        }
    }
}

/// The sink with a plain CSS file below the parents.
#[verifier::opaque]
pub open spec fn plain_sheet(
    s: Ev,
    ans: Seq<Answer>,
    stmts: Seq<Stmt>,
    parents: Seq<Seq<char>>,
    d: Drain,
    fuel: nat,
) -> Run<Drain> {
    let r = plain_nodes(Ev { plain: true, ..s }, ans, stmts, 0, true, parents, Seq::empty(), fuel);
    let s1 = Ev { plain: s.plain, ..r.1 };
    match r.0 {
        Err(h) => (Err(h), s1),
        Ok(list) => (Ok(with_at_rules(d, list)), s1),
    }
}

// ---- execution -----------------------------------------------------------

pub open spec fn out_items(r: Result<Vec<OutItem>, Stop>) -> Result<Seq<Item>, Halt> {
    match r {
        Ok(l) => Ok(items(l@)),
        Err(e) => Err(e@),
    }
}

pub open spec fn out_children(r: Result<(Vec<OutItem>, Vec<OutNode>), Stop>) -> Result<
    (Seq<Item>, Seq<Node>),
    Halt,
> {
    match r {
        Ok(t) => Ok((items(t.0@), nodes(t.1@))),
        Err(e) => Err(e@),
    }
}

pub open spec fn out_drain(r: Result<Sink, Stop>) -> Result<Drain, Halt> {
    match r {
        Ok(d) => Ok(d@),
        Err(e) => Err(e@),
    }
}

pub fn empty_items() -> (r: Vec<OutItem>)
    ensures
        items(r@) == Seq::<Item>::empty(),
{
    let r: Vec<OutItem> = Vec::new();
    proof {
        assert(items(r@) =~= Seq::empty());
    }
    r
}

fn add_nested(acc: Vec<OutItem>, name: &str, prelude: String, inner: Vec<OutItem>) -> (r: Vec<OutItem>)
    ensures
        items(r@) == with_nested(items(acc@), name@, prelude@, items(inner@)),
{
    let mut out = acc;
    if inner.len() > 0 {
        add_item(&mut out, OutItem::NestedAtRule { name: name.to_owned(), prelude, items: inner });
    }
    out
}

fn add_imports(acc: Vec<OutItem>, ts: &Vec<String>) -> (r: Vec<OutItem>)
    ensures
        items(r@) == items(acc@) + import_items(texts(ts@)),
{
    let ghost before = items(acc@);
    let ghost all = import_items(texts(ts@));
    let mut out = acc;
    let mut i: usize = 0;
    proof {
        assert(before + all.take(0) =~= before);
    }
    while i < ts.len()
        invariant
            i <= ts@.len(),
            all == import_items(texts(ts@)),
            items(out@) == before + all.take(i as int),
        decreases ts@.len() - i,
    {
        add_item(
            &mut out,
            OutItem::ChildlessAtRule {
                name: "import".to_owned(),
                prelude: ts[i].clone(),
                lines: SrcLines { file: 0, start: 0, end: 0, col: 0 },
            },
        );
        i += 1;
        proof {
            assert(before + all.take(i as int) =~= (before + all.take(i - 1)).push(all[i - 1]));
        }
    }
    proof {
        assert(all.take(i as int) =~= all);
    }
    out
}

/// An import as a node.
pub fn make_import(t: &str) -> (r: OutNode)
    ensures
        node(r) == import_node(t@),
{
    OutNode::Raw(cat3("@import ", t, ";"))
}

fn add_import_nodes(acc: Vec<OutNode>, ts: &Vec<String>) -> (r: Vec<OutNode>)
    ensures
        nodes(r@) == nodes(acc@) + import_nodes(texts(ts@)),
{
    let ghost before = nodes(acc@);
    let ghost all = import_nodes(texts(ts@));
    let mut out = acc;
    let mut i: usize = 0;
    proof {
        assert(before + all.take(0) =~= before);
    }
    while i < ts.len()
        invariant
            i <= ts@.len(),
            all == import_nodes(texts(ts@)),
            nodes(out@) == before + all.take(i as int),
        decreases ts@.len() - i,
    {
        push_node(&mut out, make_import(ts[i].as_str()));
        i += 1;
        proof {
            assert(before + all.take(i as int) =~= (before + all.take(i - 1)).push(all[i - 1]));
        }
    }
    proof {
        assert(all.take(i as int) =~= all);
    }
    out
}

fn add_bubbled(acc: Vec<OutNode>, name: &str, prelude: String, inner: Vec<OutItem>, selectors: &Vec<String>) -> (r: Vec<
    OutNode,
>)
    ensures
        nodes(r@) == with_bubbled(
            nodes(acc@),
            name@,
            prelude@,
            items(inner@),
            texts(selectors@),
        ),
{
    let mut out = acc;
    if inner.len() > 0 {
        let none: Vec<bool> = Vec::new();
        proof {
            assert(none@ =~= Seq::empty());
        }
        let rule = OutNode::Rule {
            selectors: clone_strings(selectors),
            linebreaks: none,
            items: inner,
            lines: SrcLines { file: 0, start: 0, end: 0, col: 0 },
        };
        let body = one_node(rule);
        push_node(
            &mut out,
            make_block(name, prelude, body, SrcLines { file: 0, start: 0, end: 0, col: 0 }),
        );
    }
    out
}

impl Evaluator {
    fn css_selectors(&mut self, ans: &Vec<Answer>, sel: &Vec<TplPiece>, top: bool, fuel: usize) -> (r: Result<
        Vec<String>,
        Stop,
    >)
        ensures
            (out_texts(r), final(self)@) == plain_selectors(
                old(self)@,
                ans@,
                sel@,
                top,
                fuel as nat,
            ),
            same_place(old(self)@, final(self)@),
    {
        proof {
            reveal(plain_selectors);
        }
        let t = match self.eval_template(ans, sel, fuel) {
            Ok(t) => t,
            Err(x) => {
                return Err(x);
            },
        };
        let parts = split_filled(t.as_str());
        let ghost all = texts(parts@);
        let ghost goal = plain_selectors(old(self)@, ans@, sel@, top, fuel as nat);
        let mut i: usize = 0;
        while i < parts.len()
            invariant
                same_place(old(self)@, self@),
                i <= parts@.len(),
                all == texts(parts@),
                goal == plain_selectors(old(self)@, ans@, sel@, top, fuel as nat),
                goal == (match plain_parts_fault(all, top, i as int) {
                    Some(m) => fail::<Seq<Seq<char>>>(fault(m), self@),
                    None => (Ok::<Seq<Seq<char>>, Halt>(all), self@),
                }),
            decreases parts@.len() - i,
        {
            proof {
                reveal(plain_selectors);
            }
            match validate_plain_css_selector(parts[i].as_str(), top) {
                Ok(()) => {},
                Err(e) => {
                    return Err(Stop::Error(e));
                },
            }
            i += 1;
        }
        Ok(parts)
    }

    fn import_texts(&mut self, ans: &Vec<Answer>, args: &Vec<ImportArg>, fuel: usize) -> (r: Result<
        Vec<String>,
        Stop,
    >)
        ensures
            (out_texts(r), final(self)@) == import_texts(
                old(self)@,
                ans@,
                args@,
                0,
                Seq::empty(),
                fuel as nat,
            ),
            same_place(old(self)@, final(self)@),
    {
        let ghost goal = import_texts(old(self)@, ans@, args@, 0, Seq::empty(), fuel as nat);
        let mut acc = empty_strings();
        let mut i: usize = 0;
        while i < args.len()
            invariant
                same_place(old(self)@, self@),
                i <= args@.len(),
                goal == import_texts(old(self)@, ans@, args@, 0, Seq::empty(), fuel as nat),
                import_texts(self@, ans@, args@, i as int, texts(acc@), fuel as nat) == goal,
            decreases args@.len() - i,
        {
            match &args[i] {
                ImportArg::Css { url, modifiers } => match self.serialize_css_import(
                    ans,
                    url,
                    modifiers,
                    fuel,
                ) {
                    Ok(t) => {
                        push_string(&mut acc, t);
                    },
                    Err(x) => {
                        return Err(x);
                    },
                },
                ImportArg::Sass { path, .. } => {
                    push_string(&mut acc, cat3("\"", path.as_str(), "\""));
                },
            }
            i += 1;
        }
        Ok(acc)
    }

    fn plain_decl(&mut self, ans: &Vec<Answer>, d: &Declaration, fuel: usize) -> (r: Result<OutItem, Stop>)
        ensures
            (out_item(r), final(self)@) == plain_decl(old(self)@, ans@, *d, fuel as nat),
            same_place(old(self)@, final(self)@),
    {
        proof {
            reveal(plain_decl);
        }
        let prop = match self.trimmed_template(ans, &d.property, fuel) {
            Ok(t) => t,
            Err(x) => {
                return Err(x);
            },
        };
        let value = match self.wide_text(ans, &d.value, fuel) {
            Ok(t) => t,
            Err(x) => {
                return Err(x);
            },
        };
        let lines = self.stamp(lines_of_decl(d.pos, d.end_line));
        Ok(OutItem::Decl { prop, value, important: d.important, custom: false, lines })
    }

    fn media_prelude(&mut self, ans: &Vec<Answer>, list: &MediaQueryList, fuel: usize) -> (r: Result<
        String,
        Stop,
    >)
        ensures
            (out_text(r), final(self)@) == media_prelude(old(self)@, ans@, *list, fuel as nat),
            same_place(old(self)@, final(self)@),
    {
        proof {
            reveal(media_prelude);
        }
        match self.resolve_media_queries(ans, list, fuel) {
            Err(x) => Err(x),
            Ok(qs) => Ok(serialize_media_queries(&qs)),
        }
    }

    fn css_body_stmt(&mut self, ans: &Vec<Answer>, stmt: &Stmt, acc: Vec<OutItem>, fuel: usize) -> (r: Result<
        Vec<OutItem>,
        Stop,
    >)
        ensures
            (out_items(r), final(self)@) == plain_item(
                old(self)@,
                ans@,
                *stmt,
                items(acc@),
                fuel as nat,
            ),
            same_place(old(self)@, final(self)@),
        decreases stmt, 0int,
    {
        let mut acc = acc;
        match stmt {
            Stmt::Decl(d) => match self.plain_decl(ans, d, fuel) {
                Err(x) => Err(x),
                Ok(i) => {
                    add_item(&mut acc, i);
                    Ok(acc)
                },
            },
            Stmt::CustomDecl(d) => match self.eval_custom_decl(ans, d, fuel) {
                Err(x) => Err(x),
                Ok(i) => {
                    add_item(&mut acc, i);
                    Ok(acc)
                },
            },
            Stmt::Rule(r) => {
                let selectors = match self.css_selectors(ans, &r.selector, false, fuel) {
                    Ok(l) => l,
                    Err(x) => {
                        return Err(x);
                    },
                };
                match self.css_body(ans, &r.body, fuel) {
                    Err(x) => Err(x),
                    Ok(inner) => {
                        if inner.len() > 0 {
                            add_item(&mut acc, OutItem::NestedRule { selectors, items: inner });
                        }
                        Ok(acc)
                    },
                }
            },
            Stmt::Comment(c, lines) => match self.eval_template(ans, c, fuel) {
                Err(x) => Err(x),
                Ok(t) => {
                    let l = self.stamp(*lines);
                    add_item(&mut acc, OutItem::Comment(t, l));
                    Ok(acc)
                },
            },
            Stmt::Import(args) => match self.import_texts(ans, args, fuel) {
                Err(x) => Err(x),
                Ok(ts) => Ok(add_imports(acc, &ts)),
            },
            Stmt::Media { query, body, .. } => {
                let p = match self.media_prelude(ans, query, fuel) {
                    Ok(p) => p,
                    Err(x) => {
                        return Err(x);
                    },
                };
                match self.css_body(ans, body, fuel) {
                    Err(x) => Err(x),
                    Ok(inner) => Ok(add_nested(acc, "media", p, inner)),
                }
            },
            Stmt::Supports { condition, body } => {
                let p = match self.serialize_supports_condition(ans, condition, fuel) {
                    Ok(p) => p,
                    Err(x) => {
                        return Err(x);
                    },
                };
                match self.css_body(ans, body, fuel) {
                    Err(x) => Err(x),
                    Ok(inner) => Ok(add_nested(acc, "supports", p, inner)),
                }
            },
            Stmt::AtRule { name, prelude, body, lines } => {
                let p = match self.trimmed_template(ans, prelude, fuel) {
                    Ok(p) => p,
                    Err(x) => {
                        return Err(x);
                    },
                };
                match body {
                    None => {
                        let l = self.stamp(*lines);
                        add_item(
                            &mut acc,
                            OutItem::ChildlessAtRule { name: name.clone(), prelude: p, lines: l },
                        );
                        Ok(acc)
                    },
                    Some(b) => match self.css_body(ans, b, fuel) {
                        Err(x) => Err(x),
                        Ok(inner) => Ok(add_nested(acc, name.as_str(), p, inner)),
                    },
                }
            },
            Stmt::Keyframes { name, prelude, body, .. } => {
                let p = match self.trimmed_template(ans, prelude, fuel) {
                    Ok(p) => p,
                    Err(x) => {
                        return Err(x);
                    },
                };
                match self.css_body(ans, body, fuel) {
                    Err(x) => Err(x),
                    Ok(inner) => Ok(add_nested(acc, name.as_str(), p, inner)),
                }
            },
            _ => Ok(acc),
        }
    }

    fn css_body(&mut self, ans: &Vec<Answer>, stmts: &Vec<Stmt>, fuel: usize) -> (r: Result<
        Vec<OutItem>,
        Stop,
    >)
        ensures
            (out_items(r), final(self)@) == plain_items(
                old(self)@,
                ans@,
                stmts@,
                0,
                Seq::empty(),
                fuel as nat,
            ),
            same_place(old(self)@, final(self)@),
        decreases stmts@, stmts@.len(),
    {
        let ghost goal = plain_items(old(self)@, ans@, stmts@, 0, Seq::empty(), fuel as nat);
        let mut acc = empty_items();
        let mut i: usize = 0;
        while i < stmts.len()
            invariant
                same_place(old(self)@, self@),
                i <= stmts@.len(),
                goal == plain_items(old(self)@, ans@, stmts@, 0, Seq::empty(), fuel as nat),
                plain_items(self@, ans@, stmts@, i as int, items(acc@), fuel as nat) == goal,
            decreases stmts@.len() - i,
        {
            match self.css_body_stmt(ans, &stmts[i], acc, fuel) {
                Ok(a) => {
                    acc = a;
                },
                Err(x) => {
                    return Err(x);
                },
            }
            i += 1;
        }
        Ok(acc)
    }

    fn css_rule_child(
        &mut self,
        ans: &Vec<Answer>,
        stmt: &Stmt,
        selectors: &Vec<String>,
        items_so_far: Vec<OutItem>,
        bubbled: Vec<OutNode>,
        fuel: usize,
    ) -> (r: Result<(Vec<OutItem>, Vec<OutNode>), Stop>)
        ensures
            (out_children(r), final(self)@) == plain_child(
                old(self)@,
                ans@,
                *stmt,
                texts(selectors@),
                items(items_so_far@),
                nodes(bubbled@),
                fuel as nat,
            ),
            same_place(old(self)@, final(self)@),
    {
        proof {
            reveal(plain_child);
        }
        match stmt {
            Stmt::Media { query, body, .. } => {
                let p = match self.media_prelude(ans, query, fuel) {
                    Ok(p) => p,
                    Err(x) => {
                        return Err(x);
                    },
                };
                match self.css_body(ans, body, fuel) {
                    Err(x) => Err(x),
                    Ok(inner) => Ok((items_so_far, add_bubbled(bubbled, "media", p, inner, selectors))),
                }
            },
            Stmt::Supports { condition, body } => {
                let p = match self.serialize_supports_condition(ans, condition, fuel) {
                    Ok(p) => p,
                    Err(x) => {
                        return Err(x);
                    },
                };
                match self.css_body(ans, body, fuel) {
                    Err(x) => Err(x),
                    Ok(inner) => Ok(
                        (items_so_far, add_bubbled(bubbled, "supports", p, inner, selectors)),
                    ),
                }
            },
            Stmt::AtRule { name, prelude, body: Some(b), .. } => {
                let p = match self.trimmed_template(ans, prelude, fuel) {
                    Ok(p) => p,
                    Err(x) => {
                        return Err(x);
                    },
                };
                match self.css_body(ans, b, fuel) {
                    Err(x) => Err(x),
                    Ok(inner) => Ok(
                        (items_so_far, add_bubbled(bubbled, name.as_str(), p, inner, selectors)),
                    ),
                }
            },
            Stmt::Keyframes { name, prelude, body, .. } => {
                let p = match self.trimmed_template(ans, prelude, fuel) {
                    Ok(p) => p,
                    Err(x) => {
                        return Err(x);
                    },
                };
                match self.css_body(ans, body, fuel) {
                    Err(x) => Err(x),
                    Ok(inner) => Ok(
                        (items_so_far, add_bubbled(bubbled, name.as_str(), p, inner, selectors)),
                    ),
                }
            },
            other => match self.css_body_stmt(ans, other, items_so_far, fuel) {
                Err(x) => Err(x),
                Ok(a) => Ok((a, bubbled)),
            },
        }
    }

    fn css_rule_children(&mut self, ans: &Vec<Answer>, stmts: &Vec<Stmt>, selectors: &Vec<String>, fuel: usize) -> (r: Result<
        (Vec<OutItem>, Vec<OutNode>),
        Stop,
    >)
        ensures
            (out_children(r), final(self)@) == plain_children(
                old(self)@,
                ans@,
                stmts@,
                0,
                texts(selectors@),
                Seq::empty(),
                Seq::empty(),
                fuel as nat,
            ),
            same_place(old(self)@, final(self)@),
    {
        let ghost sel = texts(selectors@);
        let ghost goal = plain_children(
            old(self)@,
            ans@,
            stmts@,
            0,
            sel,
            Seq::empty(),
            Seq::empty(),
            fuel as nat,
        );
        let mut list = empty_items();
        let mut bubbled = empty_nodes();
        let mut i: usize = 0;
        while i < stmts.len()
            invariant
                same_place(old(self)@, self@),
                i <= stmts@.len(),
                sel == texts(selectors@),
                goal == plain_children(
                    old(self)@,
                    ans@,
                    stmts@,
                    0,
                    sel,
                    Seq::empty(),
                    Seq::empty(),
                    fuel as nat,
                ),
                plain_children(
                    self@,
                    ans@,
                    stmts@,
                    i as int,
                    sel,
                    items(list@),
                    nodes(bubbled@),
                    fuel as nat,
                ) == goal,
            decreases stmts@.len() - i,
        {
            match self.css_rule_child(ans, &stmts[i], selectors, list, bubbled, fuel) {
                Ok((a, b)) => {
                    list = a;
                    bubbled = b;
                },
                Err(x) => {
                    return Err(x);
                },
            }
            i += 1;
        }
        Ok((list, bubbled))
    }

    fn css_rule(
        &mut self,
        ans: &Vec<Answer>,
        r: &Rule,
        top: bool,
        parents: &Vec<String>,
        acc: Vec<OutNode>,
        fuel: usize,
    ) -> (o: Result<Vec<OutNode>, Stop>)
        ensures
            (out_nodes(o), final(self)@) == plain_rule(
                old(self)@,
                ans@,
                *r,
                top,
                texts(parents@),
                nodes(acc@),
                fuel as nat,
            ),
            same_place(old(self)@, final(self)@),
    {
        proof {
            reveal(plain_rule);
        }
        let own = match self.css_selectors(ans, &r.selector, top, fuel) {
            Ok(l) => l,
            Err(x) => {
                return Err(x);
            },
        };
        let selectors = if parents.len() == 0 {
            own
        } else {
            join_descendants(parents, &own)
        };
        let (list, bubbled) = match self.css_rule_children(ans, &r.body, &selectors, fuel) {
            Ok(t) => t,
            Err(x) => {
                return Err(x);
            },
        };
        let mut out = acc;
        if list.len() > 0 {
            let lines = self.stamp(
                SrcLines { file: 0, start: r.lines.start, end: r.lines.end, col: 0 },
            );
            let none: Vec<bool> = Vec::new();
            proof {
                assert(none@ =~= Seq::empty());
            }
            push_node(&mut out, OutNode::Rule { selectors, linebreaks: none, items: list, lines });
        }
        push_nodes(&mut out, bubbled);
        Ok(out)
    }

    fn css_stmt(
        &mut self,
        ans: &Vec<Answer>,
        stmt: &Stmt,
        top: bool,
        parents: &Vec<String>,
        acc: Vec<OutNode>,
        fuel: usize,
    ) -> (r: Result<Vec<OutNode>, Stop>)
        ensures
            (out_nodes(r), final(self)@) == plain_node(
                old(self)@,
                ans@,
                *stmt,
                top,
                texts(parents@),
                nodes(acc@),
                fuel as nat,
            ),
            same_place(old(self)@, final(self)@),
        decreases stmt, 0int,
    {
        let mut acc = acc;
        match stmt {
            Stmt::Rule(r) => self.css_rule(ans, r, top, parents, acc, fuel),
            Stmt::Decl(d) => {
                if top {
                    return Ok(acc);
                }
                match self.plain_decl(ans, d, fuel) {
                    Err(x) => Err(x),
                    Ok(i) => {
                        push_node(&mut acc, lift_child(i));
                        Ok(acc)
                    },
                }
            },
            Stmt::CustomDecl(d) => {
                if top {
                    return Ok(acc);
                }
                match self.eval_custom_decl(ans, d, fuel) {
                    Err(x) => Err(x),
                    Ok(i) => {
                        push_node(&mut acc, lift_child(i));
                        Ok(acc)
                    },
                }
            },
            Stmt::Comment(c, lines) => match self.eval_template(ans, c, fuel) {
                Err(x) => Err(x),
                Ok(t) => {
                    let l = self.stamp(*lines);
                    push_node(&mut acc, OutNode::Comment(t, l));
                    Ok(acc)
                },
            },
            Stmt::Import(args) => match self.import_texts(ans, args, fuel) {
                Err(x) => Err(x),
                Ok(ts) => Ok(add_import_nodes(acc, &ts)),
            },
            Stmt::Media { query, body, lines } => {
                let p = match self.media_prelude(ans, query, fuel) {
                    Ok(p) => p,
                    Err(x) => {
                        return Err(x);
                    },
                };
                match self.css_at_body(ans, body, false, &empty_strings(), fuel) {
                    Err(x) => Err(x),
                    Ok(inner) => {
                        if inner.len() > 0 {
                            let l = self.stamp(*lines);
                            push_node(&mut acc, make_block("media", p, inner, l));
                        }
                        Ok(acc)
                    },
                }
            },
            Stmt::Supports { condition, body } => {
                let p = match self.serialize_supports_condition(ans, condition, fuel) {
                    Ok(p) => p,
                    Err(x) => {
                        return Err(x);
                    },
                };
                match self.css_at_body(ans, body, false, &empty_strings(), fuel) {
                    Err(x) => Err(x),
                    Ok(inner) => {
                        if inner.len() > 0 {
                            push_node(
                                &mut acc,
                                make_block(
                                    "supports",
                                    p,
                                    inner,
                                    SrcLines { file: 0, start: 0, end: 0, col: 0 },
                                ),
                            );
                        }
                        Ok(acc)
                    },
                }
            },
            Stmt::AtRule { name, prelude, body, lines } => {
                let p = match self.trimmed_template(ans, prelude, fuel) {
                    Ok(p) => p,
                    Err(x) => {
                        return Err(x);
                    },
                };
                let l = self.stamp(*lines);
                match body {
                    None => {
                        push_node(
                            &mut acc,
                            OutNode::AtRule {
                                name: name.clone(),
                                prelude: p,
                                body: empty_nodes(),
                                has_block: false,
                                lines: l,
                            },
                        );
                        Ok(acc)
                    },
                    Some(b) => match self.css_at_body(ans, b, false, &empty_strings(), fuel) {
                        Err(x) => Err(x),
                        Ok(inner) => {
                            push_node(&mut acc, make_block(name.as_str(), p, inner, l));
                            Ok(acc)
                        },
                    },
                }
            },
            Stmt::Keyframes { name, prelude, body, lines } => {
                let p = match self.trimmed_template(ans, prelude, fuel) {
                    Ok(p) => p,
                    Err(x) => {
                        return Err(x);
                    },
                };
                match self.css_at_body(ans, body, false, &empty_strings(), fuel) {
                    Err(x) => Err(x),
                    Ok(inner) => {
                        let l = self.stamp(*lines);
                        push_node(&mut acc, make_block(name.as_str(), p, inner, l));
                        Ok(acc)
                    },
                }
            },
            Stmt::CssCustomAtRule { name, prelude, body } => {
                match self.eval_css_custom_at_rule(ans, name.as_str(), prelude, body, fuel) {
                    Err(x) => Err(x),
                    Ok(n) => {
                        push_node(&mut acc, n);
                        Ok(acc)
                    },
                }
            },
            _ => Ok(acc),
        }
    }

    pub fn css_at_body(
        &mut self,
        ans: &Vec<Answer>,
        stmts: &Vec<Stmt>,
        top: bool,
        parents: &Vec<String>,
        fuel: usize,
    ) -> (r: Result<Vec<OutNode>, Stop>)
        ensures
            (out_nodes(r), final(self)@) == plain_nodes(
                old(self)@,
                ans@,
                stmts@,
                0,
                top,
                texts(parents@),
                Seq::empty(),
                fuel as nat,
            ),
            same_place(old(self)@, final(self)@),
        decreases stmts@, stmts@.len(),
    {
        let ghost ps = texts(parents@);
        let ghost goal = plain_nodes(
            old(self)@,
            ans@,
            stmts@,
            0,
            top,
            ps,
            Seq::empty(),
            fuel as nat,
        );
        let mut acc = empty_nodes();
        let mut i: usize = 0;
        while i < stmts.len()
            invariant
                same_place(old(self)@, self@),
                i <= stmts@.len(),
                ps == texts(parents@),
                goal == plain_nodes(
                    old(self)@,
                    ans@,
                    stmts@,
                    0,
                    top,
                    ps,
                    Seq::empty(),
                    fuel as nat,
                ),
                plain_nodes(self@, ans@, stmts@, i as int, top, ps, nodes(acc@), fuel as nat) == goal,
            decreases stmts@.len() - i,
        {
            match self.css_stmt(ans, &stmts[i], top, parents, acc, fuel) {
                Ok(a) => {
                    acc = a;
                },
                Err(x) => {
                    return Err(x);
                },
            }
            i += 1;
        }
        Ok(acc)
    }

    /// Run a plain CSS file.
    pub fn exec_css(
        &mut self,
        ans: &Vec<Answer>,
        stmts: &Vec<Stmt>,
        parents: &Vec<String>,
        sink: Sink,
        fuel: usize,
    ) -> (r: Result<Sink, Stop>)
        ensures
            (out_drain(r), final(self)@) == plain_sheet(
                old(self)@,
                ans@,
                stmts@,
                texts(parents@),
                sink@,
                fuel as nat,
            ),
            same_place(old(self)@, final(self)@),
    {
        proof {
            reveal(plain_sheet);
        }
        let saved = self.in_plain();
        self.set_plain(true);
        let r = self.css_at_body(ans, stmts, true, parents, fuel);
        self.set_plain(saved);
        match r {
            Err(x) => Err(x),
            Ok(list) => {
                let mut sink = sink;
                sink.push_at_rules(list);
                Ok(sink)
            },
        }
    }
}

} // verus!
