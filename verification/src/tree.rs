//! Passes over the output tree: hoisting of CSS imports, at-rule bodies split around what left
//! them, and the nesting of a module's output under a rule.

use vstd::prelude::*;
use crate::out::{
    Item, Mark, Node, OutItem, OutNode, SrcLines, copy_items, copy_node, copy_nodes, item, items,
    node, nodes, one_node, push_group, push_node, push_nodes, unmarked, with_group,
};
use crate::text::{append_str, chars_of, clone_strings, starts, starts_with, string_of, texts};

verus! {

// ---- leading blank lines -------------------------------------------------

/// `s` without its leading blank lines.
pub open spec fn without_leading_blanks(s: Seq<Node>) -> Seq<Node>
    decreases s.len(),
{
    if s.len() > 0 && s[0] == Node::Blank {
        without_leading_blanks(s.skip(1))
    } else {
        s
    }
}

/// Drop the blank lines at the start of a list.
pub fn trim_leading_blanks(list: &mut Vec<OutNode>)
    ensures
        nodes(final(list)@) == without_leading_blanks(nodes(old(list)@)),
{
    while list.len() > 0 && matches!(&list[0], OutNode::Blank)
        invariant
            without_leading_blanks(nodes(list@)) == without_leading_blanks(nodes(old(list)@)),
        decreases list@.len(),
    {
        let ghost before = nodes(list@);
        list.remove(0);
        proof {
            assert(nodes(list@) =~= before.skip(1));
        }
    }
    proof {
        if list@.len() > 0 {
            assert(nodes(list@)[0] == node(list@[0]));
        }
    }
}

// ---- CSS imports ---------------------------------------------------------

/// A passed-through `@import`.
pub open spec fn is_import(n: Node) -> bool {
    n is Raw && starts(n->Raw_0, "@import"@)
}

/// Whether an import follows something that produces CSS, from `i` on, and whether CSS has been
/// seen by the end. Modules are looked into.
pub open spec fn late_import(s: Seq<Node>, i: int, seen: bool) -> (bool, bool)
    decreases s, s.len() - i,
{
    if i < 0 || i >= s.len() {
        (false, seen)
    } else {
        match s[i] {
            Node::ModuleScope { key, nodes } => {
                let r = late_import(nodes, 0, seen);
                if r.0 {
                    (true, r.1)
                } else {
                    late_import(s, i + 1, r.1)
                }
            },
            Node::Blank => late_import(s, i + 1, seen),
            Node::Comment(..) => late_import(s, i + 1, seen),
            n => if is_import(n) {
                if seen {
                    (true, seen)
                } else {
                    late_import(s, i + 1, seen)
                }
            } else {
                late_import(s, i + 1, true)
            },
        }
    }
}

/// The nodes from `i` on without the imports among them, and those imports. The blank line after
/// an import goes with it.
pub open spec fn extracted(s: Seq<Node>, i: int) -> (Seq<Node>, Seq<Node>)
    decreases s, s.len() - i,
{
    if i < 0 || i >= s.len() {
        (Seq::empty(), Seq::empty())
    } else if is_import(s[i]) {
        let j = if i + 1 < s.len() && s[i + 1] == Node::Blank {
            i + 2
        } else {
            i + 1
        };
        let r = extracted(s, j);
        (r.0, seq![s[i]] + r.1)
    } else {
        match s[i] {
            Node::ModuleScope { key, nodes } => {
                let e = extracted(nodes, 0);
                let r = extracted(s, i + 1);
                (seq![Node::ModuleScope { key, nodes: e.0 }] + r.0, e.1 + r.1)
            },
            n => {
                let r = extracted(s, i + 1);
                (seq![n] + r.0, r.1)
            },
        }
    }
}

/// How many comments and blank lines `s` starts with.
pub open spec fn banner_len(s: Seq<Node>, i: int) -> int
    decreases s.len() - i,
{
    if 0 <= i < s.len() && (s[i] is Comment || s[i] == Node::Blank) {
        banner_len(s, i + 1)
    } else {
        i
    }
}

/// `out` and then each of `list`, but for blank lines, as a group of its own.
pub open spec fn regrouped(out: Seq<Node>, list: Seq<Node>) -> Seq<Node>
    decreases list.len(),
{
    if list.len() == 0 {
        out
    } else {
        let before = regrouped(out, list.drop_last());
        if list.last() == Node::Blank {
            before
        } else {
            with_group(before, seq![list.last()])
        }
    }
}

/// The document with its CSS imports before everything else, but for leading comments. It is kept
/// as it is where no import follows CSS.
pub open spec fn hoisted(doc: Seq<Node>) -> Seq<Node> {
    if late_import(doc, 0, false).0 {
        let e = extracted(doc, 0);
        let k = banner_len(e.0, 0);
        regrouped(regrouped(Seq::empty(), e.0.take(k)) + e.1, e.0.skip(k))
    } else {
        doc
    }
}

fn node_is_import(n: &OutNode) -> (r: bool)
    ensures
        r == is_import(node(*n)),
{
    match n {
        OutNode::Raw(t) => {
            let chars = chars_of(t.as_str());
            starts_with(chars.as_slice(), "@import")
        },
        _ => false,
    }
}

fn scan_imports(list: &Vec<OutNode>, seen: bool) -> (r: (bool, bool))
    ensures
        r == late_import(nodes(list@), 0, seen),
    decreases list@,
{
    let mut css: bool = seen;
    let mut i: usize = 0;
    while i < list.len()
        invariant
            i <= list@.len(),
            late_import(nodes(list@), i as int, css) == late_import(nodes(list@), 0, seen),
        decreases list@.len() - i,
    {
        match &list[i] {
            OutNode::ModuleScope { key: _, nodes: inner } => {
                let r = scan_imports(inner, css);
                if r.0 {
                    return r;
                }
                css = r.1;
            },
            OutNode::Blank => {},
            OutNode::Comment(..) => {},
            n => {
                if node_is_import(n) {
                    if css {
                        return (true, css);
                    }
                } else {
                    css = true;
                }
            },
        }
        i += 1;
    }
    (false, css)
}

fn extract_imports(list: &Vec<OutNode>) -> (r: (Vec<OutNode>, Vec<OutNode>))
    ensures
        (nodes(r.0@), nodes(r.1@)) == extracted(nodes(list@), 0),
    decreases list@,
{
    let mut rest: Vec<OutNode> = Vec::new();
    let mut imports: Vec<OutNode> = Vec::new();
    let ghost all = nodes(list@);
    let ghost goal = extracted(all, 0);
    let mut i: usize = 0;
    proof {
        assert(nodes(rest@) + goal.0 =~= goal.0);
        assert(nodes(imports@) + goal.1 =~= goal.1);
    }
    while i < list.len()
        invariant
            i <= list@.len(),
            all == nodes(list@),
            goal == extracted(all, 0),
            nodes(rest@) + extracted(all, i as int).0 == goal.0,
            nodes(imports@) + extracted(all, i as int).1 == goal.1,
        decreases list@.len() - i,
    {
        let ghost r0 = nodes(rest@);
        let ghost i0 = nodes(imports@);
        proof {
            assert(all[i as int] == node(list@[i as int]));
            if i + 1 < all.len() {
                assert(all[i + 1] == node(list@[i + 1]));
            }
        }
        if node_is_import(&list[i]) {
            push_node(&mut imports, copy_node(&list[i]));
            let blank = i < list.len() - 1 && matches!(&list[i + 1], OutNode::Blank);
            let j: usize = if blank { i + 2 } else { i + 1 };
            proof {
                let t = extracted(all, j as int);
                assert(i0.push(all[i as int]) + t.1 =~= i0 + (seq![all[i as int]] + t.1));
            }
            i = j;
        } else {
            match &list[i] {
                OutNode::ModuleScope { key, nodes: inner } => {
                    let (inner_rest, inner_imports) = extract_imports(inner);
                    let ghost iv = nodes(inner_imports@);
                    let n = OutNode::ModuleScope { key: key.clone(), nodes: inner_rest };
                    push_node(&mut rest, n);
                    push_nodes(&mut imports, inner_imports);
                    proof {
                        let t = extracted(all, i + 1);
                        assert(r0.push(node(n)) + t.0 =~= r0 + (seq![node(n)] + t.0));
                        assert(i0 + iv + t.1 =~= i0 + (iv + t.1));
                    }
                },
                n => {
                    push_node(&mut rest, copy_node(n));
                    proof {
                        let t = extracted(all, i + 1);
                        assert(r0.push(node(*n)) + t.0 =~= r0 + (seq![node(*n)] + t.0));
                    }
                },
            }
            i += 1;
        }
    }
    proof {
        assert(nodes(rest@) + Seq::<Node>::empty() =~= nodes(rest@));
        assert(nodes(imports@) + Seq::<Node>::empty() =~= nodes(imports@));
    }
    (rest, imports)
}

/// Append the nodes from `from` up to `to`, but for blank lines, each as a group of its own.
fn regroup(out: &mut Vec<OutNode>, list: &Vec<OutNode>, from: usize, to: usize)
    requires
        from <= to <= list@.len(),
    ensures
        nodes(final(out)@) == regrouped(
            nodes(old(out)@),
            nodes(list@).subrange(from as int, to as int),
        ),
{
    let ghost all = nodes(list@).subrange(from as int, to as int);
    let mut i: usize = from;
    proof {
        assert(all.take(0) =~= Seq::empty());
    }
    while i < to
        invariant
            from <= i <= to <= list@.len(),
            all == nodes(list@).subrange(from as int, to as int),
            nodes(out@) == regrouped(nodes(old(out)@), all.take(i - from)),
        decreases to - i,
    {
        proof {
            assert(all.take(i + 1 - from).drop_last() =~= all.take(i - from));
            assert(all.take(i + 1 - from).last() == node(list@[i as int]));
        }
        if !matches!(&list[i], OutNode::Blank) {
            push_group(out, one_node(copy_node(&list[i])));
        }
        i += 1;
    }
    proof {
        assert(all.take(i - from) =~= all);
    }
}

/// Move every CSS import before the rest of the document, where one follows CSS.
pub fn hoist_css_imports(out: &mut Vec<OutNode>)
    ensures
        nodes(final(out)@) == hoisted(nodes(old(out)@)),
{
    if !scan_imports(out, false).0 {
        return;
    }
    let (rest, imports) = extract_imports(out);
    let n: usize = rest.len();
    let ghost all = nodes(rest@);
    let mut k: usize = 0;
    while k < n && (matches!(&rest[k], OutNode::Comment(..)) || matches!(&rest[k], OutNode::Blank))
        invariant
            n == rest@.len(),
            k <= n,
            all == nodes(rest@),
            banner_len(all, k as int) == banner_len(all, 0),
        decreases n - k,
    {
        k += 1;
    }
    let mut doc: Vec<OutNode> = Vec::new();
    proof {
        assert(nodes(doc@) =~= Seq::empty());
        if k < n {
            assert(all[k as int] == node(rest@[k as int]));
        }
        assert(all.subrange(0, k as int) =~= all.take(k as int));
        assert(all.subrange(k as int, n as int) =~= all.skip(k as int));
    }
    regroup(&mut doc, &rest, 0, k);
    push_nodes(&mut doc, imports);
    regroup(&mut doc, &rest, k, n);
    *out = doc;
}

// ---- bodies as items -----------------------------------------------------

/// The items that the nodes of an at-rule body make inside a rule.
pub open spec fn body_items(s: Seq<Node>) -> Seq<Item>
    decreases s,
{
    if s.len() == 0 {
        Seq::empty()
    } else {
        body_items(s.drop_last()) + match s.last() {
            Node::AtDecl { prop, value, important, custom, lines } => seq![
                Item::Decl { prop, value, important, custom, lines },
            ],
            Node::Comment(t, lines) => seq![Item::Comment(t, lines)],
            Node::Rule { selectors, linebreaks, items, lines } => seq![
                Item::NestedRule { selectors, items },
            ],
            Node::AtRule { name, prelude, body, has_block, lines } => if has_block {
                seq![Item::NestedAtRule { name, prelude, items: body_items(body) }]
            } else {
                seq![Item::ChildlessAtRule { name, prelude, lines }]
            },
            Node::ModuleScope { key, nodes } => body_items(nodes),
            _ => Seq::empty(),
        }
    }
}

fn append_items(out: &mut Vec<OutItem>, more: Vec<OutItem>)
    ensures
        items(final(out)@) == items(old(out)@) + items(more@),
{
    let mut more = more;
    let ghost mv = items(more@);
    out.append(&mut more);
    proof {
        assert(items(final(out)@) =~= items(old(out)@) + mv);
    }
}

fn append_one(out: &mut Vec<OutItem>, i: OutItem)
    ensures
        items(final(out)@) == items(old(out)@) + seq![item(i)],
{
    out.push(i);
    proof {
        assert(items(final(out)@) =~= items(old(out)@) + seq![item(i)]);
    }
}

/// The items that the nodes of an at-rule body make inside a keyframe block.
pub fn at_body_to_items(list: &Vec<OutNode>) -> (r: Vec<OutItem>)
    ensures
        items(r@) == body_items(nodes(list@)),
    decreases list@,
{
    let ghost all = nodes(list@);
    let mut out: Vec<OutItem> = Vec::new();
    let mut i: usize = 0;
    proof {
        assert(items(out@) =~= Seq::empty());
    }
    while i < list.len()
        invariant
            i <= list@.len(),
            all == nodes(list@),
            items(out@) == body_items(all.take(i as int)),
        decreases list@.len() - i,
    {
        let ghost before = items(out@);
        proof {
            assert(all.take(i + 1).drop_last() =~= all.take(i as int));
            assert(all.take(i + 1).last() == node(list@[i as int]));
            assert(before + Seq::<Item>::empty() =~= before);
        }
        match &list[i] {
            OutNode::AtDecl { prop, value, important, custom, lines } => {
                append_one(
                    &mut out,
                    OutItem::Decl {
                        prop: prop.clone(),
                        value: value.clone(),
                        important: *important,
                        custom: *custom,
                        lines: *lines,
                    },
                );
            },
            OutNode::Comment(t, lines) => {
                append_one(&mut out, OutItem::Comment(t.clone(), *lines));
            },
            OutNode::Rule { selectors, linebreaks: _, items: inner, lines: _ } => {
                append_one(
                    &mut out,
                    OutItem::NestedRule {
                        selectors: clone_strings(selectors),
                        items: copy_items(inner),
                    },
                );
            },
            OutNode::AtRule { name, prelude, body, has_block, lines } => {
                if *has_block {
                    append_one(
                        &mut out,
                        OutItem::NestedAtRule {
                            name: name.clone(),
                            prelude: prelude.clone(),
                            items: at_body_to_items(body),
                        },
                    );
                } else {
                    append_one(
                        &mut out,
                        OutItem::ChildlessAtRule {
                            name: name.clone(),
                            prelude: prelude.clone(),
                            lines: *lines,
                        },
                    );
                }
            },
            OutNode::ModuleScope { key: _, nodes: inner } => {
                append_items(&mut out, at_body_to_items(inner));
            },
            OutNode::Raw(_) => {},
            OutNode::Blank => {},
            OutNode::Mark(_) => {},
        }
        i += 1;
    }
    proof {
        assert(all.take(i as int) =~= all);
    }
    out
}

// ---- nesting under a rule ------------------------------------------------

/// Every selector below every parent.
pub open spec fn descendants(parents: Seq<Seq<char>>, selectors: Seq<Seq<char>>) -> Seq<Seq<char>>
    decreases parents.len(),
{
    if parents.len() == 0 {
        Seq::empty()
    } else {
        descendants(parents.drop_last(), selectors) + Seq::new(
            selectors.len(),
            |i: int| parents.last().push(' ') + selectors[i],
        )
    }
}

/// The nodes with every style rule below the parents; at-rules are looked into.
pub open spec fn reparented(s: Seq<Node>, parents: Seq<Seq<char>>) -> Seq<Node>
    decreases s,
{
    Seq::new(
        s.len(),
        |i: int|
            if 0 <= i < s.len() {
                match s[i] {
                    Node::Rule { selectors, linebreaks, items, lines } => Node::Rule {
                        selectors: descendants(parents, selectors),
                        linebreaks: Seq::empty(),
                        items,
                        lines,
                    },
                    Node::AtRule { name, prelude, body, has_block, lines } => Node::AtRule {
                        name,
                        prelude,
                        body: reparented(body, parents),
                        has_block,
                        lines,
                    },
                    n => n,
                }
            } else {
                arbitrary()
            },
    )
}

pub fn join_descendants(parents: &Vec<String>, selectors: &Vec<String>) -> (r: Vec<String>)
    ensures
        texts(r@) == descendants(texts(parents@), texts(selectors@)),
{
    let ghost ps = texts(parents@);
    let ghost ss = texts(selectors@);
    let mut out: Vec<String> = Vec::new();
    let mut p: usize = 0;
    proof {
        assert(texts(out@) =~= Seq::empty());
    }
    while p < parents.len()
        invariant
            p <= parents@.len(),
            ps == texts(parents@),
            ss == texts(selectors@),
            texts(out@) == descendants(ps.take(p as int), ss),
        decreases parents@.len() - p,
    {
        let ghost before = texts(out@);
        let ghost added = Seq::new(ss.len(), |i: int| ps[p as int].push(' ') + ss[i]);
        let mut k: usize = 0;
        proof {
            assert(before + added.take(0) =~= before);
        }
        while k < selectors.len()
            invariant
                k <= selectors@.len(),
                p < parents@.len(),
                ps == texts(parents@),
                ss == texts(selectors@),
                added == Seq::new(ss.len(), |i: int| ps[p as int].push(' ') + ss[i]),
                texts(out@) == before + added.take(k as int),
            decreases selectors@.len() - k,
        {
            let ghost prev = texts(out@);
            let mut t = chars_of(parents[p].as_str());
            t.push(' ');
            append_str(&mut t, selectors[k].as_str());
            out.push(string_of(t.as_slice()));
            k += 1;
            proof {
                assert(texts(out@) =~= prev.push(added[k - 1]));
                assert(before + added.take(k as int) =~= (before + added.take(k - 1)).push(added[k - 1]));
            }
        }
        proof {
            assert(added.take(k as int) =~= added);
            assert(ps.take(p + 1).drop_last() =~= ps.take(p as int));
        }
        p += 1;
    }
    proof {
        assert(ps.take(p as int) =~= ps);
    }
    out
}

fn reparent_all(list: &Vec<OutNode>, parents: &Vec<String>) -> (r: Vec<OutNode>)
    ensures
        nodes(r@) == reparented(nodes(list@), texts(parents@)),
    decreases list@,
{
    let ghost all = reparented(nodes(list@), texts(parents@));
    let mut out: Vec<OutNode> = Vec::new();
    let mut i: usize = 0;
    while i < list.len()
        invariant
            i <= list@.len(),
            all == reparented(nodes(list@), texts(parents@)),
            nodes(out@) =~= all.take(i as int),
        decreases list@.len() - i,
    {
        let n = match &list[i] {
            OutNode::Rule { selectors, linebreaks: _, items: inner, lines } => OutNode::Rule {
                selectors: join_descendants(parents, selectors),
                linebreaks: Vec::new(),
                items: copy_items(inner),
                lines: *lines,
            },
            OutNode::AtRule { name, prelude, body, has_block, lines } => OutNode::AtRule {
                name: name.clone(),
                prelude: prelude.clone(),
                body: reparent_all(body, parents),
                has_block: *has_block,
                lines: *lines,
            },
            n => copy_node(n),
        };
        proof {
            assert(nodes(list@)[i as int] == node(list@[i as int]));
            assert(node(n) == all[i as int]);
        }
        push_node(&mut out, n);
        i += 1;
        proof {
            assert(all.take(i as int) =~= all.take(i - 1).push(all[i - 1]));
        }
    }
    proof {
        assert(all.take(i as int) =~= all);
    }
    out
}

/// Nest a module's output under the rule that encloses its import; without one it is kept.
pub fn reparent_nodes(list: Vec<OutNode>, parents: &Vec<String>) -> (r: Vec<OutNode>)
    ensures
        nodes(r@) == if parents@.len() == 0 {
            nodes(list@)
        } else {
            reparented(nodes(list@), texts(parents@))
        },
{
    if parents.len() == 0 {
        return list;
    }
    reparent_all(&list, parents)
}

// ---- at-rule bodies split around what left them --------------------------

/// An at-rule with a block.
pub open spec fn block(name: Seq<char>, prelude: Seq<char>, body: Seq<Node>, lines: SrcLines) -> Node {
    Node::AtRule { name, prelude, body, has_block: true, lines }
}

/// `result` with the segment so far made an at-rule of its own.
pub open spec fn closed_segment(
    result: Seq<Node>,
    segment: Seq<Node>,
    name: Seq<char>,
    prelude: Seq<char>,
    lines: SrcLines,
) -> Seq<Node> {
    if segment.len() == 0 {
        result
    } else {
        result.push(block(name, prelude, segment, lines))
    }
}

/// The outcome of a split: the nodes, how many of the hoisted `@media` batches were placed, and
/// how many of the `@at-root` batches.
pub ghost struct Split {
    pub nodes: Seq<Node>,
    pub media: int,
    pub at_root: int,
}

/// The body of an at-rule, from `i` on, split around what left it. A hoisted `@media` batch goes
/// between two segments, where `merging` says that this is a `@media` rule; an `@at-root` batch
/// does where this at-rule is the outermost, and its mark is handed outward elsewhere.
pub open spec fn split_from(
    body: Seq<Node>,
    i: int,
    name: Seq<char>,
    prelude: Seq<char>,
    lines: SrcLines,
    merging: bool,
    outermost: bool,
    batches: Seq<Seq<Node>>,
    queue: Seq<Seq<Node>>,
    segment: Seq<Node>,
    done: Split,
) -> Split
    decreases body.len() - i,
{
    let flat = closed_segment(done.nodes, segment, name, prelude, lines);
    if i < 0 || i >= body.len() {
        Split { nodes: flat, ..done }
    } else if merging && body[i] == Node::Mark(Mark::MediaHoist) {
        let next = if 0 <= done.media < batches.len() {
            Split { nodes: flat + batches[done.media], media: done.media + 1, ..done }
        } else {
            Split { nodes: flat, ..done }
        };
        split_from(
            body, i + 1, name, prelude, lines, merging, outermost, batches, queue, Seq::empty(), next,
        )
    } else if body[i] == Node::Mark(Mark::AtRootHoist) {
        let next = if !outermost {
            Split { nodes: flat.push(body[i]), ..done }
        } else if 0 <= done.at_root < queue.len() {
            Split {
                nodes: (flat + queue[done.at_root]).push(Node::Mark(Mark::PackTight)),
                at_root: done.at_root + 1,
                ..done
            }
        } else {
            Split { nodes: flat, ..done }
        };
        split_from(
            body, i + 1, name, prelude, lines, merging, outermost, batches, queue, Seq::empty(), next,
        )
    } else {
        split_from(
            body,
            i + 1,
            name,
            prelude,
            lines,
            merging,
            outermost,
            batches,
            queue,
            segment.push(body[i]),
            done,
        )
    }
}

/// The body of an at-rule split around what left it.
pub open spec fn split_body(
    body: Seq<Node>,
    name: Seq<char>,
    prelude: Seq<char>,
    lines: SrcLines,
    merging: bool,
    outermost: bool,
    batches: Seq<Seq<Node>>,
    queue: Seq<Seq<Node>>,
) -> Split {
    split_from(
        body,
        0,
        name,
        prelude,
        lines,
        merging,
        outermost,
        batches,
        queue,
        Seq::empty(),
        Split { nodes: Seq::empty(), media: 0, at_root: 0 },
    )
}

pub open spec fn forest(v: Seq<Vec<OutNode>>) -> Seq<Seq<Node>> {
    Seq::new(v.len(), |i: int| nodes(v[i]@))
}

fn close_segment(
    result: &mut Vec<OutNode>,
    segment: Vec<OutNode>,
    name: &str,
    prelude: &str,
    lines: SrcLines,
)
    ensures
        nodes(final(result)@) == closed_segment(
            nodes(old(result)@),
            nodes(segment@),
            name@,
            prelude@,
            lines,
        ),
{
    if segment.len() > 0 {
        push_node(
            result,
            OutNode::AtRule {
                name: name.to_owned(),
                prelude: prelude.to_owned(),
                body: segment,
                has_block: true,
                lines,
            },
        );
    }
}

/// Split the body of an at-rule around what left it. Gives the nodes, and how many of the batches
/// and of the queue were placed.
pub fn split_at_rule(
    body: &Vec<OutNode>,
    name: &str,
    prelude: &str,
    lines: SrcLines,
    merging: bool,
    outermost: bool,
    batches: &Vec<Vec<OutNode>>,
    queue: &Vec<Vec<OutNode>>,
) -> (r: (Vec<OutNode>, usize, usize))
    ensures
        (Split { nodes: nodes(r.0@), media: r.1 as int, at_root: r.2 as int }) == split_body(
            nodes(body@),
            name@,
            prelude@,
            lines,
            merging,
            outermost,
            forest(batches@),
            forest(queue@),
        ),
        r.1 <= batches@.len(),
        r.2 <= queue@.len(),
{
    let ghost goal = split_body(
        nodes(body@),
        name@,
        prelude@,
        lines,
        merging,
        outermost,
        forest(batches@),
        forest(queue@),
    );
    let mut result: Vec<OutNode> = Vec::new();
    let mut segment: Vec<OutNode> = Vec::new();
    let mut m: usize = 0;
    let mut a: usize = 0;
    let mut i: usize = 0;
    proof {
        assert(nodes(result@) =~= Seq::empty());
        assert(nodes(segment@) =~= Seq::empty());
    }
    while i < body.len()
        invariant
            i <= body@.len(),
            m <= batches@.len(),
            a <= queue@.len(),
            split_from(
                nodes(body@),
                i as int,
                name@,
                prelude@,
                lines,
                merging,
                outermost,
                forest(batches@),
                forest(queue@),
                nodes(segment@),
                (Split { nodes: nodes(result@), media: m as int, at_root: a as int }),
            ) == goal,
        decreases body@.len() - i,
    {
        proof {
            assert(nodes(body@)[i as int] == node(body@[i as int]));
        }
        if merging && matches!(&body[i], OutNode::Mark(Mark::MediaHoist)) {
            close_segment(&mut result, segment, name, prelude, lines);
            segment = Vec::new();
            if m < batches.len() {
                push_nodes(&mut result, copy_nodes(&batches[m]));
                m += 1;
            }
            proof {
                assert(nodes(segment@) =~= Seq::empty());
            }
        } else if matches!(&body[i], OutNode::Mark(Mark::AtRootHoist)) {
            close_segment(&mut result, segment, name, prelude, lines);
            segment = Vec::new();
            if !outermost {
                push_node(&mut result, OutNode::Mark(Mark::AtRootHoist));
            } else if a < queue.len() {
                push_nodes(&mut result, copy_nodes(&queue[a]));
                push_node(&mut result, OutNode::Mark(Mark::PackTight));
                a += 1;
            }
            proof {
                assert(nodes(segment@) =~= Seq::empty());
            }
        } else {
            push_node(&mut segment, copy_node(&body[i]));
        }
        i += 1;
    }
    close_segment(&mut result, segment, name, prelude, lines);
    (result, m, a)
}

/// The body of a `@keyframes` rule, from `i` on, without the marks of `@at-root` batches, and what
/// follows the rule in their place.
pub open spec fn shelled(
    body: Seq<Node>,
    i: int,
    outermost: bool,
    queue: Seq<Seq<Node>>,
    shell: Seq<Node>,
    after: Split,
) -> (Seq<Node>, Split)
    decreases body.len() - i,
{
    if i < 0 || i >= body.len() {
        (shell, after)
    } else if body[i] == Node::Mark(Mark::AtRootHoist) {
        let next = if !outermost {
            Split { nodes: after.nodes.push(body[i]), ..after }
        } else if 0 <= after.at_root < queue.len() {
            Split {
                nodes: (after.nodes + queue[after.at_root]).push(Node::Mark(Mark::PackTight)),
                at_root: after.at_root + 1,
                ..after
            }
        } else {
            after
        };
        shelled(body, i + 1, outermost, queue, shell, next)
    } else {
        shelled(body, i + 1, outermost, queue, shell.push(body[i]), after)
    }
}

/// Part the body of a `@keyframes` rule from the `@at-root` batches that left it.
pub fn shell_keyframes(body: &Vec<OutNode>, outermost: bool, queue: &Vec<Vec<OutNode>>) -> (r: (
    Vec<OutNode>,
    Vec<OutNode>,
    usize,
))
    ensures
        (nodes(r.0@), (Split { nodes: nodes(r.1@), media: 0, at_root: r.2 as int })) == shelled(
            nodes(body@),
            0,
            outermost,
            forest(queue@),
            Seq::empty(),
            (Split { nodes: Seq::empty(), media: 0, at_root: 0 }),
        ),
        r.2 <= queue@.len(),
{
    let ghost goal = shelled(
        nodes(body@),
        0,
        outermost,
        forest(queue@),
        Seq::empty(),
        Split { nodes: Seq::empty(), media: 0, at_root: 0 },
    );
    let mut shell: Vec<OutNode> = Vec::new();
    let mut after: Vec<OutNode> = Vec::new();
    let mut a: usize = 0;
    let mut i: usize = 0;
    proof {
        assert(nodes(shell@) =~= Seq::empty());
        assert(nodes(after@) =~= Seq::empty());
    }
    while i < body.len()
        invariant
            i <= body@.len(),
            a <= queue@.len(),
            shelled(
                nodes(body@),
                i as int,
                outermost,
                forest(queue@),
                nodes(shell@),
                (Split { nodes: nodes(after@), media: 0, at_root: a as int }),
            ) == goal,
        decreases body@.len() - i,
    {
        proof {
            assert(nodes(body@)[i as int] == node(body@[i as int]));
        }
        if matches!(&body[i], OutNode::Mark(Mark::AtRootHoist)) {
            if !outermost {
                push_node(&mut after, OutNode::Mark(Mark::AtRootHoist));
            } else if a < queue.len() {
                push_nodes(&mut after, copy_nodes(&queue[a]));
                push_node(&mut after, OutNode::Mark(Mark::PackTight));
                a += 1;
            }
        } else {
            push_node(&mut shell, copy_node(&body[i]));
        }
        i += 1;
    }
    (shell, after, a)
}

// ---- laws ----------------------------------------------------------------

/// Nothing is moved where no import follows CSS.
pub proof fn hoisting_keeps_ordered_documents(doc: Seq<Node>)
    requires
        !late_import(doc, 0, false).0,
    ensures
        hoisted(doc) == doc,
{
}

/// What is extracted are imports, and none stays at the top level of what is left.
pub proof fn extraction_parts_imports(s: Seq<Node>, i: int)
    requires
        0 <= i,
    ensures
        forall|k: int| 0 <= k < extracted(s, i).1.len() ==> is_import(#[trigger] extracted(s, i).1[k]),
        forall|k: int| 0 <= k < extracted(s, i).0.len() ==> !is_import(#[trigger] extracted(s, i).0[k]),
    decreases s, s.len() - i,
{
    if i < s.len() {
        let e = extracted(s, i);
        if is_import(s[i]) {
            let j = if i + 1 < s.len() && s[i + 1] == Node::Blank {
                i + 2
            } else {
                i + 1
            };
            extraction_parts_imports(s, j);
            let r = extracted(s, j);
            assert forall|k: int| 0 <= k < e.1.len() implies is_import(#[trigger] e.1[k]) by {
                if k > 0 {
                    assert(e.1[k] == r.1[k - 1]);
                }
            }
        } else {
            extraction_parts_imports(s, i + 1);
            let r = extracted(s, i + 1);
            match s[i] {
                Node::ModuleScope { key, nodes } => {
                    extraction_parts_imports(nodes, 0);
                    let inner = extracted(nodes, 0);
                    assert forall|k: int| 0 <= k < e.1.len() implies is_import(#[trigger] e.1[k]) by {
                        if k < inner.1.len() {
                            assert(e.1[k] == inner.1[k]);
                        } else {
                            assert(e.1[k] == r.1[k - inner.1.len()]);
                        }
                    }
                },
                _ => {},
            }
            assert forall|k: int| 0 <= k < e.0.len() implies !is_import(#[trigger] e.0[k]) by {
                if k > 0 {
                    assert(e.0[k] == r.0[k - 1]);
                }
            }
        }
    }
}

/// The imports in a node and what else is in it. Modules are looked into; blank lines and the marks
/// of ended style rules are nothing.
pub open spec fn node_parts(n: Node) -> (Seq<Node>, Seq<Node>)
    decreases n, 0int,
{
    if is_import(n) {
        (seq![n], Seq::empty())
    } else {
        match n {
            Node::ModuleScope { key, nodes } => (
                list_parts(nodes, 0).0,
                seq![Node::ModuleScope { key, nodes: list_parts(nodes, 0).1 }],
            ),
            Node::Blank => (Seq::empty(), Seq::empty()),
            Node::Mark(Mark::StyleGroupEnd) => (Seq::empty(), Seq::empty()),
            _ => (Seq::empty(), seq![n]),
        }
    }
}

/// The imports and the other nodes of a list from `i` on, each in their order.
pub open spec fn list_parts(s: Seq<Node>, i: int) -> (Seq<Node>, Seq<Node>)
    decreases s, s.len() - i,
{
    if i < 0 || i >= s.len() {
        (Seq::empty(), Seq::empty())
    } else {
        let n = node_parts(s[i]);
        let r = list_parts(s, i + 1);
        (n.0 + r.0, n.1 + r.1)
    }
}

/// Two pairs of lists, one after the other.
pub open spec fn both(a: (Seq<Node>, Seq<Node>), b: (Seq<Node>, Seq<Node>)) -> (Seq<Node>, Seq<Node>) {
    (a.0 + b.0, a.1 + b.1)
}

proof fn lemma_both_is_associative(
    a: (Seq<Node>, Seq<Node>),
    b: (Seq<Node>, Seq<Node>),
    c: (Seq<Node>, Seq<Node>),
)
    ensures
        both(both(a, b), c) == both(a, both(b, c)),
{
    assert(both(both(a, b), c).0 =~= both(a, both(b, c)).0);
    assert(both(both(a, b), c).1 =~= both(a, both(b, c)).1);
}

proof fn lemma_both_with_nothing(a: (Seq<Node>, Seq<Node>))
    ensures
        both(a, (Seq::empty(), Seq::empty())) == a,
        both((Seq::empty(), Seq::empty()), a) == a,
{
    assert(a.0 + Seq::<Node>::empty() =~= a.0);
    assert(a.1 + Seq::<Node>::empty() =~= a.1);
    assert(Seq::<Node>::empty() + a.0 =~= a.0);
    assert(Seq::<Node>::empty() + a.1 =~= a.1);
}

proof fn lemma_parts_past(a: Seq<Node>, b: Seq<Node>, j: int)
    requires
        0 <= j <= b.len(),
    ensures
        list_parts(a + b, a.len() + j) == list_parts(b, j),
    decreases b.len() - j,
{
    if j < b.len() {
        lemma_parts_past(a, b, j + 1);
        assert((a + b)[a.len() + j] == b[j]);
    }
}

proof fn lemma_parts_from(a: Seq<Node>, b: Seq<Node>, i: int)
    requires
        0 <= i <= a.len(),
    ensures
        list_parts(a + b, i) == both(list_parts(a, i), list_parts(b, 0)),
    decreases a.len() - i,
{
    if i < a.len() {
        lemma_parts_from(a, b, i + 1);
        assert((a + b)[i] == a[i]);
        lemma_both_is_associative(node_parts(a[i]), list_parts(a, i + 1), list_parts(b, 0));
    } else {
        lemma_parts_past(a, b, 0);
        lemma_both_with_nothing(list_parts(b, 0));
    }
}

proof fn lemma_parts_of_one(n: Node)
    ensures
        list_parts(seq![n], 0) == node_parts(n),
{
    let s = seq![n];
    assert(list_parts(s, 1) == (Seq::<Node>::empty(), Seq::<Node>::empty()));
    lemma_both_with_nothing(node_parts(n));
    assert(list_parts(s, 0) == both(node_parts(s[0]), list_parts(s, 1)));
}

proof fn lemma_parts_of_more(s: Seq<Node>, n: Node)
    ensures
        list_parts(s.push(n), 0) == both(list_parts(s, 0), node_parts(n)),
{
    assert(s.push(n) =~= s + seq![n]);
    lemma_parts_from(s, seq![n], 0);
    lemma_parts_of_one(n);
}

/// What is extracted are the imports in their order, and what is left are the other nodes in theirs.
pub proof fn extraction_keeps_order(s: Seq<Node>, i: int)
    requires
        0 <= i,
    ensures
        extracted(s, i).1 == list_parts(s, i).0,
        list_parts(extracted(s, i).0, 0) == (Seq::<Node>::empty(), list_parts(s, i).1),
    decreases s, s.len() - i,
{
    let e = extracted(s, i);
    if i < s.len() {
        if is_import(s[i]) {
            let j = if i + 1 < s.len() && s[i + 1] == Node::Blank {
                i + 2
            } else {
                i + 1
            };
            extraction_keeps_order(s, j);
            if j == i + 2 {
                lemma_both_with_nothing(list_parts(s, j));
                assert(list_parts(s, i + 1) == both(node_parts(s[i + 1]), list_parts(s, j)));
            }
            assert(list_parts(s, i + 1) == list_parts(s, j));
            assert(node_parts(s[i]) == (seq![s[i]], Seq::<Node>::empty()));
            assert(list_parts(s, i).0 =~= seq![s[i]] + list_parts(s, j).0);
            assert(list_parts(s, i).1 =~= list_parts(s, j).1);
        } else {
            extraction_keeps_order(s, i + 1);
            let r = extracted(s, i + 1);
            match s[i] {
                Node::ModuleScope { key, nodes } => {
                    extraction_keeps_order(nodes, 0);
                    let inner = extracted(nodes, 0);
                    let n = Node::ModuleScope { key, nodes: inner.0 };
                    lemma_parts_from(seq![n], r.0, 0);
                    lemma_parts_of_one(n);
                    assert(e.0 == seq![n] + r.0);
                    assert(node_parts(n).0 =~= Seq::empty());
                    assert(node_parts(n).1 =~= node_parts(s[i]).1);
                    assert(list_parts(e.0, 0).0 =~= Seq::empty());
                    assert(list_parts(e.0, 0).1 =~= list_parts(s, i).1);
                },
                n => {
                    lemma_parts_from(seq![n], r.0, 0);
                    lemma_parts_of_one(n);
                    assert(e.0 == seq![n] + r.0);
                    assert(node_parts(n).0 =~= Seq::empty());
                    assert(list_parts(s, i).0 =~= r.1);
                    assert(list_parts(e.0, 0).0 =~= Seq::empty());
                    assert(list_parts(e.0, 0).1 =~= list_parts(s, i).1);
                },
            }
        }
    } else {
        assert(e.0 =~= Seq::empty());
    }
}

proof fn lemma_parts_of_group(out: Seq<Node>, n: Node)
    ensures
        list_parts(with_group(out, seq![n]), 0) == both(list_parts(out, 0), node_parts(n)),
{
    let g = seq![n];
    if n == Node::Mark(Mark::PackTight) {
        assert(out + g =~= out.push(n));
        lemma_parts_of_more(out, n);
    } else {
        let base = unmarked(out);
        if base != out {
            assert(base.push(out.last()) =~= out);
            lemma_parts_of_more(base, out.last());
            lemma_both_with_nothing(list_parts(base, 0));
        }
        assert(list_parts(base, 0) == list_parts(out, 0));
        lemma_parts_of_more(base, Node::Blank);
        lemma_both_with_nothing(list_parts(base, 0));
        lemma_parts_of_more(base.push(Node::Blank), n);
        lemma_parts_of_more(base, n);
        assert(base.push(Node::Blank) + g =~= base.push(Node::Blank).push(n));
        assert(base + g =~= base.push(n));
    }
}

proof fn lemma_parts_regrouped(out: Seq<Node>, list: Seq<Node>)
    ensures
        list_parts(regrouped(out, list), 0) == both(list_parts(out, 0), list_parts(list, 0)),
    decreases list.len(),
{
    if list.len() == 0 {
        lemma_both_with_nothing(list_parts(out, 0));
    } else {
        let h = list.drop_last();
        let n = list.last();
        lemma_parts_regrouped(out, h);
        assert(h.push(n) =~= list);
        lemma_parts_of_more(h, n);
        lemma_both_is_associative(list_parts(out, 0), list_parts(h, 0), node_parts(n));
        if n == Node::Blank {
            lemma_both_with_nothing(list_parts(regrouped(out, h), 0));
        } else {
            lemma_parts_of_group(regrouped(out, h), n);
        }
    }
}

proof fn lemma_parts_of_imports(s: Seq<Node>, i: int)
    requires
        0 <= i <= s.len(),
        forall|k: int| 0 <= k < s.len() ==> is_import(#[trigger] s[k]),
    ensures
        list_parts(s, i) == (s.skip(i), Seq::<Node>::empty()),
    decreases s.len() - i,
{
    if i < s.len() {
        lemma_parts_of_imports(s, i + 1);
        assert(is_import(s[i]));
        assert(node_parts(s[i]) == (seq![s[i]], Seq::<Node>::empty()));
        assert(list_parts(s, i).0 =~= s.skip(i));
        assert(list_parts(s, i).1 =~= Seq::empty());
    } else {
        assert(s.skip(i) =~= Seq::empty());
    }
}

/// Hoisting keeps every import and every other node, and the order among the imports and among the
/// others.
pub proof fn hoisting_keeps_order(doc: Seq<Node>)
    ensures
        list_parts(hoisted(doc), 0) == list_parts(doc, 0),
{
    if late_import(doc, 0, false).0 {
        let e = extracted(doc, 0);
        let k = banner_len(e.0, 0);
        lemma_banner_len(e.0, 0);
        let head = e.0.take(k);
        let rest = e.0.skip(k);
        let none = (Seq::<Node>::empty(), Seq::<Node>::empty());
        extraction_keeps_order(doc, 0);
        extraction_parts_imports(doc, 0);
        assert(head + rest =~= e.0);
        lemma_parts_from(head, rest, 0);
        let h = list_parts(head, 0);
        let r = list_parts(rest, 0);
        assert(h.0.len() == 0 && r.0.len() == 0) by {
            assert((h.0 + r.0).len() == 0);
        }
        let first = regrouped(Seq::empty(), head);
        lemma_parts_regrouped(Seq::empty(), head);
        assert(list_parts(Seq::<Node>::empty(), 0) == none);
        lemma_both_with_nothing(h);
        lemma_parts_from(first, e.1, 0);
        lemma_parts_of_imports(e.1, 0);
        assert(e.1.skip(0) =~= e.1);
        lemma_parts_regrouped(first + e.1, rest);
        let all = list_parts(hoisted(doc), 0);
        assert(all == both(both(h, (e.1, Seq::empty())), r));
        assert(all.0 =~= e.1);
        assert(all.1 =~= h.1 + r.1);
    }
}

proof fn lemma_banner_len(s: Seq<Node>, i: int)
    requires
        0 <= i <= s.len(),
    ensures
        i <= banner_len(s, i) <= s.len(),
        forall|k: int|
            i <= k < banner_len(s, i) ==> (#[trigger] s[k]) is Comment || s[k] == Node::Blank,
    decreases s.len() - i,
{
    if i < s.len() && (s[i] is Comment || s[i] == Node::Blank) {
        lemma_banner_len(s, i + 1);
    }
}

proof fn lemma_no_import_is_late(s: Seq<Node>, i: int, seen: bool)
    requires
        list_parts(s, i).0.len() == 0,
    ensures
        !late_import(s, i, seen).0,
    decreases s, s.len() - i,
{
    if 0 <= i < s.len() {
        let n = node_parts(s[i]);
        let r = list_parts(s, i + 1);
        assert((n.0 + r.0).len() == 0);
        assert(!is_import(s[i])) by {
            if is_import(s[i]) {
                assert(n.0.len() == 1);
            }
        }
        match s[i] {
            Node::ModuleScope { key, nodes } => {
                lemma_no_import_is_late(nodes, 0, seen);
                lemma_no_import_is_late(s, i + 1, late_import(nodes, 0, seen).1);
            },
            Node::Blank => {
                lemma_no_import_is_late(s, i + 1, seen);
            },
            Node::Comment(..) => {
                lemma_no_import_is_late(s, i + 1, seen);
            },
            _ => {
                lemma_no_import_is_late(s, i + 1, true);
            },
        }
    }
}

proof fn lemma_late_past(a: Seq<Node>, b: Seq<Node>, j: int, seen: bool)
    requires
        0 <= j <= b.len(),
    ensures
        late_import(a + b, a.len() + j, seen) == late_import(b, j, seen),
    decreases b.len() - j,
{
    if j < b.len() {
        assert((a + b)[a.len() + j] == b[j]);
        match b[j] {
            Node::ModuleScope { key, nodes } => {
                lemma_late_past(a, b, j + 1, late_import(nodes, 0, seen).1);
            },
            Node::Blank => {
                lemma_late_past(a, b, j + 1, seen);
            },
            Node::Comment(..) => {
                lemma_late_past(a, b, j + 1, seen);
            },
            n => {
                lemma_late_past(a, b, j + 1, seen);
                lemma_late_past(a, b, j + 1, true);
            },
        }
    }
}

proof fn lemma_late_from(a: Seq<Node>, b: Seq<Node>, i: int, seen: bool)
    requires
        0 <= i <= a.len(),
    ensures
        late_import(a, i, seen).0 ==> late_import(a + b, i, seen).0,
        !late_import(a, i, seen).0 ==> late_import(a + b, i, seen) == late_import(
            b,
            0,
            late_import(a, i, seen).1,
        ),
    decreases a.len() - i,
{
    if i < a.len() {
        assert((a + b)[i] == a[i]);
        match a[i] {
            Node::ModuleScope { key, nodes } => {
                lemma_late_from(a, b, i + 1, late_import(nodes, 0, seen).1);
            },
            Node::Blank => {
                lemma_late_from(a, b, i + 1, seen);
            },
            Node::Comment(..) => {
                lemma_late_from(a, b, i + 1, seen);
            },
            n => {
                lemma_late_from(a, b, i + 1, seen);
                lemma_late_from(a, b, i + 1, true);
            },
        }
    } else {
        lemma_late_past(a, b, 0, seen);
    }
}

proof fn lemma_group_is_not_late(out: Seq<Node>, n: Node)
    requires
        !late_import(out, 0, false).0,
        node_parts(n).0.len() == 0,
    ensures
        !late_import(with_group(out, seq![n]), 0, false).0,
{
    let g = seq![n];
    lemma_parts_of_one(n);
    lemma_no_import_is_late(g, 0, false);
    lemma_no_import_is_late(g, 0, true);
    if n == Node::Mark(Mark::PackTight) {
        lemma_late_from(out, g, 0, false);
    } else {
        let base = unmarked(out);
        if base != out {
            assert(base + seq![out.last()] =~= out);
            lemma_late_from(base, seq![out.last()], 0, false);
        }
        let blank = seq![Node::Blank];
        lemma_late_from(base, blank, 0, false);
        assert(base + blank =~= base.push(Node::Blank));
        lemma_parts_of_one(Node::Blank);
        lemma_no_import_is_late(blank, 0, late_import(base, 0, false).1);
        lemma_late_from(base.push(Node::Blank), g, 0, false);
        lemma_late_from(base, g, 0, false);
    }
}

proof fn lemma_regrouped_is_not_late(out: Seq<Node>, list: Seq<Node>)
    requires
        !late_import(out, 0, false).0,
        list_parts(list, 0).0.len() == 0,
    ensures
        !late_import(regrouped(out, list), 0, false).0,
    decreases list.len(),
{
    if list.len() > 0 {
        let h = list.drop_last();
        let n = list.last();
        assert(h.push(n) =~= list);
        lemma_parts_of_more(h, n);
        assert((list_parts(h, 0).0 + node_parts(n).0).len() == 0);
        lemma_regrouped_is_not_late(out, h);
        if n != Node::Blank {
            lemma_group_is_not_late(regrouped(out, h), n);
        }
    }
}

proof fn lemma_banner_is_quiet(list: Seq<Node>)
    requires
        forall|k: int| 0 <= k < list.len() ==> (#[trigger] list[k]) is Comment || list[k] == Node::Blank,
    ensures
        forall|k: int|
            0 <= k < regrouped(Seq::empty(), list).len() ==> (#[trigger] regrouped(
                Seq::empty(),
                list,
            )[k]) is Comment || regrouped(Seq::empty(), list)[k] == Node::Blank,
    decreases list.len(),
{
    if list.len() > 0 {
        let h = list.drop_last();
        assert forall|k: int| 0 <= k < h.len() implies (#[trigger] h[k]) is Comment || h[k]
            == Node::Blank by {
            assert(h[k] == list[k]);
        }
        lemma_banner_is_quiet(h);
        assert(list[list.len() - 1] is Comment || list[list.len() - 1] == Node::Blank);
    }
}

proof fn lemma_quiet_is_not_css(s: Seq<Node>, i: int)
    requires
        0 <= i <= s.len(),
        forall|k: int|
            0 <= k < s.len() ==> (#[trigger] s[k]) is Comment || s[k] == Node::Blank || is_import(s[k]),
    ensures
        late_import(s, i, false) == (false, false),
    decreases s.len() - i,
{
    if i < s.len() {
        assert(s[i] is Comment || s[i] == Node::Blank || is_import(s[i]));
        lemma_quiet_is_not_css(s, i + 1);
    }
}

/// Hoisting is done once: after it no import follows CSS, so that a second time changes nothing.
pub proof fn hoisting_is_idempotent(doc: Seq<Node>)
    ensures
        !late_import(hoisted(doc), 0, false).0,
        hoisted(hoisted(doc)) == hoisted(doc),
{
    if late_import(doc, 0, false).0 {
        let e = extracted(doc, 0);
        let k = banner_len(e.0, 0);
        lemma_banner_len(e.0, 0);
        let head = e.0.take(k);
        let rest = e.0.skip(k);
        extraction_keeps_order(doc, 0);
        extraction_parts_imports(doc, 0);
        assert(head + rest =~= e.0);
        lemma_parts_from(head, rest, 0);
        assert((list_parts(head, 0).0 + list_parts(rest, 0).0).len() == 0);
        let first = regrouped(Seq::empty(), head);
        assert forall|j: int| 0 <= j < head.len() implies (#[trigger] head[j]) is Comment || head[j]
            == Node::Blank by {
            assert(head[j] == e.0[j]);
        }
        lemma_banner_is_quiet(head);
        let start = first + e.1;
        assert forall|j: int| 0 <= j < start.len() implies (#[trigger] start[j]) is Comment
            || start[j] == Node::Blank || is_import(start[j]) by {
            if j < first.len() {
                assert(start[j] == first[j]);
            } else {
                assert(start[j] == e.1[j - first.len()]);
            }
        }
        lemma_quiet_is_not_css(start, 0);
        lemma_regrouped_is_not_late(start, rest);
    }
}

} // verus!
