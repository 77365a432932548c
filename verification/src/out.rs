//! The output tree, and the sinks into which evaluated statements go.

use vstd::prelude::*;
use crate::text::{clone_strings, texts};

verus! {

/// Where a node stands in the sources: a file and the lines of its block. All zero where that is
/// not known.
#[derive(Clone, Copy, Debug, PartialEq, Eq, Structural)]
pub struct SrcLines {
    pub file: u32,
    pub start: u32,
    pub end: u32,
    pub col: u32,
}

/// Lines that are not known.
pub open spec fn no_lines() -> SrcLines {
    SrcLines { file: 0, start: 0, end: 0, col: 0 }
}

impl Default for SrcLines {
    fn default() -> (r: SrcLines)
        ensures
            r == no_lines(),
    {
        SrcLines { file: 0, start: 0, end: 0, col: 0 }
    }
}

/// A place in the output tree that a later pass acts on and that is never written out.
#[derive(Clone, Copy, Debug, PartialEq, Eq, Structural)]
pub enum Mark {
    /// A merged `@media` rule left the enclosing one here.
    MediaHoist,
    /// An `@at-root` batch left the enclosing at-rules here.
    AtRootHoist,
    /// The next group follows without a blank line.
    PackTight,
    /// A completed style rule ends here, and the next group follows after a blank line.
    StyleGroupEnd,
}

/// An item of a rule block.
#[derive(Debug)]
pub enum OutItem {
    Decl { prop: String, value: String, important: bool, custom: bool, lines: SrcLines },
    Comment(String, SrcLines),
    /// An at-rule without a block, among the declarations of a rule.
    ChildlessAtRule { name: String, prelude: String, lines: SrcLines },
    /// A style rule that plain CSS keeps inside another.
    NestedRule { selectors: Vec<String>, items: Vec<OutItem> },
    /// An at-rule that stays inside a rule.
    NestedAtRule { name: String, prelude: String, items: Vec<OutItem> },
}

/// A node of the output.
#[derive(Debug)]
pub enum OutNode {
    Rule { selectors: Vec<String>, linebreaks: Vec<bool>, items: Vec<OutItem>, lines: SrcLines },
    Comment(String, SrcLines),
    /// A line that is written as it is.
    Raw(String),
    /// A blank line between groups.
    Blank,
    AtRule { name: String, prelude: String, body: Vec<OutNode>, has_block: bool, lines: SrcLines },
    /// The output of a module.
    ModuleScope { key: String, nodes: Vec<OutNode> },
    /// A declaration that stands directly in an at-rule.
    AtDecl { prop: String, value: String, important: bool, custom: bool, lines: SrcLines },
    Mark(Mark),
}

/// What an [`OutItem`] is.
pub ghost enum Item {
    Decl { prop: Seq<char>, value: Seq<char>, important: bool, custom: bool, lines: SrcLines },
    Comment(Seq<char>, SrcLines),
    ChildlessAtRule { name: Seq<char>, prelude: Seq<char>, lines: SrcLines },
    NestedRule { selectors: Seq<Seq<char>>, items: Seq<Item> },
    NestedAtRule { name: Seq<char>, prelude: Seq<char>, items: Seq<Item> },
}

/// What an [`OutNode`] is.
pub ghost enum Node {
    Rule { selectors: Seq<Seq<char>>, linebreaks: Seq<bool>, items: Seq<Item>, lines: SrcLines },
    Comment(Seq<char>, SrcLines),
    Raw(Seq<char>),
    Blank,
    AtRule { name: Seq<char>, prelude: Seq<char>, body: Seq<Node>, has_block: bool, lines: SrcLines },
    ModuleScope { key: Seq<char>, nodes: Seq<Node> },
    AtDecl { prop: Seq<char>, value: Seq<char>, important: bool, custom: bool, lines: SrcLines },
    Mark(Mark),
}

pub open spec fn item(i: OutItem) -> Item
    decreases i,
{
    match i {
        OutItem::Decl { prop, value, important, custom, lines } => Item::Decl {
            prop: prop@,
            value: value@,
            important,
            custom,
            lines,
        },
        OutItem::Comment(t, lines) => Item::Comment(t@, lines),
        OutItem::ChildlessAtRule { name, prelude, lines } => Item::ChildlessAtRule {
            name: name@,
            prelude: prelude@,
            lines,
        },
        OutItem::NestedRule { selectors, items: list } => Item::NestedRule {
            selectors: texts(selectors@),
            items: items(list@),
        },
        OutItem::NestedAtRule { name, prelude, items: list } => Item::NestedAtRule {
            name: name@,
            prelude: prelude@,
            items: items(list@),
        },
    }
}

pub open spec fn items(s: Seq<OutItem>) -> Seq<Item>
    decreases s,
{
    Seq::new(
        s.len(),
        |i: int|
            if 0 <= i < s.len() {
                item(s[i])
            } else {
                arbitrary()
            },
    )
}

pub open spec fn node(n: OutNode) -> Node
    decreases n,
{
    match n {
        OutNode::Rule { selectors, linebreaks, items: list, lines } => Node::Rule {
            selectors: texts(selectors@),
            linebreaks: linebreaks@,
            items: items(list@),
            lines,
        },
        OutNode::Comment(t, lines) => Node::Comment(t@, lines),
        OutNode::Raw(t) => Node::Raw(t@),
        OutNode::Blank => Node::Blank,
        OutNode::AtRule { name, prelude, body, has_block, lines } => Node::AtRule {
            name: name@,
            prelude: prelude@,
            body: nodes(body@),
            has_block,
            lines,
        },
        OutNode::ModuleScope { key, nodes: list } => Node::ModuleScope {
            key: key@,
            nodes: nodes(list@),
        },
        OutNode::AtDecl { prop, value, important, custom, lines } => Node::AtDecl {
            prop: prop@,
            value: value@,
            important,
            custom,
            lines,
        },
        OutNode::Mark(m) => Node::Mark(m),
    }
}

pub open spec fn nodes(s: Seq<OutNode>) -> Seq<Node>
    decreases s,
{
    Seq::new(
        s.len(),
        |i: int|
            if 0 <= i < s.len() {
                node(s[i])
            } else {
                arbitrary()
            },
    )
}

// ---- moving and copying --------------------------------------------------

pub fn copy_item(i: &OutItem) -> (r: OutItem)
    ensures
        item(r) == item(*i),
    decreases i,
{
    match i {
        OutItem::Decl { prop, value, important, custom, lines } => OutItem::Decl {
            prop: prop.clone(),
            value: value.clone(),
            important: *important,
            custom: *custom,
            lines: *lines,
        },
        OutItem::Comment(t, lines) => OutItem::Comment(t.clone(), *lines),
        OutItem::ChildlessAtRule { name, prelude, lines } => OutItem::ChildlessAtRule {
            name: name.clone(),
            prelude: prelude.clone(),
            lines: *lines,
        },
        OutItem::NestedRule { selectors, items: list } => OutItem::NestedRule {
            selectors: clone_strings(selectors),
            items: copy_items(list),
        },
        OutItem::NestedAtRule { name, prelude, items: list } => OutItem::NestedAtRule {
            name: name.clone(),
            prelude: prelude.clone(),
            items: copy_items(list),
        },
    }
}

pub fn copy_items(v: &Vec<OutItem>) -> (r: Vec<OutItem>)
    ensures
        items(r@) == items(v@),
    decreases v@,
{
    let mut out: Vec<OutItem> = Vec::new();
    let mut i: usize = 0;
    while i < v.len()
        invariant
            i <= v@.len(),
            items(out@) =~= items(v@).take(i as int),
        decreases v@.len() - i,
    {
        add_item(&mut out, copy_item(&v[i]));
        i += 1;
        proof {
            assert(items(v@).take(i as int) =~= items(v@).take(i - 1).push(items(v@)[i - 1]));
        }
    }
    proof {
        assert(items(v@).take(i as int) =~= items(v@));
    }
    out
}

pub fn add_item(out: &mut Vec<OutItem>, i: OutItem)
    ensures
        items(final(out)@) == items(old(out)@).push(item(i)),
{
    out.push(i);
    proof {
        assert(items(final(out)@) =~= items(old(out)@).push(item(i)));
    }
}

pub fn copy_bools(v: &Vec<bool>) -> (r: Vec<bool>)
    ensures
        r@ == v@,
{
    let mut out: Vec<bool> = Vec::new();
    let mut i: usize = 0;
    while i < v.len()
        invariant
            i <= v@.len(),
            out@ =~= v@.take(i as int),
        decreases v@.len() - i,
    {
        out.push(v[i]);
        i += 1;
    }
    proof {
        assert(v@.take(i as int) =~= v@);
    }
    out
}

pub fn copy_node(n: &OutNode) -> (r: OutNode)
    ensures
        node(r) == node(*n),
    decreases n,
{
    match n {
        OutNode::Rule { selectors, linebreaks, items: list, lines } => OutNode::Rule {
            selectors: clone_strings(selectors),
            linebreaks: copy_bools(linebreaks),
            items: copy_items(list),
            lines: *lines,
        },
        OutNode::Comment(t, lines) => OutNode::Comment(t.clone(), *lines),
        OutNode::Raw(t) => OutNode::Raw(t.clone()),
        OutNode::Blank => OutNode::Blank,
        OutNode::AtRule { name, prelude, body, has_block, lines } => OutNode::AtRule {
            name: name.clone(),
            prelude: prelude.clone(),
            body: copy_nodes(body),
            has_block: *has_block,
            lines: *lines,
        },
        OutNode::ModuleScope { key, nodes: list } => OutNode::ModuleScope {
            key: key.clone(),
            nodes: copy_nodes(list),
        },
        OutNode::AtDecl { prop, value, important, custom, lines } => OutNode::AtDecl {
            prop: prop.clone(),
            value: value.clone(),
            important: *important,
            custom: *custom,
            lines: *lines,
        },
        OutNode::Mark(m) => OutNode::Mark(*m),
    }
}

pub fn copy_nodes(v: &Vec<OutNode>) -> (r: Vec<OutNode>)
    ensures
        nodes(r@) == nodes(v@),
    decreases v@,
{
    let mut out: Vec<OutNode> = Vec::new();
    let mut i: usize = 0;
    while i < v.len()
        invariant
            i <= v@.len(),
            nodes(out@) =~= nodes(v@).take(i as int),
        decreases v@.len() - i,
    {
        push_node(&mut out, copy_node(&v[i]));
        i += 1;
        proof {
            assert(nodes(v@).take(i as int) =~= nodes(v@).take(i - 1).push(nodes(v@)[i - 1]));
        }
    }
    proof {
        assert(nodes(v@).take(i as int) =~= nodes(v@));
    }
    out
}

/// Append a node.
pub fn push_node(out: &mut Vec<OutNode>, n: OutNode)
    ensures
        nodes(final(out)@) == nodes(old(out)@).push(node(n)),
{
    out.push(n);
    proof {
        assert(nodes(final(out)@) =~= nodes(old(out)@).push(node(n)));
    }
}

/// Append all of `more`.
pub fn push_nodes(out: &mut Vec<OutNode>, more: Vec<OutNode>)
    ensures
        nodes(final(out)@) == nodes(old(out)@) + nodes(more@),
{
    let mut more = more;
    let ghost mv = nodes(more@);
    out.append(&mut more);
    proof {
        assert(nodes(final(out)@) =~= nodes(old(out)@) + mv);
    }
}

pub fn one_node(n: OutNode) -> (r: Vec<OutNode>)
    ensures
        nodes(r@) == seq![node(n)],
{
    let mut out: Vec<OutNode> = Vec::new();
    out.push(n);
    proof {
        assert(nodes(out@) =~= seq![node(n)]);
    }
    out
}

// ---- groups --------------------------------------------------------------

/// The last of `s` that is no blank line, or of a module that ends `s`, the like; `whole` if
/// there is none.
pub open spec fn last_effective(s: Seq<Node>, whole: Node) -> Node
    decreases s,
{
    if s.len() == 0 {
        whole
    } else {
        match s.last() {
            Node::Blank => last_effective(s.drop_last(), whole),
            Node::ModuleScope { key, nodes } => last_effective(nodes, s.last()),
            other => other,
        }
    }
}

/// The node by which what follows `n` is spaced: a module is judged by its last node.
pub open spec fn effective(n: Node) -> Node {
    match n {
        Node::ModuleScope { key, nodes } => last_effective(nodes, n),
        other => other,
    }
}

/// Whether the group after `n` starts right below it.
pub open spec fn packs_tight(n: Node) -> bool {
    match n {
        Node::AtRule { .. } => true,
        Node::Comment(..) => true,
        Node::Raw(_) => true,
        Node::Mark(m) => m != Mark::StyleGroupEnd,
        _ => false,
    }
}

/// Whether a blank line goes before a group that follows `out`, `ended` saying that a style rule
/// ended there.
pub open spec fn needs_blank(out: Seq<Node>, ended: bool) -> bool {
    out.len() > 0 && (ended || !packs_tight(effective(out.last())))
}

/// `out` without the mark of an ended style rule at its end.
pub open spec fn unmarked(out: Seq<Node>) -> Seq<Node> {
    if out.len() > 0 && out.last() == Node::Mark(Mark::StyleGroupEnd) {
        out.drop_last()
    } else {
        out
    }
}

/// `out` with a group after it, set off by a blank line where one belongs.
pub open spec fn with_group(out: Seq<Node>, group: Seq<Node>) -> Seq<Node> {
    if group.len() == 0 {
        out
    } else if group.len() == 1 && group[0] == Node::Mark(Mark::PackTight) {
        out + group
    } else {
        let ended = out.len() > 0 && out.last() == Node::Mark(Mark::StyleGroupEnd);
        let base = unmarked(out);
        if needs_blank(base, ended) {
            base.push(Node::Blank) + group
        } else {
            base + group
        }
    }
}

fn tail_packs_tight(v: &Vec<OutNode>) -> (r: Option<bool>)
    ensures
        forall|whole: Node|
            #![trigger last_effective(nodes(v@), whole)]
            match r {
                Some(b) => packs_tight(last_effective(nodes(v@), whole)) == b,
                None => last_effective(nodes(v@), whole) == whole,
            },
    decreases v@,
{
    let mut n: usize = v.len();
    proof {
        assert(nodes(v@).take(n as int) =~= nodes(v@));
    }
    while n > 0
        invariant
            n <= v@.len(),
            forall|whole: Node|
                #![trigger last_effective(nodes(v@), whole)]
                last_effective(nodes(v@), whole) == last_effective(nodes(v@).take(n as int), whole),
        decreases n,
    {
        let ghost head = nodes(v@).take(n as int);
        proof {
            assert(head.last() == node(v@[n - 1]));
            assert(head.drop_last() =~= nodes(v@).take(n - 1));
        }
        match &v[n - 1] {
            OutNode::Blank => {},
            OutNode::ModuleScope { key, nodes: list } => {
                let inner = tail_packs_tight(list);
                proof {
                    assert(head.last() == Node::ModuleScope { key: key@, nodes: nodes(list@) });
                    assert(last_effective(head, Node::Blank) == last_effective(
                        nodes(list@),
                        head.last(),
                    ));
                }
                return match inner {
                    Some(b) => Some(b),
                    None => Some(false),
                };
            },
            OutNode::AtRule { .. } => {
                return Some(true);
            },
            OutNode::Comment(..) => {
                return Some(true);
            },
            OutNode::Raw(_) => {
                return Some(true);
            },
            OutNode::Mark(m) => {
                return Some(*m != Mark::StyleGroupEnd);
            },
            _ => {
                return Some(false);
            },
        }
        n -= 1;
    }
    None
}

fn node_packs_tight(n: &OutNode) -> (r: bool)
    ensures
        r == packs_tight(effective(node(*n))),
{
    match n {
        OutNode::AtRule { .. } => true,
        OutNode::Comment(..) => true,
        OutNode::Raw(_) => true,
        OutNode::Mark(m) => *m != Mark::StyleGroupEnd,
        OutNode::ModuleScope { key: _, nodes: list } => {
            proof {
                assert(effective(node(*n)) == last_effective(nodes(list@), node(*n)));
            }
            match tail_packs_tight(list) {
                Some(b) => b,
                None => false,
            }
        },
        _ => false,
    }
}

/// Append a group, set off by a blank line where one belongs.
pub fn push_group(out: &mut Vec<OutNode>, group: Vec<OutNode>)
    ensures
        nodes(final(out)@) == with_group(nodes(old(out)@), nodes(group@)),
{
    if group.len() == 0 {
        return;
    }
    proof {
        assert(nodes(group@)[0] == node(group@[0]));
        if out@.len() > 0 {
            assert(nodes(out@).last() == node(out@[out@.len() - 1]));
        }
    }
    if group.len() == 1 && matches!(&group[0], OutNode::Mark(Mark::PackTight)) {
        push_nodes(out, group);
        return;
    }
    let ended = out.len() > 0 && matches!(&out[out.len() - 1], OutNode::Mark(Mark::StyleGroupEnd));
    if ended {
        out.pop();
    }
    proof {
        assert(nodes(out@) =~= unmarked(nodes(old(out)@)));
        if out@.len() > 0 {
            assert(nodes(out@).last() == node(out@[out@.len() - 1]));
        }
    }
    if out.len() > 0 && (ended || !node_packs_tight(&out[out.len() - 1])) {
        push_node(out, OutNode::Blank);
    }
    push_nodes(out, group);
}

/// A group stands whole at the end of the output it was appended to.
pub proof fn group_is_kept(out: Seq<Node>, group: Seq<Node>)
    ensures
        group.len() <= with_group(out, group).len(),
        with_group(out, group).skip(with_group(out, group).len() - group.len()) == group,
{
    let r = with_group(out, group);
    assert(r.skip(r.len() - group.len()) =~= group);
}

} // verus!
