//! Where evaluated statements deposit their output.

use vstd::prelude::*;
use crate::out::{
    Item, Mark, Node, OutItem, OutNode, SrcLines, copy_bools, copy_item, copy_node, item, items,
    no_lines, node, nodes, one_node, push_group, push_node, push_nodes, with_group,
};
use crate::text::{chars_of, clone_strings, starts, starts_with, texts};

verus! {

/// Where output goes: to the top level, where each statement is a group of its own; into a style
/// rule, whose declarations join its block and whose nested rules follow it; or into the body of
/// an at-rule without an enclosing selector.
pub enum Sink {
    Top(Vec<OutNode>),
    Rule {
        selectors: Vec<String>,
        linebreaks: Vec<bool>,
        lines: SrcLines,
        items: Vec<OutItem>,
        nested: Vec<OutNode>,
    },
    AtRoot(Vec<OutNode>),
}

/// What a [`Sink`] holds.
pub ghost enum Drain {
    Top(Seq<Node>),
    Rule {
        selectors: Seq<Seq<char>>,
        linebreaks: Seq<bool>,
        lines: SrcLines,
        items: Seq<Item>,
        nested: Seq<Node>,
    },
    AtRoot(Seq<Node>),
}

impl View for Sink {
    type V = Drain;

    open spec fn view(&self) -> Drain {
        match *self {
            Sink::Top(out) => Drain::Top(nodes(out@)),
            Sink::Rule { selectors, linebreaks, lines, items: list, nested } => Drain::Rule {
                selectors: texts(selectors@),
                linebreaks: linebreaks@,
                lines,
                items: items(list@),
                nested: nodes(nested@),
            },
            Sink::AtRoot(body) => Drain::AtRoot(nodes(body@)),
        }
    }
}

// ---- items ---------------------------------------------------------------

/// An item of a nested at-rule as a node of its body.
pub open spec fn lifted_child(i: Item) -> Node {
    match i {
        Item::Decl { prop, value, important, custom, lines } => Node::AtDecl {
            prop,
            value,
            important,
            custom,
            lines,
        },
        Item::Comment(t, lines) => Node::Comment(t, lines),
        Item::ChildlessAtRule { name, prelude, lines } => Node::AtRule {
            name,
            prelude,
            body: Seq::empty(),
            has_block: false,
            lines,
        },
        Item::NestedRule { selectors, items } => Node::Rule {
            selectors,
            linebreaks: Seq::empty(),
            items,
            lines: no_lines(),
        },
        Item::NestedAtRule { name, prelude, items } => Node::AtRule {
            name,
            prelude,
            body: seq![
                Node::Rule {
                    selectors: Seq::empty(),
                    linebreaks: Seq::empty(),
                    items,
                    lines: no_lines(),
                },
            ],
            has_block: true,
            lines: no_lines(),
        },
    }
}

pub open spec fn lifted_children(s: Seq<Item>) -> Seq<Node> {
    Seq::new(s.len(), |i: int| lifted_child(s[i]))
}

/// An item as a node of an at-rule body.
pub open spec fn lifted(i: Item) -> Node {
    match i {
        Item::NestedAtRule { name, prelude, items } => Node::AtRule {
            name,
            prelude,
            body: lifted_children(items),
            has_block: true,
            lines: no_lines(),
        },
        other => lifted_child(other),
    }
}

pub fn lift_child(i: OutItem) -> (r: OutNode)
    ensures
        node(r) == lifted_child(item(i)),
{
    proof {
        assert(texts(Seq::<String>::empty()) =~= Seq::empty());
        assert(nodes(Seq::<OutNode>::empty()) =~= Seq::empty());
    }
    match i {
        OutItem::Decl { prop, value, important, custom, lines } => OutNode::AtDecl {
            prop,
            value,
            important,
            custom,
            lines,
        },
        OutItem::Comment(t, lines) => OutNode::Comment(t, lines),
        OutItem::ChildlessAtRule { name, prelude, lines } => OutNode::AtRule {
            name,
            prelude,
            body: Vec::new(),
            has_block: false,
            lines,
        },
        OutItem::NestedRule { selectors, items: list } => OutNode::Rule {
            selectors,
            linebreaks: Vec::new(),
            items: list,
            lines: SrcLines { file: 0, start: 0, end: 0, col: 0 },
        },
        OutItem::NestedAtRule { name, prelude, items: list } => {
            let inner = OutNode::Rule {
                selectors: Vec::new(),
                linebreaks: Vec::new(),
                items: list,
                lines: SrcLines { file: 0, start: 0, end: 0, col: 0 },
            };
            let body = one_node(inner);
            OutNode::AtRule {
                name,
                prelude,
                body,
                has_block: true,
                lines: SrcLines { file: 0, start: 0, end: 0, col: 0 },
            }
        },
    }
}

fn lift_children(list: Vec<OutItem>) -> (r: Vec<OutNode>)
    ensures
        nodes(r@) == lifted_children(items(list@)),
{
    let ghost all = lifted_children(items(list@));
    let mut out: Vec<OutNode> = Vec::new();
    let mut i: usize = 0;
    while i < list.len()
        invariant
            i <= list@.len(),
            all == lifted_children(items(list@)),
            nodes(out@) =~= all.take(i as int),
        decreases list@.len() - i,
    {
        let n = lift_child(copy_item(&list[i]));
        push_node(&mut out, n);
        i += 1;
        proof {
            assert(all.take(i as int) =~= all.take(i - 1).push(all[i - 1]));
        }
    }
    proof {
        assert(all.take(i as int) =~= all);
    }
    out
}

fn lift(i: OutItem) -> (r: OutNode)
    ensures
        node(r) == lifted(item(i)),
{
    match i {
        OutItem::NestedAtRule { name, prelude, items: list } => OutNode::AtRule {
            name,
            prelude,
            body: lift_children(list),
            has_block: true,
            lines: SrcLines { file: 0, start: 0, end: 0, col: 0 },
        },
        other => lift_child(other),
    }
}

// ---- what each deposit does ----------------------------------------------

/// The index of the first mark of a hoisted `@media` rule; the length if there is none.
pub open spec fn first_media_mark(s: Seq<Node>, i: int) -> int
    decreases s.len() - i,
{
    if i < 0 || i >= s.len() {
        s.len() as int
    } else if s[i] == Node::Mark(Mark::MediaHoist) {
        i
    } else {
        first_media_mark(s, i + 1)
    }
}

/// The sink with the items collected so far made a block. It goes before the rules that were
/// hoisted out in the meantime; a rule without selectors has none.
pub open spec fn flushed(d: Drain) -> Drain {
    match d {
        Drain::Rule { selectors, linebreaks, lines, items, nested } => if items.len() == 0 {
            d
        } else if selectors.len() == 0 {
            Drain::Rule { selectors, linebreaks, lines, items: Seq::empty(), nested }
        } else {
            Drain::Rule {
                selectors,
                linebreaks,
                lines,
                items: Seq::empty(),
                nested: nested.insert(
                    first_media_mark(nested, 0),
                    Node::Rule { selectors, linebreaks, items, lines },
                ),
            }
        },
        other => other,
    }
}

/// The sink with nodes that bubble out of a rule.
pub open spec fn bubbled(d: Drain, more: Seq<Node>) -> Drain {
    match d {
        Drain::Rule { selectors, linebreaks, lines, items, nested } => Drain::Rule {
            selectors,
            linebreaks,
            lines,
            items,
            nested: nested + more,
        },
        Drain::Top(out) => Drain::Top(out + more),
        Drain::AtRoot(body) => Drain::AtRoot(body + more),
    }
}

pub open spec fn is_hoist_mark(n: Node) -> bool {
    n == Node::Mark(Mark::MediaHoist) || n == Node::Mark(Mark::AtRootHoist)
}

/// The sink with an at-rule: a group of its own at the top level; after the block so far, which a
/// hoist mark does not end, inside a rule.
pub open spec fn with_at_rule(d: Drain, n: Node) -> Drain {
    match d {
        Drain::Top(out) => Drain::Top(with_group(out, seq![n])),
        Drain::AtRoot(body) => Drain::AtRoot(body.push(n)),
        Drain::Rule { .. } => if is_hoist_mark(n) {
            bubbled(d, seq![n])
        } else {
            bubbled(flushed(d), seq![n])
        },
    }
}

/// The sink with at-rules, one after the other.
pub open spec fn with_at_rules(d: Drain, list: Seq<Node>) -> Drain
    decreases list.len(),
{
    if list.len() == 0 {
        d
    } else {
        with_at_rule(with_at_rules(d, list.drop_last()), list.last())
    }
}

/// The sink with an item. At the top level an item is dropped.
pub open spec fn with_item(d: Drain, i: Item) -> Drain {
    match d {
        Drain::Top(_) => d,
        Drain::AtRoot(body) => Drain::AtRoot(body.push(lifted(i))),
        Drain::Rule { selectors, linebreaks, lines, items, nested } => Drain::Rule {
            selectors,
            linebreaks,
            lines,
            items: items.push(i),
            nested,
        },
    }
}

/// The sink with an at-rule that has no block.
pub open spec fn with_childless(d: Drain, name: Seq<char>, prelude: Seq<char>, lines: SrcLines) -> Drain {
    match d {
        Drain::Rule { .. } => with_item(d, Item::ChildlessAtRule { name, prelude, lines }),
        _ => with_at_rule(
            d,
            Node::AtRule { name, prelude, body: Seq::empty(), has_block: false, lines },
        ),
    }
}

/// Whether a comment is a source-map link, which is not kept.
pub open spec fn is_source_link(text: Seq<char>) -> bool {
    starts(text, "# sourceMappingURL="@) || starts(text, "# sourceURL="@)
}

/// The sink with a comment.
pub open spec fn with_comment(d: Drain, text: Seq<char>, lines: SrcLines) -> Drain {
    if is_source_link(text) {
        d
    } else {
        match d {
            Drain::Top(out) => Drain::Top(with_group(out, seq![Node::Comment(text, lines)])),
            Drain::AtRoot(body) => Drain::AtRoot(body.push(Node::Comment(text, lines))),
            Drain::Rule { .. } => with_item(d, Item::Comment(text, lines)),
        }
    }
}

/// The sink with the output of a style rule. At the top level its end is marked.
pub open spec fn with_style_rule(d: Drain, output: Seq<Node>) -> Drain {
    match d {
        Drain::Top(out) => {
            let grouped = with_group(out, output);
            Drain::Top(
                if grouped.len() > 0 {
                    grouped.push(Node::Mark(Mark::StyleGroupEnd))
                } else {
                    grouped
                },
            )
        },
        Drain::AtRoot(body) => Drain::AtRoot(body + output),
        Drain::Rule { .. } => bubbled(flushed(d), output),
    }
}

/// `s` without its blank lines.
pub open spec fn without_blanks(s: Seq<Node>) -> Seq<Node>
    decreases s.len(),
{
    if s.len() == 0 {
        s
    } else if s.last() == Node::Blank {
        without_blanks(s.drop_last())
    } else {
        without_blanks(s.drop_last()).push(s.last())
    }
}

/// The sink with the output of a module: one group at the top level; elsewhere without its blank
/// lines.
pub open spec fn with_spliced(d: Drain, list: Seq<Node>) -> Drain {
    match d {
        Drain::Top(out) => Drain::Top(with_group(out, list)),
        _ => with_at_rules(d, without_blanks(list)),
    }
}

fn is_media_mark(n: &OutNode) -> (r: bool)
    ensures
        r == (node(*n) == Node::Mark(Mark::MediaHoist)),
{
    matches!(n, OutNode::Mark(Mark::MediaHoist))
}

fn find_media_mark(v: &Vec<OutNode>) -> (r: usize)
    ensures
        r == first_media_mark(nodes(v@), 0),
        r <= v@.len(),
{
    let mut i: usize = 0;
    while i < v.len() && !is_media_mark(&v[i])
        invariant
            i <= v@.len(),
            first_media_mark(nodes(v@), i as int) == first_media_mark(nodes(v@), 0),
        decreases v@.len() - i,
    {
        i += 1;
    }
    i
}

impl Sink {
    pub fn is_top(&self) -> (r: bool)
        ensures
            r == (self@ is Top),
    {
        matches!(self, Sink::Top(_))
    }

    pub fn is_rule(&self) -> (r: bool)
        ensures
            r == (self@ is Rule),
    {
        matches!(self, Sink::Rule { .. })
    }

    /// Make a block of the items collected so far.
    pub fn flush_rule_block(&mut self)
        ensures
            final(self)@ == flushed(old(self)@),
    {
        if let Sink::Rule { selectors, linebreaks, lines, items: list, nested } = self {
            if list.len() == 0 {
                return;
            }
            let mut taken: Vec<OutItem> = Vec::new();
            taken.append(list);
            let ghost tv = items(taken@);
            proof {
                assert(items(list@) =~= Seq::empty());
                assert(tv =~= old(self)@->Rule_items);
            }
            if selectors.len() > 0 {
                let rule = OutNode::Rule {
                    selectors: clone_strings(selectors),
                    linebreaks: copy_bools(linebreaks),
                    items: taken,
                    lines: *lines,
                };
                let at: usize = find_media_mark(nested);
                let ghost before = nodes(nested@);
                nested.insert(at, rule);
                proof {
                    assert(nodes(nested@) =~= before.insert(at as int, node(rule)));
                }
            }
        }
    }

    /// Let nodes bubble out of a rule; append them to any other sink.
    fn bubble(&mut self, more: Vec<OutNode>)
        ensures
            final(self)@ == bubbled(old(self)@, nodes(more@)),
    {
        match self {
            Sink::Top(out) => push_nodes(out, more),
            Sink::AtRoot(body) => push_nodes(body, more),
            Sink::Rule { nested, .. } => push_nodes(nested, more),
        }
    }

    /// Deposit an at-rule.
    pub fn push_at_rule(&mut self, n: OutNode)
        ensures
            final(self)@ == with_at_rule(old(self)@, node(n)),
    {
        match self {
            Sink::Top(out) => {
                push_group(out, one_node(n));
            },
            Sink::AtRoot(body) => {
                push_node(body, n);
            },
            Sink::Rule { .. } => {
                let hoist = matches!(&n, OutNode::Mark(Mark::MediaHoist)) || matches!(
                    &n,
                    OutNode::Mark(Mark::AtRootHoist)
                );
                if !hoist {
                    self.flush_rule_block();
                }
                self.bubble(one_node(n));
            },
        }
    }

    /// Deposit at-rules, one after the other.
    pub fn push_at_rules(&mut self, list: Vec<OutNode>)
        ensures
            final(self)@ == with_at_rules(old(self)@, nodes(list@)),
    {
        let ghost all = nodes(list@);
        let mut i: usize = 0;
        while i < list.len()
            invariant
                i <= list@.len(),
                all == nodes(list@),
                self@ == with_at_rules(old(self)@, all.take(i as int)),
            decreases list@.len() - i,
        {
            self.push_at_rule(copy_node(&list[i]));
            i += 1;
            proof {
                assert(all.take(i as int).drop_last() =~= all.take(i - 1));
            }
        }
        proof {
            assert(all.take(i as int) =~= all);
        }
    }

    /// Deposit an item.
    pub fn push_item(&mut self, i: OutItem)
        ensures
            final(self)@ == with_item(old(self)@, item(i)),
    {
        match self {
            Sink::Top(_) => {},
            Sink::AtRoot(body) => {
                push_node(body, lift(i));
            },
            Sink::Rule { items: list, .. } => {
                let ghost before = items(list@);
                list.push(i);
                proof {
                    assert(items(list@) =~= before.push(item(i)));
                }
            },
        }
    }

    /// Deposit an at-rule that has no block.
    pub fn push_childless_at_rule(&mut self, name: String, prelude: String, lines: SrcLines)
        ensures
            final(self)@ == with_childless(old(self)@, name@, prelude@, lines),
    {
        if self.is_rule() {
            self.push_item(OutItem::ChildlessAtRule { name, prelude, lines });
        } else {
            proof {
                assert(nodes(Seq::<OutNode>::empty()) =~= Seq::empty());
            }
            self.push_at_rule(
                OutNode::AtRule { name, prelude, body: Vec::new(), has_block: false, lines },
            );
        }
    }

    /// Deposit a comment; links to source maps are dropped.
    pub fn push_comment(&mut self, text: String, lines: SrcLines)
        ensures
            final(self)@ == with_comment(old(self)@, text@, lines),
    {
        let chars = chars_of(text.as_str());
        if starts_with(chars.as_slice(), "# sourceMappingURL=") || starts_with(
            chars.as_slice(),
            "# sourceURL=",
        ) {
            return;
        }
        match self {
            Sink::Top(out) => {
                push_group(out, one_node(OutNode::Comment(text, lines)));
            },
            Sink::AtRoot(body) => {
                push_node(body, OutNode::Comment(text, lines));
            },
            Sink::Rule { .. } => {
                self.push_item(OutItem::Comment(text, lines));
            },
        }
    }

    /// Deposit the output of a style rule.
    pub fn emit_style_rule(&mut self, output: Vec<OutNode>)
        ensures
            final(self)@ == with_style_rule(old(self)@, nodes(output@)),
    {
        match self {
            Sink::Top(out) => {
                push_group(out, output);
                if out.len() > 0 {
                    push_node(out, OutNode::Mark(Mark::StyleGroupEnd));
                }
            },
            Sink::AtRoot(body) => {
                push_nodes(body, output);
            },
            Sink::Rule { .. } => {
                self.flush_rule_block();
                self.bubble(output);
            },
        }
    }
}

/// Deposit the output of a module.
pub fn splice_nodes(sink: &mut Sink, list: Vec<OutNode>)
    ensures
        final(sink)@ == with_spliced(old(sink)@, nodes(list@)),
{
    match sink {
        Sink::Top(out) => {
            push_group(out, list);
        },
        _ => {
            let kept = drop_blanks(list);
            sink.push_at_rules(kept);
        },
    }
}

/// The nodes of a list that are no blank lines.
pub fn drop_blanks(list: Vec<OutNode>) -> (r: Vec<OutNode>)
    ensures
        nodes(r@) == without_blanks(nodes(list@)),
{
    let ghost all = nodes(list@);
    let mut out: Vec<OutNode> = Vec::new();
    let mut i: usize = 0;
    proof {
        assert(nodes(out@) =~= without_blanks(all.take(0)));
    }
    while i < list.len()
        invariant
            i <= list@.len(),
            all == nodes(list@),
            nodes(out@) == without_blanks(all.take(i as int)),
        decreases list@.len() - i,
    {
        proof {
            assert(all.take(i + 1).drop_last() =~= all.take(i as int));
            assert(all.take(i + 1).last() == node(list@[i as int]));
        }
        if !matches!(&list[i], OutNode::Blank) {
            push_node(&mut out, copy_node(&list[i]));
        }
        i += 1;
    }
    proof {
        assert(all.take(i as int) =~= all);
    }
    out
}

// ---- laws ----------------------------------------------------------------

/// Flushing twice does what flushing once does.
pub proof fn flush_is_idempotent(d: Drain)
    ensures
        flushed(flushed(d)) == flushed(d),
{
}

/// After a flush no item is pending.
pub proof fn flush_leaves_no_item(d: Drain)
    ensures
        flushed(d) is Rule ==> flushed(d)->Rule_items.len() == 0,
{
    match d {
        Drain::Rule { items, .. } => {
            if items.len() == 0 {
                assert(items =~= Seq::empty());
            }
        },
        _ => {},
    }
}

/// A deposit never changes what kind of sink it goes to.
pub proof fn deposits_keep_the_kind(d: Drain, n: Node, i: Item, list: Seq<Node>)
    ensures
        with_at_rule(d, n) is Top == d is Top,
        with_at_rule(d, n) is Rule == d is Rule,
        with_item(d, i) is Top == d is Top,
        with_item(d, i) is Rule == d is Rule,
        with_style_rule(d, list) is Top == d is Top,
        with_style_rule(d, list) is Rule == d is Rule,
        flushed(d) is Top == d is Top,
        flushed(d) is Rule == d is Rule,
{
}

} // verus!
