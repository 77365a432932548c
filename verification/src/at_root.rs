//! `@at-root`: its query, and the output it lifts out of the enclosing rules.

use vstd::prelude::*;
use crate::out::{
    Item, Node, OutItem, OutNode, SrcLines, copy_node, item, items, no_lines, node, nodes,
    one_node, push_node,
};
use crate::text::{
    chars_of, clone_strings, find_from, first_from, holds_text, is_ws, lower, rows, spells,
    string_of, texts, to_lower, trim, trimmed, whitespace,
};
use crate::tree::block;

verus! {

// ---- words ---------------------------------------------------------------

/// The runs of `s` between white space.
pub open spec fn words(s: Seq<char>) -> Seq<Seq<char>>
    decreases s.len(),
{
    if s.len() == 0 {
        Seq::empty()
    } else {
        let before = words(s.drop_last());
        let c = s.last();
        if is_ws(c) {
            before
        } else if s.len() >= 2 && !is_ws(s[s.len() - 2]) {
            before.drop_last().push(before.last().push(c))
        } else {
            before.push(seq![c])
        }
    }
}

pub fn split_whitespace(s: &[char]) -> (r: Vec<Vec<char>>)
    ensures
        rows(r@) == words(s@),
{
    let mut out: Vec<Vec<char>> = Vec::new();
    let mut cur: Vec<char> = Vec::new();
    let mut i: usize = 0;
    proof {
        assert(s@.take(0) =~= Seq::empty());
        assert(rows(out@) =~= words(s@.take(0)));
    }
    while i < s.len()
        invariant
            i <= s@.len(),
            cur@.len() == 0 <==> (i == 0 || is_ws(s@[i - 1])),
            words(s@.take(i as int)) == if cur@.len() == 0 {
                rows(out@)
            } else {
                rows(out@).push(cur@)
            },
        decreases s@.len() - i,
    {
        let c = s[i];
        let ghost t = s@.take(i + 1);
        let ghost before = rows(out@);
        let ghost word = cur@;
        proof {
            assert(t.drop_last() =~= s@.take(i as int));
            assert(before.push(word).drop_last() =~= before);
        }
        if whitespace(c) {
            if cur.len() > 0 {
                out.push(cur);
                cur = Vec::new();
                proof {
                    assert(rows(out@) =~= before.push(word));
                }
            }
        } else {
            cur.push(c);
            proof {
                if word.len() == 0 {
                    assert(cur@ =~= seq![c]);
                }
            }
        }
        i += 1;
    }
    let ghost before = rows(out@);
    let ghost word = cur@;
    if cur.len() > 0 {
        out.push(cur);
        proof {
            assert(rows(out@) =~= before.push(word));
        }
    }
    proof {
        assert(s@.take(i as int) =~= s@);
    }
    out
}

/// `s` without the `c` at its start.
pub open spec fn stripped_start(s: Seq<char>, c: char) -> Seq<char>
    decreases s.len(),
{
    if s.len() > 0 && s[0] == c {
        stripped_start(s.skip(1), c)
    } else {
        s
    }
}

/// `s` without the `c` at its end.
pub open spec fn stripped_end(s: Seq<char>, c: char) -> Seq<char>
    decreases s.len(),
{
    if s.len() > 0 && s.last() == c {
        stripped_end(s.drop_last(), c)
    } else {
        s
    }
}

pub fn strip_start(s: &[char], c: char) -> (r: &[char])
    ensures
        r@ == stripped_start(s@, c),
{
    let mut i: usize = 0;
    proof {
        assert(s@.skip(0) =~= s@);
    }
    while i < s.len() && s[i] == c
        invariant
            i <= s@.len(),
            stripped_start(s@.skip(i as int), c) == stripped_start(s@, c),
        decreases s@.len() - i,
    {
        proof {
            assert(s@.skip(i as int).skip(1) =~= s@.skip(i + 1));
        }
        i += 1;
    }
    let r = vstd::slice::slice_subrange(s, i, s.len());
    proof {
        assert(r@ =~= s@.skip(i as int));
    }
    r
}

pub fn strip_end(s: &[char], c: char) -> (r: &[char])
    ensures
        r@ == stripped_end(s@, c),
{
    let mut n: usize = s.len();
    proof {
        assert(s@.take(n as int) =~= s@);
    }
    while n > 0 && s[n - 1] == c
        invariant
            n <= s@.len(),
            stripped_end(s@.take(n as int), c) == stripped_end(s@, c),
        decreases n,
    {
        proof {
            assert(s@.take(n as int).drop_last() =~= s@.take(n - 1));
        }
        n -= 1;
    }
    let r = vstd::slice::slice_subrange(s, 0, n);
    proof {
        assert(r@ =~= s@.take(n as int));
    }
    r
}

// ---- queries -------------------------------------------------------------

/// Which enclosing rules an `@at-root` leaves: with `with` all but those named, else those
/// named.
#[derive(Debug)]
pub struct AtRootQuery {
    pub with: bool,
    pub names: Vec<String>,
    pub all: bool,
    pub rule: bool,
}

/// What an [`AtRootQuery`] says.
pub ghost struct RootQuery {
    pub with: bool,
    pub names: Seq<Seq<char>>,
}

/// The flags of a query follow from its names.
pub open spec fn query_ok(q: AtRootQuery) -> bool {
    q.all == texts(q.names@).contains("all"@) && q.rule == texts(q.names@).contains("rule"@)
}

impl View for AtRootQuery {
    type V = RootQuery;

    open spec fn view(&self) -> RootQuery {
        RootQuery { with: self.with, names: texts(self.names@) }
    }
}

/// A name in a query, without quotes and in lower case.
pub open spec fn query_name(w: Seq<char>) -> Seq<char> {
    lower(
        stripped_end(
            stripped_start(stripped_end(stripped_start(w, '"'), '"'), '\''),
            '\'',
        ),
    )
}

pub open spec fn query_names(ws: Seq<Seq<char>>) -> Seq<Seq<char>> {
    Seq::new(ws.len(), |i: int| query_name(ws[i]))
}

/// The query that a text spells; without a text it leaves style rules.
pub open spec fn parsed_root_query(text: Option<Seq<char>>) -> RootQuery {
    match text {
        None => RootQuery { with: false, names: seq!["rule"@] },
        Some(t) => {
            let inner = stripped_end(stripped_start(trimmed(t), '('), ')');
            let colon = first_from(inner, ':', 0);
            if colon < inner.len() {
                RootQuery {
                    with: lower(trimmed(inner.take(colon))) == "with"@,
                    names: query_names(words(inner.skip(colon + 1))),
                }
            } else {
                RootQuery { with: false, names: query_names(words(inner)) }
            }
        },
    }
}

/// Whether a query leaves style rules.
pub open spec fn leaves_style_rules(q: RootQuery) -> bool {
    (q.names.contains("all"@) || q.names.contains("rule"@)) != q.with
}

/// Whether a query leaves the at-rules of this name.
pub open spec fn leaves(q: RootQuery, name: Seq<char>) -> bool {
    (q.names.contains("all"@) || q.names.contains(name)) != q.with
}

fn clean_name(w: &[char]) -> (r: String)
    ensures
        r@ == query_name(w@),
{
    let w = strip_end(strip_start(w, '"'), '"');
    let w = strip_end(strip_start(w, '\''), '\'');
    string_of(to_lower(w).as_slice())
}

impl AtRootQuery {
    pub fn parse(text: Option<&str>) -> (r: AtRootQuery)
        ensures
            query_ok(r),
            r@ == parsed_root_query(
                match text {
                    Some(t) => Some(t@),
                    None => None,
                },
            ),
    {
        let mut names: Vec<String> = Vec::new();
        let mut with: bool = false;
        match text {
            None => {
                names.push("rule".to_owned());
                proof {
                    assert(texts(names@) =~= seq!["rule"@]);
                }
            },
            Some(t) => {
                let chars = chars_of(t);
                let inner = strip_end(strip_start(trim(chars.as_slice()), '('), ')');
                let n: usize = inner.len();
                let colon: usize = find_from(inner, ':', 0);
                let from: usize = if colon < n { colon + 1 } else { 0 };
                if colon < n {
                    let key = vstd::slice::slice_subrange(inner, 0, colon);
                    proof {
                        assert(key@ =~= inner@.take(colon as int));
                    }
                    with = spells(to_lower(trim(key)).as_slice(), "with");
                }
                let list = vstd::slice::slice_subrange(inner, from, n);
                proof {
                    if colon < n {
                        assert(list@ =~= inner@.skip(colon + 1));
                    } else {
                        assert(list@ =~= inner@);
                    }
                }
                let ws = split_whitespace(list);
                let ghost all = query_names(words(list@));
                let mut i: usize = 0;
                while i < ws.len()
                    invariant
                        i <= ws@.len(),
                        rows(ws@) == words(list@),
                        all == query_names(words(list@)),
                        texts(names@) =~= all.take(i as int),
                    decreases ws@.len() - i,
                {
                    let ghost before = texts(names@);
                    names.push(clean_name(ws[i].as_slice()));
                    i += 1;
                    proof {
                        assert(rows(ws@)[i - 1] == ws@[i - 1]@);
                        assert(texts(names@) =~= before.push(all[i - 1]));
                        assert(all.take(i as int) =~= all.take(i - 1).push(all[i - 1]));
                    }
                }
                proof {
                    assert(all.take(i as int) =~= all);
                }
            },
        }
        let all = holds_text(&names, "all");
        let rule = holds_text(&names, "rule");
        AtRootQuery { with, names, all, rule }
    }

    pub fn excludes_style_rules(&self) -> (r: bool)
        requires
            query_ok(*self),
        ensures
            r == leaves_style_rules(self@),
    {
        (self.all || self.rule) != self.with
    }

    pub fn excludes_name(&self, name: &str) -> (r: bool)
        requires
            query_ok(*self),
        ensures
            r == leaves(self@, name@),
    {
        if self.all {
            return !self.with;
        }
        holds_text(&self.names, name) != self.with
    }
}

// ---- enclosing at-rules --------------------------------------------------

/// An enclosing at-rule.
#[derive(Debug)]
pub enum AtCtx {
    Media { prelude: String },
    Supports { prelude: String },
    Keyframes { name: String, prelude: String },
}

/// What an [`AtCtx`] is.
pub ghost enum Layer {
    Media(Seq<char>),
    Supports(Seq<char>),
    Keyframes(Seq<char>, Seq<char>),
}

impl View for AtCtx {
    type V = Layer;

    open spec fn view(&self) -> Layer {
        match *self {
            AtCtx::Media { prelude } => Layer::Media(prelude@),
            AtCtx::Supports { prelude } => Layer::Supports(prelude@),
            AtCtx::Keyframes { name, prelude } => Layer::Keyframes(name@, prelude@),
        }
    }
}

pub open spec fn layers(v: Seq<AtCtx>) -> Seq<Layer> {
    Seq::new(v.len(), |i: int| v[i]@)
}

/// The name by which a query means this layer.
pub open spec fn layer_name(l: Layer) -> Seq<char> {
    match l {
        Layer::Media(_) => "media"@,
        Layer::Supports(_) => "supports"@,
        Layer::Keyframes(..) => "keyframes"@,
    }
}

/// The layer round a body.
pub open spec fn wrapped(l: Layer, body: Seq<Node>) -> Node {
    match l {
        Layer::Media(prelude) => block("media"@, prelude, body, no_lines()),
        Layer::Supports(prelude) => block("supports"@, prelude, body, no_lines()),
        Layer::Keyframes(name, prelude) => block(name, prelude, body, no_lines()),
    }
}

/// The layers round a body, the last of them innermost.
pub open spec fn wrapped_all(ls: Seq<Layer>, body: Seq<Node>) -> Seq<Node>
    decreases ls.len(),
{
    if ls.len() == 0 {
        body
    } else {
        wrapped_all(ls.drop_last(), seq![wrapped(ls.last(), body)])
    }
}

/// The layers that a query keeps.
pub open spec fn kept_layers(q: RootQuery, ls: Seq<Layer>) -> Seq<Layer>
    decreases ls.len(),
{
    if ls.len() == 0 {
        Seq::empty()
    } else {
        let before = kept_layers(q, ls.drop_last());
        if leaves(q, layer_name(ls.last())) {
            before
        } else {
            before.push(ls.last())
        }
    }
}

impl AtCtx {
    pub fn query_name(&self) -> (r: &'static str)
        ensures
            r@ == layer_name(self@),
    {
        match self {
            AtCtx::Media { .. } => "media",
            AtCtx::Supports { .. } => "supports",
            AtCtx::Keyframes { .. } => "keyframes",
        }
    }

    pub fn copy(&self) -> (r: AtCtx)
        ensures
            r@ == self@,
    {
        match self {
            AtCtx::Media { prelude } => AtCtx::Media { prelude: prelude.clone() },
            AtCtx::Supports { prelude } => AtCtx::Supports { prelude: prelude.clone() },
            AtCtx::Keyframes { name, prelude } => AtCtx::Keyframes {
                name: name.clone(),
                prelude: prelude.clone(),
            },
        }
    }

    /// This layer round a body.
    pub fn wrap(&self, body: Vec<OutNode>) -> (r: OutNode)
        ensures
            node(r) == wrapped(self@, nodes(body@)),
    {
        let lines = SrcLines { file: 0, start: 0, end: 0, col: 0 };
        match self {
            AtCtx::Media { prelude } => OutNode::AtRule {
                name: "media".to_owned(),
                prelude: prelude.clone(),
                body,
                has_block: true,
                lines,
            },
            AtCtx::Supports { prelude } => OutNode::AtRule {
                name: "supports".to_owned(),
                prelude: prelude.clone(),
                body,
                has_block: true,
                lines,
            },
            AtCtx::Keyframes { name, prelude } => OutNode::AtRule {
                name: name.clone(),
                prelude: prelude.clone(),
                body,
                has_block: true,
                lines,
            },
        }
    }
}

/// The layers that a query keeps.
pub fn keep_layers(q: &AtRootQuery, ls: &Vec<AtCtx>) -> (r: Vec<AtCtx>)
    requires
        query_ok(*q),
    ensures
        layers(r@) == kept_layers(q@, layers(ls@)),
{
    let ghost all = layers(ls@);
    let mut out: Vec<AtCtx> = Vec::new();
    let mut i: usize = 0;
    proof {
        assert(layers(out@) =~= Seq::empty());
    }
    while i < ls.len()
        invariant
            i <= ls@.len(),
            query_ok(*q),
            all == layers(ls@),
            layers(out@) == kept_layers(q@, all.take(i as int)),
        decreases ls@.len() - i,
    {
        let ghost before = layers(out@);
        proof {
            assert(all.take(i + 1).drop_last() =~= all.take(i as int));
        }
        if !q.excludes_name(ls[i].query_name()) {
            out.push(ls[i].copy());
            proof {
                assert(layers(out@) =~= before.push(all[i as int]));
            }
        }
        i += 1;
    }
    proof {
        assert(all.take(i as int) =~= all);
    }
    out
}

/// Put the layers round a body.
pub fn wrap_all(ls: &Vec<AtCtx>, body: Vec<OutNode>) -> (r: Vec<OutNode>)
    ensures
        nodes(r@) == wrapped_all(layers(ls@), nodes(body@)),
{
    let ghost all = layers(ls@);
    let ghost start = nodes(body@);
    let mut batch = body;
    let mut n: usize = ls.len();
    proof {
        assert(all.take(n as int) =~= all);
    }
    while n > 0
        invariant
            n <= ls@.len(),
            all == layers(ls@),
            wrapped_all(all.take(n as int), nodes(batch@)) == wrapped_all(all, start),
        decreases n,
    {
        proof {
            assert(all.take(n as int).drop_last() =~= all.take(n - 1));
        }
        batch = one_node(ls[n - 1].wrap(batch));
        n -= 1;
    }
    batch
}

// ---- declarations and spacing --------------------------------------------

/// `out` with the declarations so far made a rule of their own.
pub open spec fn closed_decls(out: Seq<Node>, decls: Seq<Item>, parents: Seq<Seq<char>>) -> Seq<Node> {
    if decls.len() == 0 {
        out
    } else {
        out.push(
            Node::Rule { selectors: parents, linebreaks: Seq::empty(), items: decls, lines: no_lines() },
        )
    }
}

/// `out`, and then `list` from `i` on with each run of bare declarations in a rule of the parents.
pub open spec fn rewrapped(
    list: Seq<Node>,
    i: int,
    parents: Seq<Seq<char>>,
    decls: Seq<Item>,
    out: Seq<Node>,
) -> Seq<Node>
    decreases list.len() - i,
{
    if i < 0 || i >= list.len() {
        closed_decls(out, decls, parents)
    } else {
        match list[i] {
            Node::AtDecl { prop, value, important, custom, lines } => rewrapped(
                list,
                i + 1,
                parents,
                decls.push(Item::Decl { prop, value, important, custom, lines }),
                out,
            ),
            n => rewrapped(
                list,
                i + 1,
                parents,
                Seq::empty(),
                closed_decls(out, decls, parents).push(n),
            ),
        }
    }
}

fn close_decls(out: &mut Vec<OutNode>, decls: Vec<OutItem>, parents: &Vec<String>)
    ensures
        nodes(final(out)@) == closed_decls(nodes(old(out)@), items(decls@), texts(parents@)),
{
    if decls.len() > 0 {
        push_node(
            out,
            OutNode::Rule {
                selectors: clone_strings(parents),
                linebreaks: Vec::new(),
                items: decls,
                lines: SrcLines { file: 0, start: 0, end: 0, col: 0 },
            },
        );
    }
}

/// Put each run of bare declarations in a rule of the parents.
pub fn rewrap_decls(list: &Vec<OutNode>, parents: &Vec<String>) -> (r: Vec<OutNode>)
    ensures
        nodes(r@) == rewrapped(nodes(list@), 0, texts(parents@), Seq::empty(), Seq::empty()),
{
    let ghost goal = rewrapped(nodes(list@), 0, texts(parents@), Seq::empty(), Seq::empty());
    let mut out: Vec<OutNode> = Vec::new();
    let mut decls: Vec<OutItem> = Vec::new();
    let mut i: usize = 0;
    proof {
        assert(nodes(out@) =~= Seq::empty());
        assert(items(decls@) =~= Seq::empty());
    }
    while i < list.len()
        invariant
            i <= list@.len(),
            rewrapped(nodes(list@), i as int, texts(parents@), items(decls@), nodes(out@)) == goal,
        decreases list@.len() - i,
    {
        proof {
            assert(nodes(list@)[i as int] == node(list@[i as int]));
        }
        match &list[i] {
            OutNode::AtDecl { prop, value, important, custom, lines } => {
                let ghost before = items(decls@);
                let d = OutItem::Decl {
                    prop: prop.clone(),
                    value: value.clone(),
                    important: *important,
                    custom: *custom,
                    lines: *lines,
                };
                decls.push(d);
                proof {
                    assert(items(decls@) =~= before.push(item(d)));
                }
            },
            n => {
                close_decls(&mut out, decls, parents);
                decls = Vec::new();
                push_node(&mut out, copy_node(n));
                proof {
                    assert(items(decls@) =~= Seq::empty());
                }
            },
        }
        i += 1;
    }
    close_decls(&mut out, decls, parents);
    out
}

/// The nodes with a blank line after each style rule but the last node.
pub open spec fn spaced(list: Seq<Node>) -> Seq<Node>
    decreases list.len(),
{
    if list.len() == 0 {
        list
    } else {
        let before = spaced(list.drop_last());
        if list.len() >= 2 && list[list.len() - 2] is Rule {
            before.push(Node::Blank).push(list.last())
        } else {
            before.push(list.last())
        }
    }
}

pub fn space_rules(list: &Vec<OutNode>) -> (r: Vec<OutNode>)
    ensures
        nodes(r@) == spaced(nodes(list@)),
{
    let ghost all = nodes(list@);
    let mut out: Vec<OutNode> = Vec::new();
    let mut after_rule: bool = false;
    let mut i: usize = 0;
    proof {
        assert(nodes(out@) =~= spaced(all.take(0)));
    }
    while i < list.len()
        invariant
            i <= list@.len(),
            all == nodes(list@),
            after_rule == (i > 0 && all[i - 1] is Rule),
            nodes(out@) == spaced(all.take(i as int)),
        decreases list@.len() - i,
    {
        proof {
            assert(all.take(i + 1).drop_last() =~= all.take(i as int));
            assert(all[i as int] == node(list@[i as int]));
        }
        if after_rule {
            push_node(&mut out, OutNode::Blank);
        }
        after_rule = matches!(&list[i], OutNode::Rule { .. });
        push_node(&mut out, copy_node(&list[i]));
        i += 1;
    }
    proof {
        assert(all.take(i as int) =~= all);
    }
    out
}

/// Whether a bare declaration is among the nodes.
pub open spec fn has_decl(list: Seq<Node>) -> bool {
    exists|k: int| 0 <= k < list.len() && (#[trigger] list[k]) is AtDecl
}

pub fn holds_decl(list: &Vec<OutNode>) -> (r: bool)
    ensures
        r == has_decl(nodes(list@)),
{
    let mut i: usize = 0;
    while i < list.len()
        invariant
            i <= list@.len(),
            forall|k: int| 0 <= k < i ==> !((#[trigger] nodes(list@)[k]) is AtDecl),
        decreases list@.len() - i,
    {
        if matches!(&list[i], OutNode::AtDecl { .. }) {
            proof {
                assert(nodes(list@)[i as int] is AtDecl);
            }
            return true;
        }
        i += 1;
    }
    false
}

// ---- laws ----------------------------------------------------------------

/// `with: all` leaves nothing, and `without: all` leaves everything.
pub proof fn all_means_everything(q: RootQuery, name: Seq<char>)
    requires
        q.names.contains("all"@),
    ensures
        leaves(q, name) == !q.with,
        leaves_style_rules(q) == !q.with,
{
}

/// Where a query leaves no layer, it keeps them all.
pub proof fn kept_layers_of_none(q: RootQuery, ls: Seq<Layer>)
    requires
        forall|k: int| 0 <= k < ls.len() ==> !leaves(q, layer_name(#[trigger] ls[k])),
    ensures
        kept_layers(q, ls) == ls,
    decreases ls.len(),
{
    if ls.len() > 0 {
        assert(!leaves(q, layer_name(ls[ls.len() - 1])));
        kept_layers_of_none(q, ls.drop_last());
        assert(ls.drop_last().push(ls.last()) =~= ls);
    } else {
        assert(kept_layers(q, ls) =~= ls);
    }
}

} // verus!
