//! Running statements: blocks, control flow and rules.

use std::rc::Rc;
use vstd::prelude::*;
use crate::analysis::literal_name_is_custom_property;
use crate::ast::{
    Expr, IfBranch, MediaQueryList, PropertySet, Rule, Stmt, SupportsCondition, TplPiece,
};
use crate::at_root::{
    AtCtx, AtRootQuery, Layer, RootQuery, holds_decl, keep_layers, kept_layers, layers, query_ok,
    rewrap_decls, space_rules, wrap_all,
};
use crate::bodies::each_items_of;
use crate::decls::{empty_nodes, make_block, out_nodes};
use crate::env::opt_texts;
use crate::eval::{
    Ev, Evaluator, closing_a_scope_restores, ev_of, out_unit, popped, same_place, stop, stop_at,
};
use crate::expr::empty_strings;
use crate::host::{Answer, Stop};
use crate::install::copy_opt_text;
use crate::media::{
    Query, ResolvedQuery, merge_media_query_lists, merged_lists, queries, serialize_media_queries,
};
use crate::names::{as_ints, for_indices, is_keyframes_name, mixin_frame_name};
use crate::out::{Mark, Node, OutItem, OutNode, SrcLines, copy_bools, copy_nodes, no_lines, nodes};
use crate::page::{Leaf, leaf_of};
use crate::plain::{empty_items, out_drain};
use crate::report::leaving_a_call_restores;
use crate::rules::{copy_opt_strings, rule_entered, rule_left};
use crate::semantics::while_limit;
use crate::sink::Sink;
use crate::statements::{
    any_decl, any_frame_with_rule, any_rule, at_body, at_root_closed, at_root_entered,
    at_root_left, at_root_rule, at_rule, batches_taken, drain_nodes, each_stmt, for_stmt,
    frame_with_rule, frames_entered, frames_left, keyframes, media_block, media_closed,
    media_entered, media_left, media_rule, property_set, quietly, root_query_text, rule_drain,
    run_block, run_branches, run_each, run_for, run_stmt, run_stmts, run_while, set_value,
    style_rule, supports_rule, while_stmt, with_layer, without_layer,
};
use crate::text::{clone_strings, same_str, text_of, texts};
use crate::tree::{
    Split, at_body_to_items, forest, shell_keyframes, shelled, split_at_rule, split_body,
};
use crate::value::{Number, Value, find_map, vals};

verus! {

broadcast use crate::kept::group_kept;

/// The nodes that a sink has collected.
pub fn sink_nodes(sink: Sink) -> (r: Vec<OutNode>)
    ensures
        nodes(r@) == drain_nodes(sink@),
{
    match sink {
        Sink::Top(out) => out,
        Sink::AtRoot(body) => body,
        Sink::Rule { nested, .. } => nested,
    }
}

/// An empty sink for the block of a rule.
pub fn rule_sink(selectors: Vec<String>, linebreaks: Vec<bool>, lines: SrcLines) -> (r: Sink)
    ensures
        r@ == rule_drain(texts(selectors@), linebreaks@, lines),
{
    Sink::Rule { selectors, linebreaks, lines, items: empty_items(), nested: empty_nodes() }
}

fn holds_decl_stmt(body: &Vec<Stmt>) -> (r: bool)
    ensures
        r == any_decl(body@),
{
    let mut i: usize = 0;
    while i < body.len()
        invariant
            i <= body@.len(),
            forall|k: int| 0 <= k < i ==> !((#[trigger] body@[k]) is Decl),
        decreases body@.len() - i,
    {
        if matches!(&body[i], Stmt::Decl(_)) {
            return true;
        }
        i += 1;
    }
    false
}

fn holds_rule(body: &Vec<Stmt>) -> (r: bool)
    ensures
        r == any_rule(body@),
{
    let mut i: usize = 0;
    while i < body.len()
        invariant
            i <= body@.len(),
            forall|k: int| 0 <= k < i ==> !((#[trigger] body@[k]) is Rule),
        decreases body@.len() - i,
    {
        if matches!(&body[i], Stmt::Rule(_)) {
            return true;
        }
        i += 1;
    }
    false
}

fn holds_frame_with_rule(body: &Vec<Stmt>) -> (r: bool)
    ensures
        r == any_frame_with_rule(body@),
{
    let mut i: usize = 0;
    while i < body.len()
        invariant
            i <= body@.len(),
            forall|k: int| 0 <= k < i ==> !frame_with_rule(#[trigger] body@[k]),
        decreases body@.len() - i,
    {
        if let Stmt::Rule(r) = &body[i] {
            if holds_rule(&r.body) {
                return true;
            }
        }
        i += 1;
    }
    false
}

fn copy_queries(v: &Vec<ResolvedQuery>) -> (r: Vec<ResolvedQuery>)
    ensures
        queries(r@) == queries(v@),
{
    let mut out: Vec<ResolvedQuery> = Vec::new();
    let mut i: usize = 0;
    while i < v.len()
        invariant
            i <= v@.len(),
            queries(out@) =~= queries(v@).take(i as int),
        decreases v@.len() - i,
    {
        let ghost before = queries(out@);
        let q = v[i].copy();
        let ghost qv = q@;
        out.push(q);
        proof {
            assert(queries(out@) =~= before.push(qv));
            assert(queries(v@)[i as int] == v@[i as int]@);
        }
        i += 1;
    }
    proof {
        assert(queries(v@).take(i as int) =~= queries(v@));
    }
    out
}

/// Batches without the first ones.
fn later_batches(v: &Vec<Vec<OutNode>>, from: usize) -> (r: Vec<Vec<OutNode>>)
    requires
        from <= v@.len(),
    ensures
        forest(r@) == forest(v@).skip(from as int),
{
    let ghost all = forest(v@).skip(from as int);
    let mut out: Vec<Vec<OutNode>> = Vec::new();
    let mut i: usize = from;
    while i < v.len()
        invariant
            from <= i <= v@.len(),
            all == forest(v@).skip(from as int),
            forest(out@) =~= all.take(i - from),
        decreases v@.len() - i,
    {
        let ghost before = forest(out@);
        let b = copy_nodes(&v[i]);
        let ghost bv = nodes(b@);
        out.push(b);
        i += 1;
        proof {
            assert(forest(out@) =~= before.push(bv));
            assert(all.take(i - from) =~= all.take(i - 1 - from).push(all[i - 1 - from]));
        }
    }
    proof {
        assert(all.take(i - from) =~= all);
    }
    out
}

fn no_batches() -> (r: Vec<Vec<OutNode>>)
    ensures
        forest(r@) == Seq::<Seq<Node>>::empty(),
{
    let r: Vec<Vec<OutNode>> = Vec::new();
    proof {
        assert(forest(r@) =~= Seq::empty());
    }
    r
}

fn push_batch(v: &mut Vec<Vec<OutNode>>, b: Vec<OutNode>)
    ensures
        forest(final(v)@) == forest(old(v)@).push(nodes(b@)),
{
    let ghost bv = nodes(b@);
    v.push(b);
    proof {
        assert(forest(final(v)@) =~= forest(old(v)@).push(bv));
    }
}

proof fn leaving_a_rule_keeps_the_place(s: Ev, from: Ev, current: Seq<Seq<char>>, lbs: Seq<bool>)
    requires
        same_place(rule_entered(from, current, lbs), s),
    ensures
        same_place(from, rule_left(s, from)),
{
    reveal(rule_entered);
    reveal(rule_left);
    let t = Ev { page: Leaf { at_root: from.page.at_root, ..s.page }, ..s };
    closing_a_scope_restores(from, false, t);
}

proof fn leaving_at_root_keeps_the_place(s: Ev, from: Ev, q: RootQuery)
    requires
        same_place(at_root_entered(from, q), s),
    ensures
        same_place(from, at_root_left(s, q, from)),
{
    reveal(at_root_entered);
    reveal(at_root_left);
    let t = Ev {
        page: Leaf {
            at_root: from.page.at_root,
            media: from.page.media,
            keyframes: from.page.keyframes,
            ..s.page
        },
        ..s
    };
    closing_a_scope_restores(from, false, t);
}

proof fn leaving_a_layer_keeps_the_place(s: Ev, from: Ev, l: Layer)
    requires
        same_place(with_layer(from, l), s),
    ensures
        same_place(from, without_layer(s)),
{
    assert(popped(s.page.layers) =~= from.page.layers);
}

proof fn leaving_media_keeps_the_place(s: Ev, from: Ev, qs: Seq<Query>, prelude: Seq<char>)
    requires
        same_place(media_entered(from, qs, prelude), s),
    ensures
        same_place(from, media_left(s, from)),
{
    reveal(media_entered);
    reveal(media_left);
    assert(popped(s.page.layers) =~= from.page.layers);
}

proof fn leaving_frames_keeps_the_place(s: Ev, from: Ev, name: Seq<char>, prelude: Seq<char>)
    requires
        same_place(frames_entered(from, name, prelude), s),
    ensures
        same_place(from, frames_left(s, from.page.keyframes)),
{
    reveal(frames_entered);
    reveal(frames_left);
    assert(popped(s.page.layers) =~= from.page.layers);
}

/// What is put back when a rule is left.
#[derive(Debug)]
pub struct SavedRule {
    pub selector: Option<Vec<String>>,
    pub linebreaks: Vec<bool>,
    pub at_root: bool,
}

pub open spec fn saved_rule(o: SavedRule, s: Ev) -> bool {
    &&& opt_texts(o.selector) == s.selector
    &&& o.linebreaks@ == s.page.linebreaks
    &&& o.at_root == s.page.at_root
}

/// What is put back when a `@media` rule is left.
#[derive(Debug)]
pub struct SavedMedia {
    pub media: Vec<ResolvedQuery>,
    pub hoist: Vec<Vec<OutNode>>,
}

pub open spec fn saved_media(o: SavedMedia, s: Ev) -> bool {
    queries(o.media@) == s.page.media && forest(o.hoist@) == s.page.media_hoist
}

/// What is put back when an `@at-root` is left.
#[derive(Debug)]
pub struct SavedRoot {
    pub at_root: bool,
    pub media: Vec<ResolvedQuery>,
    pub keyframes: bool,
}

pub open spec fn saved_root(o: SavedRoot, s: Ev) -> bool {
    &&& o.at_root == s.page.at_root
    &&& queries(o.media@) == s.page.media
    &&& o.keyframes == s.page.keyframes
}

impl Evaluator {
    fn push_layer(&mut self, l: AtCtx)
        ensures
            final(self)@ == with_layer(old(self)@, l@),
    {
        proof {
            reveal(ev_of);
        }
        proof {
            reveal(leaf_of);
        }
        let ghost before = layers(self.page.layers@);
        let ghost lv = l@;
        self.page.layers.push(l);
        proof {
            assert(layers(self.page.layers@) =~= before.push(lv));
        }
    }

    fn pop_layer(&mut self)
        ensures
            final(self)@ == without_layer(old(self)@),
    {
        proof {
            reveal(ev_of);
        }
        proof {
            reveal(leaf_of);
        }
        let ghost before = layers(self.page.layers@);
        self.page.layers.pop();
        proof {
            assert(layers(self.page.layers@) =~= popped(before));
        }
    }

    fn take_batches(&mut self, used: usize)
        requires
            used <= old(self)@.page.at_root_hoist.len(),
        ensures
            final(self)@ == batches_taken(old(self)@, used as int),
            same_place(old(self)@, final(self)@),
    {
        proof {
            reveal(batches_taken);
        }
        proof {
            reveal(ev_of);
        }
        proof {
            reveal(leaf_of);
        }
        self.page.at_root_hoist = later_batches(&self.page.at_root_hoist, used);
    }

    fn enter_rule(&mut self, current: &Vec<String>, lbs: Vec<bool>) -> (r: SavedRule)
        ensures
            final(self)@ == rule_entered(old(self)@, texts(current@), lbs@),
            saved_rule(r, old(self)@),
    {
        proof {
            reveal(rule_entered);
        }
        proof {
            reveal(ev_of);
        }
        proof {
            reveal(leaf_of);
        }
        let saved = SavedRule {
            selector: copy_opt_strings(&self.selector),
            linebreaks: copy_bools(&self.page.linebreaks),
            at_root: self.page.at_root,
        };
        self.push_scope(false);
        self.selector = Some(clone_strings(current));
        self.page.linebreaks = lbs;
        self.page.at_root = false;
        saved
    }

    fn leave_rule(&mut self, o: SavedRule, from: Ghost<Ev>)
        requires
            saved_rule(o, from@),
        ensures
            final(self)@ == rule_left(old(self)@, from@),
    {
        proof {
            reveal(rule_left);
        }
        proof {
            reveal(ev_of);
        }
        proof {
            reveal(leaf_of);
        }
        self.selector = o.selector;
        self.page.linebreaks = o.linebreaks;
        self.page.at_root = o.at_root;
        self.pop_scope();
    }

    fn enter_media(&mut self, qs: Vec<ResolvedQuery>, prelude: &str) -> (r: SavedMedia)
        ensures
            final(self)@ == media_entered(old(self)@, queries(qs@), prelude@),
            saved_media(r, old(self)@),
    {
        proof {
            reveal(media_entered);
        }
        proof {
            reveal(ev_of);
        }
        proof {
            reveal(leaf_of);
        }
        let saved = SavedMedia {
            media: copy_queries(&self.page.media),
            hoist: later_batches(&self.page.media_hoist, 0),
        };
        proof {
            assert(forest(self.page.media_hoist@).skip(0) =~= forest(self.page.media_hoist@));
        }
        self.page.media = qs;
        self.page.media_hoist = no_batches();
        self.push_layer(AtCtx::Media { prelude: prelude.to_owned() });
        saved
    }

    fn leave_media(&mut self, o: SavedMedia, from: Ghost<Ev>) -> (r: Vec<Vec<OutNode>>)
        requires
            saved_media(o, from@),
        ensures
            final(self)@ == media_left(old(self)@, from@),
            forest(r@) == old(self)@.page.media_hoist,
    {
        proof {
            reveal(media_left);
        }
        proof {
            reveal(ev_of);
        }
        proof {
            reveal(leaf_of);
        }
        let hoisted = later_batches(&self.page.media_hoist, 0);
        proof {
            assert(forest(self.page.media_hoist@).skip(0) =~= forest(self.page.media_hoist@));
        }
        self.pop_layer();
        self.page.media = o.media;
        self.page.media_hoist = o.hoist;
        hoisted
    }

    fn close_media(
        &mut self,
        list: &Vec<OutNode>,
        prelude: &str,
        lines: SrcLines,
        outermost: bool,
        hoisted: &Vec<Vec<OutNode>>,
        bubbles: bool,
        sink: Sink,
    ) -> (r: Sink)
        ensures
            (r@, final(self)@) == media_closed(
                old(self)@,
                nodes(list@),
                prelude@,
                lines,
                outermost,
                forest(hoisted@),
                bubbles,
                sink@,
            ),
            same_place(old(self)@, final(self)@),
    {
        proof {
            reveal(media_closed);
        }
        proof {
            reveal(ev_of);
        }
        proof {
            reveal(leaf_of);
        }
        let mut sink = sink;
        let (out, _, used) = split_at_rule(
            list,
            "media",
            prelude,
            lines,
            true,
            outermost,
            hoisted,
            &self.page.at_root_hoist,
        );
        self.take_batches(used);
        if out.len() == 0 {
            return sink;
        }
        if bubbles {
            sink.push_at_rule(OutNode::Mark(Mark::MediaHoist));
            push_batch(&mut self.page.media_hoist, out);
        } else {
            sink.push_at_rules(out);
        }
        sink
    }

    fn enter_frames(&mut self, name: &str, prelude: &str) -> (r: bool)
        ensures
            final(self)@ == frames_entered(old(self)@, name@, prelude@),
            r == old(self)@.page.keyframes,
    {
        proof {
            reveal(frames_entered);
        }
        proof {
            reveal(ev_of);
        }
        proof {
            reveal(leaf_of);
        }
        let saved = self.page.keyframes;
        self.page.keyframes = true;
        self.push_layer(AtCtx::Keyframes { name: name.to_owned(), prelude: prelude.to_owned() });
        saved
    }

    fn leave_frames(&mut self, keyframes: bool)
        ensures
            final(self)@ == frames_left(old(self)@, keyframes),
    {
        proof {
            reveal(frames_left);
        }
        proof {
            reveal(ev_of);
        }
        proof {
            reveal(leaf_of);
        }
        self.pop_layer();
        self.page.keyframes = keyframes;
    }

    fn enter_at_root(&mut self, q: &AtRootQuery) -> (r: SavedRoot)
        requires
            query_ok(*q),
        ensures
            final(self)@ == at_root_entered(old(self)@, q@),
            saved_root(r, old(self)@),
    {
        proof {
            reveal(at_root_entered);
        }
        proof {
            reveal(ev_of);
        }
        proof {
            reveal(leaf_of);
        }
        let saved = SavedRoot {
            at_root: self.page.at_root,
            media: copy_queries(&self.page.media),
            keyframes: self.page.keyframes,
        };
        self.push_scope(false);
        self.page.at_root = q.excludes_style_rules();
        if q.excludes_name("media") {
            let none: Vec<ResolvedQuery> = Vec::new();
            proof {
                assert(queries(none@) =~= Seq::empty());
            }
            self.page.media = none;
        }
        if q.excludes_name("keyframes") {
            self.page.keyframes = false;
        }
        saved
    }

    #[verifier::rlimit(40)]
    fn leave_at_root(&mut self, o: SavedRoot, q: &AtRootQuery, from: Ghost<Ev>)
        requires
            query_ok(*q),
            saved_root(o, from@),
        ensures
            final(self)@ == at_root_left(old(self)@, q@, from@),
    {
        proof {
            reveal(at_root_left);
        }
        proof {
            reveal(ev_of);
        }
        proof {
            reveal(leaf_of);
        }
        self.page.at_root = o.at_root;
        if q.excludes_name("media") {
            self.page.media = o.media;
        }
        if q.excludes_name("keyframes") {
            self.page.keyframes = o.keyframes;
        }
        self.pop_scope();
    }

    fn close_at_root(
        &mut self,
        list: Vec<OutNode>,
        kept: &Vec<AtCtx>,
        escapes: bool,
        bare: bool,
        parents: &Vec<String>,
        sink: Sink,
    ) -> (r: Result<Sink, Stop>)
        ensures
            (out_drain(r), final(self)@) == at_root_closed(
                old(self)@,
                nodes(list@),
                layers(kept@),
                escapes,
                bare,
                texts(parents@),
                sink@,
            ),
            same_place(old(self)@, final(self)@),
    {
        proof {
            reveal(at_root_closed);
        }
        proof {
            reveal(ev_of);
        }
        proof {
            reveal(leaf_of);
        }
        if (bare || parents.len() == 0) && holds_decl(&list) {
            return Err(stop("Declarations may only be used within style rules."));
        }
        let list = if !bare && parents.len() > 0 {
            rewrap_decls(&list, parents)
        } else {
            list
        };
        let out = space_rules(&list);
        let mut sink = sink;
        if out.len() == 0 {
            return Ok(sink);
        }
        if escapes {
            push_batch(&mut self.page.at_root_hoist, wrap_all(kept, out));
            sink.push_at_rule(OutNode::Mark(Mark::AtRootHoist));
        } else {
            sink.push_at_rules(out);
        }
        Ok(sink)
    }

    fn root_query_text(&mut self, ans: &Vec<Answer>, query: &Option<Vec<TplPiece>>, fuel: usize) -> (r: Result<
        Option<String>,
        Stop,
    >)
        ensures
            (match r {
                Ok(t) => Ok(text_of(t)),
                Err(e) => Err(e@),
            }, final(self)@) == root_query_text(old(self)@, ans@, *query, fuel as nat),
            same_place(old(self)@, final(self)@),
    {
        proof {
            reveal(root_query_text);
        }
        match query {
            None => Ok(None),
            Some(q) => match self.eval_template(ans, q, fuel) {
                Err(x) => Err(x),
                Ok(t) => Ok(Some(t)),
            },
        }
    }

    fn set_value(
        &mut self,
        ans: &Vec<Answer>,
        x: &PropertySet,
        full: &str,
        sink: Sink,
        fuel: usize,
    ) -> (r: Result<Sink, Stop>)
        ensures
            (out_drain(r), final(self)@) == set_value(
                old(self)@,
                ans@,
                *x,
                full@,
                sink@,
                fuel as nat,
            ),
            same_place(old(self)@, final(self)@),
    {
        proof {
            reveal(set_value);
        }
        let mut sink = sink;
        let e = match &x.value {
            None => {
                return Ok(sink);
            },
            Some(e) => e,
        };
        let v = match self.eval_expr(ans, e, fuel) {
            Ok(v) => v,
            Err(s) => {
                return Err(s);
            },
        };
        if matches!(&v, Value::Null) {
            return Ok(sink);
        }
        if let Some(m) = find_map(&v) {
            return Err(self.map_error(ans, m, x.pos));
        }
        match self.styled_css(ans, &v) {
            Err(s) => Err(s),
            Ok(value) => {
                sink.push_item(
                    OutItem::Decl {
                        prop: full.to_owned(),
                        value,
                        important: x.important,
                        custom: false,
                        lines: SrcLines { file: 0, start: 0, end: 0, col: 0 },
                    },
                );
                Ok(sink)
            },
        }
    }
}

impl Evaluator {
    fn has_prefix(&self) -> (r: bool)
        ensures
            r == (self@.page.prefix is Some),
    {
        proof {
            reveal(ev_of);
            reveal(leaf_of);
        }
        self.page.prefix.is_some()
    }

    fn prefix_copy(&self) -> (r: Option<String>)
        ensures
            text_of(r) == self@.page.prefix,
    {
        proof {
            reveal(ev_of);
            reveal(leaf_of);
        }
        copy_opt_text(&self.page.prefix)
    }

    fn set_prefix(&mut self, p: Option<String>)
        ensures
            final(self)@ == (Ev {
                page: Leaf { prefix: text_of(p), ..old(self)@.page },
                ..old(self)@
            }),
            same_place(old(self)@, final(self)@),
    {
        proof {
            reveal(ev_of);
            reveal(leaf_of);
        }
        self.page.prefix = p;
    }

    fn in_frames(&self) -> (r: bool)
        ensures
            r == self@.page.keyframes,
    {
        proof {
            reveal(ev_of);
            reveal(leaf_of);
        }
        self.page.keyframes
    }

    fn is_at_root(&self) -> (r: bool)
        ensures
            r == self@.page.at_root,
    {
        proof {
            reveal(ev_of);
            reveal(leaf_of);
        }
        self.page.at_root
    }

    fn is_outermost(&self) -> (r: bool)
        ensures
            r == (self@.page.layers.len() == 0),
    {
        proof {
            reveal(ev_of);
            reveal(leaf_of);
        }
        self.page.layers.len() == 0
    }

    /// The queries merged with those of the enclosing `@media` rule, if there is one.
    fn merge_queries(&self, qs: &Vec<ResolvedQuery>) -> (r: Option<Vec<ResolvedQuery>>)
        ensures
            (match r {
                Some(l) => Some(queries(l@)),
                None => None,
            }) == (if self@.page.media.len() == 0 {
                None
            } else {
                merged_lists(self@.page.media, queries(qs@))
            }),
    {
        proof {
            reveal(ev_of);
            reveal(leaf_of);
        }
        if self.page.media.len() == 0 {
            None
        } else {
            merge_media_query_lists(&self.page.media, qs)
        }
    }

    /// The body of an at-rule split around the batches that leave it.
    fn split_supports(&mut self, list: &Vec<OutNode>, prelude: &str, outermost: bool) -> (r: Vec<OutNode>)
        ensures
            ({
                let split = split_body(
                    nodes(list@),
                    "supports"@,
                    prelude@,
                    no_lines(),
                    false,
                    outermost,
                    Seq::empty(),
                    old(self)@.page.at_root_hoist,
                );
                nodes(r@) == split.nodes && final(self)@ == batches_taken(
                    old(self)@,
                    split.at_root,
                )
            }),
            same_place(old(self)@, final(self)@),
    {
        proof {
            reveal(batches_taken);
        }
        proof {
            reveal(ev_of);
            reveal(leaf_of);
        }
        let (out, _, used) = split_at_rule(
            list,
            "supports",
            prelude,
            SrcLines { file: 0, start: 0, end: 0, col: 0 },
            false,
            outermost,
            &no_batches(),
            &self.page.at_root_hoist,
        );
        self.take_batches(used);
        out
    }

    /// The frames of `@keyframes`, and what leaves them.
    fn split_frames(&mut self, list: &Vec<OutNode>, outermost: bool) -> (r: (Vec<OutNode>, Vec<OutNode>))
        ensures
            ({
                let (shell, rest) = shelled(
                    nodes(list@),
                    0,
                    outermost,
                    old(self)@.page.at_root_hoist,
                    Seq::empty(),
                    Split { nodes: Seq::empty(), media: 0, at_root: 0 },
                );
                nodes(r.0@) == shell && nodes(r.1@) == rest.nodes && final(self)@ == batches_taken(
                    old(self)@,
                    rest.at_root,
                )
            }),
            same_place(old(self)@, final(self)@),
    {
        proof {
            reveal(batches_taken);
        }
        proof {
            reveal(ev_of);
            reveal(leaf_of);
        }
        let (shell, rest, used) = shell_keyframes(list, outermost, &self.page.at_root_hoist);
        self.take_batches(used);
        (shell, rest)
    }

    /// The enclosing at-rules that a query keeps, and whether it leaves any.
    fn kept_layers(&self, q: &AtRootQuery) -> (r: (Vec<AtCtx>, bool))
        requires
            query_ok(*q),
        ensures
            layers(r.0@) == kept_layers(q@, self@.page.layers),
            r.1 == (kept_layers(q@, self@.page.layers).len() != self@.page.layers.len()),
    {
        proof {
            reveal(ev_of);
            reveal(leaf_of);
        }
        let kept = keep_layers(q, &self.page.layers);
        let escapes = kept.len() != self.page.layers.len();
        (kept, escapes)
    }
}

// ---- blocks and statements -----------------------------------------------

fn after(r: Result<(), Stop>, sink: Sink) -> (o: Result<Sink, Stop>)
    ensures
        forall|s: Ev| (out_drain(o), s) == quietly((#[trigger] out_unit(r), s), sink@),
{
    match r {
        Ok(()) => Ok(sink),
        Err(x) => Err(x),
    }
}

impl Evaluator {
    /// Run a block of statements. Whatever they do, whether they succeed or fail, evaluation is at the
    /// same place after it as before it: the same scopes are open, the same calls are under way in
    /// the same member, and the same at-rules are round it.
    pub fn exec(
        &mut self,
        ans: &Vec<Answer>,
        stmts: &Vec<Stmt>,
        parents: &Vec<String>,
        sink: Sink,
        fuel: usize,
    ) -> (r: Result<Sink, Stop>)
        ensures
            (out_drain(r), final(self)@) == run_block(
                old(self)@,
                ans@,
                stmts@,
                texts(parents@),
                sink@,
                fuel as nat,
            ),
            same_place(old(self)@, final(self)@),
        decreases fuel, 0nat, 0int,
    {
        if fuel == 0 {
            return Err(Stop::Depth);
        }
        self.exec_stmts(ans, stmts, parents, sink, fuel - 1)
    }

    #[verifier::loop_isolation(false)]
    fn exec_stmts(
        &mut self,
        ans: &Vec<Answer>,
        stmts: &Vec<Stmt>,
        parents: &Vec<String>,
        sink: Sink,
        fuel: usize,
    ) -> (r: Result<Sink, Stop>)
        ensures
            (out_drain(r), final(self)@) == run_stmts(
                old(self)@,
                ans@,
                stmts@,
                0,
                texts(parents@),
                sink@,
                fuel as nat,
            ),
            same_place(old(self)@, final(self)@),
        decreases fuel, 60nat, stmts@.len(),
    {
        let ghost ps = texts(parents@);
        let ghost goal = run_stmts(self@, ans@, stmts@, 0, ps, sink@, fuel as nat);
        let mut out = sink;
        let mut i: usize = 0;
        while i < stmts.len()
            invariant
                same_place(old(self)@, self@),
                i <= stmts@.len(),
                run_stmts(self@, ans@, stmts@, i as int, ps, out@, fuel as nat) == goal,
            decreases stmts@.len() - i,
        {
            match self.exec_stmt(ans, &stmts[i], parents, out, fuel) {
                Ok(o) => {
                    out = o;
                },
                Err(x) => {
                    return Err(x);
                },
            }
            i += 1;
        }
        Ok(out)
    }

    fn exec_stmt(
        &mut self,
        ans: &Vec<Answer>,
        stmt: &Stmt,
        parents: &Vec<String>,
        sink: Sink,
        fuel: usize,
    ) -> (r: Result<Sink, Stop>)
        ensures
            (out_drain(r), final(self)@) == run_stmt(
                old(self)@,
                ans@,
                *stmt,
                texts(parents@),
                sink@,
                fuel as nat,
            ),
            same_place(old(self)@, final(self)@),
        decreases fuel, 50nat, 0int,
    {
        let mut sink = sink;
        match stmt {
            Stmt::VarDecl(v) => {
                let r = self.apply_var(ans, v, fuel);
                after(r, sink)
            },
            Stmt::Comment(c, lines) => match self.eval_template(ans, c, fuel) {
                Err(x) => Err(x),
                Ok(t) => {
                    let l = self.stamp(*lines);
                    sink.push_comment(t, l);
                    Ok(sink)
                },
            },
            Stmt::Decl(x) => {
                if sink.is_top() {
                    return Err(stop_at("top-level declarations aren't allowed", x.pos));
                }
                match self.eval_decl(ans, x, fuel) {
                    Err(e) => Err(e),
                    Ok(None) => Ok(sink),
                    Ok(Some(i)) => {
                        sink.push_item(i);
                        Ok(sink)
                    },
                }
            },
            Stmt::PropertySet(x) => {
                if sink.is_top() {
                    return Err(stop_at("top-level declarations aren't allowed", x.pos));
                }
                self.eval_property_set(ans, x, parents, sink, fuel)
            },
            Stmt::CustomDecl(x) => {
                if sink.is_top() {
                    return Err(stop_at("top-level declarations aren't allowed", x.pos));
                }
                if self.has_prefix() {
                    return Err(
                        stop_at(
                            "Declarations whose names begin with \"--\" may not be nested.",
                            x.pos,
                        ),
                    );
                }
                match self.eval_custom_decl(ans, x, fuel) {
                    Err(e) => Err(e),
                    Ok(i) => {
                        sink.push_item(i);
                        Ok(sink)
                    },
                }
            },
            Stmt::Rule(r) => self.eval_style_rule(ans, r, parents, sink, fuel),
            Stmt::If(branches) => self.exec_branches(ans, branches, parents, sink, fuel),
            Stmt::For { var, from, to, inclusive, body } => self.exec_for_stmt(
                ans,
                var.as_str(),
                from,
                to,
                *inclusive,
                body,
                parents,
                sink,
                fuel,
            ),
            Stmt::Each { vars, list, body } => self.exec_each_stmt(
                ans,
                vars,
                list,
                body,
                parents,
                sink,
                fuel,
            ),
            Stmt::While { cond, body } => self.exec_while_stmt(
                ans,
                cond,
                body,
                parents,
                sink,
                fuel,
            ),
            Stmt::FunctionDef(c) => {
                let id: usize = self.capture_callable(c);
                self.define_function(c.name.as_str(), id);
                Ok(sink)
            },
            Stmt::MixinDef(c) => {
                let id: usize = self.capture_callable(c);
                self.define_mixin(c.name.as_str(), id);
                Ok(sink)
            },
            Stmt::Return(_) => Err(stop("@return is only allowed inside a function.")),
            Stmt::Include { name, args, content, content_params, module, pos, length } => {
                let member = mixin_frame_name(name.as_str());
                let ghost outer = self@;
                let from = self.enter_call(*pos, *length, member.as_str());
                let r = self.exec_mixin(
                    ans,
                    name.as_str(),
                    args,
                    content,
                    content_params,
                    module,
                    *pos,
                    parents,
                    sink,
                    fuel,
                );
                proof {
                    leaving_a_call_restores(outer, *pos, *length, member@, self@);
                }
                self.leave_call(from);
                r
            },
            Stmt::Use { url, namespace, star, config, pos } => self.exec_use(
                ans,
                url.as_str(),
                namespace,
                *star,
                config,
                *pos,
                sink,
                fuel,
            ),
            Stmt::Forward { url, prefix, show, hide, config, pos } => self.exec_forward(
                ans,
                url.as_str(),
                prefix,
                show,
                hide,
                config,
                *pos,
                parents,
                sink,
                fuel,
            ),
            Stmt::Content(args) => {
                self.push_mixin_flag(false);
                let r = self.exec_content(ans, args, parents, sink, fuel);
                self.pop_mixin_flag();
                r
            },
            Stmt::Import(args) => self.eval_imports(ans, args, parents, sink, fuel),
            Stmt::AtRule { name, prelude, body, lines } => {
                let l = self.stamp(*lines);
                self.eval_at_rule(ans, name.as_str(), prelude, body, l, parents, sink, fuel)
            },
            Stmt::InterpAtRule { name, prelude, body } => match self.eval_template(ans, name, fuel) {
                Err(x) => Err(x),
                Ok(n) => {
                    let none = SrcLines { file: 0, start: 0, end: 0, col: 0 };
                    match body {
                        Some(b) => {
                            if is_keyframes_name(n.as_str()) {
                                self.eval_keyframes(ans, n.as_str(), prelude, b, none, sink, fuel)
                            } else {
                                self.eval_at_rule(
                                    ans,
                                    n.as_str(),
                                    prelude,
                                    body,
                                    none,
                                    parents,
                                    sink,
                                    fuel,
                                )
                            }
                        },
                        None => self.eval_at_rule(
                            ans,
                            n.as_str(),
                            prelude,
                            body,
                            none,
                            parents,
                            sink,
                            fuel,
                        ),
                    }
                },
            },
            Stmt::CssCustomAtRule { name, prelude, body } => match self.eval_css_custom_at_rule(
                ans,
                name.as_str(),
                prelude,
                body,
                fuel,
            ) {
                Err(x) => Err(x),
                Ok(n) => {
                    sink.push_at_rule(n);
                    Ok(sink)
                },
            },
            Stmt::Media { query, body, lines } => {
                let l = self.stamp(*lines);
                self.eval_media(ans, query, body, l, parents, sink, fuel)
            },
            Stmt::Supports { condition, body } => self.eval_supports(
                ans,
                condition,
                body,
                parents,
                sink,
                fuel,
            ),
            Stmt::AtRoot { query, body } => self.eval_at_root(ans, query, body, parents, sink, fuel),
            Stmt::Keyframes { name, prelude, body, lines } => {
                let l = self.stamp(*lines);
                self.eval_keyframes(ans, name.as_str(), prelude, body, l, sink, fuel)
            },
            Stmt::Extend { selector, optional, pos } => {
                let r = self.register_extend(ans, selector, *optional, *pos, parents, fuel);
                after(r, sink)
            },
            Stmt::Warn { value, pos } => {
                let r = self.emit_warn(ans, value, *pos, fuel);
                after(r, sink)
            },
            Stmt::Debug { value, pos } => {
                let r = self.emit_debug(ans, value, *pos, fuel);
                after(r, sink)
            },
            Stmt::Error { value, pos, length } => {
                let r = self.emit_error(ans, value, *pos, *length, fuel);
                after(r, sink)
            },
        }
    }

    // ---- control flow ----------------------------------------------------

    fn exec_for_stmt(
        &mut self,
        ans: &Vec<Answer>,
        var: &str,
        from: &Expr,
        to: &Expr,
        inclusive: bool,
        body: &Vec<Stmt>,
        parents: &Vec<String>,
        sink: Sink,
        fuel: usize,
    ) -> (r: Result<Sink, Stop>)
        ensures
            (out_drain(r), final(self)@) == for_stmt(
                old(self)@,
                ans@,
                var@,
                *from,
                *to,
                inclusive,
                body@,
                texts(parents@),
                sink@,
                fuel as nat,
            ),
            same_place(old(self)@, final(self)@),
        decreases fuel, 41nat, 0int,
    {
        match self.for_bounds(ans, from, to, fuel) {
            Err(x) => Err(x),
            Ok((a, b, unit)) => {
                let ghost outer = self@;
                self.push_scope(true);
                let ks = for_indices(a, b, inclusive);
                let r = self.exec_for(ans, var, unit.as_str(), &ks, body, parents, sink, fuel);
                proof {
                    closing_a_scope_restores(outer, true, self@);
                }
                self.pop_scope();
                r
            },
        }
    }

    fn exec_each_stmt(
        &mut self,
        ans: &Vec<Answer>,
        vars: &Vec<String>,
        list: &Expr,
        body: &Vec<Stmt>,
        parents: &Vec<String>,
        sink: Sink,
        fuel: usize,
    ) -> (r: Result<Sink, Stop>)
        ensures
            (out_drain(r), final(self)@) == each_stmt(
                old(self)@,
                ans@,
                vars@,
                *list,
                body@,
                texts(parents@),
                sink@,
                fuel as nat,
            ),
            same_place(old(self)@, final(self)@),
        decreases fuel, 41nat, 0int,
    {
        match self.eval_expr(ans, list, fuel) {
            Err(x) => Err(x),
            Ok(v) => {
                let ghost outer = self@;
                self.push_scope(true);
                let list = each_items_of(v);
                let r = self.exec_each(ans, vars, &list, body, parents, sink, fuel);
                proof {
                    closing_a_scope_restores(outer, true, self@);
                }
                self.pop_scope();
                r
            },
        }
    }

    fn exec_while_stmt(
        &mut self,
        ans: &Vec<Answer>,
        cond: &Expr,
        body: &Vec<Stmt>,
        parents: &Vec<String>,
        sink: Sink,
        fuel: usize,
    ) -> (r: Result<Sink, Stop>)
        ensures
            (out_drain(r), final(self)@) == while_stmt(
                old(self)@,
                ans@,
                *cond,
                body@,
                texts(parents@),
                sink@,
                fuel as nat,
            ),
            same_place(old(self)@, final(self)@),
        decreases fuel, 41nat, 0int,
    {
        let ghost outer = self@;
        self.push_scope(true);
        let r = self.exec_while(ans, cond, body, parents, sink, fuel);
        proof {
            closing_a_scope_restores(outer, true, self@);
        }
        self.pop_scope();
        r
    }

    #[verifier::loop_isolation(false)]
    fn exec_branches(
        &mut self,
        ans: &Vec<Answer>,
        branches: &Vec<IfBranch>,
        parents: &Vec<String>,
        sink: Sink,
        fuel: usize,
    ) -> (r: Result<Sink, Stop>)
        ensures
            (out_drain(r), final(self)@) == run_branches(
                old(self)@,
                ans@,
                branches@,
                0,
                texts(parents@),
                sink@,
                fuel as nat,
            ),
            same_place(old(self)@, final(self)@),
        decreases fuel, 40nat, branches@.len(),
    {
        let ghost ps = texts(parents@);
        let ghost goal = run_branches(self@, ans@, branches@, 0, ps, sink@, fuel as nat);
        let mut i: usize = 0;
        while i < branches.len()
            invariant
                same_place(old(self)@, self@),
                i <= branches@.len(),
                run_branches(self@, ans@, branches@, i as int, ps, sink@, fuel as nat) == goal,
            decreases branches@.len() - i,
        {
            match self.branch_taken(ans, &branches[i].cond, fuel) {
                Err(x) => {
                    return Err(x);
                },
                Ok(true) => {
                    let ghost outer = self@;
                    self.push_scope(true);
                    let r = self.exec(ans, &branches[i].body, parents, sink, fuel);
                    proof {
                        closing_a_scope_restores(outer, true, self@);
                    }
                    self.pop_scope();
                    return r;
                },
                Ok(false) => {},
            }
            i += 1;
        }
        Ok(sink)
    }

    #[verifier::loop_isolation(false)]
    fn exec_for(
        &mut self,
        ans: &Vec<Answer>,
        var: &str,
        unit: &str,
        ks: &Vec<i64>,
        body: &Vec<Stmt>,
        parents: &Vec<String>,
        sink: Sink,
        fuel: usize,
    ) -> (r: Result<Sink, Stop>)
        ensures
            (out_drain(r), final(self)@) == run_for(
                old(self)@,
                ans@,
                var@,
                unit@,
                as_ints(ks@),
                0,
                body@,
                texts(parents@),
                sink@,
                fuel as nat,
            ),
            same_place(old(self)@, final(self)@),
        decreases fuel, 40nat, ks@.len(),
    {
        let ghost ps = texts(parents@);
        let ghost list = as_ints(ks@);
        let ghost goal = run_for(
            self@,
            ans@,
            var@,
            unit@,
            list,
            0,
            body@,
            ps,
            sink@,
            fuel as nat,
        );
        let mut out = sink;
        let mut k: usize = 0;
        while k < ks.len()
            invariant
                same_place(old(self)@, self@),
                k <= ks@.len(),
                run_for(
                    self@,
                    ans@,
                    var@,
                    unit@,
                    list,
                    k as int,
                    body@,
                    ps,
                    out@,
                    fuel as nat,
                ) == goal,
            decreases ks@.len() - k,
        {
            let b: u64 = match self.ask_int_bits(ans, ks[k]) {
                Ok(b) => b,
                Err(x) => {
                    return Err(x);
                },
            };
            self.set_local(var, Value::Number(Number::with_unit(b, unit)));
            match self.exec(ans, body, parents, out, fuel) {
                Ok(o) => {
                    out = o;
                },
                Err(x) => {
                    return Err(x);
                },
            }
            k += 1;
        }
        Ok(out)
    }

    #[verifier::loop_isolation(false)]
    fn exec_each(
        &mut self,
        ans: &Vec<Answer>,
        vars: &Vec<String>,
        list: &Vec<Value>,
        body: &Vec<Stmt>,
        parents: &Vec<String>,
        sink: Sink,
        fuel: usize,
    ) -> (r: Result<Sink, Stop>)
        ensures
            (out_drain(r), final(self)@) == run_each(
                old(self)@,
                ans@,
                vars@,
                vals(list@),
                0,
                body@,
                texts(parents@),
                sink@,
                fuel as nat,
            ),
            same_place(old(self)@, final(self)@),
        decreases fuel, 40nat, list@.len(),
    {
        let ghost ps = texts(parents@);
        let ghost all = vals(list@);
        let ghost goal = run_each(self@, ans@, vars@, all, 0, body@, ps, sink@, fuel as nat);
        let mut out = sink;
        let mut k: usize = 0;
        while k < list.len()
            invariant
                same_place(old(self)@, self@),
                k <= list@.len(),
                run_each(self@, ans@, vars@, all, k as int, body@, ps, out@, fuel as nat) == goal,
            decreases list@.len() - k,
        {
            self.bind_each(vars, &list[k]);
            match self.exec(ans, body, parents, out, fuel) {
                Ok(o) => {
                    out = o;
                },
                Err(x) => {
                    return Err(x);
                },
            }
            k += 1;
        }
        Ok(out)
    }

    #[verifier::loop_isolation(false)]
    fn exec_while(
        &mut self,
        ans: &Vec<Answer>,
        cond: &Expr,
        body: &Vec<Stmt>,
        parents: &Vec<String>,
        sink: Sink,
        fuel: usize,
    ) -> (r: Result<Sink, Stop>)
        ensures
            (out_drain(r), final(self)@) == run_while(
                old(self)@,
                ans@,
                *cond,
                body@,
                0,
                texts(parents@),
                sink@,
                fuel as nat,
            ),
            same_place(old(self)@, final(self)@),
        decreases fuel, 40nat, while_limit(),
    {
        let ghost ps = texts(parents@);
        let ghost goal = run_while(self@, ans@, *cond, body@, 0, ps, sink@, fuel as nat);
        let mut out = sink;
        let mut k: usize = 0;
        while k < 100000
            invariant
                same_place(old(self)@, self@),
                k < 100000,
                run_while(self@, ans@, *cond, body@, k as int, ps, out@, fuel as nat) == goal,
            decreases 100000 - k,
        {
            match self.eval_expr(ans, cond, fuel) {
                Err(x) => {
                    return Err(x);
                },
                Ok(v) => {
                    if !v.is_truthy() {
                        return Ok(out);
                    }
                },
            }
            match self.exec(ans, body, parents, out, fuel) {
                Ok(o) => {
                    out = o;
                },
                Err(x) => {
                    return Err(x);
                },
            }
            if k + 1 >= 100000 {
                return Err(stop("@while exceeded 100000 iterations"));
            }
            k += 1;
        }
        Ok(out)
    }

    // ---- rules -----------------------------------------------------------

    fn eval_property_set(
        &mut self,
        ans: &Vec<Answer>,
        x: &PropertySet,
        parents: &Vec<String>,
        sink: Sink,
        fuel: usize,
    ) -> (r: Result<Sink, Stop>)
        ensures
            (out_drain(r), final(self)@) == property_set(
                old(self)@,
                ans@,
                *x,
                texts(parents@),
                sink@,
                fuel as nat,
            ),
            same_place(old(self)@, final(self)@),
        decreases fuel, 40nat, 0int,
    {
        if self.has_prefix() && literal_name_is_custom_property(&x.property) {
            return Err(
                stop_at("Declarations whose names begin with \"--\" may not be nested.", x.pos),
            );
        }
        let name = match self.trimmed_template(ans, &x.property, fuel) {
            Ok(t) => t,
            Err(e) => {
                return Err(e);
            },
        };
        let full = self.full_name(name);
        let sink = match self.set_value(ans, x, full.as_str(), sink, fuel) {
            Ok(s) => s,
            Err(e) => {
                return Err(e);
            },
        };
        let saved = self.prefix_copy();
        self.set_prefix(Some(full));
        let r = self.exec(ans, &x.body, parents, sink, fuel);
        self.set_prefix(saved);
        r
    }

    fn eval_style_rule(
        &mut self,
        ans: &Vec<Answer>,
        rule: &Rule,
        parents: &Vec<String>,
        sink: Sink,
        fuel: usize,
    ) -> (r: Result<Sink, Stop>)
        ensures
            (out_drain(r), final(self)@) == style_rule(
                old(self)@,
                ans@,
                *rule,
                texts(parents@),
                sink@,
                fuel as nat,
            ),
            same_place(old(self)@, final(self)@),
        decreases fuel, 40nat, 0int,
    {
        let text = match self.eval_template(ans, &rule.selector, fuel) {
            Ok(t) => t,
            Err(x) => {
                return Err(x);
            },
        };
        let current = match self.rule_selectors(ans, text.as_str(), parents) {
            Ok(l) => l,
            Err(x) => {
                return Err(x);
            },
        };
        let lbs = self.rule_breaks(text.as_str(), parents, current.len());
        let (selectors, breaks) = self.emit_selectors(&current, &lbs);
        let ghost from = self@;
        let ghost full = lbs;
        let saved = self.enter_rule(&current, lbs);
        let lines = self.stamp(
            SrcLines { file: 0, start: rule.lines.start, end: rule.lines.end, col: 0 },
        );
        let child = rule_sink(selectors, breaks, lines);
        let r = self.exec(ans, &rule.body, &current, child, fuel);
        proof {
            leaving_a_rule_keeps_the_place(self@, from, texts(current@), full@);
        }
        self.leave_rule(saved, Ghost(from));
        match r {
            Err(x) => Err(x),
            Ok(inner) => {
                let mut inner = inner;
                inner.flush_rule_block();
                let mut sink = sink;
                sink.emit_style_rule(sink_nodes(inner));
                Ok(sink)
            },
        }
    }

    /// What the body of an at-rule comes to.
    fn eval_at_body(&mut self, ans: &Vec<Answer>, stmts: &Vec<Stmt>, parents: &Vec<String>, fuel: usize) -> (r: Result<
        Vec<OutNode>,
        Stop,
    >)
        ensures
            (out_nodes(r), final(self)@) == at_body(
                old(self)@,
                ans@,
                stmts@,
                texts(parents@),
                fuel as nat,
            ),
            same_place(old(self)@, final(self)@),
        decreases fuel, 10nat, 0int,
    {
        let ghost outer = self@;
        self.push_scope(false);
        let child = if parents.len() == 0 {
            Sink::AtRoot(empty_nodes())
        } else {
            let none: Vec<bool> = Vec::new();
            proof {
                assert(none@ =~= Seq::empty());
            }
            rule_sink(
                clone_strings(parents),
                none,
                SrcLines { file: 0, start: 0, end: 0, col: 0 },
            )
        };
        let r = self.exec(ans, stmts, parents, child, fuel);
        proof {
            closing_a_scope_restores(outer, false, self@);
        }
        self.pop_scope();
        match r {
            Err(x) => Err(x),
            Ok(inner) => {
                let mut inner = inner;
                inner.flush_rule_block();
                Ok(sink_nodes(inner))
            },
        }
    }

    fn eval_at_rule(
        &mut self,
        ans: &Vec<Answer>,
        name: &str,
        prelude: &Vec<TplPiece>,
        body: &Option<Vec<Stmt>>,
        lines: SrcLines,
        parents: &Vec<String>,
        sink: Sink,
        fuel: usize,
    ) -> (r: Result<Sink, Stop>)
        ensures
            (out_drain(r), final(self)@) == at_rule(
                old(self)@,
                ans@,
                name@,
                prelude@,
                *body,
                lines,
                texts(parents@),
                sink@,
                fuel as nat,
            ),
            same_place(old(self)@, final(self)@),
        decreases fuel, 40nat, 0int,
    {
        let mut sink = sink;
        let p = match self.eval_template(ans, prelude, fuel) {
            Ok(t) => t,
            Err(x) => {
                return Err(x);
            },
        };
        match body {
            None => {
                if same_str(name, "charset") && !sink.is_rule() {
                    return Ok(sink);
                }
                sink.push_childless_at_rule(name.to_owned(), p, lines);
                Ok(sink)
            },
            Some(b) => {
                let r = if same_str(name, "font-face") || self.is_at_root() {
                    self.eval_at_body(ans, b, &empty_strings(), fuel)
                } else {
                    self.eval_at_body(ans, b, parents, fuel)
                };
                match r {
                    Err(x) => Err(x),
                    Ok(inner) => {
                        sink.push_at_rule(make_block(name, p, inner, lines));
                        Ok(sink)
                    },
                }
            },
        }
    }

    fn eval_media(
        &mut self,
        ans: &Vec<Answer>,
        query: &MediaQueryList,
        body: &Vec<Stmt>,
        lines: SrcLines,
        parents: &Vec<String>,
        sink: Sink,
        fuel: usize,
    ) -> (r: Result<Sink, Stop>)
        ensures
            (out_drain(r), final(self)@) == media_rule(
                old(self)@,
                ans@,
                *query,
                body@,
                lines,
                texts(parents@),
                sink@,
                fuel as nat,
            ),
            same_place(old(self)@, final(self)@),
        decreases fuel, 40nat, 0int,
    {
        let mut sink = sink;
        if parents.len() == 0 && holds_decl_stmt(body) {
            return Err(stop("expected \"{\"."));
        }
        let qs = match self.resolve_media_queries(ans, query, fuel) {
            Ok(q) => q,
            Err(x) => {
                return Err(x);
            },
        };
        if self.in_frames() && sink.is_rule() {
            let prelude = serialize_media_queries(&qs);
            return match self.eval_at_body(ans, body, &empty_strings(), fuel) {
                Err(x) => Err(x),
                Ok(list) => {
                    sink.push_item(
                        OutItem::NestedAtRule {
                            name: "media".to_owned(),
                            prelude,
                            items: at_body_to_items(&list),
                        },
                    );
                    Ok(sink)
                },
            };
        }
        match self.merge_queries(&qs) {
            Some(m) => {
                if m.len() == 0 {
                    return Ok(sink);
                }
                self.eval_media_block(ans, m, true, body, lines, parents, sink, fuel)
            },
            None => self.eval_media_block(ans, qs, false, body, lines, parents, sink, fuel),
        }
    }

    fn eval_media_block(
        &mut self,
        ans: &Vec<Answer>,
        qs: Vec<ResolvedQuery>,
        bubbles: bool,
        body: &Vec<Stmt>,
        lines: SrcLines,
        parents: &Vec<String>,
        sink: Sink,
        fuel: usize,
    ) -> (r: Result<Sink, Stop>)
        ensures
            (out_drain(r), final(self)@) == media_block(
                old(self)@,
                ans@,
                queries(qs@),
                bubbles,
                body@,
                lines,
                texts(parents@),
                sink@,
                fuel as nat,
            ),
            same_place(old(self)@, final(self)@),
        decreases fuel, 20nat, 0int,
    {
        let prelude = serialize_media_queries(&qs);
        let outermost = self.is_outermost();
        let ghost from = self@;
        let ghost all = queries(qs@);
        let saved = self.enter_media(qs, prelude.as_str());
        let r = self.eval_at_body(ans, body, parents, fuel);
        proof {
            leaving_media_keeps_the_place(self@, from, all, prelude@);
        }
        let hoisted = self.leave_media(saved, Ghost(from));
        match r {
            Err(x) => Err(x),
            Ok(list) => Ok(
                self.close_media(
                    &list,
                    prelude.as_str(),
                    lines,
                    outermost,
                    &hoisted,
                    bubbles,
                    sink,
                ),
            ),
        }
    }

    fn eval_supports(
        &mut self,
        ans: &Vec<Answer>,
        condition: &SupportsCondition,
        body: &Vec<Stmt>,
        parents: &Vec<String>,
        sink: Sink,
        fuel: usize,
    ) -> (r: Result<Sink, Stop>)
        ensures
            (out_drain(r), final(self)@) == supports_rule(
                old(self)@,
                ans@,
                *condition,
                body@,
                texts(parents@),
                sink@,
                fuel as nat,
            ),
            same_place(old(self)@, final(self)@),
        decreases fuel, 40nat, 0int,
    {
        let prelude = match self.serialize_supports_condition(ans, condition, fuel) {
            Ok(t) => t,
            Err(x) => {
                return Err(x);
            },
        };
        let outermost = self.is_outermost();
        let ghost from = self@;
        self.push_layer(AtCtx::Supports { prelude: prelude.clone() });
        let r = self.eval_at_body(ans, body, parents, fuel);
        proof {
            leaving_a_layer_keeps_the_place(self@, from, Layer::Supports(prelude@));
        }
        self.pop_layer();
        let list = match r {
            Ok(l) => l,
            Err(x) => {
                return Err(x);
            },
        };
        let out = self.split_supports(&list, prelude.as_str(), outermost);
        let mut sink = sink;
        sink.push_at_rules(out);
        Ok(sink)
    }

    fn eval_keyframes(
        &mut self,
        ans: &Vec<Answer>,
        name: &str,
        prelude: &Vec<TplPiece>,
        body: &Vec<Stmt>,
        lines: SrcLines,
        sink: Sink,
        fuel: usize,
    ) -> (r: Result<Sink, Stop>)
        ensures
            (out_drain(r), final(self)@) == keyframes(
                old(self)@,
                ans@,
                name@,
                prelude@,
                body@,
                lines,
                sink@,
                fuel as nat,
            ),
            same_place(old(self)@, final(self)@),
        decreases fuel, 40nat, 0int,
    {
        if holds_frame_with_rule(body) {
            return Err(stop("Style rules may not be used within keyframe blocks."));
        }
        let p = match self.eval_template(ans, prelude, fuel) {
            Ok(t) => t,
            Err(x) => {
                return Err(x);
            },
        };
        let outermost = self.is_outermost();
        let ghost from = self@;
        let saved = self.enter_frames(name, p.as_str());
        let r = self.eval_at_body(ans, body, &empty_strings(), fuel);
        proof {
            leaving_frames_keeps_the_place(self@, from, name@, p@);
        }
        self.leave_frames(saved);
        let list = match r {
            Ok(l) => l,
            Err(x) => {
                return Err(x);
            },
        };
        let (shell, rest) = self.split_frames(&list, outermost);
        let mut sink = sink;
        sink.push_at_rule(make_block(name, p, shell, lines));
        sink.push_at_rules(rest);
        Ok(sink)
    }

    pub fn eval_at_root(
        &mut self,
        ans: &Vec<Answer>,
        query: &Option<Vec<TplPiece>>,
        body: &Vec<Stmt>,
        parents: &Vec<String>,
        sink: Sink,
        fuel: usize,
    ) -> (r: Result<Sink, Stop>)
        ensures
            (out_drain(r), final(self)@) == at_root_rule(
                old(self)@,
                ans@,
                *query,
                body@,
                texts(parents@),
                sink@,
                fuel as nat,
            ),
            same_place(old(self)@, final(self)@),
        decreases fuel, 40nat, 0int,
    {
        let text = match self.root_query_text(ans, query, fuel) {
            Ok(t) => t,
            Err(x) => {
                return Err(x);
            },
        };
        let q = match &text {
            Some(t) => AtRootQuery::parse(Some(t.as_str())),
            None => AtRootQuery::parse(None),
        };
        let (kept, escapes) = self.kept_layers(&q);
        let bare = q.excludes_style_rules();
        if !escapes && !bare {
            return self.exec(ans, body, parents, sink, fuel);
        }
        let ghost from = self@;
        let saved = self.enter_at_root(&q);
        let r = self.exec(ans, body, parents, Sink::AtRoot(empty_nodes()), fuel);
        proof {
            leaving_at_root_keeps_the_place(self@, from, q@);
        }
        self.leave_at_root(saved, &q, Ghost(from));
        match r {
            Err(x) => Err(x),
            Ok(inner) => self.close_at_root(
                sink_nodes(inner),
                &kept,
                escapes,
                bare,
                parents,
                sink,
            ),
        }
    }
}

} // verus!
