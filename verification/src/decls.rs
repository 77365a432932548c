//! Declarations, the files that output comes from, and import warnings.

use vstd::prelude::*;
use crate::ast::{CssCustomItem, CssCustomValue, CustomDecl, Declaration, Expr, TplPiece};
use crate::diag::{decimal, frame_block, render_frame_block, to_decimal};
use crate::error::{Cut, Excerpt, Note, Notice, Pos, fault_at};
use crate::eval::{
    Ev, Evaluator, Run, asked_text, ev_of, fail, out_text, out_unit, same_place, stop_at,
    styled_css,
};
use crate::expr::push_string;
use crate::host::{Answer, Halt, Stop, Task, ask_names, one_name, request_names};
use crate::ops::{callable_fault, is_callable, is_callable_value, map_fault};
use crate::out::{Item, Node, OutItem, OutNode, SrcLines, item, no_lines, node, nodes, push_node};
use crate::page::{Leaf, leaf_of, spots};
use crate::queries::{css_text, trimmed_template, whole_template};
use crate::report::{line_logged, logged, trace_at};
use crate::semantics::eval;
use crate::text::{append, append_str, cat2, cat3, cat5, chars_of, same_str, string_of, texts};
use crate::tree::block;
use crate::value::{Val, Value, find_map, first_map, val};

verus! {

broadcast use crate::kept::group_kept;

// ---- places --------------------------------------------------------------

/// The index of a text in a list, from `i` on; the length if it is not there.
pub open spec fn place_in(list: Seq<Seq<char>>, t: Seq<char>, i: int) -> int
    decreases list.len() - i,
{
    if i < 0 || i >= list.len() {
        list.len() as int
    } else if list[i] == t {
        i
    } else {
        place_in(list, t, i + 1)
    }
}

pub fn find_place(list: &Vec<String>, t: &str) -> (r: usize)
    ensures
        r == place_in(texts(list@), t@, 0),
        r <= list@.len(),
{
    let ghost all = texts(list@);
    let mut i: usize = 0;
    while i < list.len()
        invariant
            i <= list@.len(),
            all == texts(list@),
            place_in(all, t@, i as int) == place_in(all, t@, 0),
        decreases list@.len() - i,
    {
        if same_str(list[i].as_str(), t) {
            return i;
        }
        i += 1;
    }
    i
}

/// The number of a file, and the state that knows it.
pub open spec fn file_number(s: Ev) -> (u32, Ev) {
    let k = place_in(s.page.file_ids, s.report.url, 0);
    (
        ((k + 1) % 0x1_0000_0000) as u32,
        if k < s.page.file_ids.len() {
            s
        } else {
            Ev { page: Leaf { file_ids: s.page.file_ids.push(s.report.url), ..s.page }, ..s }
        },
    )
}

/// Lines of the file under evaluation. Lines that are not known stay so.
#[verifier::opaque]
pub open spec fn stamped(s: Ev, lines: SrcLines) -> (SrcLines, Ev) {
    if lines == no_lines() {
        (lines, s)
    } else {
        let (id, s1) = file_number(s);
        (SrcLines { file: id, ..lines }, s1)
    }
}

/// The lines of a block of the file under evaluation.
pub open spec fn block_lines(start: u32, end: u32) -> SrcLines {
    SrcLines { file: 0, start, end, col: 0 }
}

/// A line as lines count it.
pub open spec fn line_number(line: usize) -> u32 {
    (line as u64 % 0x1_0000_0000) as u32
}

impl Evaluator {
    /// Lines of the file under evaluation.
    pub fn stamp(&mut self, lines: SrcLines) -> (r: SrcLines)
        ensures
            (r, final(self)@) == stamped(old(self)@, lines),
            same_place(old(self)@, final(self)@),
    {
        proof {
            reveal(stamped);
        }
        proof {
            reveal(ev_of);
        }
        proof {
            reveal(leaf_of);
        }
        if lines.file == 0 && lines.start == 0 && lines.end == 0 && lines.col == 0 {
            return lines;
        }
        let k: usize = find_place(&self.page.file_ids, self.report.url.as_str());
        if k >= self.page.file_ids.len() {
            let url = self.report.url.clone();
            push_string(&mut self.page.file_ids, url);
        }
        let id: u32 = ((k as u128 + 1) % 0x1_0000_0000) as u32;
        SrcLines { file: id, start: lines.start, end: lines.end, col: lines.col }
    }
}

// ---- declarations --------------------------------------------------------

/// A property name after the name of the set it stands in.
pub open spec fn full_name(s: Ev, name: Seq<char>) -> Seq<char> {
    match s.page.prefix {
        Some(p) => p + "-"@ + name,
        None => name,
    }
}

pub open spec fn decl_lines(pos: Pos, end: u32) -> SrcLines {
    block_lines(line_number(pos.line), end)
}

/// The text of the value of a declaration; empty where the declaration is dropped. Maps, references
/// to functions and mixins, and the empty list are no CSS values.
#[verifier::opaque]
pub open spec fn decl_value(s: Ev, ans: Seq<Answer>, v: Val, pos: Pos) -> Run<Seq<char>> {
    if v == Val::Null {
        (Ok(Seq::empty()), s)
    } else {
        match first_map(v) {
            Some(m) => map_fault(s, ans, m, pos),
            None => if is_callable(v) {
                callable_fault(s, ans, v, pos)
            } else {
                match v {
                    Val::List { items, sep, bracketed, keywords } => if items.len() == 0 && !bracketed {
                        fail(fault_at("() isn't a valid CSS value."@, pos), s)
                    } else {
                        styled_css(s, ans, v)
                    },
                    _ => styled_css(s, ans, v),
                }
            },
        }
    }
}

/// What a declaration comes to; nothing where its value is empty.
#[verifier::opaque]
pub open spec fn declared(s: Ev, ans: Seq<Answer>, d: Declaration, fuel: nat) -> Run<Option<Item>> {
    match trimmed_template(s, ans, d.property@, fuel) {
        (Err(h), s1) => (Err(h), s1),
        (Ok(name), s1) => match eval(s1, ans, d.value, fuel) {
            (Err(h), s2) => (Err(h), s2),
            (Ok(v), s2) => match decl_value(s2, ans, v, d.pos) {
                (Err(h), s3) => (Err(h), s3),
                (Ok(t), s3) => if t.len() == 0 {
                    (Ok(None), s3)
                } else {
                    let (lines, s4) = stamped(s3, decl_lines(d.pos, d.end_line));
                    (
                        Ok(
                            Some(
                                Item::Decl {
                                    prop: full_name(s1, name),
                                    value: t,
                                    important: d.important,
                                    custom: false,
                                    lines,
                                },
                            ),
                        ),
                        s4,
                    )
                },
            },
        },
    }
}

/// What a declaration of a custom property comes to.
#[verifier::opaque]
pub open spec fn custom_declared(s: Ev, ans: Seq<Answer>, d: CustomDecl, fuel: nat) -> Run<Item> {
    match trimmed_template(s, ans, d.property@, fuel) {
        (Err(h), s1) => (Err(h), s1),
        (Ok(prop), s1) => match whole_template(s1, ans, d.value@, fuel) {
            (Err(h), s2) => (Err(h), s2),
            (Ok(value), s2) => {
                let (lines, s3) = stamped(s2, decl_lines(d.pos, d.end_line));
                (Ok(Item::Decl { prop, value, important: false, custom: true, lines }), s3)
            },
        },
    }
}

pub open spec fn out_item(r: Result<OutItem, Stop>) -> Result<Item, Halt> {
    match r {
        Ok(i) => Ok(item(i)),
        Err(e) => Err(e@),
    }
}

pub open spec fn out_opt_item(r: Result<Option<OutItem>, Stop>) -> Result<Option<Item>, Halt> {
    match r {
        Ok(Some(i)) => Ok(Some(item(i))),
        Ok(None) => Ok(None),
        Err(e) => Err(e@),
    }
}

pub fn lines_of_decl(pos: Pos, end: u32) -> (r: SrcLines)
    ensures
        r == decl_lines(pos, end),
{
    SrcLines { file: 0, start: (pos.line as u64 % 0x1_0000_0000) as u32, end, col: 0 }
}

impl Evaluator {
    /// A property name after the name of the set it stands in.
    pub fn full_name(&self, name: String) -> (r: String)
        ensures
            r@ == full_name(self@, name@),
    {
        proof {
            reveal(ev_of);
        }
        proof {
            reveal(leaf_of);
        }
        match &self.page.prefix {
            Some(p) => cat3(p.as_str(), "-", name.as_str()),
            None => name,
        }
    }

    fn decl_value(&mut self, ans: &Vec<Answer>, v: &Value, pos: Pos) -> (r: Result<String, Stop>)
        ensures
            (out_text(r), final(self)@) == decl_value(old(self)@, ans@, val(*v), pos),
            same_place(old(self)@, final(self)@),
    {
        proof {
            reveal(decl_value);
        }
        if matches!(v, Value::Null) {
            return Ok(String::new());
        }
        if let Some(m) = find_map(v) {
            return Err(self.map_error(ans, m, pos));
        }
        if is_callable_value(v) {
            return Err(self.callable_error(ans, v, pos));
        }
        if let Value::List(l) = v {
            if l.items.len() == 0 && !l.bracketed {
                return Err(stop_at("() isn't a valid CSS value.", pos));
            }
        }
        self.styled_css(ans, v)
    }

    /// A declaration; nothing where its value is empty.
    pub fn eval_decl(&mut self, ans: &Vec<Answer>, d: &Declaration, fuel: usize) -> (r: Result<
        Option<OutItem>,
        Stop,
    >)
        ensures
            (out_opt_item(r), final(self)@) == declared(old(self)@, ans@, *d, fuel as nat),
            same_place(old(self)@, final(self)@),
    {
        proof {
            reveal(declared);
        }
        let name = match self.trimmed_template(ans, &d.property, fuel) {
            Ok(t) => t,
            Err(x) => {
                return Err(x);
            },
        };
        let prop = self.full_name(name);
        let v = match self.eval_expr(ans, &d.value, fuel) {
            Ok(v) => v,
            Err(x) => {
                return Err(x);
            },
        };
        let value = match self.decl_value(ans, &v, d.pos) {
            Ok(t) => t,
            Err(x) => {
                return Err(x);
            },
        };
        if value.as_str().is_empty() {
            return Ok(None);
        }
        let lines = self.stamp(lines_of_decl(d.pos, d.end_line));
        Ok(Some(OutItem::Decl { prop, value, important: d.important, custom: false, lines }))
    }

    /// A declaration of a custom property.
    pub fn eval_custom_decl(&mut self, ans: &Vec<Answer>, d: &CustomDecl, fuel: usize) -> (r: Result<
        OutItem,
        Stop,
    >)
        ensures
            (out_item(r), final(self)@) == custom_declared(old(self)@, ans@, *d, fuel as nat),
            same_place(old(self)@, final(self)@),
    {
        proof {
            reveal(custom_declared);
        }
        let prop = match self.trimmed_template(ans, &d.property, fuel) {
            Ok(t) => t,
            Err(x) => {
                return Err(x);
            },
        };
        let value = match self.eval_template(ans, &d.value, fuel) {
            Ok(t) => t,
            Err(x) => {
                return Err(x);
            },
        };
        let lines = self.stamp(lines_of_decl(d.pos, d.end_line));
        Ok(OutItem::Decl { prop, value, important: false, custom: true, lines })
    }
}

// ---- custom functions and mixins of CSS ----------------------------------

/// The lines that nested properties come to, from `i` on, after `acc`.
pub open spec fn suffixed(
    s: Ev,
    ans: Seq<Answer>,
    prop: Seq<char>,
    list: Seq<(Vec<TplPiece>, Expr)>,
    i: int,
    acc: Seq<Node>,
    fuel: nat,
) -> Run<Seq<Node>>
    decreases list.len() - i,
{
    if i < 0 || i >= list.len() {
        (Ok(acc), s)
    } else {
        match whole_template(s, ans, list[i].0@, fuel) {
            (Err(h), s1) => (Err(h), s1),
            (Ok(suffix), s1) => match css_text(s1, ans, list[i].1, fuel) {
                (Err(h), s2) => (Err(h), s2),
                (Ok(t), s2) => suffixed(
                    s2,
                    ans,
                    prop,
                    list,
                    i + 1,
                    acc.push(Node::Raw((prop + "-"@ + suffix + ": "@ + t) + ";"@)),
                    fuel,
                ),
            },
        }
    }
}

/// The lines that an item of a custom function comes to, after `acc`.
pub open spec fn custom_item(s: Ev, ans: Seq<Answer>, i: CssCustomItem, acc: Seq<Node>, fuel: nat) -> Run<
    Seq<Node>,
> {
    match whole_template(s, ans, i.property@, fuel) {
        (Err(h), s1) => (Err(h), s1),
        (Ok(prop), s1) => match i.value {
            CssCustomValue::Raw(t) => match whole_template(s1, ans, t@, fuel) {
                (Err(h), s2) => (Err(h), s2),
                (Ok(raw), s2) => (Ok(acc.push(Node::Raw((prop + ":"@ + raw) + ";"@))), s2),
            },
            CssCustomValue::Script(e) => match css_text(s1, ans, e, fuel) {
                (Err(h), s2) => (Err(h), s2),
                (Ok(t), s2) => (Ok(acc.push(Node::Raw((prop + ": "@ + t) + ";"@))), s2),
            },
            CssCustomValue::Nested(list) => suffixed(s1, ans, prop, list@, 0, acc, fuel),
        },
    }
}

pub open spec fn custom_body(
    s: Ev,
    ans: Seq<Answer>,
    body: Seq<CssCustomItem>,
    i: int,
    acc: Seq<Node>,
    fuel: nat,
) -> Run<Seq<Node>>
    decreases body.len() - i,
{
    if i < 0 || i >= body.len() {
        (Ok(acc), s)
    } else {
        match custom_item(s, ans, body[i], acc, fuel) {
            (Err(h), s1) => (Err(h), s1),
            (Ok(a), s1) => custom_body(s1, ans, body, i + 1, a, fuel),
        }
    }
}

/// A custom function or mixin of CSS, written out as it is.
#[verifier::opaque]
pub open spec fn custom_at_rule(
    s: Ev,
    ans: Seq<Answer>,
    name: Seq<char>,
    prelude: Seq<TplPiece>,
    body: Seq<CssCustomItem>,
    fuel: nat,
) -> Run<Node> {
    match whole_template(s, ans, prelude, fuel) {
        (Err(h), s1) => (Err(h), s1),
        (Ok(p), s1) => match custom_body(s1, ans, body, 0, Seq::empty(), fuel) {
            (Err(h), s2) => (Err(h), s2),
            (Ok(list), s2) => (Ok(block(name, p, list, no_lines())), s2),
        },
    }
}

pub open spec fn out_node(r: Result<OutNode, Stop>) -> Result<Node, Halt> {
    match r {
        Ok(n) => Ok(node(n)),
        Err(e) => Err(e@),
    }
}

pub open spec fn out_nodes(r: Result<Vec<OutNode>, Stop>) -> Result<Seq<Node>, Halt> {
    match r {
        Ok(n) => Ok(nodes(n@)),
        Err(e) => Err(e@),
    }
}

pub fn empty_nodes() -> (r: Vec<OutNode>)
    ensures
        nodes(r@) == Seq::<Node>::empty(),
{
    let r: Vec<OutNode> = Vec::new();
    proof {
        assert(nodes(r@) =~= Seq::empty());
    }
    r
}

/// An at-rule with a block.
pub fn make_block(name: &str, prelude: String, body: Vec<OutNode>, lines: SrcLines) -> (r: OutNode)
    ensures
        node(r) == block(name@, prelude@, nodes(body@), lines),
{
    OutNode::AtRule { name: name.to_owned(), prelude, body, has_block: true, lines }
}

impl Evaluator {
    #[verifier::loop_isolation(false)]
    fn eval_suffixed(
        &mut self,
        ans: &Vec<Answer>,
        prop: &str,
        list: &Vec<(Vec<TplPiece>, Expr)>,
        acc: Vec<OutNode>,
        fuel: usize,
    ) -> (r: Result<Vec<OutNode>, Stop>)
        ensures
            (out_nodes(r), final(self)@) == suffixed(
                old(self)@,
                ans@,
                prop@,
                list@,
                0,
                nodes(acc@),
                fuel as nat,
            ),
            same_place(old(self)@, final(self)@),
    {
        let ghost goal = suffixed(self@, ans@, prop@, list@, 0, nodes(acc@), fuel as nat);
        let mut out = acc;
        let mut i: usize = 0;
        while i < list.len()
            invariant
                same_place(old(self)@, self@),
                i <= list@.len(),
                suffixed(self@, ans@, prop@, list@, i as int, nodes(out@), fuel as nat) == goal,
            decreases list@.len() - i,
        {
            let suffix = match self.eval_template(ans, &list[i].0, fuel) {
                Ok(t) => t,
                Err(x) => {
                    return Err(x);
                },
            };
            let t = match self.css_text(ans, &list[i].1, fuel) {
                Ok(t) => t,
                Err(x) => {
                    return Err(x);
                },
            };
            let line = cat2(cat5(prop, "-", suffix.as_str(), ": ", t.as_str()).as_str(), ";");
            push_node(&mut out, OutNode::Raw(line));
            i += 1;
        }
        Ok(out)
    }

    fn eval_custom_item(&mut self, ans: &Vec<Answer>, i: &CssCustomItem, acc: Vec<OutNode>, fuel: usize) -> (r: Result<
        Vec<OutNode>,
        Stop,
    >)
        ensures
            (out_nodes(r), final(self)@) == custom_item(
                old(self)@,
                ans@,
                *i,
                nodes(acc@),
                fuel as nat,
            ),
            same_place(old(self)@, final(self)@),
    {
        let prop = match self.eval_template(ans, &i.property, fuel) {
            Ok(t) => t,
            Err(x) => {
                return Err(x);
            },
        };
        let mut out = acc;
        match &i.value {
            CssCustomValue::Raw(t) => match self.eval_template(ans, t, fuel) {
                Err(x) => Err(x),
                Ok(raw) => {
                    let line = cat2(cat3(prop.as_str(), ":", raw.as_str()).as_str(), ";");
                    push_node(&mut out, OutNode::Raw(line));
                    Ok(out)
                },
            },
            CssCustomValue::Script(e) => match self.css_text(ans, e, fuel) {
                Err(x) => Err(x),
                Ok(t) => {
                    let line = cat2(cat3(prop.as_str(), ": ", t.as_str()).as_str(), ";");
                    push_node(&mut out, OutNode::Raw(line));
                    Ok(out)
                },
            },
            CssCustomValue::Nested(list) => self.eval_suffixed(ans, prop.as_str(), list, out, fuel),
        }
    }

    /// A custom function or mixin of CSS.
    pub fn eval_css_custom_at_rule(
        &mut self,
        ans: &Vec<Answer>,
        name: &str,
        prelude: &Vec<TplPiece>,
        body: &Vec<CssCustomItem>,
        fuel: usize,
    ) -> (r: Result<OutNode, Stop>)
        ensures
            (out_node(r), final(self)@) == custom_at_rule(
                old(self)@,
                ans@,
                name@,
                prelude@,
                body@,
                fuel as nat,
            ),
            same_place(old(self)@, final(self)@),
    {
        proof {
            reveal(custom_at_rule);
        }
        let p = match self.eval_template(ans, prelude, fuel) {
            Ok(t) => t,
            Err(x) => {
                return Err(x);
            },
        };
        let ghost from = self@;
        let ghost goal = custom_body(from, ans@, body@, 0, Seq::empty(), fuel as nat);
        let ghost whole = custom_at_rule(old(self)@, ans@, name@, prelude@, body@, fuel as nat);
        let mut out = empty_nodes();
        let mut i: usize = 0;
        while i < body.len()
            invariant
                same_place(old(self)@, self@),
                i <= body@.len(),
                whole == custom_at_rule(old(self)@, ans@, name@, prelude@, body@, fuel as nat),
                whole == (match goal {
                    (Err(h), s2) => (Err::<Node, Halt>(h), s2),
                    (Ok(list), s2) => (Ok::<Node, Halt>(block(name@, p@, list, no_lines())), s2),
                }),
                custom_body(self@, ans@, body@, i as int, nodes(out@), fuel as nat) == goal,
            decreases body@.len() - i,
        {
            proof {
                reveal(custom_at_rule);
            }
            match self.eval_custom_item(ans, &body[i], out, fuel) {
                Ok(o) => {
                    out = o;
                },
                Err(x) => {
                    return Err(x);
                },
            }
            i += 1;
        }
        Ok(make_block(name, p, out, SrcLines { file: 0, start: 0, end: 0, col: 0 }))
    }
}

// ---- import warnings -----------------------------------------------------

/// The number of import warnings that are given.
pub open spec fn warning_limit() -> int {
    5
}

/// The state in which an import warning has been due at a place.
pub open spec fn spot_seen(s: Ev, pos: Pos) -> Ev {
    Ev { page: Leaf { seen: s.page.seen.push((s.report.url, pos)), ..s.page }, ..s }
}

/// The state after an import at a place: warned of once, and only so many times.
#[verifier::opaque]
pub open spec fn import_warned(s: Ev, ans: Seq<Answer>, pos: Pos, length: usize) -> Run<()> {
    if !s.report.enabled || s.page.seen.contains((s.report.url, pos)) {
        (Ok(()), s)
    } else {
        let s1 = spot_seen(s, pos);
        if s.page.shown >= warning_limit() {
            (
                Ok(()),
                Ev {
                    page: Leaf {
                        omitted: ((s.page.omitted + 1) % 0x1_0000_0000) as u32,
                        ..s1.page
                    },
                    ..s1
                },
            )
        } else {
            let s2 = Ev { page: Leaf { shown: (s.page.shown + 1) as u32, ..s1.page }, ..s1 };
            match asked_text(s2, ans, ask_names(Task::Deprecation, seq!["import"@])) {
                (Err(h), s3) => (Err(h), s3),
                (Ok(head), s3) => (
                    Ok(()),
                    logged(
                        s3,
                        Note {
                            before: head,
                            excerpt: Some(Cut { source: s3.report.source, pos, length }),
                            after: "\n"@ + frame_block(trace_at(s3, pos), 4) + "\n"@,
                        },
                    ),
                ),
            }
        }
    }
}

/// The state at the end, with the import warnings that were left out counted.
#[verifier::opaque]
pub open spec fn warnings_counted(s: Ev) -> Ev {
    if s.page.omitted == 0 {
        s
    } else {
        line_logged(
            s,
            "WARNING: "@ + decimal(s.page.omitted as nat)
                + " repetitive deprecation warnings omitted.\nRun in verbose mode to see all warnings.\n"@,
        )
    }
}

fn is_spot_seen(seen: &Vec<(String, Pos)>, url: &str, pos: Pos) -> (r: bool)
    ensures
        r == spots(seen@).contains((url@, pos)),
{
    let ghost all = spots(seen@);
    let mut i: usize = 0;
    while i < seen.len()
        invariant
            i <= seen@.len(),
            all == spots(seen@),
            forall|k: int| 0 <= k < i ==> #[trigger] all[k] != (url@, pos),
        decreases seen@.len() - i,
    {
        if same_str(seen[i].0.as_str(), url) && seen[i].1 == pos {
            proof {
                assert(all[i as int] == (url@, pos));
            }
            return true;
        }
        i += 1;
    }
    false
}

impl Evaluator {
    /// Warn of an import.
    pub fn emit_deprecation(&mut self, ans: &Vec<Answer>, pos: Pos, length: usize) -> (r: Result<(), Stop>)
        ensures
            (out_unit(r), final(self)@) == import_warned(old(self)@, ans@, pos, length),
            same_place(old(self)@, final(self)@),
    {
        proof {
            reveal(import_warned);
        }
        proof {
            reveal(ev_of);
        }
        proof {
            reveal(leaf_of);
        }
        if !self.report.enabled || is_spot_seen(&self.page.seen, self.report.url.as_str(), pos) {
            return Ok(());
        }
        let url = self.report.url.clone();
        let ghost before = spots(self.page.seen@);
        self.page.seen.push((url, pos));
        proof {
            assert(spots(self.page.seen@) =~= before.push((self.report.url@, pos)));
        }
        if self.page.shown >= 5 {
            self.page.omitted = ((self.page.omitted as u64 + 1) % 0x1_0000_0000) as u32;
            return Ok(());
        }
        self.page.shown = self.page.shown + 1;
        let head = match self.ask_text(ans, request_names(Task::Deprecation, one_name("import"))) {
            Ok(t) => t,
            Err(x) => {
                return Err(x);
            },
        };
        let frames = self.frames_for(pos);
        let mut t = chars_of("\n");
        append_str(&mut t, render_frame_block(&frames, 4).as_str());
        append_str(&mut t, "\n");
        let source = self.report.source.clone();
        self.log_notice(
            Notice {
                before: head,
                excerpt: Some(Excerpt { source, pos, length }),
                after: string_of(t.as_slice()),
            },
        );
        Ok(())
    }

    /// Count the import warnings that were left out.
    pub fn emit_deprecation_footer(&mut self)
        ensures
            final(self)@ == warnings_counted(old(self)@),
            same_place(old(self)@, final(self)@),
    {
        proof {
            reveal(warnings_counted);
        }
        proof {
            reveal(ev_of);
        }
        proof {
            reveal(leaf_of);
        }
        if self.page.omitted == 0 {
            return;
        }
        let mut t = chars_of("WARNING: ");
        append(&mut t, to_decimal(self.page.omitted as usize).as_slice());
        append_str(
            &mut t,
            " repetitive deprecation warnings omitted.\nRun in verbose mode to see all warnings.\n",
        );
        self.log(t.as_slice());
    }
}

} // verus!
