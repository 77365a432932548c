//! Running the extension pass.

use vstd::prelude::*;
use crate::decls::{empty_nodes, out_nodes};
use crate::edges::{add_text, reached_from};
use crate::eval::{Ev, Evaluator, Run, ev_of, out_flag, out_unit, same_place, stop_at};
use crate::exports::no_vars;
use crate::expr::{empty_strings, empty_values, push_string};
use crate::extends::{
    Exts, all_blank, all_reached, any_holds, any_placeholder, applying, ask_extension, bool_vals,
    copies_seen, extended_rule, extensions_applied, extensions_stated, exts_of, is_copy, key_vals,
    media_respected, only_copies, placeholders_seen, private_target, rank_place, ranked, reach,
    reach_all, rewritten, rewritten_inside, root_holds, sight, sights, swept, swept_node,
    targets_found,
};
use crate::host::{
    Answer, Halt, Request, Stop, Task, named_vals, one_name, request_names, two_names,
};
use crate::names::{is_keyframes_name, keyframes_name};
use crate::out::{Node, OutNode, copy_bools, copy_items, copy_node, node, nodes, push_node};
use crate::page::{PendingExtend, edges_of, leaf_of, pendings};
use crate::state::pairs_of_text;
use crate::text::{cat3, chars_of, clone_strings, has_char, holds_text, same_str, texts};
use crate::value::{Val, Value, push_value, vals};

verus! {

broadcast use crate::kept::group_kept;

// ---- what an origin sees -------------------------------------------------

fn reach_key(v: &Vec<(String, Vec<String>)>, key: &str, seen: &mut Vec<String>, hops: u128)
    ensures
        texts(final(seen)@) == reach(edges_of(v@), key@, texts(old(seen)@), hops as nat),
    decreases hops, 0nat, 0int,
{
    if hops == 0 || holds_text(seen, key) {
        return;
    }
    push_string(seen, key.to_owned());
    let keys = reached_from(v, key);
    reach_keys(v, &keys, seen, hops - 1);
}

fn reach_keys(v: &Vec<(String, Vec<String>)>, keys: &Vec<String>, seen: &mut Vec<String>, hops: u128)
    ensures
        texts(final(seen)@) == reach_all(
            edges_of(v@),
            texts(keys@),
            0,
            texts(old(seen)@),
            hops as nat,
        ),
    decreases hops, 1nat, keys@.len(),
{
    let ghost all = texts(keys@);
    let ghost goal = reach_all(edges_of(v@), all, 0, texts(old(seen)@), hops as nat);
    let mut i: usize = 0;
    while i < keys.len()
        invariant
            i <= keys@.len(),
            all == texts(keys@),
            reach_all(edges_of(v@), all, i as int, texts(seen@), hops as nat) == goal,
        decreases keys@.len() - i,
    {
        reach_key(v, keys[i].as_str(), seen, hops);
        i += 1;
    }
}

fn reach_everything(v: &Vec<(String, Vec<String>)>, key: &str) -> (r: Vec<String>)
    ensures
        texts(r@) == all_reached(edges_of(v@), key@),
{
    let mut seen = empty_strings();
    let hops: u128 = v.len() as u128 + 1;
    reach_key(v, key, &mut seen, hops);
    seen
}

fn is_copy_key(copies: &Vec<(String, String)>, key: &str) -> (r: bool)
    ensures
        r == is_copy(pairs_of_text(copies@), key@),
{
    let ghost all = pairs_of_text(copies@);
    let mut i: usize = 0;
    while i < copies.len()
        invariant
            i <= copies@.len(),
            all == pairs_of_text(copies@),
            forall|k: int| 0 <= k < i ==> (#[trigger] all[k]).0 != key@,
        decreases copies@.len() - i,
    {
        if same_str(copies[i].0.as_str(), key) {
            proof {
                assert(all[i as int].0 == key@);
            }
            return true;
        }
        i += 1;
    }
    false
}

fn keep_copies(copies: &Vec<(String, String)>, keys: &Vec<String>) -> (r: Vec<String>)
    ensures
        texts(r@) == only_copies(pairs_of_text(copies@), texts(keys@)),
{
    let ghost all = texts(keys@);
    let ghost cs = pairs_of_text(copies@);
    let mut out = empty_strings();
    let mut i: usize = 0;
    proof {
        assert(all.take(0) =~= Seq::empty());
    }
    while i < keys.len()
        invariant
            i <= keys@.len(),
            all == texts(keys@),
            cs == pairs_of_text(copies@),
            texts(out@) == only_copies(cs, all.take(i as int)),
        decreases keys@.len() - i,
    {
        proof {
            assert(all.take(i + 1).drop_last() =~= all.take(i as int));
            assert(all.take(i + 1).last() == all[i as int]);
        }
        if is_copy_key(copies, keys[i].as_str()) {
            push_string(&mut out, keys[i].clone());
        }
        i += 1;
    }
    proof {
        assert(all.take(i as int) =~= all);
    }
    out
}

#[verifier::loop_isolation(false)]
fn see_copies(
    v: &Vec<(String, Vec<String>)>,
    copies: &Vec<(String, String)>,
    origin: &str,
    seen: Vec<String>,
) -> (r: Vec<String>)
    ensures
        texts(r@) == copies_seen(
            edges_of(v@),
            pairs_of_text(copies@),
            0,
            origin@,
            texts(seen@),
        ),
{
    let ghost e = edges_of(v@);
    let ghost cs = pairs_of_text(copies@);
    let ghost goal = copies_seen(e, cs, 0, origin@, texts(seen@));
    let mut out = seen;
    let mut i: usize = 0;
    while i < copies.len()
        invariant
            i <= copies@.len(),
            copies_seen(e, cs, i as int, origin@, texts(out@)) == goal,
        decreases copies@.len() - i,
    {
        let base = reach_everything(v, copies[i].1.as_str());
        if holds_text(&base, origin) {
            add_text(&mut out, copies[i].0.as_str());
        }
        i += 1;
    }
    out
}

fn see(v: &Vec<(String, Vec<String>)>, copies: &Vec<(String, String)>, origin: &str) -> (r: Vec<String>)
    ensures
        texts(r@) == sight(edges_of(v@), pairs_of_text(copies@), origin@),
{
    let seen = see_copies(v, copies, origin, reach_everything(v, origin));
    if copies.len() > 0 && !origin.is_empty() {
        let main = reach_everything(v, "");
        proof {
            reveal_strlit("");
            assert(""@ =~= Seq::<char>::empty());
        }
        if !holds_text(&main, origin) {
            return keep_copies(copies, &seen);
        }
    }
    seen
}

/// The sights of extensions.
pub open spec fn rows_of(v: Seq<Vec<String>>) -> Seq<Seq<Seq<char>>> {
    Seq::new(v.len(), |i: int| texts(v[i]@))
}

fn see_all(v: &Vec<(String, Vec<String>)>, copies: &Vec<(String, String)>, list: &Vec<PendingExtend>) -> (r: Vec<
    Vec<String>,
>)
    ensures
        rows_of(r@) == sights(edges_of(v@), pairs_of_text(copies@), pendings(list@)),
{
    let ghost all = sights(edges_of(v@), pairs_of_text(copies@), pendings(list@));
    let mut out: Vec<Vec<String>> = Vec::new();
    let mut i: usize = 0;
    while i < list.len()
        invariant
            i <= list@.len(),
            all == sights(edges_of(v@), pairs_of_text(copies@), pendings(list@)),
            rows_of(out@) =~= all.take(i as int),
        decreases list@.len() - i,
    {
        let ghost before = rows_of(out@);
        let l = see(v, copies, list[i].origin.as_str());
        let ghost lv = texts(l@);
        out.push(l);
        i += 1;
        proof {
            assert(rows_of(out@) =~= before.push(lv));
            assert(all.take(i as int) =~= all.take(i - 1).push(all[i - 1]));
        }
    }
    proof {
        assert(all.take(i as int) =~= all);
    }
    out
}

/// Numbers as integers.
pub open spec fn numbers(v: Seq<usize>) -> Seq<int> {
    Seq::new(v.len(), |i: int| v[i] as int)
}

fn rank(sees: &Vec<Vec<String>>) -> (r: Vec<usize>)
    ensures
        numbers(r@) == ranked(rows_of(sees@), sees@.len()),
        forall|k: int| 0 <= k < r@.len() ==> #[trigger] r@[k] < sees@.len(),
{
    let ghost all = rows_of(sees@);
    let mut order: Vec<usize> = Vec::new();
    let mut k: usize = 0;
    proof {
        assert(numbers(order@) =~= Seq::empty());
    }
    while k < sees.len()
        invariant
            k <= sees@.len(),
            all == rows_of(sees@),
            numbers(order@) == ranked(all, k as nat),
            forall|j: int| 0 <= j < order@.len() ==> #[trigger] order@[j] < k,
        decreases sees@.len() - k,
    {
        let mut i: usize = 0;
        let n: usize = sees[k].len();
        while i < order.len() && sees[order[i]].len() >= n
            invariant
                i <= order@.len(),
                k < sees@.len(),
                all == rows_of(sees@),
                n == all[k as int].len(),
                forall|j: int| 0 <= j < order@.len() ==> #[trigger] order@[j] < k,
                rank_place(all, numbers(order@), k as int, i as int) == rank_place(
                    all,
                    numbers(order@),
                    k as int,
                    0,
                ),
            decreases order@.len() - i,
        {
            i += 1;
        }
        let ghost before = numbers(order@);
        order.insert(i, k);
        proof {
            assert(numbers(order@) =~= before.insert(i as int, k as int));
        }
        k += 1;
    }
    order
}

// ---- extensions ----------------------------------------------------------

/// The extensions of a document.
#[derive(Debug)]
pub struct Extensions {
    pub list: Vec<PendingExtend>,
    pub sees: Vec<Vec<String>>,
    pub order: Vec<usize>,
}

impl View for Extensions {
    type V = Exts;

    open spec fn view(&self) -> Exts {
        Exts { list: pendings(self.list@), sees: rows_of(self.sees@), order: numbers(self.order@) }
    }
}

pub open spec fn extensions_ok(x: Extensions) -> bool {
    &&& x.sees@.len() == x.list@.len()
    &&& forall|k: int| 0 <= k < x.order@.len() ==> #[trigger] x.order@[k] < x.list@.len()
}

impl PendingExtend {
    fn copy(&self) -> (r: PendingExtend)
        ensures
            r@ == self@,
    {
        PendingExtend {
            target: self.target.clone(),
            extenders: clone_strings(&self.extenders),
            breaks: copy_bools(&self.breaks),
            optional: self.optional,
            in_media: self.in_media,
            origin: self.origin.clone(),
            pos: self.pos,
        }
    }
}

fn is_private_target(t: &str) -> (r: bool)
    ensures
        r == private_target(t@),
{
    let c = chars_of(t);
    c.len() >= 2 && c[0] == '%' && (c[1] == '-' || c[1] == '_')
}

fn bool_values(l: &Vec<bool>) -> (r: Vec<Value>)
    ensures
        vals(r@) == bool_vals(l@),
{
    let ghost all = bool_vals(l@);
    let mut out = empty_values();
    let mut i: usize = 0;
    while i < l.len()
        invariant
            i <= l@.len(),
            all == bool_vals(l@),
            vals(out@) =~= all.take(i as int),
        decreases l@.len() - i,
    {
        push_value(&mut out, Value::Bool(l[i]));
        i += 1;
        proof {
            assert(all.take(i as int) =~= all.take(i - 1).push(all[i - 1]));
        }
    }
    proof {
        assert(all.take(i as int) =~= all);
    }
    out
}

fn key_values(l: &Vec<String>) -> (r: Vec<(String, Value)>)
    ensures
        named_vals(r@) == key_vals(texts(l@)),
{
    let ghost all = key_vals(texts(l@));
    let mut out = no_vars();
    let mut i: usize = 0;
    while i < l.len()
        invariant
            i <= l@.len(),
            all == key_vals(texts(l@)),
            named_vals(out@) =~= all.take(i as int),
        decreases l@.len() - i,
    {
        let ghost before = named_vals(out@);
        out.push((l[i].clone(), Value::Null));
        i += 1;
        proof {
            assert(named_vals(out@) =~= before.push((l@[i - 1]@, Val::Null)));
            assert(all.take(i as int) =~= all.take(i - 1).push(all[i - 1]));
        }
    }
    proof {
        assert(all.take(i as int) =~= all);
    }
    out
}

fn append_texts(out: &mut Vec<String>, more: &Vec<String>)
    ensures
        texts(final(out)@) == texts(old(out)@) + texts(more@),
{
    let ghost before = texts(out@);
    let ghost all = texts(more@);
    let mut i: usize = 0;
    proof {
        assert(before + all.take(0) =~= before);
    }
    while i < more.len()
        invariant
            i <= more@.len(),
            all == texts(more@),
            texts(out@) == before + all.take(i as int),
        decreases more@.len() - i,
    {
        push_string(out, more[i].clone());
        i += 1;
        proof {
            assert(before + all.take(i as int) =~= (before + all.take(i - 1)).push(all[i - 1]));
        }
    }
    proof {
        assert(all.take(i as int) =~= all);
    }
}

fn request_extension(x: &Extensions, k: usize) -> (r: Request)
    requires
        extensions_ok(*x),
        k < x.list@.len(),
    ensures
        r@ == ask_extension(x@, k as int),
{
    let e = &x.list[k];
    let mut names = two_names(e.target.as_str(), e.origin.as_str());
    append_texts(&mut names, &e.extenders);
    let mut nums: Vec<u64> = Vec::new();
    nums.push(k as u64);
    proof {
        assert(nums@ =~= seq![k as u64]);
        assert(x@.list[k as int] == x.list@[k as int]@);
        assert(x@.sees[k as int] == texts(x.sees@[k as int]@));
    }
    Request {
        task: Task::Extension,
        values: bool_values(&e.breaks),
        names,
        named: key_values(&x.sees[k]),
        numbers: nums,
        pos: Some(e.pos),
    }
}

fn find_applying(x: &Extensions, scope: &str) -> (r: Vec<u64>)
    requires
        extensions_ok(*x),
    ensures
        r@ == applying(x@, scope@, 0, Seq::empty()),
{
    let ghost goal = applying(x@, scope@, 0, Seq::empty());
    let mut out: Vec<u64> = Vec::new();
    let mut i: usize = 0;
    proof {
        assert(out@ =~= Seq::empty());
    }
    while i < x.order.len()
        invariant
            i <= x.order@.len(),
            extensions_ok(*x),
            applying(x@, scope@, i as int, out@) == goal,
        decreases x.order@.len() - i,
    {
        let k: usize = x.order[i];
        proof {
            assert(x@.order[i as int] == k);
            assert(x@.list[k as int] == x.list@[k as int]@);
            assert(x@.sees[k as int] == texts(x.sees@[k as int]@));
        }
        let own = same_str(x.list[k].origin.as_str(), scope);
        if (own || holds_text(&x.sees[k], scope)) && (!is_private_target(x.list[k].target.as_str())
            || own) {
            out.push(k as u64);
        }
        i += 1;
    }
    out
}

fn holds_placeholder(selectors: &Vec<String>) -> (r: bool)
    ensures
        r == any_placeholder(texts(selectors@)),
{
    let ghost all = texts(selectors@);
    let mut i: usize = 0;
    while i < selectors.len()
        invariant
            i <= selectors@.len(),
            all == texts(selectors@),
            forall|k: int| 0 <= k < i ==> !(#[trigger] all[k]).contains('%'),
        decreases selectors@.len() - i,
    {
        let c = chars_of(selectors[i].as_str());
        if has_char(c.as_slice(), '%') {
            proof {
                assert(all[i as int].contains('%'));
            }
            return true;
        }
        i += 1;
    }
    false
}

fn is_all_blank(list: &Vec<OutNode>) -> (r: bool)
    ensures
        r == all_blank(nodes(list@)),
{
    let ghost all = nodes(list@);
    let mut i: usize = 0;
    while i < list.len()
        invariant
            i <= list@.len(),
            all == nodes(list@),
            forall|k: int| 0 <= k < i ==> #[trigger] all[k] == Node::Blank,
        decreases list@.len() - i,
    {
        proof {
            assert(all[i as int] == node(list@[i as int]));
        }
        if !matches!(&list[i], OutNode::Blank) {
            return false;
        }
        i += 1;
    }
    true
}

fn copy_numbers(v: &Vec<u64>) -> (r: Vec<u64>)
    ensures
        r@ == v@,
{
    let mut out: Vec<u64> = Vec::new();
    let mut i: usize = 0;
    while i < v.len()
        invariant
            i <= v@.len(),
            out@ =~= v@.take(i as int),
        decreases v@.len() - i,
    {
        out.push(v[i]);
        i += 1;
    }
    proof {
        assert(v@.take(i as int) =~= v@);
    }
    out
}

fn append_numbers(out: &mut Vec<u64>, more: Vec<u64>)
    ensures
        final(out)@ == old(out)@ + more@,
{
    let mut more = more;
    out.append(&mut more);
}

fn holds_number(v: &Vec<u64>, n: u64) -> (r: bool)
    ensures
        r == v@.contains(n),
{
    let mut i: usize = 0;
    while i < v.len()
        invariant
            i <= v@.len(),
            forall|k: int| 0 <= k < i ==> #[trigger] v@[k] != n,
        decreases v@.len() - i,
    {
        if v[i] == n {
            return true;
        }
        i += 1;
    }
    false
}

pub open spec fn out_swept(r: Result<(Vec<OutNode>, Vec<u64>), Stop>) -> Result<(Seq<Node>, Seq<u64>), Halt> {
    match r {
        Ok(t) => Ok((nodes(t.0@), t.1@)),
        Err(e) => Err(e@),
    }
}

impl Evaluator {
    fn extend_selector_list(
        &mut self,
        ans: &Vec<Answer>,
        selectors: &Vec<String>,
        breaks: &Vec<bool>,
        scope: &str,
        visible: &Vec<u64>,
    ) -> (r: Result<Option<(Vec<String>, Vec<bool>, Vec<u64>)>, Stop>)
        ensures
            (match r {
                Ok(Some(t)) => Ok(Some((texts(t.0@), t.1@, t.2@))),
                Ok(None) => Ok(None),
                Err(e) => Err(e@),
            }, final(self)@) == extended_rule(
                old(self)@,
                ans@,
                texts(selectors@),
                breaks@,
                scope@,
                visible@,
            ),
            same_place(old(self)@, final(self)@),
    {
        if visible.len() == 0 && !holds_placeholder(selectors) {
            let none: Vec<u64> = Vec::new();
            proof {
                assert(none@ =~= Seq::empty());
            }
            return Ok(Some((clone_strings(selectors), copy_bools(breaks), none)));
        }
        let mut names = one_name(scope);
        append_texts(&mut names, selectors);
        let q = Request {
            task: Task::Extend,
            values: bool_values(breaks),
            names,
            named: no_vars(),
            numbers: copy_numbers(visible),
            pos: None,
        };
        match self.next(ans, q) {
            Err(x) => Err(x),
            Ok(Answer::Extended { selectors, breaks, matched }) => Ok(
                Some((clone_strings(selectors), copy_bools(breaks), copy_numbers(matched))),
            ),
            Ok(Answer::Nothing) => Ok(None),
            Ok(_) => Err(Stop::Mismatch),
        }
    }

    fn sweep_node(&mut self, ans: &Vec<Answer>, n: &OutNode, scope: &str, visible: &Vec<u64>) -> (r: Result<
        Option<(OutNode, Vec<u64>)>,
        Stop,
    >)
        ensures
            (match r {
                Ok(Some(t)) => Ok(Some((node(t.0), t.1@))),
                Ok(None) => Ok(None),
                Err(e) => Err(e@),
            }, final(self)@) == swept_node(old(self)@, ans@, node(*n), scope@, visible@),
            same_place(old(self)@, final(self)@),
    {
        let none: Vec<u64> = Vec::new();
        proof {
            assert(none@ =~= Seq::empty());
        }
        match n {
            OutNode::Rule { selectors, linebreaks, items: list, lines } => match self.extend_selector_list(
                ans,
                selectors,
                linebreaks,
                scope,
                visible,
            ) {
                Err(x) => Err(x),
                Ok(None) => Ok(None),
                Ok(Some((sel, lbs, hits))) => Ok(
                    Some(
                        (
                            OutNode::Rule {
                                selectors: sel,
                                linebreaks: lbs,
                                items: copy_items(list),
                                lines: *lines,
                            },
                            hits,
                        ),
                    ),
                ),
            },
            OutNode::ModuleScope { nodes: list, .. } => {
                if is_all_blank(list) {
                    Ok(None)
                } else {
                    Ok(Some((copy_node(n), none)))
                }
            },
            OutNode::AtRule { name, body, has_block, .. } => {
                if *has_block && body.len() == 0 && (same_str(name.as_str(), "media") || same_str(
                    name.as_str(),
                    "supports",
                )) {
                    Ok(None)
                } else {
                    Ok(Some((copy_node(n), none)))
                }
            },
            other => Ok(Some((copy_node(other), none))),
        }
    }

    #[verifier::loop_isolation(false)]
    fn rewrite_nodes(
        &mut self,
        ans: &Vec<Answer>,
        list: &Vec<OutNode>,
        scope: &str,
        visible: &Vec<u64>,
        matched: Vec<u64>,
    ) -> (r: Result<(Vec<OutNode>, Vec<u64>), Stop>)
        ensures
            (out_swept(r), final(self)@) == swept(
                old(self)@,
                ans@,
                nodes(list@),
                0,
                scope@,
                visible@,
                Seq::empty(),
                matched@,
            ),
            same_place(old(self)@, final(self)@),
    {
        let ghost all = nodes(list@);
        let ghost goal = swept(
            self@,
            ans@,
            all,
            0,
            scope@,
            visible@,
            Seq::empty(),
            matched@,
        );
        let mut out = empty_nodes();
        let mut hits = matched;
        let mut i: usize = 0;
        let n: usize = list.len();
        while i < n
            invariant
                same_place(old(self)@, self@),
                i <= n,
                n == list@.len(),
                swept(
                    self@,
                    ans@,
                    all,
                    i as int,
                    scope@,
                    visible@,
                    nodes(out@),
                    hits@,
                ) == goal,
            decreases n - i,
        {
            proof {
                assert(all[i as int] == node(list@[i as int]));
            }
            match self.sweep_node(ans, &list[i], scope, visible) {
                Err(x) => {
                    return Err(x);
                },
                Ok(Some((x, more))) => {
                    push_node(&mut out, x);
                    append_numbers(&mut hits, more);
                    i += 1;
                },
                Ok(None) => {
                    let next_blank = i < n - 1 && matches!(&list[i + 1], OutNode::Blank);
                    let last_blank = out.len() > 0 && matches!(&out[out.len() - 1], OutNode::Blank);
                    proof {
                        if i < n - 1 {
                            assert(all[i + 1] == node(list@[i + 1]));
                        }
                        if out@.len() > 0 {
                            assert(nodes(out@).last() == node(out@[out@.len() - 1]));
                        }
                    }
                    if next_blank {
                        i += 2;
                    } else {
                        if last_blank {
                            let ghost before = nodes(out@);
                            out.pop();
                            proof {
                                assert(nodes(out@) =~= before.drop_last());
                            }
                        }
                        i += 1;
                    }
                },
            }
        }
        Ok((out, hits))
    }

    fn rewrite_scoped(
        &mut self,
        ans: &Vec<Answer>,
        x: &Extensions,
        list: &Vec<OutNode>,
        scope: &str,
        matched: Vec<u64>,
    ) -> (r: Result<(Vec<OutNode>, Vec<u64>), Stop>)
        requires
            extensions_ok(*x),
        ensures
            (out_swept(r), final(self)@) == rewritten(
                old(self)@,
                ans@,
                x@,
                nodes(list@),
                scope@,
                matched@,
            ),
            same_place(old(self)@, final(self)@),
        decreases list@, list@.len() + 1,
    {
        match self.rewrite_inside(ans, x, list, scope, matched) {
            Err(s) => Err(s),
            Ok((inner, m)) => {
                let visible = find_applying(x, scope);
                self.rewrite_nodes(ans, &inner, scope, &visible, m)
            },
        }
    }

    #[verifier::loop_isolation(false)]
    fn rewrite_inside(
        &mut self,
        ans: &Vec<Answer>,
        x: &Extensions,
        list: &Vec<OutNode>,
        scope: &str,
        matched: Vec<u64>,
    ) -> (r: Result<(Vec<OutNode>, Vec<u64>), Stop>)
        requires
            extensions_ok(*x),
        ensures
            (out_swept(r), final(self)@) == rewritten_inside(
                old(self)@,
                ans@,
                x@,
                nodes(list@),
                0,
                scope@,
                Seq::empty(),
                matched@,
            ),
            same_place(old(self)@, final(self)@),
        decreases list@, list@.len(),
    {
        let ghost all = nodes(list@);
        let ghost goal = rewritten_inside(
            old(self)@,
            ans@,
            x@,
            all,
            0,
            scope@,
            Seq::empty(),
            matched@,
        );
        let ghost first = matched@;
        let mut acc = empty_nodes();
        let mut hits = matched;
        let mut i: usize = 0;
        while i < list.len()
            invariant
                same_place(old(self)@, self@),
                i <= list@.len(),
                extensions_ok(*x),
                all == nodes(list@),
                goal == rewritten_inside(
                    old(self)@,
                    ans@,
                    x@,
                    all,
                    0,
                    scope@,
                    Seq::empty(),
                    first,
                ),
                rewritten_inside(
                    self@,
                    ans@,
                    x@,
                    all,
                    i as int,
                    scope@,
                    nodes(acc@),
                    hits@,
                ) == goal,
            decreases list@.len() - i,
        {
            proof {
                assert(all[i as int] == node(list@[i as int]));
            }
            match self.rewrite_node(ans, x, &list[i], scope, hits) {
                Err(s) => {
                    return Err(s);
                },
                Ok((n, m)) => {
                    push_node(&mut acc, n);
                    hits = m;
                },
            }
            i += 1;
        }
        Ok((acc, hits))
    }

    fn rewrite_node(
        &mut self,
        ans: &Vec<Answer>,
        x: &Extensions,
        n: &OutNode,
        scope: &str,
        matched: Vec<u64>,
    ) -> (r: Result<(OutNode, Vec<u64>), Stop>)
        requires
            extensions_ok(*x),
        ensures
            (match r {
                Ok(t) => Ok((node(t.0), t.1@)),
                Err(e) => Err(e@),
            }, final(self)@) == node_rewritten(
                old(self)@,
                ans@,
                x@,
                node(*n),
                scope@,
                matched@,
            ),
            same_place(old(self)@, final(self)@),
        decreases n, 0int,
    {
        match n {
            OutNode::ModuleScope { key, nodes: list } => match self.rewrite_scoped(
                ans,
                x,
                list,
                key.as_str(),
                matched,
            ) {
                Err(s) => Err(s),
                Ok((inner, m)) => Ok((OutNode::ModuleScope { key: key.clone(), nodes: inner }, m)),
            },
            OutNode::AtRule { name, prelude, body, has_block, lines } => {
                if is_keyframes_name(name.as_str()) {
                    return Ok((copy_node(n), matched));
                }
                match self.rewrite_scoped(ans, x, body, scope, matched) {
                    Err(s) => Err(s),
                    Ok((inner, m)) => Ok(
                        (
                            OutNode::AtRule {
                                name: name.clone(),
                                prelude: prelude.clone(),
                                body: inner,
                                has_block: *has_block,
                                lines: *lines,
                            },
                            m,
                        ),
                    ),
                }
            },
            other => Ok((copy_node(other), matched)),
        }
    }

    fn any_holds(&mut self, ans: &Vec<Answer>, list: &Vec<String>, target: &str) -> (r: Result<bool, Stop>)
        ensures
            (out_flag(r), final(self)@) == any_holds(
                old(self)@,
                ans@,
                texts(list@),
                0,
                target@,
            ),
            same_place(old(self)@, final(self)@),
    {
        let ghost all = texts(list@);
        let ghost goal = any_holds(old(self)@, ans@, all, 0, target@);
        let mut i: usize = 0;
        while i < list.len()
            invariant
                same_place(old(self)@, self@),
                i <= list@.len(),
                all == texts(list@),
                goal == any_holds(old(self)@, ans@, all, 0, target@),
                any_holds(self@, ans@, all, i as int, target@) == goal,
            decreases list@.len() - i,
        {
            let q = request_names(Task::HoldsSimple, two_names(list[i].as_str(), target));
            match self.ask_flag(ans, q) {
                Err(x) => {
                    return Err(x);
                },
                Ok(true) => {
                    return Ok(true);
                },
                Ok(false) => {},
            }
            i += 1;
        }
        Ok(false)
    }

    fn root_rule_contains_target(&mut self, ans: &Vec<Answer>, list: &Vec<OutNode>, target: &str) -> (r: Result<
        bool,
        Stop,
    >)
        ensures
            (out_flag(r), final(self)@) == root_holds(
                old(self)@,
                ans@,
                nodes(list@),
                0,
                target@,
            ),
            same_place(old(self)@, final(self)@),
    {
        let ghost all = nodes(list@);
        let ghost goal = root_holds(old(self)@, ans@, all, 0, target@);
        let mut i: usize = 0;
        while i < list.len()
            invariant
                same_place(old(self)@, self@),
                i <= list@.len(),
                all == nodes(list@),
                goal == root_holds(old(self)@, ans@, all, 0, target@),
                root_holds(self@, ans@, all, i as int, target@) == goal,
            decreases list@.len() - i,
        {
            proof {
                assert(all[i as int] == node(list@[i as int]));
            }
            if let OutNode::Rule { selectors, .. } = &list[i] {
                match self.any_holds(ans, selectors, target) {
                    Err(x) => {
                        return Err(x);
                    },
                    Ok(true) => {
                        return Ok(true);
                    },
                    Ok(false) => {},
                }
            }
            i += 1;
        }
        Ok(false)
    }

    fn state_extensions(&mut self, ans: &Vec<Answer>, x: &Extensions) -> (r: Result<(), Stop>)
        requires
            extensions_ok(*x),
        ensures
            (out_unit(r), final(self)@) == extensions_stated(old(self)@, ans@, x@, 0),
            same_place(old(self)@, final(self)@),
    {
        let ghost goal = extensions_stated(old(self)@, ans@, x@, 0);
        let mut i: usize = 0;
        while i < x.order.len()
            invariant
                same_place(old(self)@, self@),
                i <= x.order@.len(),
                extensions_ok(*x),
                goal == extensions_stated(old(self)@, ans@, x@, 0),
                extensions_stated(self@, ans@, x@, i as int) == goal,
            decreases x.order@.len() - i,
        {
            proof {
                assert(x@.order[i as int] == x.order@[i as int]);
            }
            match self.next(ans, request_extension(x, x.order[i])) {
                Err(s) => {
                    return Err(s);
                },
                Ok(_) => {},
            }
            i += 1;
        }
        Ok(())
    }

    fn check_media(&mut self, ans: &Vec<Answer>, x: &Extensions, list: &Vec<OutNode>) -> (r: Result<(), Stop>)
        ensures
            (out_unit(r), final(self)@) == media_respected(
                old(self)@,
                ans@,
                x@,
                0,
                nodes(list@),
            ),
            same_place(old(self)@, final(self)@),
    {
        let ghost all = nodes(list@);
        let ghost goal = media_respected(old(self)@, ans@, x@, 0, all);
        let mut i: usize = 0;
        while i < x.list.len()
            invariant
                same_place(old(self)@, self@),
                i <= x.list@.len(),
                all == nodes(list@),
                goal == media_respected(old(self)@, ans@, x@, 0, all),
                media_respected(self@, ans@, x@, i as int, all) == goal,
            decreases x.list@.len() - i,
        {
            proof {
                assert(x@.list[i as int] == x.list@[i as int]@);
            }
            if x.list[i].in_media {
                match self.root_rule_contains_target(ans, list, x.list[i].target.as_str()) {
                    Err(s) => {
                        return Err(s);
                    },
                    Ok(true) => {
                        return Err(
                            stop_at(
                                "You may not @extend selectors across media queries.",
                                x.list[i].pos,
                            ),
                        );
                    },
                    Ok(false) => {},
                }
            }
            i += 1;
        }
        Ok(())
    }

    fn check_targets(&mut self, ans: &Vec<Answer>, x: &Extensions, matched: &Vec<u64>) -> (r: Result<(), Stop>)
        requires
            extensions_ok(*x),
        ensures
            (out_unit(r), final(self)@) == targets_found(old(self)@, ans@, x@, 0, matched@),
            same_place(old(self)@, final(self)@),
    {
        proof {
            reveal(ev_of);
        }
        proof {
            reveal(leaf_of);
        }
        let ghost goal = targets_found(old(self)@, ans@, x@, 0, matched@);
        let mut i: usize = 0;
        while i < x.list.len()
            invariant
                same_place(old(self)@, self@),
                i <= x.list@.len(),
                extensions_ok(*x),
                goal == targets_found(old(self)@, ans@, x@, 0, matched@),
                targets_found(self@, ans@, x@, i as int, matched@) == goal,
            decreases x.list@.len() - i,
        {
            proof {
                reveal(ev_of);
            }
            proof {
                reveal(leaf_of);
            }
            proof {
                assert(x@.list[i as int] == x.list@[i as int]@);
            }
            if !x.list[i].optional && !holds_number(matched, i as u64) {
                let target = x.list[i].target.as_str();
                let bogus = clone_strings(&self.page.bogus);
                let mut found = match self.any_holds(ans, &bogus, target) {
                    Ok(b) => b,
                    Err(s) => {
                        return Err(s);
                    },
                };
                if !found {
                    let list = see_placeholders(x, i, &self.page.placeholders);
                    found = match self.any_holds(ans, &list, target) {
                        Ok(b) => b,
                        Err(s) => {
                            return Err(s);
                        },
                    };
                }
                if !found {
                    return Err(
                        stop_at(
                            cat3(
                                "The target selector was not found.\nUse \"@extend ",
                                target,
                                " !optional\" to avoid this error.",
                            ).as_str(),
                            x.list[i].pos,
                        ),
                    );
                }
            }
            i += 1;
        }
        Ok(())
    }

    fn collect_extensions(&self) -> (r: Extensions)
        ensures
            r@ == exts_of(self@),
            extensions_ok(r),
    {
        proof {
            reveal(ev_of);
        }
        proof {
            reveal(leaf_of);
        }
        let mut list: Vec<PendingExtend> = Vec::new();
        let ghost all = pendings(self.page.extends@);
        let mut i: usize = 0;
        while i < self.page.extends.len()
            invariant
                i <= self.page.extends@.len(),
                all == pendings(self.page.extends@),
                pendings(list@) =~= all.take(i as int),
            decreases self.page.extends@.len() - i,
        {
            proof {
                reveal(ev_of);
            }
            proof {
                reveal(leaf_of);
            }
            let ghost before = pendings(list@);
            let e = self.page.extends[i].copy();
            let ghost ev = e@;
            list.push(e);
            i += 1;
            proof {
                assert(pendings(list@) =~= before.push(ev));
                assert(all.take(i as int) =~= all.take(i - 1).push(all[i - 1]));
            }
        }
        proof {
            assert(all.take(i as int) =~= all);
        }
        let sees = see_all(&self.page.deps, &self.page.copies, &list);
        proof {
            assert(sees@.len() == rows_of(sees@).len());
            assert(list@.len() == pendings(list@).len());
        }
        let order = rank(&sees);
        Extensions { list, sees, order }
    }

    /// Apply the extensions to a document.
    pub fn apply_extends(&mut self, ans: &Vec<Answer>, list: &Vec<OutNode>) -> (r: Result<Vec<OutNode>, Stop>)
        ensures
            (out_nodes(r), final(self)@) == extensions_applied(old(self)@, ans@, nodes(list@)),
            same_place(old(self)@, final(self)@),
    {
        let x = self.collect_extensions();
        match self.state_extensions(ans, &x) {
            Ok(()) => {},
            Err(s) => {
                return Err(s);
            },
        }
        match self.check_media(ans, &x, list) {
            Ok(()) => {},
            Err(s) => {
                return Err(s);
            },
        }
        let none: Vec<u64> = Vec::new();
        proof {
            assert(none@ =~= Seq::empty());
            reveal_strlit("");
            assert(""@ =~= Seq::<char>::empty());
        }
        let (out, matched) = match self.rewrite_scoped(ans, &x, list, "", none) {
            Ok(t) => t,
            Err(s) => {
                return Err(s);
            },
        };
        match self.check_targets(ans, &x, &matched) {
            Err(s) => Err(s),
            Ok(()) => Ok(out),
        }
    }
}

/// A node with what is inside it rewritten.
pub open spec fn node_rewritten(
    s: Ev,
    ans: Seq<Answer>,
    x: Exts,
    n: Node,
    scope: Seq<char>,
    matched: Seq<u64>,
) -> Run<(Node, Seq<u64>)> {
    match n {
        Node::ModuleScope { key, nodes } => match rewritten(s, ans, x, nodes, key, matched) {
            (Err(h), s1) => (Err(h), s1),
            (Ok((inner, m)), s1) => (Ok((Node::ModuleScope { key, nodes: inner }, m)), s1),
        },
        Node::AtRule { name, prelude, body, has_block, lines } => if keyframes_name(name) {
            (Ok((n, matched)), s)
        } else {
            match rewritten(s, ans, x, body, scope, matched) {
                (Err(h), s1) => (Err(h), s1),
                (Ok((inner, m)), s1) => (
                    Ok((Node::AtRule { name, prelude, body: inner, has_block, lines }, m)),
                    s1,
                ),
            }
        },
        other => (Ok((other, matched)), s),
    }
}

fn see_placeholders(x: &Extensions, k: usize, list: &Vec<(String, String)>) -> (r: Vec<String>)
    requires
        extensions_ok(*x),
        k < x.list@.len(),
    ensures
        texts(r@) == placeholders_seen(x@, k as int, pairs_of_text(list@), 0, Seq::empty()),
{
    let ghost all = pairs_of_text(list@);
    let ghost goal = placeholders_seen(x@, k as int, all, 0, Seq::empty());
    let private = is_private_target(x.list[k].target.as_str());
    let mut out = empty_strings();
    let mut i: usize = 0;
    while i < list.len()
        invariant
            i <= list@.len(),
            extensions_ok(*x),
            k < x.list@.len(),
            all == pairs_of_text(list@),
            private == private_target(x.list@[k as int].target@),
            placeholders_seen(x@, k as int, all, i as int, texts(out@)) == goal,
        decreases list@.len() - i,
    {
        proof {
            assert(x@.list[k as int] == x.list@[k as int]@);
            assert(x@.sees[k as int] == texts(x.sees@[k as int]@));
        }
        let visible = if private {
            same_str(list[i].0.as_str(), x.list[k].origin.as_str())
        } else {
            holds_text(&x.sees[k], list[i].0.as_str())
        };
        if visible {
            push_string(&mut out, list[i].1.clone());
        }
        i += 1;
    }
    out
}

} // verus!
