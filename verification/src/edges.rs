//! What loads what: the edges between modules, and the CSS that a module brings with it.

use vstd::prelude::*;
use crate::decls::empty_nodes;
use crate::diag::{decimal, to_decimal};
use crate::eval::{Ev, Evaluator, ev_of, same_place};
use crate::expr::{empty_strings, push_string};
use crate::out::{Node, OutNode, copy_node, node, nodes, push_node, push_nodes};
use crate::page::{Leaf, edges_of, leaf_of};
use crate::rules::push_text_pair;
use crate::state::{entry, get, get_after_put, get_id, lemma_entry, lemma_entry_is, put};
use crate::text::{
    append, append_str, chars_of, clone_strings, holds_text, same, same_str, string_of, texts,
};
use crate::tree::{trim_leading_blanks, without_leading_blanks};

verus! {

broadcast use crate::kept::group_kept;

// ---- edges ---------------------------------------------------------------

/// A list with a text, which it holds once.
pub open spec fn with_text(list: Seq<Seq<char>>, t: Seq<char>) -> Seq<Seq<char>> {
    if list.contains(t) {
        list
    } else {
        list.push(t)
    }
}

/// What a key leads to.
pub open spec fn reached(edges: Seq<(Seq<char>, Seq<Seq<char>>)>, key: Seq<char>) -> Seq<Seq<char>> {
    match get(edges, key) {
        Some(l) => l,
        None => Seq::empty(),
    }
}

/// The edges with one more.
pub open spec fn edge_added(edges: Seq<(Seq<char>, Seq<Seq<char>>)>, from: Seq<char>, to: Seq<char>) -> Seq<
    (Seq<char>, Seq<Seq<char>>),
> {
    put(edges, from, with_text(reached(edges, from), to))
}

/// The state in which the module under evaluation leads to a key.
pub open spec fn edge_known(s: Ev, key: Seq<char>) -> Ev {
    Ev { page: Leaf { deps: edge_added(s.page.deps, s.page.module, key), ..s.page }, ..s }
}

/// The state in which the module under evaluation has loaded a module.
#[verifier::opaque]
pub open spec fn load_recorded(s: Ev, key: Seq<char>) -> Ev {
    Ev {
        page: Leaf {
            deps: edge_added(s.page.deps, s.page.module, key),
            order: edge_added(s.page.order, s.page.module, key),
            ..s.page
        },
        ..s
    }
}

/// Add a text to a list that holds each once.
pub fn add_text(list: &mut Vec<String>, t: &str)
    ensures
        texts(final(list)@) == with_text(texts(old(list)@), t@),
{
    if !holds_text(list, t) {
        push_string(list, t.to_owned());
    }
}

pub fn find_edges(v: &Vec<(String, Vec<String>)>, key: &str) -> (r: usize)
    ensures
        r == entry(edges_of(v@), key@),
        r <= v@.len(),
{
    let ghost s = edges_of(v@);
    let mut i: usize = 0;
    while i < v.len() && !same_str(v[i].0.as_str(), key)
        invariant
            i <= v@.len(),
            s == edges_of(v@),
            forall|k: int| 0 <= k < i ==> (#[trigger] s[k]).0 != key@,
        decreases v@.len() - i,
    {
        i += 1;
    }
    proof {
        lemma_entry_is(s, key@, i as int);
    }
    i
}

/// Add an edge.
pub fn add_edge(v: &mut Vec<(String, Vec<String>)>, from: &str, to: &str)
    ensures
        edges_of(final(v)@) == edge_added(edges_of(old(v)@), from@, to@),
{
    let i: usize = find_edges(v, from);
    let ghost before = edges_of(v@);
    let mut list = if i < v.len() {
        clone_strings(&v[i].1)
    } else {
        empty_strings()
    };
    add_text(&mut list, to);
    let ghost l = texts(list@);
    if i < v.len() {
        v[i] = (from.to_owned(), list);
    } else {
        v.push((from.to_owned(), list));
    }
    proof {
        assert(edges_of(final(v)@) =~= put(before, from@, l));
    }
}

/// What a key leads to.
pub fn reached_from(v: &Vec<(String, Vec<String>)>, key: &str) -> (r: Vec<String>)
    ensures
        texts(r@) == reached(edges_of(v@), key@),
{
    let i: usize = find_edges(v, key);
    if i < v.len() {
        clone_strings(&v[i].1)
    } else {
        empty_strings()
    }
}

impl Evaluator {
    pub fn note_edge(&mut self, key: &str)
        ensures
            final(self)@ == edge_known(old(self)@, key@),
            same_place(old(self)@, final(self)@),
    {
        proof {
            reveal(ev_of);
        }
        proof {
            reveal(leaf_of);
        }
        let from = self.page.module.clone();
        add_edge(&mut self.page.deps, from.as_str(), key);
    }

    /// Record that the module under evaluation has loaded a module.
    pub fn record_load(&mut self, key: &str)
        ensures
            final(self)@ == load_recorded(old(self)@, key@),
            final(self)@.page.cache == old(self)@.page.cache,
            same_place(old(self)@, final(self)@),
    {
        proof {
            reveal(load_recorded);
        }
        proof {
            reveal(ev_of);
        }
        proof {
            reveal(leaf_of);
        }
        let from = self.page.module.clone();
        add_edge(&mut self.page.deps, from.as_str(), key);
        add_edge(&mut self.page.order, from.as_str(), key);
    }
}

// ---- what an origin sees -------------------------------------------------

/// Whether a text holds another.
pub open spec fn has_part(s: Seq<char>, p: Seq<char>) -> bool {
    exists|i: int| 0 <= i <= s.len() - p.len() && #[trigger] s.subrange(i, i + p.len()) == p
}

pub fn holds_part(s: &str, p: &str) -> (r: bool)
    ensures
        r == has_part(s@, p@),
{
    let a = chars_of(s);
    let b = chars_of(p);
    let n: usize = a.len();
    let m: usize = b.len();
    if m > n {
        return false;
    }
    let mut i: usize = 0;
    while i <= n - m
        invariant
            a@ == s@,
            b@ == p@,
            n == a@.len(),
            m == b@.len(),
            m <= n,
            i <= n - m + 1,
            forall|k: int| 0 <= k < i ==> #[trigger] s@.subrange(k, k + m) != p@,
        decreases n - m + 1 - i,
    {
        let part = vstd::slice::slice_subrange(a.as_slice(), i, i + m);
        if same(part, b.as_slice()) {
            proof {
                assert(s@.subrange(i as int, i + m) == p@);
            }
            return true;
        }
        if i == n - m {
            proof {
                assert forall|k: int| 0 <= k <= s@.len() - p@.len() implies #[trigger] s@.subrange(
                    k,
                    k + p@.len(),
                ) != p@ by {
                    if k < i {
                        assert(s@.subrange(k, k + m) != p@);
                    }
                }
            }
            return false;
        }
        i += 1;
    }
    false
}

/// Whether a node of a module's CSS stands in the module itself: what it loads is walked on its
/// own, but a copy stays where it is.
pub open spec fn own_css(n: Node) -> bool {
    match n {
        Node::ModuleScope { key, nodes } => has_part(key, "#copy"@) || has_part(key, "#import"@),
        _ => true,
    }
}

pub open spec fn own_nodes(list: Seq<Node>) -> Seq<Node>
    decreases list.len(),
{
    if list.len() == 0 {
        Seq::empty()
    } else if own_css(list.last()) {
        own_nodes(list.drop_last()).push(list.last())
    } else {
        own_nodes(list.drop_last())
    }
}

/// The CSS of a loaded module itself.
pub open spec fn module_css(s: Ev, key: Seq<char>) -> Seq<Node> {
    match get(s.page.cache, key) {
        Some(m) => if m < s.modules.len() {
            own_nodes(s.modules[m as int].css)
        } else {
            Seq::empty()
        },
        None => Seq::empty(),
    }
}

/// The modules visited and the CSS collected when a module and all that it loads are walked, what
/// is loaded first. `hops` bounds how far.
pub open spec fn walked(s: Ev, key: Seq<char>, visited: Seq<Seq<char>>, out: Seq<Node>, hops: nat) -> (
    Seq<Seq<char>>,
    Seq<Node>,
)
    decreases hops, 0nat, 0int,
{
    if hops == 0 || visited.contains(key) {
        (visited, out)
    } else {
        let (v, o) = walked_all(
            s,
            reached(s.page.order, key),
            0,
            visited.push(key),
            out,
            (hops - 1) as nat,
        );
        (v, o + module_css(s, key))
    }
}

pub open spec fn walked_all(
    s: Ev,
    keys: Seq<Seq<char>>,
    i: int,
    visited: Seq<Seq<char>>,
    out: Seq<Node>,
    hops: nat,
) -> (Seq<Seq<char>>, Seq<Node>)
    decreases hops, 1nat, keys.len() - i,
{
    if i < 0 || i >= keys.len() {
        (visited, out)
    } else {
        let (v, o) = walked(s, keys[i], visited, out, hops);
        walked_all(s, keys, i + 1, v, o, hops)
    }
}

/// How far a walk can go: no module is entered twice on the way.
pub open spec fn walk_hops(s: Ev) -> nat {
    s.page.order.len() + 1
}

pub fn keep_own_nodes(list: &Vec<OutNode>) -> (r: Vec<OutNode>)
    ensures
        nodes(r@) == own_nodes(nodes(list@)),
{
    let ghost all = nodes(list@);
    let mut out = empty_nodes();
    let mut i: usize = 0;
    proof {
        assert(all.take(0) =~= Seq::empty());
    }
    while i < list.len()
        invariant
            i <= list@.len(),
            all == nodes(list@),
            nodes(out@) == own_nodes(all.take(i as int)),
        decreases list@.len() - i,
    {
        proof {
            assert(all.take(i + 1).drop_last() =~= all.take(i as int));
            assert(all.take(i + 1).last() == all[i as int]);
            assert(all[i as int] == node(list@[i as int]));
        }
        let keep = match &list[i] {
            OutNode::ModuleScope { key, .. } => holds_part(key.as_str(), "#copy") || holds_part(
                key.as_str(),
                "#import",
            ),
            _ => true,
        };
        if keep {
            push_node(&mut out, copy_node(&list[i]));
        }
        i += 1;
    }
    proof {
        assert(all.take(i as int) =~= all);
    }
    out
}

impl Evaluator {
    fn module_css(&self, key: &str) -> (r: Vec<OutNode>)
        ensures
            nodes(r@) == module_css(self@, key@),
    {
        proof {
            reveal(ev_of);
        }
        proof {
            reveal(leaf_of);
        }
        match get_id(&self.page.cache, key) {
            None => empty_nodes(),
            Some(m) => {
                if m < self.modules.len() {
                    proof {
                        assert(self@.modules[m as int] == self.modules@[m as int]@);
                    }
                    keep_own_nodes(&self.modules[m].css)
                } else {
                    empty_nodes()
                }
            },
        }
    }

    fn walk_subtree(&self, key: &str, visited: &mut Vec<String>, out: &mut Vec<OutNode>, hops: u128)
        ensures
            (texts(final(visited)@), nodes(final(out)@)) == walked(
                self@,
                key@,
                texts(old(visited)@),
                nodes(old(out)@),
                hops as nat,
            ),
        decreases hops, 0nat, 0int,
    {
        proof {
            reveal(ev_of);
        }
        proof {
            reveal(leaf_of);
        }
        if hops == 0 || holds_text(visited, key) {
            return;
        }
        push_string(visited, key.to_owned());
        let keys = reached_from(&self.page.order, key);
        self.walk_keys(&keys, visited, out, hops - 1);
        push_nodes(out, self.module_css(key));
    }

    fn walk_keys(&self, keys: &Vec<String>, visited: &mut Vec<String>, out: &mut Vec<OutNode>, hops: u128)
        ensures
            (texts(final(visited)@), nodes(final(out)@)) == walked_all(
                self@,
                texts(keys@),
                0,
                texts(old(visited)@),
                nodes(old(out)@),
                hops as nat,
            ),
        decreases hops, 1nat, keys@.len(),
    {
        let ghost all = texts(keys@);
        let ghost goal = walked_all(
            self@,
            all,
            0,
            texts(old(visited)@),
            nodes(old(out)@),
            hops as nat,
        );
        let mut i: usize = 0;
        while i < keys.len()
            invariant
                i <= keys@.len(),
                all == texts(keys@),
                goal == walked_all(
                    self@,
                    all,
                    0,
                    texts(old(visited)@),
                    nodes(old(out)@),
                    hops as nat,
                ),
                walked_all(self@, all, i as int, texts(visited@), nodes(out@), hops as nat) == goal,
            decreases keys@.len() - i,
        {
            self.walk_subtree(keys[i].as_str(), visited, out, hops);
            i += 1;
        }
    }
}

// ---- copies --------------------------------------------------------------

/// The next number of a counter.
pub open spec fn counted(n: usize) -> usize {
    if n < usize::MAX {
        (n + 1) as usize
    } else {
        0
    }
}

pub fn count(n: usize) -> (r: usize)
    ensures
        r == counted(n),
{
    if n < usize::MAX {
        n + 1
    } else {
        0
    }
}

/// The state with a copy of a module's CSS registered.
#[verifier::opaque]
pub open spec fn copy_registered(s: Ev, copy: Seq<char>, key: Seq<char>) -> Ev {
    let s1 = edge_known(s, copy);
    Ev { page: Leaf { copies: s1.page.copies.push((copy, key)), ..s1.page }, ..s1 }
}

/// The key of a copy of a module's CSS, and the CSS: inside an import that loads modules one copy
/// for all of them, in which nothing stands twice; a copy of its own elsewhere.
#[verifier::opaque]
pub open spec fn cloned_css(s: Ev, key: Seq<char>) -> ((Seq<char>, Seq<Node>), Ev) {
    match s.page.import_clone {
        Some((k, visited)) => {
            let s1 = copy_registered(s, k, key);
            let (v, o) = walked(s1, key, visited, Seq::empty(), walk_hops(s1));
            (
                (k, without_leading_blanks(o)),
                Ev { page: Leaf { import_clone: Some((k, v)), ..s1.page }, ..s1 },
            )
        },
        None => {
            let n = counted(s.page.copy_counter);
            let copy = key + "#copy"@ + decimal(n as nat);
            let s1 = copy_registered(
                Ev { page: Leaf { copy_counter: n, ..s.page }, ..s },
                copy,
                key,
            );
            let (v, o) = walked(s1, key, Seq::empty(), Seq::empty(), walk_hops(s1));
            ((copy, without_leading_blanks(o)), s1)
        },
    }
}

impl Evaluator {
    fn register_copy(&mut self, copy: &str, key: &str)
        ensures
            final(self)@ == copy_registered(old(self)@, copy@, key@),
            same_place(old(self)@, final(self)@),
    {
        proof {
            reveal(copy_registered);
        }
        proof {
            reveal(ev_of);
        }
        proof {
            reveal(leaf_of);
        }
        self.note_edge(copy);
        push_text_pair(&mut self.page.copies, copy.to_owned(), key.to_owned());
    }

    /// A copy of a module's CSS, with that of all it loads.
    pub fn clone_module_css(&mut self, key: &str) -> (r: (String, Vec<OutNode>))
        ensures
            ((r.0@, nodes(r.1@)), final(self)@) == cloned_css(old(self)@, key@),
            same_place(old(self)@, final(self)@),
    {
        proof {
            reveal(cloned_css);
        }
        proof {
            reveal(ev_of);
        }
        proof {
            reveal(leaf_of);
        }
        let shared = match &self.page.import_clone {
            Some((k, visited)) => Some((k.clone(), clone_strings(visited))),
            None => None,
        };
        match shared {
            Some((k, visited)) => {
                self.register_copy(k.as_str(), key);
                let mut visited = visited;
                let mut out = empty_nodes();
                let hops: u128 = self.page.order.len() as u128 + 1;
                self.walk_subtree(key, &mut visited, &mut out, hops);
                trim_leading_blanks(&mut out);
                self.page.import_clone = Some((k.clone(), visited));
                (k, out)
            },
            None => {
                let n: usize = count(self.page.copy_counter);
                self.page.copy_counter = n;
                let mut m = chars_of(key);
                append_str(&mut m, "#copy");
                append(&mut m, to_decimal(n).as_slice());
                let copy = string_of(m.as_slice());
                self.register_copy(copy.as_str(), key);
                let mut visited = empty_strings();
                let mut out = empty_nodes();
                let hops: u128 = self.page.order.len() as u128 + 1;
                self.walk_subtree(key, &mut visited, &mut out, hops);
                trim_leading_blanks(&mut out);
                (copy, out)
            },
        }
    }
}

// ---- laws ----------------------------------------------------------------

/// An edge that has been added leads where it was added to, and adding it again changes nothing.
pub proof fn added_edge_is_there(edges: Seq<(Seq<char>, Seq<Seq<char>>)>, from: Seq<char>, to: Seq<char>)
    ensures
        reached(edge_added(edges, from, to), from).contains(to),
        edge_added(edge_added(edges, from, to), from, to) == edge_added(edges, from, to),
{
    let l = with_text(reached(edges, from), to);
    let e = edge_added(edges, from, to);
    assert(l.contains(to)) by {
        if !reached(edges, from).contains(to) {
            assert(l[l.len() - 1] == to);
        }
    }
    get_after_put(edges, from, l);
    assert(reached(e, from) == l);
    lemma_entry(e, from);
    assert(e[entry(e, from)] == (from, l));
    assert(put(e, from, l) =~= e);
}

} // verus!
