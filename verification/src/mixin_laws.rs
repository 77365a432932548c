//! What mixins, content blocks and loaded modules bring to the place that calls for them.

use vstd::prelude::*;
use std::rc::Rc;
use crate::analysis::uses_content;
use crate::ast::{CallArg, ParamList, Stmt};
use crate::args::{Given, given, keywords_of, nothing_gathered, rest_list, Keywords};
use crate::at_root::{Layer, rewrapped, spaced, wrapped_all};
use crate::configs::Settings;
use crate::decls::decl_value;
use crate::env::Closure;
use crate::error::Pos;
use crate::eval::{Ev, scope_pushed};
use crate::exports::global_vars;
use crate::host::{Answer, Halt};
use crate::imports::globals_taken;
use crate::install::module_begun;
use crate::meta::keywords_value;
use crate::out::{Mark, Node};
use crate::output_laws::seen;
use crate::rules::rule_breaks;
use crate::sem::parent_value;
use crate::semantics::{bind_scope, call_args};
use crate::sink::{Drain, with_at_rule, with_at_rules};
use crate::state::{get, get_after_put};
use crate::statements::{
    at_root_closed, content_block, mixin_called, mixin_run, module_again, run_block, with_module,
};
use crate::value::{ListSep, Val, first_map};

verus! {

// ---- mixins --------------------------------------------------------------

/// A mixin runs in the scopes that it was defined in, with a scope of its own inside them that holds
/// its parameters, and with the content block it was given; its output goes where the call stands, and
/// the scopes of the caller are back afterwards.
pub proof fn mixin_runs_where_it_was_defined(
    s: Ev,
    ans: Seq<Answer>,
    c: Closure,
    a: Given,
    content: Option<crate::env::Block>,
    note: bool,
    parents: Seq<Seq<char>>,
    d: Drain,
    fuel: nat,
) -> (inside: Ev)
    requires
        mixin_run(s, ans, c, a, content, note, parents, d, fuel).0 is Ok,
    ensures
        ({
            let own = scope_pushed(Ev { chain: c.chain, ..s }, false);
            let b = bind_scope(own, ans, c.def.params, 0, a, keywords_of(a.named), c.def.name@, fuel);
            let r = mixin_run(s, ans, c, a, content, note, parents, d, fuel);
            &&& own.chain.scopes == c.chain.scopes.push(s.frames.len() as usize)
            &&& b.0 is Ok
            &&& inside.frames == b.1.frames
            &&& inside.chain == b.1.chain
            &&& inside.contents == b.1.contents.push(content)
            &&& r.0 == run_block(inside, ans, c.def.body@, parents, d, fuel).0
            &&& r.1.chain == s.chain
        }),
{
    let own = scope_pushed(Ev { chain: c.chain, ..s }, false);
    let b = bind_scope(own, ans, c.def.params, 0, a, keywords_of(a.named), c.def.name@, fuel);
    Ev {
        contents: b.1.contents.push(content),
        in_mixin: if note {
            b.1.in_mixin.push(true)
        } else {
            b.1.in_mixin
        },
        ..b.1
    }
}

/// A content block holds its statements and its parameters, and remembers the scopes and the modules
/// of the place it is written in.
pub proof fn content_block_remembers_its_place(s: Ev, stmts: Rc<Vec<Stmt>>, params: Option<Rc<ParamList>>)
    ensures
        content_block(s, Some(stmts), params) is Some,
        (content_block(s, Some(stmts), params)->0).stmts == stmts@,
        (content_block(s, Some(stmts), params)->0).caller == Some((s.chain, s.uses)),
        params is Some ==> (content_block(s, Some(stmts), params)->0).params == Some(*(params->0)),
        params is None ==> (content_block(s, Some(stmts), params)->0).params is None,
        content_block(s, None, params) is None,
{
    reveal(content_block);
}

/// A mixin that is called is run with the arguments of the call and with its content block; one that
/// has no use for a content block refuses it.
pub proof fn mixin_call_hands_over_its_content(
    s: Ev,
    ans: Seq<Answer>,
    id: usize,
    args: Seq<CallArg>,
    content: Option<Rc<Vec<Stmt>>>,
    params: Option<Rc<ParamList>>,
    parents: Seq<Seq<char>>,
    d: Drain,
    fuel: nat,
)
    requires
        id < s.callables.len(),
        call_args(s, ans, args, 0, nothing_gathered(), fuel).0 is Ok,
    ensures
        ({
            let c = s.callables[id as int];
            let g = call_args(s, ans, args, 0, nothing_gathered(), fuel);
            let r = mixin_called(s, ans, id, None, args, content, params, parents, d, fuel);
            &&& content is Some && !uses_content(c.def.body@, 0) ==> r.0 is Err
            &&& content is None || uses_content(c.def.body@, 0) ==> r == mixin_run(
                g.1,
                ans,
                c,
                given(g.0->Ok_0),
                content_block(g.1, content, params),
                true,
                parents,
                d,
                fuel,
            )
        }),
{
}

/// A rest parameter is an argument list: the arguments left over by position, and by keyword; and
/// `keywords()` gives those by keyword back.
pub proof fn rest_keeps_its_keywords(s: Ev, ans: Seq<Answer>, rest: Seq<Val>, sep: ListSep, kw: Keywords, pos: Pos)
    ensures
        ({
            let v = rest_list(rest, sep, kw);
            let r = keywords_value(s, ans, seq![v], Seq::empty(), pos);
            &&& v is List
            &&& v->items == rest
            &&& v->sep == sep
            &&& r.0 is Ok
            &&& r.0->Ok_0 is Pairs
            &&& (r.0->Ok_0->Pairs_0).len() == kw.len()
            &&& forall|k: int|
                0 <= k < kw.len() ==> #[trigger] (r.0->Ok_0->Pairs_0)[k] == (
                    Val::Str(kw[k].0, false),
                    (kw[k].1).1,
                )
        }),
{
    let v = rest_list(rest, sep, kw);
    assert(seq![v][0] == v);
}

// ---- modules -------------------------------------------------------------

/// A module is evaluated with the configuration it is given, none of it used yet, and looks for files
/// from its own directory.
pub proof fn module_starts_with_its_configuration(
    s: Ev,
    key: Seq<char>,
    url: Seq<char>,
    dir: Option<Seq<char>>,
    c: Settings,
    id: usize,
)
    ensures
        ({
            let b = module_begun(s, key, url, dir, c, id);
            &&& b.config.pending == c
            &&& b.config.consumed.len() == 0
            &&& b.page.file_dir == dir
            &&& b.page.module == key
            &&& b.page.loading == s.page.loading.push(key)
            &&& b.selector is None
            &&& b.chain.scopes.len() == 1
        }),
{
    reveal(module_begun);
    assert(crate::install::no_scopes().scopes.len() == 0);
}

/// A module that is loaded already cannot be configured: it is an error to configure a variable of it,
/// unless by the very configuration that it was loaded with.
pub proof fn loaded_module_cannot_be_configured(
    s: Ev,
    m: usize,
    key: Seq<char>,
    c: Settings,
    id: usize,
    pos: Pos,
    parents: Seq<Seq<char>>,
    copies: bool,
    d: Drain,
    k: int,
)
    requires
        m < s.modules.len(),
        !s.config.implicit,
        0 <= k < c.len(),
        crate::members::module_var(s, m, c[k].0) is Some,
    ensures
        id == 0 || s.modules[m as int].config_origin != id ==> module_again(
            s,
            m,
            key,
            c,
            id,
            pos,
            parents,
            copies,
            d,
        ).0 is Err,
        id != 0 && s.modules[m as int].config_origin == id ==> module_again(
            s,
            m,
            key,
            c,
            id,
            pos,
            parents,
            copies,
            d,
        ).0 is Ok,
{
    reveal(module_again);
    lemma_known(s, m, c, 0, Seq::empty(), k);
}

proof fn lemma_known(s: Ev, m: usize, c: Settings, i: int, acc: Seq<Seq<char>>, k: int)
    requires
        0 <= i <= c.len(),
        0 <= k < c.len(),
        crate::members::module_var(s, m, c[k].0) is Some,
        i <= k || acc.len() > 0,
    ensures
        crate::exports::known_names(s, m, c, i, acc).len() > 0,
    decreases c.len() - i,
{
    if i < c.len() {
        let next = if crate::members::module_var(s, m, c[i].0) is Some {
            acc.push(c[i].0)
        } else {
            acc
        };
        lemma_known(s, m, c, i + 1, next, k);
    }
}

/// The CSS of a module stands, marked as its own, behind what is already written.
pub proof fn module_css_comes_in_place(out: Seq<Node>, key: Seq<char>, css: Seq<Node>)
    ensures
        with_module(Drain::Top(out), key, css, Seq::empty()) is Top,
        seen(with_module(Drain::Top(out), key, css, Seq::empty())->Top_0) == seen(out).push(
            Node::ModuleScope { key, nodes: css },
        ),
{
    reveal(with_module);
    let n = Node::ModuleScope { key, nodes: css };
    crate::output_laws::groups_follow_each_other(out, seq![n]);
    assert(seq![n].drop_last() =~= Seq::<Node>::empty());
    assert(seen(Seq::<Node>::empty()) == Seq::<Node>::empty());
    assert(seen(seq![n]) =~= seq![n]);
    assert(seen(out) + seq![n] =~= seen(out).push(n));
}

/// A variable that an imported file re-exports to the top level is set there the first time; a later
/// import of the same one leaves the value that it has by then.
pub proof fn import_sets_globals_once(s: Ev, name: Seq<char>, v: Val, src: usize, other: Seq<char>)
    requires
        s.chain.scopes.len() == 1,
        s.chain.scopes[0] < s.frames.len(),
    ensures
        ({
            let list = seq![(name, v)];
            let homes = seq![(name, (src, other))];
            let r = globals_taken(s, list, homes, 0);
            let again = get(s.page.forwarded_globals, name) == Some(src);
            &&& !again || get(global_vars(s), name) is None ==> get(global_vars(r), name) == Some(v)
            &&& again && get(global_vars(s), name) is Some ==> get(global_vars(r), name) == get(
                global_vars(s),
                name,
            )
            &&& !again ==> get(r.page.forwarded_globals, name) == Some(src)
        }),
{
    reveal_with_fuel(globals_taken, 2);
    let list = seq![(name, v)];
    let homes = seq![(name, (src, other))];
    assert(list[0] == (name, v));
    crate::state::lemma_entry_is(homes, name, 0);
    assert(homes[0] == (name, (src, other)));
    get_after_put(global_vars(s), name, v);
    get_after_put(s.page.forwarded_globals, name, src);
}

// ---- values --------------------------------------------------------------

/// `&` is, as a value, the list of the selectors around it, each a list of its words; `null` where there
/// are none.
pub proof fn parent_value_lists_the_selectors(s: Ev)
    ensures
        s.selector is None ==> parent_value(s) == Val::Null,
        s.selector is Some && s.selector->0.len() > 0 ==> ({
            let v = parent_value(s);
            &&& v is List
            &&& v->sep == ListSep::Comma
            &&& v->items.len() == s.selector->0.len()
            &&& forall|i: int|
                0 <= i < v->items.len() ==> ({
                    let w = #[trigger] v->items[i];
                    let words = crate::at_root::words(s.selector->0[i]);
                    &&& w is List
                    &&& w->sep == ListSep::Space
                    &&& w->items.len() == words.len()
                    &&& forall|j: int|
                        0 <= j < words.len() ==> #[trigger] w->items[j] == Val::Str(words[j], false)
                })
        }),
{
    reveal(parent_value);
}

/// `null` is declared as nothing, and a map, or a list with one in it, is no value to declare.
pub proof fn maps_are_no_css_values(s: Ev, ans: Seq<Answer>, v: Val, pos: Pos)
    ensures
        v == Val::Null ==> decl_value(s, ans, v, pos) == (Ok::<Seq<char>, Halt>(Seq::empty()), s),
        first_map(v) is Some ==> decl_value(s, ans, v, pos).0 is Err,
        v is Pairs ==> first_map(v) is Some,
{
    reveal(decl_value);
}

/// A list with a map among its items has a map in it.
pub proof fn lists_of_maps_hold_maps(items: Seq<Val>, i: int, k: int)
    requires
        0 <= i <= k < items.len(),
        items[k] is Pairs,
    ensures
        crate::value::first_map_from(items, i) is Some,
    decreases k - i,
{
    if i < k {
        lists_of_maps_hold_maps(items, i + 1, k);
    } else {
        assert(first_map(items[i]) == Some(items[i]->Pairs_0));
    }
}

// ---- lines ---------------------------------------------------------------

/// A nested selector stands on a line of its own where its own part of the rule's text does, or the
/// selector around it does. The parts vary fastest.
pub proof fn line_breaks_follow_both(
    s: Ev,
    text: Seq<char>,
    parents: Seq<Seq<char>>,
    count: nat,
    p: int,
    i: int,
)
    requires
        s.page.linebreaks.len() > 0,
        s.page.linebreaks.len() == parents.len(),
        0 <= p < parents.len(),
        ({
            let parts = crate::nesting::breaks_from(crate::scan::comma_parts(text), 0, false, true);
            0 <= i < parts.len() && p * parts.len() + i < count
        }),
    ensures
        ({
            let parts = crate::nesting::breaks_from(crate::scan::comma_parts(text), 0, false, true);
            rule_breaks(s, text, parents, count)[p * parts.len() + i] == (parts[i] || s.page.linebreaks[p])
        }),
{
    reveal(rule_breaks);
    let parts = crate::nesting::breaks_from(crate::scan::comma_parts(text), 0, false, true);
    let n = parts.len() as int;
    let x = p * n + i;
    assert(x % n == i && x / n == p) by (nonlinear_arith)
        requires
            x == p * n + i,
            0 <= i < n,
            0 <= p,
    ;
    assert(0 <= x) by (nonlinear_arith)
        requires
            x == p * n + i,
            0 <= i,
            0 <= p,
            0 <= n,
    ;
}

// ---- `@at-root` ----------------------------------------------------------

/// What an `@at-root` leaves comes out outside the rules around it, or under their selectors where it
/// does not leave them; where it leaves at-rules it is kept for beside them, in those that stay.
pub proof fn at_root_output_goes_where_it_belongs(
    s: Ev,
    list: Seq<Node>,
    kept: Seq<Layer>,
    escapes: bool,
    bare: bool,
    parents: Seq<Seq<char>>,
    d: Drain,
)
    requires
        at_root_closed(s, list, kept, escapes, bare, parents, d).0 is Ok,
    ensures
        ({
            let r = at_root_closed(s, list, kept, escapes, bare, parents, d);
            let under = if bare || parents.len() == 0 {
                list
            } else {
                rewrapped(list, 0, parents, Seq::empty(), Seq::empty())
            };
            let out = spaced(under);
            &&& out.len() > 0 && !escapes ==> r == (Ok::<Drain, Halt>(with_at_rules(d, out)), s)
            &&& out.len() > 0 && escapes ==> r.0 == Ok::<Drain, Halt>(
                with_at_rule(d, Node::Mark(Mark::AtRootHoist)),
            ) && r.1.page.at_root_hoist == s.page.at_root_hoist.push(wrapped_all(kept, out))
            &&& out.len() == 0 ==> r == (Ok::<Drain, Halt>(d), s)
        }),
{
    reveal(at_root_closed);
}

/// Nodes are spaced with blank lines alone: nothing else is added, lost or moved.
pub proof fn spacing_adds_blank_lines_alone(list: Seq<Node>)
    ensures
        seen(spaced(list)) == seen(list),
    decreases list.len(),
{
    if list.len() > 0 {
        let less = list.drop_last();
        spacing_adds_blank_lines_alone(less);
        let before = spaced(less);
        let blank = before.push(Node::Blank);
        assert(blank.drop_last() =~= before);
        assert(blank.push(list.last()).drop_last() =~= blank);
        assert(before.push(list.last()).drop_last() =~= before);
        assert(seen(blank) == seen(before));
    }
}

} // verus!
