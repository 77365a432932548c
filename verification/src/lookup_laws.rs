//! What names stand for, and what the functions that ask about them answer.

use vstd::prelude::*;
use crate::analysis::{stmt_content, uses_content};
use crate::ast::{CallArg, Stmt, VarDecl};
use crate::edges::{module_css, reached, walked, walked_all};
use crate::env::{loose_entry, seek};
use crate::error::{Pos, fault_at};
use crate::eval::{
    Ev, callable_in, callable_loose, fail, frame, function_named, lookup, lookup_in, mixin_named, table,
};
use crate::flow_laws::assigned_variable_is_found;
use crate::host::{Answer, Halt};
use crate::members::{
    MemberKind, has_member, having, module_var, star_hits, var_in, variable, write_target,
};
use crate::meta::{
    content_exists, function_exists, get_function, mixin_exists, scope_has, variable_exists,
};
use crate::out::Node;
use crate::semantics::{declare, declare_in, eval, function, meta_call, ref_call, user_call};
use crate::state::{Vars, get, get_after_put, lemma_entry};
use crate::text::starts;
use crate::value::{Val, slashless};

verus! {

// ---- declarations --------------------------------------------------------

/// Whether every open scope is there.
pub open spec fn scopes_there(s: Ev) -> bool {
    s.chain.scopes.len() > 0 && forall|i: int|
        0 <= i < s.chain.scopes.len() ==> (#[trigger] s.chain.scopes[i]) < s.frames.len()
}

/// A declaration gives the variable the value of its expression; `!global` gives it to the global one.
pub proof fn declaration_sets_the_variable(s: Ev, ans: Seq<Answer>, v: VarDecl, fuel: nat)
    requires
        v.namespace is None,
        !v.is_default,
        eval(s, ans, v.value, fuel).0 is Ok,
        scopes_there(eval(s, ans, v.value, fuel).1),
        star_hits(eval(s, ans, v.value, fuel).1, v.name@, MemberKind::Variable).len() == 0,
    ensures
        ({
            let e = eval(s, ans, v.value, fuel);
            let r = declare(s, ans, v, fuel);
            &&& r.0 is Ok
            &&& r.1.chain == e.1.chain
            &&& !v.is_global ==> lookup(r.1, v.name@) == Some(e.0->Ok_0)
            &&& v.is_global ==> get(frame(r.1, e.1.chain.scopes[0]), v.name@) == Some(e.0->Ok_0)
        }),
{
    let e = eval(s, ans, v.value, fuel);
    if v.is_global {
        get_after_put(frame(e.1, e.1.chain.scopes[0]), v.name@, e.0->Ok_0);
    } else {
        assigned_variable_is_found(e.1, v.name@, e.0->Ok_0);
    }
}

/// A `!default` declaration gives the variable the value of its expression where it has none, or has
/// `null`.
pub proof fn default_sets_what_has_no_value(s: Ev, ans: Seq<Answer>, v: VarDecl, fuel: nat)
    requires
        v.namespace is None,
        v.is_default,
        !v.is_global,
        s.chain.scopes.len() > 1,
        eval(s, ans, v.value, fuel).0 is Ok,
        scopes_there(eval(s, ans, v.value, fuel).1),
        star_hits(eval(s, ans, v.value, fuel).1, v.name@, MemberKind::Variable).len() == 0,
        lookup(eval(s, ans, v.value, fuel).1, v.name@) is None || lookup(
            eval(s, ans, v.value, fuel).1,
            v.name@,
        ) == Some(Val::Null),
    ensures
        declare(s, ans, v, fuel).0 is Ok,
        lookup(declare(s, ans, v, fuel).1, v.name@) == Some(eval(s, ans, v.value, fuel).0->Ok_0),
{
    let e = eval(s, ans, v.value, fuel);
    assigned_variable_is_found(e.1, v.name@, e.0->Ok_0);
}

/// A variable of a module that is assigned to from outside has that value there from then on.
pub proof fn module_variable_is_written(s: Ev, ans: Seq<Answer>, ns: Seq<char>, v: VarDecl, fuel: nat, m: usize)
    requires
        get(s.uses.user, ns) == Some(m),
        !v.is_default,
        declare_in(s, ans, ns, v, fuel).0 is Ok,
        write_target(s, m, v.name@) == (m, v.name@),
        m < eval(s, ans, v.value, fuel).1.modules.len(),
        seek(eval(s, ans, v.value, fuel).1.modules[m as int].var_origins, v.name@) is None,
        eval(s, ans, v.value, fuel).1.modules[m as int].vars < eval(s, ans, v.value, fuel).1.frames.len(),
    ensures
        module_var(declare_in(s, ans, ns, v, fuel).1, m, v.name@) == Some(
            slashless(eval(s, ans, v.value, fuel).0->Ok_0),
        ),
{
    let e = eval(s, ans, v.value, fuel);
    let f = e.1.modules[m as int].vars;
    get_after_put(frame(e.1, f), v.name@, slashless(e.0->Ok_0));
}

/// A variable that a module re-exports is the one of the module it comes from, whatever becomes of it.
pub proof fn forwarded_variable_is_the_original(s: Ev, m: usize, name: Seq<char>, o: usize, n: Seq<char>)
    requires
        m < s.modules.len(),
        o < s.modules.len(),
        seek(s.modules[m as int].var_origins, name) == Some((o, n)),
        seek(s.modules[o as int].var_origins, n) is None,
    ensures
        module_var(s, m, name) == module_var(s, o, n),
        module_var(s, o, n) == seek(frame(s, s.modules[o as int].vars), n),
{
    reveal_with_fuel(var_in, 2);
}

// ---- modules without a namespace -----------------------------------------

/// The modules used without a namespace that have a member are found, each as often as it is used, and
/// no other.
pub proof fn star_hits_are_the_modules_that_have_it(s: Ev, name: Seq<char>, kind: MemberKind, m: usize)
    requires
        !crate::member_laws::kept_inside(name),
    ensures
        star_hits(s, name, kind).contains(m) == (s.uses.star_user.contains(m) && has_member(
            s,
            m,
            name,
            kind,
        )),
{
    lemma_having(s, s.uses.star_user, name, kind, m);
}

proof fn lemma_having(s: Ev, list: Seq<usize>, name: Seq<char>, kind: MemberKind, m: usize)
    ensures
        having(s, list, name, kind).contains(m) == (list.contains(m) && has_member(s, m, name, kind)),
    decreases list.len(),
{
    if list.len() > 0 {
        let less = list.drop_last();
        let before = having(s, less, name, kind);
        let all = having(s, list, name, kind);
        lemma_having(s, less, name, kind, m);
        assert(list.contains(m) == (less.contains(m) || list.last() == m)) by {
            if list.contains(m) {
                let k = choose|k: int| 0 <= k < list.len() && list[k] == m;
                if k < less.len() {
                    assert(less[k] == m);
                }
            }
            if less.contains(m) {
                let k = choose|k: int| 0 <= k < less.len() && less[k] == m;
                assert(list[k] == m);
            }
            if list.last() == m {
                assert(list[list.len() - 1] == m);
            }
        }
        if has_member(s, list.last(), name, kind) {
            assert(all == before.push(list.last()));
            assert(all.contains(m) == (before.contains(m) || list.last() == m)) by {
                if all.contains(m) {
                    let k = choose|k: int| 0 <= k < all.len() && all[k] == m;
                    if k < before.len() {
                        assert(before[k] == m);
                    }
                }
                if before.contains(m) {
                    let k = choose|k: int| 0 <= k < before.len() && before[k] == m;
                    assert(all[k] == m);
                }
                if list.last() == m {
                    assert(all[before.len() as int] == m);
                }
            }
        }
    }
}

/// A variable that two modules used without a namespace have, and no scope, is an error.
pub proof fn two_modules_with_a_variable_are_an_error(s: Ev, ans: Seq<Answer>, name: Seq<char>, pos: Pos)
    requires
        lookup(s, name) is None,
        star_hits(s, name, MemberKind::Variable).len() > 1,
    ensures
        variable(s, ans, name, pos) == fail::<Val>(
            fault_at("This variable is available from multiple global modules."@, pos),
            s,
        ),
{
    reveal(variable);
}

// ---- questions -----------------------------------------------------------

proof fn lemma_loose<T>(s: Seq<(Seq<char>, T)>, key: Seq<char>)
    requires
        get(s, key) is Some,
    ensures
        loose_entry(s, key) < s.len(),
    decreases s.len(),
{
    lemma_entry(s, key);
    if s.len() > 0 && crate::names::dashed(s[0].0) != crate::names::dashed(key) {
        let t = s.skip(1);
        assert(s[0].0 != key);
        lemma_loose(t, key);
    }
}

proof fn lemma_looked_up(s: Ev, scopes: Seq<usize>, name: Seq<char>)
    requires
        lookup_in(s, scopes, name) is Some,
    ensures
        scope_has(s, scopes, name),
    decreases scopes.len(),
{
    if scopes.len() > 0 {
        let f = frame(s, scopes.last());
        if get(f, name) is Some {
            lemma_loose(f, name);
            assert(loose_entry(frame(s, scopes[scopes.len() - 1]), name) < frame(
                s,
                scopes[scopes.len() - 1],
            ).len());
        } else {
            let less = scopes.drop_last();
            lemma_looked_up(s, less, name);
            let k = choose|k: int|
                0 <= k < less.len() && loose_entry(frame(s, #[trigger] less[k]), name) < frame(
                    s,
                    less[k],
                ).len();
            assert(scopes[k] == less[k]);
        }
    }
}

/// `variable-exists()` is true of a variable that can be read in the scopes that are open.
pub proof fn readable_variable_exists(s: Ev, ans: Seq<Answer>, name: Seq<char>, quoted: bool, pos: Pos)
    requires
        lookup(s, name) is Some,
    ensures
        variable_exists(s, ans, seq![Val::Str(name, quoted)], Seq::empty(), pos, false) == (
            Ok::<bool, Halt>(true),
            s,
        ),
{
    lemma_looked_up(s, s.chain.scopes, name);
    assert(seq![Val::Str(name, quoted)][0] == Val::Str(name, quoted));
}

/// `global-variable-exists()` asks the global scope and the modules used without a namespace, and no
/// local scope.
pub proof fn global_variable_exists_globally(s: Ev, ans: Seq<Answer>, name: Seq<char>, quoted: bool, pos: Pos)
    requires
        s.chain.scopes.len() > 0,
        star_hits(s, name, MemberKind::Variable).len() == 0,
    ensures
        variable_exists(s, ans, seq![Val::Str(name, quoted)], Seq::empty(), pos, true) == (
            Ok::<bool, Halt>(
                loose_entry(frame(s, s.chain.scopes[0]), name) < frame(s, s.chain.scopes[0]).len(),
            ),
            s,
        ),
{
    assert(seq![Val::Str(name, quoted)][0] == Val::Str(name, quoted));
    let one = s.chain.scopes.take(1);
    assert(one[0] == s.chain.scopes[0]);
    let none = Seq::<(Seq<char>, Val)>::empty();
    lemma_entry(none, "module"@);
    let there = loose_entry(frame(s, s.chain.scopes[0]), name) < frame(s, s.chain.scopes[0]).len();
    assert(scope_has(s, one, name) == there) by {
        if there {
            assert(loose_entry(frame(s, one[0]), name) < frame(s, one[0]).len());
        }
    }
}

proof fn lemma_called(s: Ev, tables: Seq<usize>, name: Seq<char>)
    requires
        callable_in(s, tables, name) is Some,
    ensures
        callable_loose(s, tables, name) is Some,
    decreases tables.len(),
{
    if tables.len() > 0 {
        let t = table(s, tables.last());
        if get(t, crate::names::dashed(name)) is Some {
            lemma_loose(t, crate::names::dashed(name));
            crate::names::dashed_is_canonical(name);
            lemma_loose_same(t, crate::names::dashed(name), name);
        } else {
            lemma_called(s, tables.drop_last(), name);
        }
    }
}

proof fn lemma_loose_same<T>(s: Seq<(Seq<char>, T)>, a: Seq<char>, b: Seq<char>)
    requires
        crate::names::dashed(a) == crate::names::dashed(b),
    ensures
        loose_entry(s, a) == loose_entry(s, b),
    decreases s.len(),
{
    if s.len() > 0 && crate::names::dashed(s[0].0) != crate::names::dashed(a) {
        lemma_loose_same(s.skip(1), a, b);
    }
}

/// `function-exists()` and `mixin-exists()` are true of what can be called.
pub proof fn callable_members_exist(s: Ev, ans: Seq<Answer>, name: Seq<char>, quoted: bool, pos: Pos)
    ensures
        function_named(s, name) is Some ==> function_exists(
            s,
            ans,
            seq![Val::Str(name, quoted)],
            Seq::empty(),
            pos,
        ) == (Ok::<bool, Halt>(true), s),
        mixin_named(s, name) is Some ==> mixin_exists(
            s,
            ans,
            seq![Val::Str(name, quoted)],
            Seq::empty(),
            pos,
        ) == (Ok::<bool, Halt>(true), s),
{
    assert(seq![Val::Str(name, quoted)][0] == Val::Str(name, quoted));
    let none = Seq::<(Seq<char>, Val)>::empty();
    lemma_entry(none, "module"@);
    if function_named(s, name) is Some {
        lemma_called(s, s.chain.functions, name);
    }
    if mixin_named(s, name) is Some {
        lemma_called(s, s.chain.mixins, name);
    }
}

/// `content-exists()` says, within a mixin, whether it was given a content block.
pub proof fn content_exists_where_a_block_is_given(s: Ev, pos: Pos)
    requires
        s.in_mixin.len() > 0,
        s.in_mixin.last(),
    ensures
        content_exists(s, Seq::empty(), pos) == (
            Ok::<bool, Halt>(s.contents.len() > 0 && s.contents.last() is Some),
            s,
        ),
{
}

// ---- calls ---------------------------------------------------------------

/// A function of the stylesheet is called by its name, before any that is built in.
pub proof fn own_functions_come_first(
    s: Ev,
    ans: Seq<Answer>,
    name: Seq<char>,
    args: Seq<CallArg>,
    pos: Pos,
    length: usize,
    fuel: nat,
)
    requires
        function_named(s, name) is Some,
        !s.plain,
        name != "if"@,
        !starts(name, "--"@),
    ensures
        function(s, ans, name, args, pos, length, fuel) == user_call(
            s,
            ans,
            function_named(s, name)->0,
            args,
            Some((pos, length)),
            fuel,
        ),
{
}

/// `get-function()` gives a reference to the function that the name stands for.
pub proof fn function_reference_is_the_function(
    s: Ev,
    ans: Seq<Answer>,
    name: Seq<char>,
    quoted: bool,
    pos: Pos,
)
    requires
        callable_loose(s, s.chain.functions, name) is Some,
    ensures
        get_function(s, ans, seq![Val::Str(name, quoted)], Seq::empty(), pos) == (
            Ok::<Val, Halt>(
                Val::Function { name, css: false, user: callable_loose(s, s.chain.functions, name) },
            ),
            s,
        ),
{
    let p = seq![Val::Str(name, quoted)];
    assert(p[0] == Val::Str(name, quoted));
    let none = Seq::<(Seq<char>, Val)>::empty();
    lemma_entry(none, "module"@);
    lemma_entry(none, "css"@);
}

/// `call()` runs the function that the reference stands for, on the arguments behind it.
pub proof fn call_runs_the_reference(
    s: Ev,
    ans: Seq<Answer>,
    name: Seq<char>,
    css: bool,
    user: Option<usize>,
    rest: Seq<Val>,
    n: Vars,
    pos: Pos,
    fuel: nat,
)
    ensures
        meta_call(
            s,
            ans,
            "call"@,
            seq![Val::Function { name, css, user }] + rest,
            n,
            pos,
            fuel,
        ) == Some(
            ref_call(
                s,
                ans,
                name,
                css,
                user,
                rest,
                crate::sem::without_name(n, "function"@),
                pos,
                fuel,
            ),
        ),
{
    let p = seq![Val::Function { name, css, user }] + rest;
    assert(p.skip(1) =~= rest);
    assert(p[0] == Val::Function { name, css, user });
}

/// A mixin takes a content block where a `@content` stands in its body, however deep.
pub proof fn content_is_taken_where_it_is_used(body: Seq<Stmt>, i: int)
    requires
        0 <= i,
    ensures
        uses_content(body, i) == exists|k: int| i <= k < body.len() && stmt_content(#[trigger] body[k]),
    decreases body.len() - i,
{
    if i < body.len() {
        content_is_taken_where_it_is_used(body, i + 1);
        if uses_content(body, i + 1) {
            let k = choose|k: int| i + 1 <= k < body.len() && stmt_content(#[trigger] body[k]);
            assert(stmt_content(body[k]));
        }
        if exists|k: int| i <= k < body.len() && stmt_content(#[trigger] body[k]) {
            let k = choose|k: int| i <= k < body.len() && stmt_content(#[trigger] body[k]);
            if k > i {
                assert(i + 1 <= k && stmt_content(body[k]));
            }
        }
    }
}

// ---- copies --------------------------------------------------------------

/// A copy of a module's CSS has that of what it loads before its own, and that of a module which is
/// already there not again.
pub proof fn copy_has_what_is_loaded_first(
    s: Ev,
    key: Seq<char>,
    dep: Seq<char>,
    visited: Seq<Seq<char>>,
    out: Seq<Node>,
    hops: nat,
)
    requires
        hops >= 2,
        reached(s.page.order, key) == seq![dep],
        reached(s.page.order, dep).len() == 0,
        !visited.contains(key),
    ensures
        dep != key && !visited.contains(dep) ==> walked(s, key, visited, out, hops) == (
            visited.push(key).push(dep),
            out + module_css(s, dep) + module_css(s, key),
        ),
        visited.contains(dep) ==> walked(s, key, visited, out, hops) == (
            visited.push(key),
            out + module_css(s, key),
        ),
        walked(s, key, visited.push(key), out, hops) == (visited.push(key), out),
{
    reveal_with_fuel(walked, 3);
    reveal_with_fuel(walked_all, 3);
    let v = visited.push(key);
    assert(v[visited.len() as int] == key);
    assert(v.contains(key));
    let one = seq![dep];
    assert(one[0] == dep);
    assert(v.contains(dep) == (visited.contains(dep) || dep == key)) by {
        if v.contains(dep) {
            let k = choose|k: int| 0 <= k < v.len() && v[k] == dep;
            if k < visited.len() {
                assert(visited[k] == dep);
            }
        }
        if visited.contains(dep) {
            let k = choose|k: int| 0 <= k < visited.len() && visited[k] == dep;
            assert(v[k] == dep);
        }
    }
}

} // verus!
