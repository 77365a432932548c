//! What control flow, scopes and the statements of a block do.

use vstd::prelude::*;
use crate::ast::{Callable, Declaration, Expr, IfBranch, PropertySet, Stmt};
use crate::decls::{declared, full_name};
use crate::eval::{
    Ev, asked_int, assigned, captured, frame, function_defined, function_named, holder, in_semi,
    local_set, lookup, lookup_in, mixin_defined, mixin_named, popped, scope_popped, scope_pushed,
    target, with_scope, with_var,
};
use crate::host::{Answer, Halt, Task, ask_numbers};
use crate::names::{dashed, indices};
use crate::queries::trimmed_template;
use crate::sem::{asked_int_bits, each_bound, each_items, each_set, loop_bounds};
use crate::semantics::{
    eval, fn_block, fn_branches, fn_each, fn_each_stmt, fn_for, fn_for_stmt, fn_while, fn_while_stmt,
    for_bounds, taken,
};
use crate::sink::Drain;
use crate::state::{get, get_after_put, put_keeps_others};
use crate::statements::{
    content_frame, content_run, each_stmt, for_stmt, property_set, run_block, run_branches, run_each,
    run_for, run_stmt, run_stmts, run_while, set_value, while_stmt,
};
use crate::value::{Num, Val, unit_of, unitless, with_unit};

verus! {

// ---- blocks --------------------------------------------------------------

/// A state and the output gathered so far.
pub ghost struct Stage {
    pub s: Ev,
    pub d: Drain,
}

/// Whether a statement, run from one stage, comes through with another.
#[verifier::opaque]
pub open spec fn comes_through(
    a: Stage,
    ans: Seq<Answer>,
    stmt: Stmt,
    parents: Seq<Seq<char>>,
    fuel: nat,
    b: Stage,
) -> bool {
    run_stmt(a.s, ans, stmt, parents, a.d, fuel) == (Ok::<Drain, Halt>(b.d), b.s)
}

proof fn lemma_one_statement(
    a: Stage,
    ans: Seq<Answer>,
    stmts: Seq<Stmt>,
    i: int,
    parents: Seq<Seq<char>>,
    fuel: nat,
) -> (b: Stage)
    requires
        0 <= i < stmts.len(),
        run_stmts(a.s, ans, stmts, i, parents, a.d, fuel).0 is Ok,
    ensures
        comes_through(a, ans, stmts[i], parents, fuel, b),
        run_stmts(a.s, ans, stmts, i, parents, a.d, fuel) == run_stmts(
            b.s,
            ans,
            stmts,
            i + 1,
            parents,
            b.d,
            fuel,
        ),
{
    reveal(comes_through);
    let r = run_stmt(a.s, ans, stmts[i], parents, a.d, fuel);
    Stage { s: r.1, d: r.0->Ok_0 }
}

/// The statements of a block are run one after the other, each in the state and with the output that
/// the one before has left.
pub proof fn statements_run_in_order(
    a: Stage,
    ans: Seq<Answer>,
    stmts: Seq<Stmt>,
    i: int,
    parents: Seq<Seq<char>>,
    fuel: nat,
) -> (mid: Seq<Stage>)
    requires
        0 <= i <= stmts.len(),
        run_stmts(a.s, ans, stmts, i, parents, a.d, fuel).0 is Ok,
    ensures
        mid.len() == stmts.len() - i + 1,
        mid[0] == a,
        forall|k: int|
            i <= k < stmts.len() ==> comes_through(
                #[trigger] mid[k - i],
                ans,
                stmts[k],
                parents,
                fuel,
                mid[k - i + 1],
            ),
        run_stmts(a.s, ans, stmts, i, parents, a.d, fuel) == (
            Ok::<Drain, Halt>(mid.last().d),
            mid.last().s,
        ),
    decreases stmts.len() - i,
{
    if i >= stmts.len() {
        seq![a]
    } else {
        let b = lemma_one_statement(a, ans, stmts, i, parents, fuel);
        let rest = statements_run_in_order(b, ans, stmts, i + 1, parents, fuel);
        let all = seq![a] + rest;
        assert forall|k: int| i <= k < stmts.len() implies comes_through(
            #[trigger] all[k - i],
            ans,
            stmts[k],
            parents,
            fuel,
            all[k - i + 1],
        ) by {
            if k > i {
                assert(all[k - i] == rest[k - (i + 1)]);
                assert(all[k - i + 1] == rest[k - (i + 1) + 1]);
            } else {
                assert(all[1] == rest[0]);
            }
        }
        assert(all.last() == rest.last());
        all
    }
}

/// Whether a body, run from a state with the output so far, comes through with a stage.
#[verifier::opaque]
pub open spec fn body_leaves(
    inside: Ev,
    d: Drain,
    ans: Seq<Answer>,
    body: Seq<Stmt>,
    parents: Seq<Seq<char>>,
    fuel: nat,
    b: Stage,
) -> bool {
    run_block(inside, ans, body, parents, d, fuel) == (Ok::<Drain, Halt>(b.d), b.s)
}

// ---- conditions ----------------------------------------------------------

/// Whether a value counts as false: `false` and `null` do, and nothing else.
pub open spec fn counts_as_false(v: Val) -> bool {
    v == Val::Bool(false) || v == Val::Null
}

/// Whether the condition of a branch comes out false in a state, and the state it leaves.
#[verifier::opaque]
pub open spec fn comes_to_false(s: Ev, ans: Seq<Answer>, b: IfBranch, fuel: nat, s1: Ev) -> bool {
    match b.cond {
        None => false,
        Some(c) => {
            let r = eval(s, ans, c, fuel);
            r.0 is Ok && counts_as_false(r.0->Ok_0) && s1 == r.1
        },
    }
}

/// Whether a branch is taken from a state, and the state it leaves.
#[verifier::opaque]
pub open spec fn goes_in(s: Ev, ans: Seq<Answer>, b: IfBranch, fuel: nat, s1: Ev) -> bool {
    match b.cond {
        None => s1 == s,
        Some(c) => {
            let r = eval(s, ans, c, fuel);
            r.0 is Ok && !counts_as_false(r.0->Ok_0) && s1 == r.1
        },
    }
}

/// An `@if` whose branch does not hold goes on with the next; the first one that holds is run in a scope
/// of its own, and no other is; where none does, nothing is run.
pub proof fn if_runs_the_first_that_holds(
    s: Ev,
    ans: Seq<Answer>,
    branches: Seq<IfBranch>,
    i: int,
    parents: Seq<Seq<char>>,
    d: Drain,
    fuel: nat,
    s1: Ev,
)
    requires
        0 <= i < branches.len(),
    ensures
        comes_to_false(s, ans, branches[i], fuel, s1) ==> run_branches(
            s,
            ans,
            branches,
            i,
            parents,
            d,
            fuel,
        ) == run_branches(s1, ans, branches, i + 1, parents, d, fuel),
        goes_in(s, ans, branches[i], fuel, s1) ==> ({
            let x = run_block(scope_pushed(s1, true), ans, branches[i].body@, parents, d, fuel);
            run_branches(s, ans, branches, i, parents, d, fuel) == (x.0, scope_popped(x.1))
        }),
        run_branches(s, ans, branches, branches.len() as int, parents, d, fuel) == (
            Ok::<Drain, Halt>(d),
            s,
        ),
{
    reveal(comes_to_false);
    reveal(goes_in);
    let t = taken(s, ans, branches[i].cond, fuel);
    assert(comes_to_false(s, ans, branches[i], fuel, s1) ==> t == (Ok::<bool, Halt>(false), s1));
    assert(goes_in(s, ans, branches[i], fuel, s1) ==> t == (Ok::<bool, Halt>(true), s1));
}

/// In a function an `@if` whose branch does not hold goes on with the next; one that holds is run in a
/// scope of its own, and what it returns is returned; where none does, nothing is.
pub proof fn if_in_a_function_runs_the_first_that_holds(
    s: Ev,
    ans: Seq<Answer>,
    branches: Seq<IfBranch>,
    i: int,
    fuel: nat,
    s1: Ev,
)
    requires
        0 <= i < branches.len(),
    ensures
        comes_to_false(s, ans, branches[i], fuel, s1) ==> fn_branches(s, ans, branches, i, fuel)
            == fn_branches(s1, ans, branches, i + 1, fuel),
        goes_in(s, ans, branches[i], fuel, s1) ==> ({
            let x = fn_block(scope_pushed(s1, true), ans, branches[i].body@, fuel);
            fn_branches(s, ans, branches, i, fuel) == (x.0, scope_popped(x.1))
        }),
        fn_branches(s, ans, branches, branches.len() as int, fuel) == (
            Ok::<Option<Val>, Halt>(None),
            s,
        ),
{
    reveal(comes_to_false);
    reveal(goes_in);
    let t = taken(s, ans, branches[i].cond, fuel);
    assert(comes_to_false(s, ans, branches[i], fuel, s1) ==> t == (Ok::<bool, Halt>(false), s1));
    assert(goes_in(s, ans, branches[i], fuel, s1) ==> t == (Ok::<bool, Halt>(true), s1));
}

// ---- loops ---------------------------------------------------------------

/// A `@for` counts from its first bound to its second, up or down, one at a time; `through` takes the
/// second bound too, and `to` stops before it.
pub proof fn for_counts_from_bound_to_bound(a: int, b: int, inclusive: bool)
    ensures
        ({
            let ks = indices(a, b, inclusive);
            let far = if a <= b {
                b - a
            } else {
                a - b
            };
            &&& inclusive ==> ks.len() == far + 1 && ks.last() == b
            &&& !inclusive ==> ks.len() == far
            &&& ks.len() > 0 ==> ks[0] == a
            &&& forall|k: int, l: int|
                0 <= k && l == k + 1 && l < ks.len() ==> #[trigger] ks[l] == #[trigger] ks[k] + (if a <= b {
                    1int
                } else {
                    -1int
                })
            &&& !inclusive ==> !ks.contains(b)
        }),
{
    let ks = indices(a, b, inclusive);
    if !inclusive && ks.contains(b) {
        let k = choose|k: int| 0 <= k < ks.len() && ks[k] == b;
        assert(ks[k] == if a <= b {
            a + k
        } else {
            a - k
        });
    }
}

/// The state in which the body of a `@for` is run for a number.
pub open spec fn for_entry(s: Ev, ans: Seq<Answer>, var: Seq<char>, unit: Seq<char>, n: int) -> Ev {
    let b = asked_int_bits(s, ans, n);
    local_set(b.1, var, Val::Number(with_unit(b.0->Ok_0, unit)))
}

proof fn lemma_one_number(
    s: Ev,
    ans: Seq<Answer>,
    var: Seq<char>,
    unit: Seq<char>,
    ks: Seq<int>,
    k: int,
    body: Seq<Stmt>,
    parents: Seq<Seq<char>>,
    d: Drain,
    fuel: nat,
) -> (b: Stage)
    requires
        0 <= k < ks.len(),
        run_for(s, ans, var, unit, ks, k, body, parents, d, fuel).0 is Ok,
    ensures
        asked_int_bits(s, ans, ks[k]).0 is Ok,
        body_leaves(for_entry(s, ans, var, unit, ks[k]), d, ans, body, parents, fuel, b),
        run_for(s, ans, var, unit, ks, k, body, parents, d, fuel) == run_for(
            b.s,
            ans,
            var,
            unit,
            ks,
            k + 1,
            body,
            parents,
            b.d,
            fuel,
        ),
{
    reveal(body_leaves);
    let r = run_block(for_entry(s, ans, var, unit, ks[k]), ans, body, parents, d, fuel);
    Stage { s: r.1, d: r.0->Ok_0 }
}

/// Whether a stage of a `@for` leads to another: there is a number, the variable has it, and the body
/// comes through.
pub open spec fn number_step(
    a: Stage,
    ans: Seq<Answer>,
    var: Seq<char>,
    unit: Seq<char>,
    n: int,
    body: Seq<Stmt>,
    parents: Seq<Seq<char>>,
    fuel: nat,
    b: Stage,
) -> bool {
    let inside = for_entry(a.s, ans, var, unit, n);
    let bits = asked_int_bits(a.s, ans, n).0;
    &&& bits is Ok
    &&& body_leaves(inside, a.d, ans, body, parents, fuel, b)
    &&& inside.chain.scopes.len() > 0 && inside.chain.scopes.last() < inside.frames.len() ==> lookup(
        inside,
        var,
    ) == Some(Val::Number(with_unit(bits->Ok_0, unit)))
}

/// A `@for` runs its body once for each of its numbers, in their order, with the variable set to the
/// number and its unit.
pub proof fn for_runs_once_for_each_number(
    s: Ev,
    ans: Seq<Answer>,
    var: Seq<char>,
    unit: Seq<char>,
    ks: Seq<int>,
    k: int,
    body: Seq<Stmt>,
    parents: Seq<Seq<char>>,
    d: Drain,
    fuel: nat,
) -> (mid: Seq<Stage>)
    requires
        0 <= k <= ks.len(),
        run_for(s, ans, var, unit, ks, k, body, parents, d, fuel).0 is Ok,
    ensures
        mid.len() == ks.len() - k + 1,
        mid[0] == (Stage { s, d }),
        forall|j: int|
            k <= j < ks.len() ==> number_step(
                #[trigger] mid[j - k],
                ans,
                var,
                unit,
                ks[j],
                body,
                parents,
                fuel,
                mid[j - k + 1],
            ),
        run_for(s, ans, var, unit, ks, k, body, parents, d, fuel) == (
            Ok::<Drain, Halt>(mid.last().d),
            mid.last().s,
        ),
    decreases ks.len() - k,
{
    if k >= ks.len() {
        seq![Stage { s, d }]
    } else {
        let b = lemma_one_number(s, ans, var, unit, ks, k, body, parents, d, fuel);
        let rest = for_runs_once_for_each_number(
            b.s,
            ans,
            var,
            unit,
            ks,
            k + 1,
            body,
            parents,
            b.d,
            fuel,
        );
        let first = Stage { s, d };
        let all = seq![first] + rest;
        let bits = asked_int_bits(s, ans, ks[k]);
        let inside = for_entry(s, ans, var, unit, ks[k]);
        if inside.chain.scopes.len() > 0 && inside.chain.scopes.last() < inside.frames.len() {
            crate::eval::lookup_after_local_set(bits.1, var, Val::Number(with_unit(bits.0->Ok_0, unit)));
        }
        assert(number_step(first, ans, var, unit, ks[k], body, parents, fuel, b));
        assert forall|j: int| k <= j < ks.len() implies number_step(
            #[trigger] all[j - k],
            ans,
            var,
            unit,
            ks[j],
            body,
            parents,
            fuel,
            all[j - k + 1],
        ) by {
            if j > k {
                assert(all[j - k] == rest[j - (k + 1)]);
                assert(all[j - k + 1] == rest[j - (k + 1) + 1]);
            } else {
                assert(all[1] == rest[0]);
            }
        }
        assert(all.last() == rest.last());
        all
    }
}

/// In a function a `@for` goes on with the next number for as long as its body returns nothing, and
/// returns what the body does where it returns something.
pub proof fn for_in_a_function_stops_at_a_return(
    s: Ev,
    ans: Seq<Answer>,
    var: Seq<char>,
    unit: Seq<char>,
    ks: Seq<int>,
    k: int,
    body: Seq<Stmt>,
    fuel: nat,
)
    requires
        0 <= k < ks.len(),
        asked_int_bits(s, ans, ks[k]).0 is Ok,
    ensures
        ({
            let r = fn_block(for_entry(s, ans, var, unit, ks[k]), ans, body, fuel);
            &&& r.0 == Ok::<Option<Val>, Halt>(None) ==> fn_for(s, ans, var, unit, ks, k, body, fuel)
                == fn_for(r.1, ans, var, unit, ks, k + 1, body, fuel)
            &&& r.0 != Ok::<Option<Val>, Halt>(None) ==> fn_for(s, ans, var, unit, ks, k, body, fuel)
                == r
        }),
        fn_for(s, ans, var, unit, ks, ks.len() as int, body, fuel) == (Ok::<Option<Val>, Halt>(None), s),
{
    reveal_with_fuel(fn_for, 2);
}

/// An `@each` walks a list item by item, a map pair by pair as two-element lists, any other value as
/// its only item; the empty value has none.
pub proof fn each_walks_lists_and_maps(v: Val)
    ensures
        v is List ==> each_items(v) == v->items,
        v is Pairs ==> each_items(v).len() == (v->Pairs_0).len() && forall|i: int|
            0 <= i < (v->Pairs_0).len() ==> (#[trigger] each_items(v)[i]) is List
                && each_items(v)[i]->items == seq![(v->Pairs_0)[i].0, (v->Pairs_0)[i].1],
        v == Val::Null ==> each_items(v).len() == 0,
        !(v is List) && !(v is Pairs) && v != Val::Null ==> each_items(v) == seq![v],
{
}

/// The parts of an item that the variables of an `@each` take.
pub open spec fn parts_of(v: Val) -> Seq<Val> {
    match v {
        Val::List { items, sep, bracketed, keywords } => items,
        other => seq![other],
    }
}

/// The only variable of an `@each` has the whole item. Of several, each has the part of the item at
/// its place, and `null` where the item has none.
pub proof fn each_variables_take_their_parts(s: Ev, vars: Seq<String>, v: Val)
    requires
        s.chain.scopes.len() > 0,
        s.chain.scopes.last() < s.frames.len(),
        forall|i: int, j: int| 0 <= i < j < vars.len() ==> (#[trigger] vars[i])@ != (#[trigger] vars[j])@,
    ensures
        vars.len() == 1 ==> lookup(each_set(s, vars, v), vars[0]@) == Some(v),
        vars.len() > 1 ==> forall|i: int|
            0 <= i < vars.len() ==> lookup(each_set(s, vars, v), (#[trigger] vars[i])@) == Some(
                if i < parts_of(v).len() {
                    parts_of(v)[i]
                } else {
                    Val::Null
                },
            ),
{
    if vars.len() == 1 {
        crate::eval::lookup_after_local_set(s, vars[0]@, v);
    } else if vars.len() > 1 {
        lemma_each_bound(s, vars, parts_of(v), 0, vars[0]@);
        assert forall|i: int| 0 <= i < vars.len() implies lookup(
            each_set(s, vars, v),
            (#[trigger] vars[i])@,
        ) == Some(
            if i < parts_of(v).len() {
                parts_of(v)[i]
            } else {
                Val::Null
            },
        ) by {
            lemma_each_bound(s, vars, parts_of(v), 0, vars[i]@);
        }
    }
}

proof fn lemma_each_bound(s: Ev, vars: Seq<String>, elems: Seq<Val>, i: int, name: Seq<char>)
    requires
        0 <= i <= vars.len(),
        s.chain.scopes.len() > 0,
        s.chain.scopes.last() < s.frames.len(),
        forall|i: int, j: int| 0 <= i < j < vars.len() ==> (#[trigger] vars[i])@ != (#[trigger] vars[j])@,
    ensures
        ({
            let r = each_bound(s, vars, elems, i);
            &&& r.chain == s.chain
            &&& forall|k: int|
                i <= k < vars.len() && (#[trigger] vars[k])@ == name ==> get(
                    frame(r, s.chain.scopes.last()),
                    name,
                ) == Some(
                    if k < elems.len() {
                        elems[k]
                    } else {
                        Val::Null
                    },
                )
            &&& (forall|k: int| i <= k < vars.len() ==> (#[trigger] vars[k])@ != name) ==> get(
                frame(r, s.chain.scopes.last()),
                name,
            ) == get(frame(s, s.chain.scopes.last()), name)
        }),
    decreases vars.len() - i,
{
    if i < vars.len() {
        let e = if i < elems.len() {
            elems[i]
        } else {
            Val::Null
        };
        let f = frame(s, s.chain.scopes.last());
        let s1 = local_set(s, vars[i]@, e);
        lemma_each_bound(s1, vars, elems, i + 1, name);
        get_after_put(f, vars[i]@, e);
        if vars[i]@ != name {
            put_keeps_others(f, vars[i]@, e, name);
        } else {
            assert forall|k: int| i + 1 <= k < vars.len() implies (#[trigger] vars[k])@ != name by {
                assert(vars[i]@ != vars[k]@);
            }
        }
    }
}

proof fn lemma_one_item(
    s: Ev,
    ans: Seq<Answer>,
    vars: Seq<String>,
    items: Seq<Val>,
    k: int,
    body: Seq<Stmt>,
    parents: Seq<Seq<char>>,
    d: Drain,
    fuel: nat,
) -> (b: Stage)
    requires
        0 <= k < items.len(),
        run_each(s, ans, vars, items, k, body, parents, d, fuel).0 is Ok,
    ensures
        body_leaves(each_set(s, vars, items[k]), d, ans, body, parents, fuel, b),
        run_each(s, ans, vars, items, k, body, parents, d, fuel) == run_each(
            b.s,
            ans,
            vars,
            items,
            k + 1,
            body,
            parents,
            b.d,
            fuel,
        ),
{
    reveal(body_leaves);
    let r = run_block(each_set(s, vars, items[k]), ans, body, parents, d, fuel);
    Stage { s: r.1, d: r.0->Ok_0 }
}

/// An `@each` runs its body once for each item, in their order.
pub proof fn each_runs_once_for_each_item(
    s: Ev,
    ans: Seq<Answer>,
    vars: Seq<String>,
    items: Seq<Val>,
    k: int,
    body: Seq<Stmt>,
    parents: Seq<Seq<char>>,
    d: Drain,
    fuel: nat,
) -> (mid: Seq<Stage>)
    requires
        0 <= k <= items.len(),
        run_each(s, ans, vars, items, k, body, parents, d, fuel).0 is Ok,
    ensures
        mid.len() == items.len() - k + 1,
        mid[0] == (Stage { s, d }),
        forall|j: int|
            k <= j < items.len() ==> body_leaves(
                each_set((#[trigger] mid[j - k]).s, vars, items[j]),
                mid[j - k].d,
                ans,
                body,
                parents,
                fuel,
                mid[j - k + 1],
            ),
        run_each(s, ans, vars, items, k, body, parents, d, fuel) == (
            Ok::<Drain, Halt>(mid.last().d),
            mid.last().s,
        ),
    decreases items.len() - k,
{
    if k >= items.len() {
        seq![Stage { s, d }]
    } else {
        let b = lemma_one_item(s, ans, vars, items, k, body, parents, d, fuel);
        let rest = each_runs_once_for_each_item(b.s, ans, vars, items, k + 1, body, parents, b.d, fuel);
        let all = seq![Stage { s, d }] + rest;
        assert forall|j: int| k <= j < items.len() implies body_leaves(
            each_set((#[trigger] all[j - k]).s, vars, items[j]),
            all[j - k].d,
            ans,
            body,
            parents,
            fuel,
            all[j - k + 1],
        ) by {
            if j > k {
                assert(all[j - k] == rest[j - (k + 1)]);
                assert(all[j - k + 1] == rest[j - (k + 1) + 1]);
            } else {
                assert(all[1] == rest[0]);
            }
        }
        assert(all.last() == rest.last());
        all
    }
}

/// Whether a stage of a `@while` leads to another: its condition holds, and the body comes through.
pub open spec fn holding_step(
    a: Stage,
    ans: Seq<Answer>,
    cond: Expr,
    body: Seq<Stmt>,
    parents: Seq<Seq<char>>,
    fuel: nat,
    b: Stage,
) -> bool {
    let c = eval(a.s, ans, cond, fuel);
    &&& c.0 is Ok
    &&& !counts_as_false(c.0->Ok_0)
    &&& body_leaves(c.1, a.d, ans, body, parents, fuel, b)
}

proof fn lemma_one_round(
    s: Ev,
    ans: Seq<Answer>,
    cond: Expr,
    body: Seq<Stmt>,
    k: int,
    parents: Seq<Seq<char>>,
    d: Drain,
    fuel: nat,
) -> (b: Stage)
    requires
        0 <= k < crate::semantics::while_limit(),
        run_while(s, ans, cond, body, k, parents, d, fuel).0 is Ok,
    ensures
        ({
            let c = eval(s, ans, cond, fuel);
            &&& c.0 is Ok
            &&& counts_as_false(c.0->Ok_0) ==> run_while(s, ans, cond, body, k, parents, d, fuel) == (
                Ok::<Drain, Halt>(d),
                c.1,
            )
            &&& !counts_as_false(c.0->Ok_0) ==> k + 1 < crate::semantics::while_limit() && holding_step(
                Stage { s, d },
                ans,
                cond,
                body,
                parents,
                fuel,
                b,
            ) && run_while(s, ans, cond, body, k, parents, d, fuel) == run_while(
                b.s,
                ans,
                cond,
                body,
                k + 1,
                parents,
                b.d,
                fuel,
            )
        }),
{
    reveal(body_leaves);
    let c = eval(s, ans, cond, fuel);
    let r = run_block(c.1, ans, body, parents, d, fuel);
    Stage { s: r.1, d: r.0->Ok_0 }
}

/// A `@while` runs its body for as long as its condition holds, and is through when it no longer does.
pub proof fn while_runs_as_long_as_it_holds(
    s: Ev,
    ans: Seq<Answer>,
    cond: Expr,
    body: Seq<Stmt>,
    k: int,
    parents: Seq<Seq<char>>,
    d: Drain,
    fuel: nat,
) -> (mid: Seq<Stage>)
    requires
        0 <= k < crate::semantics::while_limit(),
        run_while(s, ans, cond, body, k, parents, d, fuel).0 is Ok,
    ensures
        mid.len() > 0,
        mid[0] == (Stage { s, d }),
        forall|j: int|
            0 <= j < mid.len() - 1 ==> holding_step(
                #[trigger] mid[j],
                ans,
                cond,
                body,
                parents,
                fuel,
                mid[j + 1],
            ),
        ({
            let c = eval(mid.last().s, ans, cond, fuel);
            &&& c.0 is Ok
            &&& counts_as_false(c.0->Ok_0)
            &&& run_while(s, ans, cond, body, k, parents, d, fuel) == (Ok::<Drain, Halt>(mid.last().d), c.1)
        }),
    decreases crate::semantics::while_limit() - k,
{
    let b = lemma_one_round(s, ans, cond, body, k, parents, d, fuel);
    let first = Stage { s, d };
    if counts_as_false(eval(s, ans, cond, fuel).0->Ok_0) {
        seq![first]
    } else {
        let rest = while_runs_as_long_as_it_holds(b.s, ans, cond, body, k + 1, parents, b.d, fuel);
        let all = seq![first] + rest;
        assert forall|j: int| 0 <= j < all.len() - 1 implies holding_step(
            #[trigger] all[j],
            ans,
            cond,
            body,
            parents,
            fuel,
            all[j + 1],
        ) by {
            if j > 0 {
                assert(all[j] == rest[j - 1]);
                assert(all[j + 1] == rest[j]);
            } else {
                assert(all[1] == rest[0]);
            }
        }
        assert(all.last() == rest.last());
        all
    }
}

/// The bounds of a `@for` are whole numbers, the second one converted to the unit of the first where both
/// have one, and the variable has the unit of the first.
pub proof fn for_takes_whole_numbers(s: Ev, ans: Seq<Answer>, a: Num, b: Num)
    requires
        loop_bounds(s, ans, a, b).0 is Ok,
        unitless(a) || unitless(b),
    ensures
        ({
            let i = asked_int(s, ans, ask_numbers(Task::Integer, seq![a.bits]));
            let j = asked_int(i.1, ans, ask_numbers(Task::Integer, seq![b.bits]));
            let r = loop_bounds(s, ans, a, b).0->Ok_0;
            &&& i.0 == Ok::<Option<i64>, Halt>(Some(r.0))
            &&& j.0 == Ok::<Option<i64>, Halt>(Some(r.1))
            &&& r.2 == unit_of(a)
        }),
{
    reveal(loop_bounds);
}

/// A `@for` runs from its first bound to its second, in a scope of its own.
pub proof fn for_runs_between_its_bounds(
    s: Ev,
    ans: Seq<Answer>,
    var: Seq<char>,
    from: Expr,
    to: Expr,
    inclusive: bool,
    body: Seq<Stmt>,
    parents: Seq<Seq<char>>,
    d: Drain,
    fuel: nat,
)
    requires
        for_bounds(s, ans, from, to, fuel).0 is Ok,
    ensures
        ({
            let b = for_bounds(s, ans, from, to, fuel);
            let (i, j, unit) = b.0->Ok_0;
            let ks = indices(i as int, j as int, inclusive);
            let inside = scope_pushed(b.1, true);
            let r = run_for(inside, ans, var, unit, ks, 0, body, parents, d, fuel);
            let f = fn_for(inside, ans, var, unit, ks, 0, body, fuel);
            &&& for_stmt(s, ans, var, from, to, inclusive, body, parents, d, fuel) == (
                r.0,
                scope_popped(r.1),
            )
            &&& fn_for_stmt(s, ans, var, from, to, inclusive, body, fuel) == (f.0, scope_popped(f.1))
        }),
        ({
            let x = eval(s, ans, from, fuel);
            let y = eval(x.1, ans, to, fuel);
            x.0 is Ok && x.0->Ok_0 is Number && y.0 is Ok && y.0->Ok_0 is Number ==> for_bounds(
                s,
                ans,
                from,
                to,
                fuel,
            ) == loop_bounds(y.1, ans, x.0->Ok_0->Number_0, y.0->Ok_0->Number_0)
        }),
{
}

/// An `@each` runs over the items of its list, and a `@while` while its condition holds, each in a scope
/// of its own.
pub proof fn loops_have_their_own_scope(
    s: Ev,
    ans: Seq<Answer>,
    vars: Seq<String>,
    list: Expr,
    cond: Expr,
    body: Seq<Stmt>,
    parents: Seq<Seq<char>>,
    d: Drain,
    fuel: nat,
)
    requires
        eval(s, ans, list, fuel).0 is Ok,
    ensures
        ({
            let v = eval(s, ans, list, fuel);
            let items = each_items(v.0->Ok_0);
            let inside = scope_pushed(v.1, true);
            let r = run_each(inside, ans, vars, items, 0, body, parents, d, fuel);
            let f = fn_each(inside, ans, vars, items, 0, body, fuel);
            &&& each_stmt(s, ans, vars, list, body, parents, d, fuel) == (r.0, scope_popped(r.1))
            &&& fn_each_stmt(s, ans, vars, list, body, fuel) == (f.0, scope_popped(f.1))
        }),
        ({
            let r = run_while(scope_pushed(s, true), ans, cond, body, 0, parents, d, fuel);
            let f = fn_while(scope_pushed(s, true), ans, cond, body, 0, fuel);
            &&& while_stmt(s, ans, cond, body, parents, d, fuel) == (r.0, scope_popped(r.1))
            &&& fn_while_stmt(s, ans, cond, body, fuel) == (f.0, scope_popped(f.1))
        }),
{
}

/// In a function an `@each` and a `@while` go on for as long as their body returns nothing, and return
/// what it does where it returns something.
pub proof fn loops_in_a_function_stop_at_a_return(
    s: Ev,
    ans: Seq<Answer>,
    vars: Seq<String>,
    items: Seq<Val>,
    cond: Expr,
    k: int,
    body: Seq<Stmt>,
    fuel: nat,
)
    requires
        0 <= k < items.len(),
        k + 1 < crate::semantics::while_limit(),
        eval(s, ans, cond, fuel).0 is Ok,
    ensures
        ({
            let r = fn_block(each_set(s, vars, items[k]), ans, body, fuel);
            &&& r.0 == Ok::<Option<Val>, Halt>(None) ==> fn_each(s, ans, vars, items, k, body, fuel)
                == fn_each(r.1, ans, vars, items, k + 1, body, fuel)
            &&& r.0 != Ok::<Option<Val>, Halt>(None) ==> fn_each(s, ans, vars, items, k, body, fuel) == r
        }),
        ({
            let c = eval(s, ans, cond, fuel);
            let r = fn_block(c.1, ans, body, fuel);
            &&& counts_as_false(c.0->Ok_0) ==> fn_while(s, ans, cond, body, k, fuel) == (
                Ok::<Option<Val>, Halt>(None),
                c.1,
            )
            &&& !counts_as_false(c.0->Ok_0) && r.0 == Ok::<Option<Val>, Halt>(None) ==> fn_while(
                s,
                ans,
                cond,
                body,
                k,
                fuel,
            ) == fn_while(r.1, ans, cond, body, k + 1, fuel)
            &&& !counts_as_false(c.0->Ok_0) && r.0 != Ok::<Option<Val>, Halt>(None) ==> fn_while(
                s,
                ans,
                cond,
                body,
                k,
                fuel,
            ) == r
        }),
{
    reveal_with_fuel(fn_each, 2);
    reveal_with_fuel(fn_while, 2);
}

// ---- scopes --------------------------------------------------------------

/// A variable has, right after it is assigned, the value it was given, wherever it lives.
pub proof fn assigned_variable_is_found(s: Ev, name: Seq<char>, v: Val)
    requires
        s.chain.scopes.len() > 0,
        forall|i: int|
            0 <= i < s.chain.scopes.len() ==> (#[trigger] s.chain.scopes[i]) < s.frames.len(),
    ensures
        lookup(assigned(s, name, v), name) == Some(v),
{
    let scopes = s.chain.scopes;
    let t = target(s, name);
    lemma_holder(s, scopes, name);
    let f = scopes[t];
    get_after_put(s.frames[f as int], name, v);
    lemma_found_from(s, scopes, name, t, v);
}

/// An assignment goes to the scope that has the variable: seen from there it has the new value. That
/// is so of every scope but the global one, and of the global one within control flow at the top level.
pub proof fn assignment_goes_where_the_variable_lives(s: Ev, name: Seq<char>, v: Val, t: int)
    requires
        0 <= t < s.chain.scopes.len(),
        forall|i: int|
            0 <= i < s.chain.scopes.len() ==> (#[trigger] s.chain.scopes[i]) < s.frames.len(),
        get(frame(s, s.chain.scopes[t]), name) is Some,
        forall|i: int|
            t < i < s.chain.scopes.len() ==> get(frame(s, #[trigger] s.chain.scopes[i]), name) is None,
        t > 0 || in_semi(s),
    ensures
        lookup_in(assigned(s, name, v), s.chain.scopes.take(t + 1), name) == Some(v),
{
    let scopes = s.chain.scopes;
    lemma_holder_is(s, scopes, name, t);
    get_after_put(s.frames[scopes[t] as int], name, v);
    assert(scopes.take(t + 1).last() == scopes[t]);
}

proof fn lemma_holder_is(s: Ev, scopes: Seq<usize>, name: Seq<char>, t: int)
    requires
        0 <= t < scopes.len(),
        get(frame(s, scopes[t]), name) is Some,
        forall|i: int| t < i < scopes.len() ==> get(frame(s, #[trigger] scopes[i]), name) is None,
    ensures
        holder(s, scopes, name) == t + 1,
    decreases scopes.len(),
{
    if t < scopes.len() - 1 {
        assert(get(frame(s, scopes[scopes.len() - 1]), name) is None);
        let less = scopes.drop_last();
        assert forall|i: int| t < i < less.len() implies get(frame(s, #[trigger] less[i]), name) is None by {
            assert(less[i] == scopes[i]);
        }
        lemma_holder_is(s, less, name, t);
    }
}

proof fn lemma_holder(s: Ev, scopes: Seq<usize>, name: Seq<char>)
    ensures
        holder(s, scopes, name) <= scopes.len(),
        forall|i: int|
            holder(s, scopes, name) <= i < scopes.len() ==> get(frame(s, #[trigger] scopes[i]), name) is None,
    decreases scopes.len(),
{
    if scopes.len() > 0 && get(frame(s, scopes.last()), name) is None {
        let less = scopes.drop_last();
        lemma_holder(s, less, name);
        assert forall|i: int| holder(s, scopes, name) <= i < scopes.len() implies get(
            frame(s, #[trigger] scopes[i]),
            name,
        ) is None by {
            if i < less.len() {
                assert(less[i] == scopes[i]);
            }
        }
    }
}

proof fn lemma_found_from(s: Ev, scopes: Seq<usize>, name: Seq<char>, t: int, v: Val)
    requires
        0 <= t < scopes.len(),
        forall|i: int| 0 <= i < scopes.len() ==> (#[trigger] scopes[i]) < s.frames.len(),
        forall|i: int| t < i < scopes.len() ==> get(frame(s, #[trigger] scopes[i]), name) is None,
    ensures
        lookup_in(with_var(s, scopes[t], name, v), scopes, name) == Some(v),
    decreases scopes.len(),
{
    let s1 = with_var(s, scopes[t], name, v);
    get_after_put(s.frames[scopes[t] as int], name, v);
    if scopes.last() != scopes[t] {
        let less = scopes.drop_last();
        assert(get(frame(s, scopes[scopes.len() - 1]), name) is None);
        assert(frame(s1, scopes.last()) == frame(s, scopes.last()));
        assert forall|i: int| 0 <= i < less.len() implies (#[trigger] less[i]) < s.frames.len() by {
            assert(less[i] == scopes[i]);
        }
        assert forall|i: int| t < i < less.len() implies get(frame(s, #[trigger] less[i]), name) is None by {
            assert(less[i] == scopes[i]);
        }
        lemma_found_from(s, less, name, t, v);
    }
}

/// A function or mixin is found by its name, in any spelling, right after it is defined, with the
/// scopes that it was defined in.
pub proof fn defined_callables_are_found(s: Ev, c: Callable, name: Seq<char>)
    requires
        s.callables.len() <= usize::MAX,
        s.chain.functions.len() > 0,
        s.chain.functions.last() < s.tables.len(),
        s.chain.mixins.len() > 0,
        s.chain.mixins.last() < s.tables.len(),
        dashed(name) == dashed(c.name@),
    ensures
        ({
            let (id, s1) = captured(s, c);
            &&& function_named(function_defined(s1, c.name@, id), name) == Some(id)
            &&& mixin_named(mixin_defined(s1, c.name@, id), name) == Some(id)
            &&& s1.callables[id as int].def == c
            &&& s1.callables[id as int].chain == s.chain
            &&& s1.callables.len() == s.callables.len() + 1
        }),
{
    let (id, s1) = captured(s, c);
    get_after_put(s1.tables[s.chain.functions.last() as int], dashed(name), id);
    get_after_put(s1.tables[s.chain.mixins.last() as int], dashed(name), id);
}

/// A content block runs in the scopes of the caller that gave it, with a scope of its own inside them,
/// and with the content block that the caller itself has; the mixin's scopes are back afterwards.
pub proof fn content_runs_where_it_was_written(
    s: Ev,
    ans: Seq<Answer>,
    args: Seq<crate::ast::CallArg>,
    parents: Seq<Seq<char>>,
    d: Drain,
    fuel: nat,
) -> (inside: Ev)
    requires
        s.contents.len() > 0,
        s.contents.last() is Some,
        (s.contents.last()->0).caller is Some,
        content_frame(s, ans, (s.contents.last()->0).params, args, fuel).0 is Ok,
    ensures
        ({
            let b = s.contents.last()->0;
            let f = content_frame(s, ans, b.params, args, fuel);
            let r = run_block(inside, ans, b.stmts, parents, d, fuel);
            &&& inside.chain.scopes == (b.caller->0).0.scopes.push(f.1.frames.len() as usize)
            &&& inside.uses == (b.caller->0).1
            &&& inside.contents == popped(f.1.contents)
            &&& f.0->Ok_0 is Some ==> inside.frames.last() == f.0->Ok_0->0
            &&& f.0->Ok_0 is None ==> inside.frames.last().len() == 0
            &&& content_run(s, ans, args, parents, d, fuel).0 == r.0
            &&& content_run(s, ans, args, parents, d, fuel).1.chain == f.1.chain
            &&& content_run(s, ans, args, parents, d, fuel).1.uses == f.1.uses
        }),
{
    let b = s.contents.last()->0;
    let f = content_frame(s, ans, b.params, args, fuel);
    let s2 = Ev { chain: (b.caller->0).0, uses: (b.caller->0).1, ..f.1 };
    let s3 = match f.0->Ok_0 {
        Some(x) => with_scope(s2, x, false),
        None => scope_pushed(s2, false),
    };
    Ev { contents: popped(s3.contents), ..s3 }
}

// ---- nested properties ---------------------------------------------------

/// The declarations of a property set get its name and a dash before their own; a set within a set
/// gets both; the names outside the set are what they were.
pub proof fn property_sets_prefix_their_properties(
    s: Ev,
    ans: Seq<Answer>,
    x: PropertySet,
    parents: Seq<Seq<char>>,
    d: Drain,
    fuel: nat,
    name: Seq<char>,
) -> (inside: (Ev, Drain))
    requires
        property_set(s, ans, x, parents, d, fuel).0 is Ok,
    ensures
        ({
            let t = trimmed_template(s, ans, x.property@, fuel);
            let own = full_name(t.1, t.0->Ok_0);
            &&& t.0 is Ok
            &&& property_set(s, ans, x, parents, d, fuel).0 == run_block(
                inside.0,
                ans,
                x.body@,
                parents,
                inside.1,
                fuel,
            ).0
            &&& full_name(inside.0, name) == own + seq!['-'] + name
            &&& set_value(t.1, ans, x, own, d, fuel).0 == Ok::<Drain, Halt>(inside.1)
            &&& property_set(s, ans, x, parents, d, fuel).1.page.prefix == set_value(
                t.1,
                ans,
                x,
                own,
                d,
                fuel,
            ).1.page.prefix
        }),
{
    let t = trimmed_template(s, ans, x.property@, fuel);
    let own = full_name(t.1, t.0->Ok_0);
    let v = set_value(t.1, ans, x, own, d, fuel);
    reveal_strlit("-");
    assert("-"@ =~= seq!['-']);
    (
        Ev { page: crate::page::Leaf { prefix: Some(own), ..v.1.page }, ..v.1 },
        v.0->Ok_0,
    )
}

/// A declaration comes out under its property's full name, with the text of its value.
pub proof fn declaration_has_its_name_and_value(s: Ev, ans: Seq<Answer>, x: Declaration, fuel: nat)
    requires
        declared(s, ans, x, fuel).0 is Ok,
        declared(s, ans, x, fuel).0->Ok_0 is Some,
    ensures
        ({
            let t = trimmed_template(s, ans, x.property@, fuel);
            let v = eval(t.1, ans, x.value, fuel);
            let text = crate::decls::decl_value(v.1, ans, v.0->Ok_0, x.pos);
            let i = declared(s, ans, x, fuel).0->Ok_0->0;
            &&& i is Decl
            &&& i->Decl_prop == full_name(t.1, t.0->Ok_0)
            &&& i->Decl_value == text.0->Ok_0
            &&& i->Decl_important == x.important
            &&& !i->Decl_custom
        }),
{
    reveal(declared);
}

} // verus!
