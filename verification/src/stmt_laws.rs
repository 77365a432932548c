//! What each kind of statement does.

use vstd::prelude::*;
use crate::ast::{Callable, Declaration, Expr, IfBranch, Rule, Stmt, VarDecl};
use crate::decls::declared;
use crate::eval::{Ev, function_named, mixin_named};
use crate::host::{Answer, Halt};
use crate::names::dashed;
use crate::semantics::{declare, fn_branches, fn_each_stmt, fn_for_stmt, fn_stmt, fn_while_stmt};
use crate::sink::{Drain, with_item};
use crate::state::get_after_put;
use crate::statements::{each_stmt, for_stmt, run_branches, run_stmt, style_rule, while_stmt};
use crate::value::Val;

verus! {

/// A variable declaration changes the state and leaves no output, in a rule as in a function.
pub proof fn variables_leave_no_output(
    s: Ev,
    ans: Seq<Answer>,
    v: VarDecl,
    parents: Seq<Seq<char>>,
    d: Drain,
    fuel: nat,
)
    ensures
        declare(s, ans, v, fuel).0 is Ok ==> run_stmt(s, ans, Stmt::VarDecl(v), parents, d, fuel) == (
            Ok::<Drain, Halt>(d),
            declare(s, ans, v, fuel).1,
        ),
        declare(s, ans, v, fuel).0 is Ok ==> fn_stmt(s, ans, Stmt::VarDecl(v), fuel) == (
            Ok::<Option<Val>, Halt>(None),
            declare(s, ans, v, fuel).1,
        ),
{
}

/// A declaration is refused at the top level; in a rule it comes out behind what stands there, and one
/// without a value does not come out.
pub proof fn declarations_stand_in_rules(
    s: Ev,
    ans: Seq<Answer>,
    x: Declaration,
    parents: Seq<Seq<char>>,
    d: Drain,
    fuel: nat,
)
    ensures
        d is Top ==> run_stmt(s, ans, Stmt::Decl(x), parents, d, fuel).0 is Err,
        !(d is Top) && declared(s, ans, x, fuel).0 is Ok ==> ({
            let i = declared(s, ans, x, fuel).0->Ok_0;
            run_stmt(s, ans, Stmt::Decl(x), parents, d, fuel).0 == Ok::<Drain, Halt>(
                if i is Some {
                    with_item(d, i->0)
                } else {
                    d
                },
            )
        }),
{
}

/// A definition leaves no output, and what it defines is found by its name from then on, with the scopes
/// that are open here.
pub proof fn definitions_define(
    s: Ev,
    ans: Seq<Answer>,
    c: std::rc::Rc<Callable>,
    parents: Seq<Seq<char>>,
    d: Drain,
    fuel: nat,
)
    requires
        s.callables.len() <= usize::MAX,
        s.chain.functions.len() > 0,
        s.chain.functions.last() < s.tables.len(),
        s.chain.mixins.len() > 0,
        s.chain.mixins.last() < s.tables.len(),
    ensures
        ({
            let f = run_stmt(s, ans, Stmt::FunctionDef(c), parents, d, fuel);
            let m = run_stmt(s, ans, Stmt::MixinDef(c), parents, d, fuel);
            let id = s.callables.len() as usize;
            &&& f.0 == Ok::<Drain, Halt>(d)
            &&& m.0 == Ok::<Drain, Halt>(d)
            &&& function_named(f.1, c.name@) == Some(id)
            &&& mixin_named(m.1, c.name@) == Some(id)
            &&& f.1.callables[id as int].def == *c
            &&& m.1.callables[id as int].def == *c
            &&& f.1.callables[id as int].chain == s.chain
            &&& m.1.callables[id as int].chain == s.chain
        }),
{
    let id = s.callables.len() as usize;
    get_after_put(s.tables[s.chain.functions.last() as int], dashed(c.name@), id);
    get_after_put(s.tables[s.chain.mixins.last() as int], dashed(c.name@), id);
}

/// A `@return` stands in functions alone.
pub proof fn return_stands_in_functions(
    s: Ev,
    ans: Seq<Answer>,
    e: Expr,
    parents: Seq<Seq<char>>,
    d: Drain,
    fuel: nat,
)
    ensures
        run_stmt(s, ans, Stmt::Return(e), parents, d, fuel).0 is Err,
{
}

/// Control flow is run from its first branch or its first round, in a rule as in a function.
pub proof fn control_flow_starts_at_its_start(
    s: Ev,
    ans: Seq<Answer>,
    branches: Vec<IfBranch>,
    vars: Vec<String>,
    list: Expr,
    body: Vec<Stmt>,
    parents: Seq<Seq<char>>,
    d: Drain,
    fuel: nat,
)
    ensures
        run_stmt(s, ans, Stmt::If(branches), parents, d, fuel) == run_branches(
            s,
            ans,
            branches@,
            0,
            parents,
            d,
            fuel,
        ),
        fn_stmt(s, ans, Stmt::If(branches), fuel) == fn_branches(s, ans, branches@, 0, fuel),
        run_stmt(s, ans, Stmt::Each { vars, list, body }, parents, d, fuel) == each_stmt(
            s,
            ans,
            vars@,
            list,
            body@,
            parents,
            d,
            fuel,
        ),
        fn_stmt(s, ans, Stmt::Each { vars, list, body }, fuel) == fn_each_stmt(
            s,
            ans,
            vars@,
            list,
            body@,
            fuel,
        ),
        run_stmt(s, ans, Stmt::While { cond: list, body }, parents, d, fuel) == while_stmt(
            s,
            ans,
            list,
            body@,
            parents,
            d,
            fuel,
        ),
        fn_stmt(s, ans, Stmt::While { cond: list, body }, fuel) == fn_while_stmt(s, ans, list, body@, fuel),
{
}

/// A `@for` is run between the bounds it is written with, in a rule as in a function.
pub proof fn for_has_its_bounds(
    s: Ev,
    ans: Seq<Answer>,
    var: String,
    from: Expr,
    to: Expr,
    inclusive: bool,
    body: Vec<Stmt>,
    parents: Seq<Seq<char>>,
    d: Drain,
    fuel: nat,
)
    ensures
        run_stmt(s, ans, Stmt::For { var, from, to, inclusive, body }, parents, d, fuel) == for_stmt(
            s,
            ans,
            var@,
            from,
            to,
            inclusive,
            body@,
            parents,
            d,
            fuel,
        ),
        fn_stmt(s, ans, Stmt::For { var, from, to, inclusive, body }, fuel) == fn_for_stmt(
            s,
            ans,
            var@,
            from,
            to,
            inclusive,
            body@,
            fuel,
        ),
{
}

/// A style rule is put under the selectors that it stands in.
pub proof fn rules_stand_under_their_parents(
    s: Ev,
    ans: Seq<Answer>,
    r: Rule,
    parents: Seq<Seq<char>>,
    d: Drain,
    fuel: nat,
)
    ensures
        run_stmt(s, ans, Stmt::Rule(r), parents, d, fuel) == style_rule(s, ans, r, parents, d, fuel),
{
}

} // verus!
