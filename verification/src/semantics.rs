//! What expressions, calls and function bodies evaluate to: the part that refers to itself.

use vstd::prelude::*;
use crate::analysis::contains_substitution;
use crate::args::{
    Gathered, Given, Keywords, beyond, given, keywords_of, leftover_fault, nothing_gathered,
    rest_list, with_spread, with_written,
};
use crate::ast::{
    BinOp, CallArg, Expr, IfBranch, IfClause, IfCond, ParamList, Stmt, TplPiece, UnOp, VarDecl,
};
use crate::cond::{Outcome, Rest, combined, raw_condition, rest_text};
use crate::env::Closure;
use crate::error::{Pos, fault, fault_at};
use crate::eval::{
    Ev, Run, asked_text, asked_value, assigned, callable_loose, captured, fail, frame,
    function_defined, function_named, global_set, local_set, lookup, plain_calc, popped,
    scope_popped, scope_pushed, styled_calc, styled_css,
};
use crate::host::{Answer, Halt, Task, ask_value};
use crate::members::{
    MemberKind, function_home, module_function, module_var, namespaced_var, no_namespace,
    star_hits, variable, write_target,
};
use crate::meta::{only_allowed, wrong_type};
use crate::names::{
    dashed, indices, needs_parens, private_name, pure_calc_function, strict_calc_function,
    supports_calc_function,
};
use crate::ops::{binary, complex_operand_fault, division, unary};
use crate::report::{call_entered, call_left, debug_line, line_logged, user_error, warning};
use crate::sem::{
    Branch, Branches, all_filter_words, all_round_settled, any_named, any_non_calc, any_special,
    any_splat, any_substitutes, any_variable, ask_call, asked_int_bits, builtin_call, calc_leaf,
    calc_negative, calc_op, calc_operation, calc_value, call_target, call_text, config_used,
    configured, css_texts, each_items, each_set, filled, forwarded_owner, global_call,
    global_meta, has_value, holds_key, if_value_text, in_parens, interpolated_string, kept_call,
    loop_bounds, meta_function, module_entered, module_left, module_var_set, named_slashless,
    named_texts, no_branches, parent_value, returned, settle, text_value, with_if_spread,
    with_slot, without_name,
};
use crate::state::{Vars, entry, get};
use crate::text::{joined, lower, starts, text_of};
use crate::value::{
    Cal, CalcOp, ListSep, Num, Val, all_numbers, all_slashless, any_opaque, complex_operand,
    slashless, truthy, with_unit,
};

verus! {

// ---- expressions ---------------------------------------------------------

/// The value of an expression. An error is rendered on its way out.
pub open spec fn eval(s: Ev, ans: Seq<Answer>, e: Expr, fuel: nat) -> Run<Val>
    decreases fuel, 0nat, 0int,
{
    if fuel == 0 {
        (Err(Halt::Depth), s)
    } else {
        settle(eval_inner(s, ans, e, (fuel - 1) as nat))
    }
}

pub open spec fn eval_inner(s: Ev, ans: Seq<Answer>, e: Expr, fuel: nat) -> Run<Val>
    decreases fuel, 40nat, 0int,
{
    match e {
        Expr::Number(bits, unit) => (Ok(Val::Number(with_unit(bits, unit@))), s),
        Expr::Color(c) => (Ok(Val::Color(c)), s),
        Expr::Bool(b) => (Ok(Val::Bool(b)), s),
        Expr::Null => (Ok(Val::Null), s),
        Expr::Parent => (Ok(parent_value(s)), s),
        Expr::Var { name, pos } => variable(s, ans, name@, pos),
        Expr::NsVar { module, name } => namespaced_var(s, ans, module@, name@, Pos { line: 1, col: 1 }),
        Expr::QuotedString(pieces) => text_value(quiet_template(s, ans, pieces@, fuel), true),
        Expr::Ident(pieces) => text_value(quiet_template(s, ans, pieces@, fuel), false),
        Expr::Interp(inner) => {
            let r = eval(Ev { supports: false, ..s }, ans, *inner, fuel);
            let s1 = Ev { supports: s.supports, ..r.1 };
            match r.0 {
                Err(h) => (Err(h), s1),
                Ok(v) => interpolated_string(s1, ans, v),
            }
        },
        Expr::ModernIf(clauses) => modern_if(s, ans, clauses@, 0, None, fuel),
        Expr::Paren(inner) => match eval(s, ans, *inner, fuel) {
            (Err(h), s1) => (Err(h), s1),
            (Ok(v), s1) => (Ok(slashless(v)), s1),
        },
        Expr::List { items, sep, bracketed } => match eval_list(s, ans, items@, 0, Seq::empty(), fuel) {
            (Err(h), s1) => (Err(h), s1),
            (Ok(vs), s1) => (Ok(Val::List { items: vs, sep, bracketed, keywords: None }), s1),
        },
        Expr::Pairs(entries) => match eval_pairs(s, ans, entries@, 0, Seq::empty(), fuel) {
            (Err(h), s1) => (Err(h), s1),
            (Ok(m), s1) => (Ok(Val::Pairs(m)), s1),
        },
        Expr::Unary { op, operand } => match eval(s, ans, *operand, fuel) {
            (Err(h), s1) => (Err(h), s1),
            (Ok(v), s1) => unary(s1, ans, op, slashless(v)),
        },
        Expr::Binary { op, lhs, rhs, pos } => match eval(s, ans, *lhs, fuel) {
            (Err(h), s1) => (Err(h), s1),
            (Ok(l), s1) => if (op == BinOp::And && !truthy(l)) || (op == BinOp::Or && truthy(l)) {
                (Ok(l), s1)
            } else if op == BinOp::And || op == BinOp::Or {
                eval(s1, ans, *rhs, fuel)
            } else {
                match eval(s1, ans, *rhs, fuel) {
                    (Err(h), s2) => (Err(h), s2),
                    (Ok(r), s2) => binary(s2, ans, op, slashless(l), slashless(r), pos),
                }
            },
        },
        Expr::Div { lhs, rhs, slash, pos } => match eval(s, ans, *lhs, fuel) {
            (Err(h), s1) => (Err(h), s1),
            (Ok(l), s1) => match eval(s1, ans, *rhs, fuel) {
                (Err(h), s2) => (Err(h), s2),
                (Ok(r), s2) => division(s2, ans, l, r, slash, pos),
            },
        },
        Expr::Calc { inner } => match simplified(s, ans, *inner, fuel) {
            (Err(h), s1) => (Err(h), s1),
            (Ok(c), s1) => (Ok(calc_value(s1, c)), s1),
        },
        Expr::InterpFunc { name, args, pos } => match template(s, ans, name@, 0, Seq::empty(), fuel) {
            (Err(h), s1) => (Err(h), s1),
            (Ok(fname), s1) => if any_named(args@) {
                fail(fault_at("Plain CSS functions don't support keyword arguments."@, pos), s1)
            } else {
                css_call(s1, ans, fname, args@, fuel)
            },
        },
        Expr::Func { name, args, pos, length, module } => match module {
            Some(ns) => module_call(s, ans, ns@, name@, args@, pos, length, fuel),
            None => function(s, ans, name@, args@, pos, length, fuel),
        },
    }
}

/// The text of a template, from piece `i` on, after `acc`.
pub open spec fn template(s: Ev, ans: Seq<Answer>, pieces: Seq<TplPiece>, i: int, acc: Seq<char>, fuel: nat) -> Run<
    Seq<char>,
>
    decreases fuel, 1nat, pieces.len() - i,
{
    if i < 0 || i >= pieces.len() {
        (Ok(acc), s)
    } else {
        match pieces[i] {
            TplPiece::Lit(t) => template(s, ans, pieces, i + 1, acc + t@, fuel),
            TplPiece::Interp(e) => match eval(s, ans, e, fuel) {
                (Err(h), s1) => (Err(h), s1),
                (Ok(v), s1) => match asked_text(s1, ans, ask_value(Task::Interp, v)) {
                    (Err(h), s2) => (Err(h), s2),
                    (Ok(t), s2) => template(s2, ans, pieces, i + 1, acc + t, fuel),
                },
            },
        }
    }
}

/// The text of a template, calculations in it being simplified in any case.
pub open spec fn quiet_template(s: Ev, ans: Seq<Answer>, pieces: Seq<TplPiece>, fuel: nat) -> Run<Seq<char>>
    decreases fuel, 2nat, 0int,
{
    let r = template(Ev { supports: false, ..s }, ans, pieces, 0, Seq::empty(), fuel);
    (r.0, Ev { supports: s.supports, ..r.1 })
}

/// The values of expressions, from `i` on, after `acc`.
pub open spec fn eval_list(s: Ev, ans: Seq<Answer>, items: Seq<Expr>, i: int, acc: Seq<Val>, fuel: nat) -> Run<
    Seq<Val>,
>
    decreases fuel, 1nat, items.len() - i,
{
    if i < 0 || i >= items.len() {
        (Ok(acc), s)
    } else {
        match eval(s, ans, items[i], fuel) {
            (Err(h), s1) => (Err(h), s1),
            (Ok(v), s1) => eval_list(s1, ans, items, i + 1, acc.push(v), fuel),
        }
    }
}

/// The entries of a map, from `i` on, after `acc`. A key that is there already is an error.
pub open spec fn eval_pairs(
    s: Ev,
    ans: Seq<Answer>,
    entries: Seq<(Expr, Expr)>,
    i: int,
    acc: Seq<(Val, Val)>,
    fuel: nat,
) -> Run<Seq<(Val, Val)>>
    decreases fuel, 1nat, entries.len() - i,
{
    if i < 0 || i >= entries.len() {
        (Ok(acc), s)
    } else {
        match eval(s, ans, entries[i].0, fuel) {
            (Err(h), s1) => (Err(h), s1),
            (Ok(k0), s1) => match eval(s1, ans, entries[i].1, fuel) {
                (Err(h), s2) => (Err(h), s2),
                (Ok(v), s2) => {
                    let k = slashless(k0);
                    match holds_key(s2, ans, acc, k, 0) {
                        (Err(h), s3) => (Err(h), s3),
                        (Ok(true), s3) => fail(fault("Duplicate key."@), s3),
                        (Ok(false), s3) => eval_pairs(s3, ans, entries, i + 1, acc.push((k, v)), fuel),
                    }
                },
            },
        }
    }
}

/// The CSS texts of arguments, from `i` on, after `acc`.
pub open spec fn arg_texts(
    s: Ev,
    ans: Seq<Answer>,
    args: Seq<CallArg>,
    i: int,
    acc: Seq<Seq<char>>,
    fuel: nat,
) -> Run<Seq<Seq<char>>>
    decreases fuel, 1nat, args.len() - i,
{
    if i < 0 || i >= args.len() {
        (Ok(acc), s)
    } else {
        match eval(s, ans, args[i].value, fuel) {
            (Err(h), s1) => (Err(h), s1),
            (Ok(v), s1) => match styled_css(s1, ans, v) {
                (Err(h), s2) => (Err(h), s2),
                (Ok(t), s2) => arg_texts(s2, ans, args, i + 1, acc.push(t), fuel),
            },
        }
    }
}

/// A call of a plain CSS function.
pub open spec fn css_call(s: Ev, ans: Seq<Answer>, name: Seq<char>, args: Seq<CallArg>, fuel: nat) -> Run<Val>
    decreases fuel, 2nat, 0int,
{
    match arg_texts(s, ans, args, 0, Seq::empty(), fuel) {
        (Err(h), s1) => (Err(h), s1),
        (Ok(parts), s1) => (Ok(Val::Str(call_text(name, parts), false)), s1),
    }
}

// ---- calls by name -------------------------------------------------------

/// A call without a namespace: a plain CSS function in plain CSS; a calculation that `@supports`
/// keeps; `if()`; a user-defined function; one of a module used without a namespace; or a
/// built-in one.
pub open spec fn function(
    s: Ev,
    ans: Seq<Answer>,
    name: Seq<char>,
    args: Seq<CallArg>,
    pos: Pos,
    length: usize,
    fuel: nat,
) -> Run<Val>
    decreases fuel, 38nat, 0int,
{
    let hits = star_hits(s, name, MemberKind::Function);
    if s.plain && !supports_calc_function(name) && lower(name) != "calc"@ && !any_special(args) {
        css_call(s, ans, name, args, fuel)
    } else if s.supports && supports_calc_function(name) && function_named(s, name) is None {
        supports_call(s, ans, name, args, pos, fuel)
    } else if name == "if"@ {
        if_function(s, ans, args, pos, fuel)
    } else if !starts(name, "--"@) && function_named(s, name) is Some {
        user_call(s, ans, function_named(s, name)->0, args, Some((pos, length)), fuel)
    } else if hits.len() > 1 {
        fail(fault_at("This function is available from multiple global modules."@, pos), s)
    } else if hits.len() == 1 {
        match module_function(s, hits[0], name) {
            Some(f) => module_user_call(s, ans, hits[0], f, args, Some((pos, length)), fuel),
            None => (Err(Halt::Mismatch), s),
        }
    } else {
        calculation_call(s, ans, name, args, pos, fuel)
    }
}

/// A call that may be a calculation.
pub open spec fn calculation_call(
    s: Ev,
    ans: Seq<Answer>,
    name: Seq<char>,
    args: Seq<CallArg>,
    pos: Pos,
    fuel: nat,
) -> Run<Val>
    decreases fuel, 37nat, 0int,
{
    let free = function_named(s, name) is None;
    let plain = !any_special(args);
    let n = lower(name);
    if n == "calc"@ && args.len() == 0 {
        fail(fault_at("Missing argument."@, pos), s)
    } else if strict_calc_function(name) && any_splat(args) {
        fail(fault_at("Rest arguments can't be used with calculations."@, pos), s)
    } else if pure_calc_function(name) && free && plain {
        match calc_args(s, ans, args, 0, Seq::empty(), fuel) {
            (Err(h), s1) => (Err(h), s1),
            (Ok(nodes), s1) => if all_numbers(nodes) || !any_opaque(nodes) {
                evaluated_call(s1, ans, name, args, pos, fuel)
            } else {
                kept_call(s1, ans, n, nodes)
            },
        }
    } else if n == "calc-size"@ && free && plain {
        calc_size(s, ans, args, pos, fuel)
    } else if n == "clamp"@ && free && args.len() == 3 && plain {
        clamp_call(s, ans, args, pos, fuel)
    } else if n == "abs"@ && free && args.len() == 1 && plain && contains_substitution(args[0].value) {
        match simplified(s, ans, args[0].value, fuel) {
            (Err(h), s1) => (Err(h), s1),
            (Ok(c), s1) => kept_call(s1, ans, "abs"@, seq![c]),
        }
    } else if n == "round"@ && free && 1 <= args.len() <= 3 && plain {
        round_call(s, ans, name, args, pos, fuel)
    } else if (n == "min"@ || n == "max"@) && free && args.len() > 0 && plain && !any_non_calc(args) {
        match calc_args(s, ans, args, 0, Seq::empty(), fuel) {
            (Err(Halt::Error(_)), s1) => evaluated_call(s1, ans, name, args, pos, fuel),
            (Err(h), s1) => (Err(h), s1),
            (Ok(nodes), s1) => if all_numbers(nodes) {
                evaluated_call(s1, ans, name, args, pos, fuel)
            } else {
                (Ok(Val::Calc(Cal::Func(n, nodes))), s1)
            },
        }
    } else {
        evaluated_call(s, ans, name, args, pos, fuel)
    }
}

/// `round()`: kept where an argument is not settled.
pub open spec fn round_call(
    s: Ev,
    ans: Seq<Answer>,
    name: Seq<char>,
    args: Seq<CallArg>,
    pos: Pos,
    fuel: nat,
) -> Run<Val>
    decreases fuel, 36nat, 0int,
{
    if any_non_calc(args) {
        if args.len() > 1 {
            fail(fault_at(only_allowed(1, args.len()), pos), s)
        } else {
            evaluated_call(s, ans, name, args, pos, fuel)
        }
    } else {
        match calc_args(s, ans, args, 0, Seq::empty(), fuel) {
            (Err(Halt::Error(_)), s1) => evaluated_call(s1, ans, name, args, pos, fuel),
            (Err(h), s1) => (Err(h), s1),
            (Ok(nodes), s1) => if all_round_settled(nodes) {
                evaluated_call(s1, ans, name, args, pos, fuel)
            } else {
                (Ok(Val::Calc(Cal::Func("round"@, nodes))), s1)
            },
        }
    }
}

/// A call whose arguments are evaluated: a meta function, a Microsoft filter, or a built-in
/// function.
pub open spec fn evaluated_call(
    s: Ev,
    ans: Seq<Answer>,
    name: Seq<char>,
    args: Seq<CallArg>,
    pos: Pos,
    fuel: nat,
) -> Run<Val>
    decreases fuel, 35nat, 0int,
{
    match call_args(s, ans, args, 0, nothing_gathered(), fuel) {
        (Err(h), s1) => (Err(h), s1),
        (Ok(g), s1) => {
            let a = given(g);
            if global_meta(name) {
                let p = all_slashless(a.positional);
                let n = named_slashless(a.named);
                match meta_call(s1, ans, name, p, n, pos, fuel) {
                    Some(r) => r,
                    None => global_call(s1, ans, name, p, n, pos),
                }
            } else if name == "alpha"@ && a.named.len() == 0 && a.positional.len() > 0 && all_filter_words(
                a.positional,
            ) {
                match css_texts(s1, ans, a.positional, 0, Seq::empty()) {
                    (Err(h), s2) => (Err(h), s2),
                    (Ok(parts), s2) => (Ok(Val::Str(call_text("alpha"@, parts), false)), s2),
                }
            } else {
                global_call(s1, ans, name, a.positional, a.named, pos)
            }
        },
    }
}

/// A call with a namespace.
pub open spec fn module_call(
    s: Ev,
    ans: Seq<Answer>,
    ns: Seq<char>,
    member: Seq<char>,
    args: Seq<CallArg>,
    pos: Pos,
    length: usize,
    fuel: nat,
) -> Run<Val>
    decreases fuel, 34nat, 0int,
{
    match get(s.uses.user, ns) {
        Some(m) => if private_name(member) {
            fail(
                fault_at("Private members can't be accessed from outside their modules."@, pos),
                s,
            )
        } else {
            match module_function(s, m, member) {
                Some(f) => module_user_call(
                    s,
                    ans,
                    function_home(s, m, member),
                    f,
                    args,
                    Some((pos, length)),
                    fuel,
                ),
                None => {
                    let list = if m < s.modules.len() {
                        s.modules[m as int].forwarded_builtins
                    } else {
                        Seq::empty()
                    };
                    match forwarded_owner(s, ans, list, member, 0) {
                        (Err(h), s1) => (Err(h), s1),
                        (Ok(None), s1) => fail(fault_at("Undefined function."@, pos), s1),
                        (Ok(Some((b, bare))), s1) => match call_args(
                            s1,
                            ans,
                            args,
                            0,
                            nothing_gathered(),
                            fuel,
                        ) {
                            (Err(h), s2) => (Err(h), s2),
                            (Ok(g), s2) => builtin_call(
                                s2,
                                ans,
                                Task::CallModule,
                                seq![b, bare],
                                all_slashless(given(g).positional),
                                named_slashless(given(g).named),
                                pos,
                            ),
                        },
                    }
                },
            }
        },
        None => match get(s.uses.builtin, ns) {
            None => fail(fault_at(no_namespace(ns), pos), s),
            Some(b) => match call_args(s, ans, args, 0, nothing_gathered(), fuel) {
                (Err(h), s1) => (Err(h), s1),
                (Ok(g), s1) => {
                    let p = all_slashless(given(g).positional);
                    let n = named_slashless(given(g).named);
                    let other = builtin_call(s1, ans, Task::CallModule, seq![b, member], p, n, pos);
                    if b == "meta"@ {
                        match meta_call(s1, ans, member, p, n, pos, fuel) {
                            Some(r) => r,
                            None => other,
                        }
                    } else {
                        other
                    }
                },
            },
        },
    }
}

/// A meta function, `call()` among them.
pub open spec fn meta_call(
    s: Ev,
    ans: Seq<Answer>,
    member: Seq<char>,
    p: Seq<Val>,
    n: Vars,
    pos: Pos,
    fuel: nat,
) -> Option<Run<Val>>
    decreases fuel, 30nat, 0int,
{
    if member == "call"@ {
        Some(
            match call_target(s, p, n, pos) {
                (Err(h), s1) => (Err(h), s1),
                (Ok((f, rest)), s1) => {
                    let kw = without_name(n, "function"@);
                    match f {
                        Val::Function { name, css, user } => ref_call(
                            s1,
                            ans,
                            name,
                            css,
                            user,
                            rest,
                            kw,
                            pos,
                            fuel,
                        ),
                        Val::Str(t, q) => ref_call(
                            s1,
                            ans,
                            t,
                            false,
                            callable_loose(s1, s1.chain.functions, t),
                            rest,
                            kw,
                            pos,
                            fuel,
                        ),
                        other => wrong_type(
                            s1,
                            ans,
                            "$function: "@,
                            other,
                            " is not a function reference."@,
                            pos,
                        ),
                    }
                },
            },
        )
    } else {
        meta_function(s, ans, member, p, n, pos)
    }
}

/// A call of a function by reference.
pub open spec fn ref_call(
    s: Ev,
    ans: Seq<Answer>,
    name: Seq<char>,
    css: bool,
    user: Option<usize>,
    p: Seq<Val>,
    n: Vars,
    pos: Pos,
    fuel: nat,
) -> Run<Val>
    decreases fuel, 3nat, 0int,
{
    if fuel == 0 {
        (Err(Halt::Depth), s)
    } else if user is Some && user->0 < s.callables.len() {
        let c = s.callables[user->0 as int];
        returned(
            body_run(
                s,
                ans,
                c,
                Given { positional: p, named: n, sep: ListSep::Comma },
                true,
                (fuel - 1) as nat,
            ),
            c.def.name@,
        )
    } else if css {
        match css_texts(s, ans, p, 0, Seq::empty()) {
            (Err(h), s1) => (Err(h), s1),
            (Ok(parts), s1) => match named_texts(s1, ans, n, 0, parts) {
                (Err(h), s2) => (Err(h), s2),
                (Ok(all), s2) => (Ok(Val::Str(call_text(name, all), false)), s2),
            },
        }
    } else {
        match meta_call(s, ans, name, p, n, pos, (fuel - 1) as nat) {
            Some(r) => r,
            None => builtin_call(s, ans, Task::Call, seq![name], p, n, pos),
        }
    }
}

// ---- user-defined functions ----------------------------------------------

/// The arguments of a call, from `i` on, after `g`.
pub open spec fn call_args(s: Ev, ans: Seq<Answer>, args: Seq<CallArg>, i: int, g: Gathered, fuel: nat) -> Run<
    Gathered,
>
    decreases fuel, 1nat, args.len() - i,
{
    if i < 0 || i >= args.len() {
        (Ok(g), s)
    } else {
        match eval(s, ans, args[i].value, fuel) {
            (Err(h), s1) => (Err(h), s1),
            (Ok(v), s1) => {
                let r = if args[i].splat {
                    with_spread(s1, ans, g, v)
                } else {
                    with_written(s1, g, text_of(args[i].name), v)
                };
                match r {
                    (Err(h), s2) => (Err(h), s2),
                    (Ok(g2), s2) => call_args(s2, ans, args, i + 1, g2, fuel),
                }
            },
        }
    }
}

/// The state with the parameters from `i` on bound in the innermost scope: each takes the argument
/// at its position, the one of its name, or its default; a rest parameter takes all others.
pub open spec fn bind_scope(
    s: Ev,
    ans: Seq<Answer>,
    params: ParamList,
    i: int,
    a: Given,
    kw: Keywords,
    name: Seq<char>,
    fuel: nat,
) -> Run<()>
    decreases fuel, 1nat, params.params@.len() - i,
{
    let n = params.params@.len();
    if i < 0 || i >= n {
        match params.rest {
            Some(r) => (
                Ok(()),
                local_set(s, r@, rest_list(beyond(a.positional, n as int), a.sep, kw)),
            ),
            None => match leftover_fault(a.positional.len() as int, n as int, kw, name) {
                Some(m) => fail(fault(m), s),
                None => (Ok(()), s),
            },
        }
    } else {
        let p = params.params@[i];
        let k = entry(kw, dashed(p.name@));
        if i < a.positional.len() {
            bind_scope(
                local_set(s, p.name@, a.positional[i]),
                ans,
                params,
                i + 1,
                a,
                kw,
                name,
                fuel,
            )
        } else if k < kw.len() {
            bind_scope(
                local_set(s, p.name@, (kw[k].1).1),
                ans,
                params,
                i + 1,
                a,
                kw.remove(k),
                name,
                fuel,
            )
        } else {
            match p.default {
                None => fail(fault("Missing argument $"@ + p.name@ + "."@), s),
                Some(d) => match eval(s, ans, d, fuel) {
                    (Err(h), s1) => (Err(h), s1),
                    (Ok(v), s1) => bind_scope(
                        local_set(s1, p.name@, v),
                        ans,
                        params,
                        i + 1,
                        a,
                        kw,
                        name,
                        fuel,
                    ),
                },
            }
        }
    }
}

/// What the body of a function returns when it is run with these arguments in the scopes of its
/// definition. The scopes of the caller are in place again after it.
pub open spec fn body_run(s: Ev, ans: Seq<Answer>, c: Closure, a: Given, note: bool, fuel: nat) -> Run<
    Option<Val>,
>
    decreases fuel, 15nat, 0int,
{
    let inside = scope_pushed(Ev { chain: c.chain, ..s }, false);
    match bind_scope(inside, ans, c.def.params, 0, a, keywords_of(a.named), c.def.name@, fuel) {
        (Err(h), s1) => (Err(h), Ev { chain: s.chain, ..s1 }),
        (Ok(_), s1) => if note {
            let r = fn_block(
                Ev { in_mixin: s1.in_mixin.push(false), ..s1 },
                ans,
                c.def.body@,
                fuel,
            );
            (r.0, Ev { in_mixin: popped(r.1.in_mixin), chain: s.chain, ..r.1 })
        } else {
            let r = fn_block(s1, ans, c.def.body@, fuel);
            (r.0, Ev { chain: s.chain, ..r.1 })
        },
    }
}

/// A call of a user-defined function.
pub open spec fn user_call(
    s: Ev,
    ans: Seq<Answer>,
    id: usize,
    args: Seq<CallArg>,
    at: Option<(Pos, usize)>,
    fuel: nat,
) -> Run<Val>
    decreases fuel, 20nat, 0int,
{
    if id >= s.callables.len() {
        (Err(Halt::Mismatch), s)
    } else {
        let c = s.callables[id as int];
        match call_args(s, ans, args, 0, nothing_gathered(), fuel) {
            (Err(h), s1) => (Err(h), s1),
            (Ok(g), s1) => match at {
                None => returned(body_run(s1, ans, c, given(g), true, fuel), c.def.name@),
                Some((pos, length)) => {
                    let r = body_run(
                        call_entered(s1, pos, length, c.def.name@ + "()"@),
                        ans,
                        c,
                        given(g),
                        true,
                        fuel,
                    );
                    returned((r.0, call_left(r.1, s1.report.member)), c.def.name@)
                },
            },
        }
    }
}

/// A call of a function of a module, which runs in that module.
pub open spec fn module_user_call(
    s: Ev,
    ans: Seq<Answer>,
    m: usize,
    id: usize,
    args: Seq<CallArg>,
    at: Option<(Pos, usize)>,
    fuel: nat,
) -> Run<Val>
    decreases fuel, 20nat, 0int,
{
    if id >= s.callables.len() {
        (Err(Halt::Mismatch), s)
    } else {
        let c = s.callables[id as int];
        match call_args(s, ans, args, 0, nothing_gathered(), fuel) {
            (Err(h), s1) => (Err(h), s1),
            (Ok(g), s1) => {
                let s2 = match at {
                    None => s1,
                    Some((pos, length)) => call_entered(s1, pos, length, c.def.name@ + "()"@),
                };
                let r = body_run(module_entered(s2, m), ans, c, given(g), false, fuel);
                let s3 = module_left(r.1, m, s2);
                let s4 = match at {
                    None => s3,
                    Some(_) => call_left(s3, s1.report.member),
                };
                returned((r.0, s4), c.def.name@)
            },
        }
    }
}

/// What a block of a function body returns, if it returns.
pub open spec fn fn_block(s: Ev, ans: Seq<Answer>, stmts: Seq<Stmt>, fuel: nat) -> Run<Option<Val>>
    decreases fuel, 2nat, 0int,
{
    if fuel == 0 {
        (Err(Halt::Depth), s)
    } else {
        fn_body(s, ans, stmts, 0, (fuel - 1) as nat)
    }
}

/// What the statements of a function body return, from `i` on.
pub open spec fn fn_body(s: Ev, ans: Seq<Answer>, stmts: Seq<Stmt>, i: int, fuel: nat) -> Run<Option<Val>>
    decreases fuel, 12nat, stmts.len() - i,
{
    if i < 0 || i >= stmts.len() {
        (Ok(None), s)
    } else {
        match fn_stmt(s, ans, stmts[i], fuel) {
            (Err(h), s1) => (Err(h), s1),
            (Ok(Some(v)), s1) => (Ok(Some(v)), s1),
            (Ok(None), s1) => fn_body(s1, ans, stmts, i + 1, fuel),
        }
    }
}

/// What a statement of a function body returns, if it returns.
pub open spec fn fn_stmt(s: Ev, ans: Seq<Answer>, stmt: Stmt, fuel: nat) -> Run<Option<Val>>
    decreases fuel, 11nat, 0int,
{
    match stmt {
        Stmt::VarDecl(v) => nothing_returned(declare(s, ans, v, fuel)),
        Stmt::Comment(..) => (Ok(None), s),
        Stmt::Return(e) => match eval(s, ans, e, fuel) {
            (Err(h), s1) => (Err(h), s1),
            (Ok(v), s1) => (Ok(Some(v)), s1),
        },
        Stmt::FunctionDef(c) => {
            let (id, s1) = captured(s, *c);
            (Ok(None), function_defined(s1, c.name@, id))
        },
        Stmt::If(branches) => fn_branches(s, ans, branches@, 0, fuel),
        Stmt::For { var, from, to, inclusive, body } => fn_for_stmt(
            s,
            ans,
            var@,
            from,
            to,
            inclusive,
            body@,
            fuel,
        ),
        Stmt::Each { vars, list, body } => fn_each_stmt(s, ans, vars@, list, body@, fuel),
        Stmt::While { cond, body } => fn_while_stmt(s, ans, cond, body@, fuel),
        Stmt::Warn { value, pos } => nothing_returned(warn(s, ans, value, pos, fuel)),
        Stmt::Debug { value, pos } => nothing_returned(debug(s, ans, value, pos, fuel)),
        Stmt::Error { value, pos, length } => nothing_returned(
            raise(s, ans, value, pos, length, fuel),
        ),
        _ => fail(
            fault(
                "only variable assignments, control flow and @return are allowed in a function."@,
            ),
            s,
        ),
    }
}

/// A step of a function body that returns nothing.
pub open spec fn nothing_returned(r: Run<()>) -> Run<Option<Val>> {
    match r {
        (Err(h), s) => (Err(h), s),
        (Ok(_), s) => (Ok(None), s),
    }
}

/// What a `@for` in a function returns.
pub open spec fn fn_for_stmt(
    s: Ev,
    ans: Seq<Answer>,
    var: Seq<char>,
    from: Expr,
    to: Expr,
    inclusive: bool,
    body: Seq<Stmt>,
    fuel: nat,
) -> Run<Option<Val>>
    decreases fuel, 10nat, 0int,
{
    match for_bounds(s, ans, from, to, fuel) {
        (Err(h), s1) => (Err(h), s1),
        (Ok((a, b, unit)), s1) => {
            let r = fn_for(
                scope_pushed(s1, true),
                ans,
                var,
                unit,
                indices(a as int, b as int, inclusive),
                0,
                body,
                fuel,
            );
            (r.0, scope_popped(r.1))
        },
    }
}

/// What an `@each` in a function returns.
pub open spec fn fn_each_stmt(
    s: Ev,
    ans: Seq<Answer>,
    vars: Seq<String>,
    list: Expr,
    body: Seq<Stmt>,
    fuel: nat,
) -> Run<Option<Val>>
    decreases fuel, 10nat, 0int,
{
    match eval(s, ans, list, fuel) {
        (Err(h), s1) => (Err(h), s1),
        (Ok(v), s1) => {
            let r = fn_each(scope_pushed(s1, true), ans, vars, each_items(v), 0, body, fuel);
            (r.0, scope_popped(r.1))
        },
    }
}

/// What a `@while` in a function returns.
pub open spec fn fn_while_stmt(s: Ev, ans: Seq<Answer>, cond: Expr, body: Seq<Stmt>, fuel: nat) -> Run<
    Option<Val>,
>
    decreases fuel, 10nat, 0int,
{
    let r = fn_while(scope_pushed(s, true), ans, cond, body, 0, fuel);
    (r.0, scope_popped(r.1))
}

/// What the first branch of an `@if`, from `i` on, whose condition holds returns.
pub open spec fn fn_branches(s: Ev, ans: Seq<Answer>, branches: Seq<IfBranch>, i: int, fuel: nat) -> Run<
    Option<Val>,
>
    decreases fuel, 9nat, branches.len() - i,
{
    if i < 0 || i >= branches.len() {
        (Ok(None), s)
    } else {
        match taken(s, ans, branches[i].cond, fuel) {
            (Err(h), s1) => (Err(h), s1),
            (Ok(true), s1) => {
                let r = fn_block(scope_pushed(s1, true), ans, branches[i].body@, fuel);
                (r.0, scope_popped(r.1))
            },
            (Ok(false), s1) => fn_branches(s1, ans, branches, i + 1, fuel),
        }
    }
}

/// Whether a branch is taken: `@else` always is.
pub open spec fn taken(s: Ev, ans: Seq<Answer>, cond: Option<Expr>, fuel: nat) -> Run<bool>
    decreases fuel, 4nat, 0int,
{
    match cond {
        None => (Ok(true), s),
        Some(c) => match eval(s, ans, c, fuel) {
            (Err(h), s1) => (Err(h), s1),
            (Ok(v), s1) => (Ok(truthy(v)), s1),
        },
    }
}

/// What a `@for` in a function returns, from index `k` on.
pub open spec fn fn_for(
    s: Ev,
    ans: Seq<Answer>,
    var: Seq<char>,
    unit: Seq<char>,
    ks: Seq<int>,
    k: int,
    body: Seq<Stmt>,
    fuel: nat,
) -> Run<Option<Val>>
    decreases fuel, 9nat, ks.len() - k,
{
    if k < 0 || k >= ks.len() {
        (Ok(None), s)
    } else {
        match asked_int_bits(s, ans, ks[k]) {
            (Err(h), s1) => (Err(h), s1),
            (Ok(b), s1) => match fn_block(
                local_set(s1, var, Val::Number(with_unit(b, unit))),
                ans,
                body,
                fuel,
            ) {
                (Ok(None), s2) => fn_for(s2, ans, var, unit, ks, k + 1, body, fuel),
                other => other,
            },
        }
    }
}

/// What an `@each` in a function returns, from item `k` on.
pub open spec fn fn_each(
    s: Ev,
    ans: Seq<Answer>,
    vars: Seq<String>,
    items: Seq<Val>,
    k: int,
    body: Seq<Stmt>,
    fuel: nat,
) -> Run<Option<Val>>
    decreases fuel, 9nat, items.len() - k,
{
    if k < 0 || k >= items.len() {
        (Ok(None), s)
    } else {
        match fn_block(each_set(s, vars, items[k]), ans, body, fuel) {
            (Ok(None), s1) => fn_each(s1, ans, vars, items, k + 1, body, fuel),
            other => other,
        }
    }
}

/// The number of rounds after which a `@while` is given up.
pub open spec fn while_limit() -> int {
    100000
}

/// What a `@while` in a function returns, after `k` rounds.
pub open spec fn fn_while(s: Ev, ans: Seq<Answer>, cond: Expr, body: Seq<Stmt>, k: int, fuel: nat) -> Run<
    Option<Val>,
>
    decreases fuel, 9nat, while_limit() - k,
{
    match eval(s, ans, cond, fuel) {
        (Err(h), s1) => (Err(h), s1),
        (Ok(v), s1) => if !truthy(v) {
            (Ok(None), s1)
        } else {
            match fn_block(s1, ans, body, fuel) {
                (Ok(None), s2) => if k + 1 >= while_limit() {
                    fail(fault("@while exceeded 100000 iterations"@), s2)
                } else {
                    fn_while(s2, ans, cond, body, k + 1, fuel)
                },
                other => other,
            }
        },
    }
}

/// The bounds of a `@for`.
pub open spec fn for_bounds(s: Ev, ans: Seq<Answer>, from: Expr, to: Expr, fuel: nat) -> Run<
    (i64, i64, Seq<char>),
>
    decreases fuel, 6nat, 0int,
{
    match for_number(s, ans, from, fuel) {
        (Err(h), s1) => (Err(h), s1),
        (Ok(a), s1) => match for_number(s1, ans, to, fuel) {
            (Err(h), s2) => (Err(h), s2),
            (Ok(b), s2) => loop_bounds(s2, ans, a, b),
        },
    }
}

/// A bound of a `@for`.
pub open spec fn for_number(s: Ev, ans: Seq<Answer>, e: Expr, fuel: nat) -> Run<Num>
    decreases fuel, 5nat, 0int,
{
    match eval(s, ans, e, fuel) {
        (Err(h), s1) => (Err(h), s1),
        (Ok(v), s1) => match v {
            Val::Number(n) => (Ok(n), s1),
            other => match asked_text(s1, ans, ask_value(Task::TypeName, other)) {
                (Err(h), s2) => (Err(h), s2),
                (Ok(t), s2) => fail(fault(t + " is not a number."@), s2),
            },
        },
    }
}

/// The state after a `@warn`.
pub open spec fn warn(s: Ev, ans: Seq<Answer>, value: Expr, pos: Pos, fuel: nat) -> Run<()>
    decreases fuel, 8nat, 0int,
{
    match eval(s, ans, value, fuel) {
        (Err(h), s1) => (Err(h), s1),
        (Ok(v), s1) => match asked_text(s1, ans, ask_value(Task::Message, v)) {
            (Err(h), s2) => (Err(h), s2),
            (Ok(t), s2) => (Ok(()), line_logged(s2, warning(s2, t, pos))),
        },
    }
}

/// The state after a `@debug`.
pub open spec fn debug(s: Ev, ans: Seq<Answer>, value: Expr, pos: Pos, fuel: nat) -> Run<()>
    decreases fuel, 8nat, 0int,
{
    match eval(s, ans, value, fuel) {
        (Err(h), s1) => (Err(h), s1),
        (Ok(v), s1) => match asked_text(s1, ans, ask_value(Task::Message, v)) {
            (Err(h), s2) => (Err(h), s2),
            (Ok(t), s2) => (Ok(()), line_logged(s2, debug_line(s2, t, pos))),
        },
    }
}

/// The error that an `@error` raises.
pub open spec fn raise(s: Ev, ans: Seq<Answer>, value: Expr, pos: Pos, length: usize, fuel: nat) -> Run<()>
    decreases fuel, 8nat, 0int,
{
    match eval(s, ans, value, fuel) {
        (Err(h), s1) => (Err(h), s1),
        (Ok(v), s1) => match asked_text(s1, ans, ask_value(Task::ErrorMessage, v)) {
            (Err(h), s2) => (Err(h), s2),
            (Ok(t), s2) => fail(user_error(s2, t, pos, length), s2),
        },
    }
}

// ---- variables -----------------------------------------------------------

/// The state after a variable declaration.
pub open spec fn declare(s: Ev, ans: Seq<Answer>, v: VarDecl, fuel: nat) -> Run<()>
    decreases fuel, 9nat, 0int,
{
    match v.namespace {
        Some(ns) => declare_in(s, ans, ns@, v, fuel),
        None => if v.is_default && s.chain.scopes.len() == 1 {
            declare_default(s, ans, v, fuel)
        } else {
            declare_value(s, ans, v, fuel)
        },
    }
}

/// The state after a `!default` declaration at the top level, which takes the value it is
/// configured with.
pub open spec fn declare_default(s: Ev, ans: Seq<Answer>, v: VarDecl, fuel: nat) -> Run<()>
    decreases fuel, 8nat, 0int,
{
    let name = v.name@;
    if lookup(s, name) is None && star_hits(s, name, MemberKind::Variable).len() > 1 {
        fail(fault("This variable is available from multiple global modules."@), s)
    } else {
        match configured(s, name) {
            None => declare_value(s, ans, v, fuel),
            Some((c, guarded)) => if c == Val::Null || (guarded && has_value(lookup(s, name))) {
                declare_value(config_used(s, name), ans, v, fuel)
            } else {
                (Ok(()), global_set(config_used(s, name), name, c))
            },
        }
    }
}

/// The state after a declaration that takes the value written in it.
pub open spec fn declare_value(s: Ev, ans: Seq<Answer>, v: VarDecl, fuel: nat) -> Run<()>
    decreases fuel, 7nat, 0int,
{
    let name = v.name@;
    match eval(s, ans, v.value, fuel) {
        (Err(h), s1) => (Err(h), s1),
        (Ok(val), s1) => {
            let hits = star_hits(s1, name, MemberKind::Variable);
            let fresh = s1.chain.scopes.len() > 0 && get(frame(s1, s1.chain.scopes[0]), name) is None;
            if v.is_default && has_value(lookup(s1, name)) {
                (Ok(()), s1)
            } else if (s1.chain.scopes.len() == 1 || v.is_global) && fresh && hits.len() == 1 {
                if v.is_default && has_value(module_var(s1, hits[0], name)) {
                    (Ok(()), s1)
                } else {
                    (Ok(()), module_var_set(s1, hits[0], name, val))
                }
            } else if v.is_global {
                (Ok(()), global_set(s1, name, val))
            } else {
                (Ok(()), assigned(s1, name, val))
            }
        },
    }
}

/// The state after an assignment to a variable of a module.
pub open spec fn declare_in(s: Ev, ans: Seq<Answer>, ns: Seq<char>, v: VarDecl, fuel: nat) -> Run<()>
    decreases fuel, 7nat, 0int,
{
    let name = v.name@;
    if private_name(name) {
        fail(fault("Private members can't be accessed from outside their modules."@), s)
    } else {
        match get(s.uses.user, ns) {
            None => if get(s.uses.builtin, ns) is Some {
                fail(fault("Cannot modify built-in variable."@), s)
            } else {
                fail(fault(no_namespace(ns)), s)
            },
            Some(m) => {
                let (t, other) = write_target(s, m, name);
                let existing = module_var(s, t, other);
                if existing is None {
                    fail(fault("Undefined variable."@), s)
                } else if v.is_default && has_value(existing) {
                    (Ok(()), s)
                } else {
                    match eval(s, ans, v.value, fuel) {
                        (Err(h), s1) => (Err(h), s1),
                        (Ok(val), s1) => (Ok(()), module_var_set(s1, t, other, slashless(val))),
                    }
                }
            },
        }
    }
}

// ---- if() ----------------------------------------------------------------

/// `if()` with three arguments, of which only the condition and one branch are evaluated.
pub open spec fn if_function(s: Ev, ans: Seq<Answer>, args: Seq<CallArg>, pos: Pos, fuel: nat) -> Run<Val>
    decreases fuel, 20nat, 0int,
{
    match if_args(s, ans, args, 0, no_branches(), pos, fuel) {
        (Err(h), s1) => (Err(h), s1),
        (Ok(b), s1) => match filled(b) {
            None => fail(
                fault_at("if() requires arguments $condition, $if-true, $if-false."@, pos),
                s1,
            ),
            Some((c, t, f)) => match branch_value(s1, ans, c, fuel) {
                (Err(h), s2) => (Err(h), s2),
                (Ok(v), s2) => match branch_value(
                    s2,
                    ans,
                    if truthy(v) {
                        t
                    } else {
                        f
                    },
                    fuel,
                ) {
                    (Err(h), s3) => (Err(h), s3),
                    (Ok(w), s3) => (Ok(slashless(w)), s3),
                },
            },
        },
    }
}

/// The arguments of `if()`, from `i` on, after `b`.
pub open spec fn if_args(s: Ev, ans: Seq<Answer>, args: Seq<CallArg>, i: int, b: Branches, pos: Pos, fuel: nat) -> Run<
    Branches,
>
    decreases fuel, 1nat, args.len() - i,
{
    if i < 0 || i >= args.len() {
        (Ok(b), s)
    } else if args[i].splat {
        match eval(s, ans, args[i].value, fuel) {
            (Err(h), s1) => (Err(h), s1),
            (Ok(v), s1) => match with_if_spread(s1, ans, b, v, pos) {
                (Err(h), s2) => (Err(h), s2),
                (Ok(b1), s2) => if_args(s2, ans, args, i + 1, b1, pos, fuel),
            },
        }
    } else {
        match args[i].name {
            Some(n) => match with_slot(s, b, n@, Branch::Lazy(args[i].value), pos) {
                (Err(h), s1) => (Err(h), s1),
                (Ok(b1), s1) => if_args(s1, ans, args, i + 1, b1, pos, fuel),
            },
            None => if_args(
                s,
                ans,
                args,
                i + 1,
                Branches { by_pos: b.by_pos.push(Branch::Lazy(args[i].value)), ..b },
                pos,
                fuel,
            ),
        }
    }
}

/// The value of an argument of `if()`.
pub open spec fn branch_value(s: Ev, ans: Seq<Answer>, b: Branch, fuel: nat) -> Run<Val>
    decreases fuel, 1nat, 0int,
{
    match b {
        Branch::Lazy(e) => eval(s, ans, e, fuel),
        Branch::Eager(v) => (Ok(v), s),
    }
}

/// The value of a CSS `if()`, from clause `i` on: that of the first clause whose condition holds;
/// from the first condition that is left over on, the clauses are kept.
pub open spec fn modern_if(
    s: Ev,
    ans: Seq<Answer>,
    clauses: Seq<IfClause>,
    i: int,
    parts: Option<Seq<Seq<char>>>,
    fuel: nat,
) -> Run<Val>
    decreases fuel, 20nat, clauses.len() - i,
{
    if i < 0 || i >= clauses.len() {
        match parts {
            Some(p) => (Ok(Val::Str("if("@ + joined(p, "; "@) + ")"@, false)), s),
            None => (Ok(Val::Null), s),
        }
    } else {
        let o = match clauses[i].condition {
            None => (Ok(Outcome::Bool(true)), s),
            Some(c) => if_cond(s, ans, c, fuel),
        };
        match o {
            (Err(h), s1) => (Err(h), s1),
            (Ok(Outcome::Bool(false)), s1) => modern_if(s1, ans, clauses, i + 1, parts, fuel),
            (Ok(Outcome::Bool(true)), s1) => match parts {
                None => match eval(s1, ans, clauses[i].value, fuel) {
                    (Err(h), s2) => (Err(h), s2),
                    (Ok(v), s2) => (Ok(slashless(v)), s2),
                },
                Some(p) => match if_value(s1, ans, clauses[i].value, fuel) {
                    (Err(h), s2) => (Err(h), s2),
                    (Ok(t), s2) => modern_if(s2, ans, clauses, i + 1, Some(p.push("else: "@ + t)), fuel),
                },
            },
            (Ok(Outcome::Css(rc)), s1) => match if_value(s1, ans, clauses[i].value, fuel) {
                (Err(h), s2) => (Err(h), s2),
                (Ok(t), s2) => {
                    let p = match parts {
                        Some(p) => p,
                        None => Seq::empty(),
                    };
                    modern_if(
                        s2,
                        ans,
                        clauses,
                        i + 1,
                        Some(p.push(rest_text(rc) + ": "@ + t)),
                        fuel,
                    )
                },
            },
        }
    }
}

/// The text of a value in a CSS `if()` that is kept.
pub open spec fn if_value(s: Ev, ans: Seq<Answer>, e: Expr, fuel: nat) -> Run<Seq<char>>
    decreases fuel, 2nat, 0int,
{
    match eval(s, ans, e, fuel) {
        (Err(h), s1) => (Err(h), s1),
        (Ok(v), s1) => if_value_text(s1, ans, slashless(v)),
    }
}

/// What a condition of a CSS `if()` comes to.
pub open spec fn if_cond(s: Ev, ans: Seq<Answer>, c: IfCond, fuel: nat) -> Run<Outcome>
    decreases fuel, 2nat, 0int,
{
    if fuel == 0 {
        (Err(Halt::Depth), s)
    } else {
        if_cond_inner(s, ans, c, (fuel - 1) as nat)
    }
}

pub open spec fn if_cond_inner(s: Ev, ans: Seq<Answer>, c: IfCond, fuel: nat) -> Run<Outcome>
    decreases fuel, 21nat, 0int,
{
    match c {
        IfCond::Sass(e) => match eval(s, ans, e, fuel) {
            (Err(h), s1) => (Err(h), s1),
            (Ok(v), s1) => (Ok(Outcome::Bool(truthy(v))), s1),
        },
        IfCond::Raw { pieces } => match template(s, ans, pieces@, 0, Seq::empty(), fuel) {
            (Err(h), s1) => (Err(h), s1),
            (Ok(t), s1) => (Ok(Outcome::Css(Rest::Css(raw_condition(t)))), s1),
        },
        IfCond::Not(inner) => match if_cond(s, ans, *inner, fuel) {
            (Err(h), s1) => (Err(h), s1),
            (Ok(Outcome::Bool(b)), s1) => (Ok(Outcome::Bool(!b)), s1),
            (Ok(Outcome::Css(rc)), s1) => (Ok(Outcome::Css(Rest::Not(Box::new(rc)))), s1),
        },
        IfCond::Paren(inner) => match if_cond(s, ans, *inner, fuel) {
            (Err(h), s1) => (Err(h), s1),
            (Ok(Outcome::Bool(b)), s1) => (Ok(Outcome::Bool(b)), s1),
            (Ok(Outcome::Css(rc)), s1) => (Ok(Outcome::Css(Rest::Paren(Box::new(rc)))), s1),
        },
        IfCond::And(items) => if_operands(s, ans, items@, 0, Seq::empty(), true, fuel),
        IfCond::Or(items) => if_operands(s, ans, items@, 0, Seq::empty(), false, fuel),
    }
}

/// What an `and`, or an `or`, comes to, from operand `i` on: decided by the first false, or true,
/// operand.
pub open spec fn if_operands(
    s: Ev,
    ans: Seq<Answer>,
    items: Seq<IfCond>,
    i: int,
    left: Seq<Rest>,
    and: bool,
    fuel: nat,
) -> Run<Outcome>
    decreases fuel, 6nat, items.len() - i,
{
    if i < 0 || i >= items.len() {
        (Ok(combined(left, and)), s)
    } else {
        match if_cond(s, ans, items[i], fuel) {
            (Err(h), s1) => (Err(h), s1),
            (Ok(Outcome::Bool(b)), s1) => if b == and {
                if_operands(s1, ans, items, i + 1, left, and, fuel)
            } else {
                (Ok(Outcome::Bool(b)), s1)
            },
            (Ok(Outcome::Css(rc)), s1) => if_operands(s1, ans, items, i + 1, left.push(rc), and, fuel),
        }
    }
}

// ---- calculations --------------------------------------------------------

/// A calculation, simplified.
pub open spec fn simplified(s: Ev, ans: Seq<Answer>, e: Expr, fuel: nat) -> Run<Cal>
    decreases fuel, 2nat, 0int,
{
    if fuel == 0 {
        (Err(Halt::Depth), s)
    } else {
        calc_inner(s, ans, e, (fuel - 1) as nat)
    }
}

pub open spec fn calc_inner(s: Ev, ans: Seq<Answer>, e: Expr, fuel: nat) -> Run<Cal>
    decreases fuel, 33nat, 0int,
{
    match e {
        Expr::Binary { op, lhs, rhs, pos } => match calc_op(op) {
            None => fail(fault_at("This operation can't be used in a calculation."@, pos), s),
            Some(c) => calc_pair(s, ans, c, *lhs, *rhs, pos, fuel),
        },
        Expr::Div { lhs, rhs, slash, pos } => calc_pair(s, ans, CalcOp::Div, *lhs, *rhs, pos, fuel),
        Expr::Unary { op: UnOp::Neg, operand } => match simplified(s, ans, *operand, fuel) {
            (Err(h), s1) => (Err(h), s1),
            (Ok(c), s1) => calc_negative(s1, ans, c),
        },
        Expr::Paren(inner) => match simplified(s, ans, *inner, fuel) {
            (Err(h), s1) => (Err(h), s1),
            (Ok(Cal::Str(t)), s1) => (Ok(Cal::Str(in_parens(t))), s1),
            (Ok(c), s1) => (Ok(c), s1),
        },
        Expr::Calc { inner } => match simplified(s, ans, *inner, fuel) {
            (Err(h), s1) => (Err(h), s1),
            (Ok(c), s1) => if s1.supports {
                match styled_calc(s1, ans, c) {
                    (Err(h), s2) => (Err(h), s2),
                    (Ok(t), s2) => (Ok(Cal::Str("calc("@ + t + ")"@)), s2),
                }
            } else {
                match c {
                    Cal::Str(t) => if needs_parens(t) {
                        (Ok(Cal::Str(in_parens(t))), s1)
                    } else {
                        (Ok(c), s1)
                    },
                    other => (Ok(other), s1),
                }
            },
        },
        Expr::List { items, sep: ListSep::Space, bracketed: false } => {
            let subst = any_substitutes(items@);
            if !subst && !any_variable(items@) {
                fail(fault("Missing math operator."@), s)
            } else {
                calc_run(s, ans, items@, 0, Seq::empty(), subst, fuel)
            }
        },
        other => match eval(s, ans, other, fuel) {
            (Err(h), s1) => (Err(h), s1),
            (Ok(v), s1) => calc_leaf(s1, ans, v),
        },
    }
}

/// An operation of a calculation.
pub open spec fn calc_pair(
    s: Ev,
    ans: Seq<Answer>,
    op: CalcOp,
    lhs: Expr,
    rhs: Expr,
    pos: Pos,
    fuel: nat,
) -> Run<Cal>
    decreases fuel, 4nat, 0int,
{
    match simplified(s, ans, lhs, fuel) {
        (Err(h), s1) => (Err(h), s1),
        (Ok(l), s1) => match simplified(s1, ans, rhs, fuel) {
            (Err(h), s2) => (Err(h), s2),
            (Ok(r), s2) => calc_operation(s2, ans, op, l, r, pos),
        },
    }
}

/// The items of a list in a calculation, from `i` on, joined by spaces; `raw` says that one of them
/// is text.
pub open spec fn calc_run(
    s: Ev,
    ans: Seq<Answer>,
    items: Seq<Expr>,
    i: int,
    parts: Seq<Seq<char>>,
    raw: bool,
    fuel: nat,
) -> Run<Cal>
    decreases fuel, 5nat, items.len() - i,
{
    if i < 0 || i >= items.len() {
        if raw {
            (Ok(Cal::Str(joined(parts, " "@))), s)
        } else {
            fail(fault("Missing math operator."@), s)
        }
    } else {
        match simplified(s, ans, items[i], fuel) {
            (Err(h), s1) => (Err(h), s1),
            (Ok(c), s1) => match plain_calc(s1, ans, c) {
                (Err(h), s2) => (Err(h), s2),
                (Ok(t), s2) => calc_run(s2, ans, items, i + 1, parts.push(t), raw || c is Str, fuel),
            },
        }
    }
}

/// The arguments of a call as calculations, from `i` on, after `acc`.
pub open spec fn calc_args(s: Ev, ans: Seq<Answer>, args: Seq<CallArg>, i: int, acc: Seq<Cal>, fuel: nat) -> Run<
    Seq<Cal>,
>
    decreases fuel, 5nat, args.len() - i,
{
    if i < 0 || i >= args.len() {
        (Ok(acc), s)
    } else {
        match simplified(s, ans, args[i].value, fuel) {
            (Err(h), s1) => (Err(h), s1),
            (Ok(c), s1) => calc_args(s1, ans, args, i + 1, acc.push(c), fuel),
        }
    }
}

/// `calc-size()`, which is always kept.
pub open spec fn calc_size(s: Ev, ans: Seq<Answer>, args: Seq<CallArg>, pos: Pos, fuel: nat) -> Run<Val>
    decreases fuel, 7nat, 0int,
{
    if args.len() == 0 {
        fail(fault_at("Missing argument."@, pos), s)
    } else if args.len() > 2 {
        fail(fault_at(only_allowed(2, args.len()), pos), s)
    } else {
        match size_texts(s, ans, args, 0, Seq::empty(), fuel) {
            (Err(h), s1) => (Err(h), s1),
            (Ok(parts), s1) => (Ok(Val::Str(call_text("calc-size"@, parts), false)), s1),
        }
    }
}

/// The arguments of a call as the texts of calculations, from `i` on, after `acc`.
pub open spec fn size_texts(
    s: Ev,
    ans: Seq<Answer>,
    args: Seq<CallArg>,
    i: int,
    acc: Seq<Seq<char>>,
    fuel: nat,
) -> Run<Seq<Seq<char>>>
    decreases fuel, 5nat, args.len() - i,
{
    if i < 0 || i >= args.len() {
        (Ok(acc), s)
    } else {
        match simplified(s, ans, args[i].value, fuel) {
            (Err(h), s1) => (Err(h), s1),
            (Ok(c), s1) => match styled_calc(s1, ans, c) {
                (Err(h), s2) => (Err(h), s2),
                (Ok(t), s2) => {
                    let part = match args[i].name {
                        Some(n) => seq!['$'] + n@ + ": "@ + t,
                        None => t,
                    };
                    size_texts(s2, ans, args, i + 1, acc.push(part), fuel)
                },
            },
        }
    }
}

/// A math function that a `@supports` declaration keeps.
pub open spec fn supports_call(
    s: Ev,
    ans: Seq<Answer>,
    name: Seq<char>,
    args: Seq<CallArg>,
    pos: Pos,
    fuel: nat,
) -> Run<Val>
    decreases fuel, 7nat, 0int,
{
    if any_splat(args) {
        fail(fault_at("Rest arguments can't be used with calculations."@, pos), s)
    } else {
        match size_texts(s, ans, args, 0, Seq::empty(), fuel) {
            (Err(h), s1) => (Err(h), s1),
            (Ok(parts), s1) => (Ok(Val::Str(call_text(name, parts), false)), s1),
        }
    }
}

/// The arguments of `clamp()`, from `i` on, after `acc`: a number with complex units is an error.
pub open spec fn clamp_args(
    s: Ev,
    ans: Seq<Answer>,
    args: Seq<CallArg>,
    i: int,
    acc: Seq<Cal>,
    pos: Pos,
    fuel: nat,
) -> Run<Seq<Cal>>
    decreases fuel, 5nat, args.len() - i,
{
    if i < 0 || i >= args.len() {
        (Ok(acc), s)
    } else {
        match simplified(s, ans, args[i].value, fuel) {
            (Err(h), s1) => (Err(h), s1),
            (Ok(c), s1) => if complex_operand(c) {
                complex_operand_fault(s1, ans, c, pos)
            } else {
                clamp_args(s1, ans, args, i + 1, acc.push(c), pos, fuel)
            },
        }
    }
}

pub open spec fn number_values(nodes: Seq<Cal>) -> Seq<Val> {
    Seq::new(
        nodes.len(),
        |i: int|
            match nodes[i] {
                Cal::Number(n) => Val::Number(n),
                other => Val::Calc(other),
            },
    )
}

/// `clamp()` with three arguments: computed where all are numbers, kept otherwise.
pub open spec fn clamp_call(s: Ev, ans: Seq<Answer>, args: Seq<CallArg>, pos: Pos, fuel: nat) -> Run<Val>
    decreases fuel, 7nat, 0int,
{
    match clamp_args(s, ans, args, 0, Seq::empty(), pos, fuel) {
        (Err(h), s1) => (Err(h), s1),
        (Ok(nodes), s1) => if all_numbers(nodes) {
            asked_value(
                s1,
                ans,
                ask_call(Task::Call, seq!["clamp"@], number_values(nodes), Seq::empty(), pos),
            )
        } else {
            kept_call(s1, ans, "clamp"@, nodes)
        },
    }
}

} // verus!
