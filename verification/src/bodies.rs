//! Bodies of functions, variable declarations, and `if()` with three arguments.

use vstd::prelude::*;
use crate::ast::{CallArg, Expr, IfBranch, Stmt, VarDecl};
use crate::calls::out_opt;
use crate::error::Pos;
use crate::eval::{
    Ev, Evaluator, closing_a_scope_restores, ev_of, frame, out_flag, out_unit, out_val,
    same_place, settings, stop, stop_at,
};
use crate::expr::{empty_values, push_string};
use crate::host::{
    Answer, Halt, Stop, Task, request_names, request_numbers, request_value, two_names,
};
use crate::members::{MemberKind, no_namespace_message};
use crate::names::{as_ints, dash, dashed, for_indices, is_private_member};
use crate::ops::{one_bits, two_bits};
use crate::sem::{
    Branch, Branches, config_used, configured, each_bound, each_items, each_set, eager, filled,
    has_value, loop_bounds, module_var_set, no_branches, whole, with_if_keywords, with_if_map,
    with_if_spread, with_slot,
};
use crate::semantics::{
    branch_value, debug, declare, declare_default, declare_in, declare_value, fn_block, fn_body,
    fn_branches, fn_each, fn_each_stmt, fn_for, fn_for_stmt, fn_stmt, fn_while, fn_while_stmt,
    for_bounds, for_number, if_args, if_function, nothing_returned, raise, taken, warn,
    while_limit,
};
use crate::state::{get, get_var, lemma_entry, lemma_entry_is, opt_val};
use crate::text::{append_str, chars_of, same_str, string_of};
use crate::value::{
    List, ListSep, Num, Number, Val, Value, copy_value, copy_values, num, push_value, val,
    val_pairs, vals,
};

verus! {

broadcast use crate::kept::group_kept;

pub open spec fn out_number(r: Result<Number, Stop>) -> Result<Num, Halt> {
    match r {
        Ok(n) => Ok(num(n)),
        Err(e) => Err(e@),
    }
}

pub open spec fn out_bounds(r: Result<(i64, i64, String), Stop>) -> Result<(i64, i64, Seq<char>), Halt> {
    match r {
        Ok(t) => Ok((t.0, t.1, t.2@)),
        Err(e) => Err(e@),
    }
}

/// The items that an `@each` runs through.
pub fn each_items_of(v: Value) -> (r: Vec<Value>)
    ensures
        vals(r@) == each_items(val(v)),
{
    match v {
        Value::List(l) => l.items,
        Value::Pairs(m) => {
            let ghost all = each_items(val(v));
            let mut out = empty_values();
            let mut i: usize = 0;
            while i < m.entries.len()
                invariant
                    i <= m.entries@.len(),
                    all == each_items(Val::Pairs(val_pairs(m.entries@))),
                    vals(out@) =~= all.take(i as int),
                decreases m.entries@.len() - i,
            {
                let mut pair = empty_values();
                push_value(&mut pair, copy_value(&m.entries[i].0));
                push_value(&mut pair, copy_value(&m.entries[i].1));
                proof {
                    let e = m.entries@[i as int];
                    assert(vals(pair@) =~= seq![val(e.0), val(e.1)]);
                    assert(val_pairs(m.entries@)[i as int] == (val(e.0), val(e.1)));
                }
                push_value(
                    &mut out,
                    Value::List(
                        List { items: pair, sep: ListSep::Space, bracketed: false, keywords: None },
                    ),
                );
                i += 1;
                proof {
                    assert(all.take(i as int) =~= all.take(i - 1).push(all[i - 1]));
                }
            }
            proof {
                assert(all.take(i as int) =~= all);
            }
            out
        },
        Value::Null => empty_values(),
        other => {
            let ghost o = val(other);
            let mut out = empty_values();
            push_value(&mut out, other);
            proof {
                assert(vals(out@) =~= seq![o]);
            }
            out
        },
    }
}

impl Evaluator {
    /// Set the variables of an `@each` to an item.
    pub fn bind_each(&mut self, vars: &Vec<String>, v: &Value)
        ensures
            final(self)@ == each_set(old(self)@, vars@, val(*v)),
            same_place(old(self)@, final(self)@),
    {
        if vars.len() == 1 {
            self.set_local(vars[0].as_str(), copy_value(v));
            return;
        }
        let elems = match v {
            Value::List(l) => copy_values(&l.items),
            other => {
                let mut out = empty_values();
                push_value(&mut out, copy_value(other));
                proof {
                    assert(vals(out@) =~= seq![val(*other)]);
                }
                out
            },
        };
        let ghost goal = each_set(old(self)@, vars@, val(*v));
        let mut i: usize = 0;
        while i < vars.len()
            invariant
                same_place(old(self)@, self@),
                i <= vars@.len(),
                goal == each_set(old(self)@, vars@, val(*v)),
                each_bound(self@, vars@, vals(elems@), i as int) == goal,
            decreases vars@.len() - i,
        {
            let x = if i < elems.len() {
                copy_value(&elems[i])
            } else {
                Value::Null
            };
            self.set_local(vars[i].as_str(), x);
            i += 1;
        }
    }

    fn whole(&mut self, ans: &Vec<Answer>, n: &Number) -> (r: Result<i64, Stop>)
        ensures
            (match r {
                Ok(i) => Ok(i),
                Err(e) => Err(e@),
            }, final(self)@) == whole(old(self)@, ans@, num(*n)),
            same_place(old(self)@, final(self)@),
    {
        match self.ask_int(ans, request_numbers(Task::Integer, one_bits(n.bits))) {
            Err(x) => Err(x),
            Ok(Some(i)) => Ok(i),
            Ok(None) => match self.plain_css(ans, &Value::Number(n.copy())) {
                Err(x) => Err(x),
                Ok(t) => {
                    let mut m = chars_of(t.as_str());
                    append_str(&mut m, " is not an int.");
                    Err(stop(string_of(m.as_slice()).as_str()))
                },
            },
        }
    }

    fn loop_bounds(&mut self, ans: &Vec<Answer>, a: &Number, b: &Number) -> (r: Result<
        (i64, i64, String),
        Stop,
    >)
        ensures
            (out_bounds(r), final(self)@) == loop_bounds(old(self)@, ans@, num(*a), num(*b)),
            same_place(old(self)@, final(self)@),
    {
        proof {
            reveal(loop_bounds);
        }
        let unit = a.unit();
        let end: u64 = if a.is_unitless() || b.is_unitless() {
            b.bits
        } else {
            let q = request_names(
                Task::ConvertFactor,
                two_names(b.unit().as_str(), unit.as_str()),
            );
            match self.ask_bits(ans, q) {
                Err(x) => {
                    return Err(x);
                },
                Ok(None) => {
                    return match self.plain_css(ans, &Value::Number(b.copy())) {
                        Err(x) => Err(x),
                        Ok(t) => {
                            let mut m = chars_of("Expected ");
                            append_str(&mut m, t.as_str());
                            append_str(&mut m, " to have unit ");
                            append_str(&mut m, unit.as_str());
                            append_str(&mut m, ".");
                            Err(stop(string_of(m.as_slice()).as_str()))
                        },
                    };
                },
                Ok(Some(f)) => match self.ask_bits(
                    ans,
                    request_numbers(Task::Scale, two_bits(b.bits, f)),
                ) {
                    Err(x) => {
                        return Err(x);
                    },
                    Ok(None) => {
                        return Err(Stop::Mismatch);
                    },
                    Ok(Some(x)) => x,
                },
            }
        };
        let i: i64 = match self.whole(ans, a) {
            Ok(i) => i,
            Err(x) => {
                return Err(x);
            },
        };
        match self.whole(ans, &Number::with_unit(end, unit.as_str())) {
            Err(x) => Err(x),
            Ok(j) => Ok((i, j, unit)),
        }
    }

    /// Set a variable of a module's own frame.
    pub fn set_module_var(&mut self, m: usize, name: &str, v: Value)
        ensures
            final(self)@ == module_var_set(old(self)@, m, name@, val(v)),
            same_place(old(self)@, final(self)@),
    {
        proof {
            reveal(ev_of);
        }
        if m < self.modules.len() {
            proof {
                assert(self@.modules[m as int] == self.modules@[m as int]@);
            }
            let frame: usize = self.modules[m].vars;
            self.set_var(frame, name, v);
        }
    }

    /// What the configuration gives a variable.
    pub fn config_entry(&self, name: &str) -> (r: Option<(Value, bool)>)
        ensures
            (match r {
                Some(t) => Some((val(t.0), t.1)),
                None => None,
            }) == configured(self@, name@),
    {
        proof {
            reveal(configured);
        }
        proof {
            reveal(ev_of);
        }
        let key = dash(name);
        let ghost all = settings(self.config.pending@);
        let mut i: usize = 0;
        while i < self.config.pending.len()
            invariant
                i <= self.config.pending@.len(),
                all == settings(self.config.pending@),
                key@ == dashed(name@),
                forall|k: int| 0 <= k < i ==> (#[trigger] all[k]).0 != key@,
            decreases self.config.pending@.len() - i,
        {
            proof {
                reveal(configured);
            }
            proof {
                reveal(ev_of);
            }
            if same_str(self.config.pending[i].0.as_str(), key.as_str()) {
                proof {
                    assert(all[i as int] == (self.config.pending@[i as int].0@, (
                        val((self.config.pending@[i as int].1).0),
                        (self.config.pending@[i as int].1).1,
                    )));
                    lemma_entry_is(all, key@, i as int);
                }
                return Some((copy_value(&self.config.pending[i].1.0), self.config.pending[i].1.1));
            }
            i += 1;
        }
        proof {
            lemma_entry(all, key@);
        }
        None
    }

    fn note_config_use(&mut self, name: &str)
        ensures
            final(self)@ == config_used(old(self)@, name@),
            same_place(old(self)@, final(self)@),
    {
        proof {
            reveal(config_used);
        }
        proof {
            reveal(ev_of);
        }
        push_string(&mut self.config.consumed, dash(name));
    }
}

/// Whether a variable that may have a value already keeps it.
pub fn keeps_value(v: &Option<Value>) -> (r: bool)
    ensures
        r == has_value(opt_val(*v)),
{
    match v {
        None => false,
        Some(Value::Null) => false,
        Some(_) => true,
    }
}

// ---- bodies --------------------------------------------------------------

fn return_nothing(r: Result<(), Stop>) -> (o: Result<Option<Value>, Stop>)
    ensures
        forall|s: Ev| (out_opt(o), s) == nothing_returned((#[trigger] out_unit(r), s)),
{
    match r {
        Ok(()) => Ok(None),
        Err(x) => Err(x),
    }
}

impl Evaluator {
    /// Run a block of a function body.
    pub fn run_fn_block(&mut self, ans: &Vec<Answer>, stmts: &Vec<Stmt>, fuel: usize) -> (r: Result<
        Option<Value>,
        Stop,
    >)
        ensures
            (out_opt(r), final(self)@) == fn_block(old(self)@, ans@, stmts@, fuel as nat),
            same_place(old(self)@, final(self)@),
        decreases fuel, 2nat, 0int,
    {
        if fuel == 0 {
            return Err(Stop::Depth);
        }
        self.run_fn_body(ans, stmts, fuel - 1)
    }

    fn run_fn_body(&mut self, ans: &Vec<Answer>, stmts: &Vec<Stmt>, fuel: usize) -> (r: Result<
        Option<Value>,
        Stop,
    >)
        ensures
            (out_opt(r), final(self)@) == fn_body(old(self)@, ans@, stmts@, 0, fuel as nat),
            same_place(old(self)@, final(self)@),
        decreases fuel, 12nat, stmts@.len(),
    {
        let ghost goal = fn_body(old(self)@, ans@, stmts@, 0, fuel as nat);
        let mut i: usize = 0;
        while i < stmts.len()
            invariant
                same_place(old(self)@, self@),
                i <= stmts@.len(),
                goal == fn_body(old(self)@, ans@, stmts@, 0, fuel as nat),
                fn_body(self@, ans@, stmts@, i as int, fuel as nat) == goal,
            decreases stmts@.len() - i,
        {
            match self.run_fn_stmt(ans, &stmts[i], fuel) {
                Err(x) => {
                    return Err(x);
                },
                Ok(Some(v)) => {
                    return Ok(Some(v));
                },
                Ok(None) => {},
            }
            i += 1;
        }
        Ok(None)
    }

    fn run_fn_stmt(&mut self, ans: &Vec<Answer>, stmt: &Stmt, fuel: usize) -> (r: Result<
        Option<Value>,
        Stop,
    >)
        ensures
            (out_opt(r), final(self)@) == fn_stmt(old(self)@, ans@, *stmt, fuel as nat),
            same_place(old(self)@, final(self)@),
        decreases fuel, 11nat, 0int,
    {
        match stmt {
            Stmt::VarDecl(v) => {
                let r = self.apply_var(ans, v, fuel);
                return_nothing(r)
            },
            Stmt::Comment(..) => Ok(None),
            Stmt::Return(e) => match self.eval_expr(ans, e, fuel) {
                Err(x) => Err(x),
                Ok(v) => Ok(Some(v)),
            },
            Stmt::FunctionDef(c) => {
                let id: usize = self.capture_callable(c);
                self.define_function(c.name.as_str(), id);
                Ok(None)
            },
            Stmt::If(branches) => self.run_fn_branches(ans, branches, fuel),
            Stmt::For { var, from, to, inclusive, body } => self.run_fn_for_stmt(
                ans,
                var.as_str(),
                from,
                to,
                *inclusive,
                body,
                fuel,
            ),
            Stmt::Each { vars, list, body } => self.run_fn_each_stmt(ans, vars, list, body, fuel),
            Stmt::While { cond, body } => self.run_fn_while_stmt(ans, cond, body, fuel),
            Stmt::Warn { value, pos } => {
                let r = self.emit_warn(ans, value, *pos, fuel);
                return_nothing(r)
            },
            Stmt::Debug { value, pos } => {
                let r = self.emit_debug(ans, value, *pos, fuel);
                return_nothing(r)
            },
            Stmt::Error { value, pos, length } => {
                let r = self.emit_error(ans, value, *pos, *length, fuel);
                return_nothing(r)
            },
            _ => Err(
                stop("only variable assignments, control flow and @return are allowed in a function."),
            ),
        }
    }

    fn run_fn_for_stmt(
        &mut self,
        ans: &Vec<Answer>,
        var: &str,
        from: &Expr,
        to: &Expr,
        inclusive: bool,
        body: &Vec<Stmt>,
        fuel: usize,
    ) -> (r: Result<Option<Value>, Stop>)
        ensures
            (out_opt(r), final(self)@) == fn_for_stmt(
                old(self)@,
                ans@,
                var@,
                *from,
                *to,
                inclusive,
                body@,
                fuel as nat,
            ),
            same_place(old(self)@, final(self)@),
        decreases fuel, 10nat, 0int,
    {
        match self.for_bounds(ans, from, to, fuel) {
            Err(x) => Err(x),
            Ok((a, b, unit)) => {
                let ghost outer = self@;
                self.push_scope(true);
                let ks = for_indices(a, b, inclusive);
                let r = self.run_fn_for(ans, var, unit.as_str(), &ks, body, fuel);
                proof {
                    closing_a_scope_restores(outer, true, self@);
                }
                self.pop_scope();
                r
            },
        }
    }

    fn run_fn_each_stmt(
        &mut self,
        ans: &Vec<Answer>,
        vars: &Vec<String>,
        list: &Expr,
        body: &Vec<Stmt>,
        fuel: usize,
    ) -> (r: Result<Option<Value>, Stop>)
        ensures
            (out_opt(r), final(self)@) == fn_each_stmt(
                old(self)@,
                ans@,
                vars@,
                *list,
                body@,
                fuel as nat,
            ),
            same_place(old(self)@, final(self)@),
        decreases fuel, 10nat, 0int,
    {
        match self.eval_expr(ans, list, fuel) {
            Err(x) => Err(x),
            Ok(v) => {
                let ghost outer = self@;
                self.push_scope(true);
                let items = each_items_of(v);
                let r = self.run_fn_each(ans, vars, &items, body, fuel);
                proof {
                    closing_a_scope_restores(outer, true, self@);
                }
                self.pop_scope();
                r
            },
        }
    }

    fn run_fn_while_stmt(&mut self, ans: &Vec<Answer>, cond: &Expr, body: &Vec<Stmt>, fuel: usize) -> (r: Result<
        Option<Value>,
        Stop,
    >)
        ensures
            (out_opt(r), final(self)@) == fn_while_stmt(
                old(self)@,
                ans@,
                *cond,
                body@,
                fuel as nat,
            ),
            same_place(old(self)@, final(self)@),
        decreases fuel, 10nat, 0int,
    {
        let ghost outer = self@;
        self.push_scope(true);
        let r = self.run_fn_while(ans, cond, body, fuel);
        proof {
            closing_a_scope_restores(outer, true, self@);
        }
        self.pop_scope();
        r
    }

    fn run_fn_branches(&mut self, ans: &Vec<Answer>, branches: &Vec<IfBranch>, fuel: usize) -> (r: Result<
        Option<Value>,
        Stop,
    >)
        ensures
            (out_opt(r), final(self)@) == fn_branches(old(self)@, ans@, branches@, 0, fuel as nat),
            same_place(old(self)@, final(self)@),
        decreases fuel, 9nat, branches@.len(),
    {
        let ghost goal = fn_branches(old(self)@, ans@, branches@, 0, fuel as nat);
        let mut i: usize = 0;
        while i < branches.len()
            invariant
                same_place(old(self)@, self@),
                i <= branches@.len(),
                goal == fn_branches(old(self)@, ans@, branches@, 0, fuel as nat),
                fn_branches(self@, ans@, branches@, i as int, fuel as nat) == goal,
            decreases branches@.len() - i,
        {
            match self.branch_taken(ans, &branches[i].cond, fuel) {
                Err(x) => {
                    return Err(x);
                },
                Ok(true) => {
                    let ghost outer = self@;
                    self.push_scope(true);
                    let r = self.run_fn_block(ans, &branches[i].body, fuel);
                    proof {
                        closing_a_scope_restores(outer, true, self@);
                    }
                    self.pop_scope();
                    return r;
                },
                Ok(false) => {},
            }
            i += 1;
        }
        Ok(None)
    }

    /// Whether a branch of an `@if` is taken.
    pub fn branch_taken(&mut self, ans: &Vec<Answer>, cond: &Option<Expr>, fuel: usize) -> (r: Result<
        bool,
        Stop,
    >)
        ensures
            (out_flag(r), final(self)@) == taken(old(self)@, ans@, *cond, fuel as nat),
            same_place(old(self)@, final(self)@),
        decreases fuel, 4nat, 0int,
    {
        match cond {
            None => Ok(true),
            Some(c) => match self.eval_expr(ans, c, fuel) {
                Err(x) => Err(x),
                Ok(v) => Ok(v.is_truthy()),
            },
        }
    }

    fn run_fn_for(
        &mut self,
        ans: &Vec<Answer>,
        var: &str,
        unit: &str,
        ks: &Vec<i64>,
        body: &Vec<Stmt>,
        fuel: usize,
    ) -> (r: Result<Option<Value>, Stop>)
        ensures
            (out_opt(r), final(self)@) == fn_for(
                old(self)@,
                ans@,
                var@,
                unit@,
                as_ints(ks@),
                0,
                body@,
                fuel as nat,
            ),
            same_place(old(self)@, final(self)@),
        decreases fuel, 9nat, ks@.len(),
    {
        let ghost list = as_ints(ks@);
        let ghost goal = fn_for(old(self)@, ans@, var@, unit@, list, 0, body@, fuel as nat);
        let mut k: usize = 0;
        while k < ks.len()
            invariant
                same_place(old(self)@, self@),
                k <= ks@.len(),
                list == as_ints(ks@),
                goal == fn_for(old(self)@, ans@, var@, unit@, list, 0, body@, fuel as nat),
                fn_for(self@, ans@, var@, unit@, list, k as int, body@, fuel as nat) == goal,
            decreases ks@.len() - k,
        {
            let b: u64 = match self.ask_int_bits(ans, ks[k]) {
                Ok(b) => b,
                Err(x) => {
                    return Err(x);
                },
            };
            self.set_local(var, Value::Number(Number::with_unit(b, unit)));
            match self.run_fn_block(ans, body, fuel) {
                Ok(None) => {},
                other => {
                    return other;
                },
            }
            k += 1;
        }
        Ok(None)
    }

    fn run_fn_each(
        &mut self,
        ans: &Vec<Answer>,
        vars: &Vec<String>,
        items: &Vec<Value>,
        body: &Vec<Stmt>,
        fuel: usize,
    ) -> (r: Result<Option<Value>, Stop>)
        ensures
            (out_opt(r), final(self)@) == fn_each(
                old(self)@,
                ans@,
                vars@,
                vals(items@),
                0,
                body@,
                fuel as nat,
            ),
            same_place(old(self)@, final(self)@),
        decreases fuel, 9nat, items@.len(),
    {
        let ghost goal = fn_each(old(self)@, ans@, vars@, vals(items@), 0, body@, fuel as nat);
        let mut k: usize = 0;
        while k < items.len()
            invariant
                same_place(old(self)@, self@),
                k <= items@.len(),
                goal == fn_each(old(self)@, ans@, vars@, vals(items@), 0, body@, fuel as nat),
                fn_each(self@, ans@, vars@, vals(items@), k as int, body@, fuel as nat) == goal,
            decreases items@.len() - k,
        {
            self.bind_each(vars, &items[k]);
            match self.run_fn_block(ans, body, fuel) {
                Ok(None) => {},
                other => {
                    return other;
                },
            }
            k += 1;
        }
        Ok(None)
    }

    fn run_fn_while(&mut self, ans: &Vec<Answer>, cond: &Expr, body: &Vec<Stmt>, fuel: usize) -> (r: Result<
        Option<Value>,
        Stop,
    >)
        ensures
            (out_opt(r), final(self)@) == fn_while(old(self)@, ans@, *cond, body@, 0, fuel as nat),
            same_place(old(self)@, final(self)@),
        decreases fuel, 9nat, while_limit(),
    {
        let ghost goal = fn_while(old(self)@, ans@, *cond, body@, 0, fuel as nat);
        let mut k: usize = 0;
        while k < 100000
            invariant
                same_place(old(self)@, self@),
                k < 100000,
                goal == fn_while(old(self)@, ans@, *cond, body@, 0, fuel as nat),
                fn_while(self@, ans@, *cond, body@, k as int, fuel as nat) == goal,
            decreases 100000 - k,
        {
            match self.eval_expr(ans, cond, fuel) {
                Err(x) => {
                    return Err(x);
                },
                Ok(v) => {
                    if !v.is_truthy() {
                        return Ok(None);
                    }
                },
            }
            match self.run_fn_block(ans, body, fuel) {
                Ok(None) => {},
                other => {
                    return other;
                },
            }
            if k + 1 >= 100000 {
                return Err(stop("@while exceeded 100000 iterations"));
            }
            k += 1;
        }
        Ok(None)
    }

    /// The bounds of a `@for`, and the unit of its variable.
    pub fn for_bounds(&mut self, ans: &Vec<Answer>, from: &Expr, to: &Expr, fuel: usize) -> (r: Result<
        (i64, i64, String),
        Stop,
    >)
        ensures
            (out_bounds(r), final(self)@) == for_bounds(old(self)@, ans@, *from, *to, fuel as nat),
            same_place(old(self)@, final(self)@),
        decreases fuel, 6nat, 0int,
    {
        let a = match self.for_number(ans, from, fuel) {
            Ok(n) => n,
            Err(x) => {
                return Err(x);
            },
        };
        let b = match self.for_number(ans, to, fuel) {
            Ok(n) => n,
            Err(x) => {
                return Err(x);
            },
        };
        self.loop_bounds(ans, &a, &b)
    }

    fn for_number(&mut self, ans: &Vec<Answer>, e: &Expr, fuel: usize) -> (r: Result<Number, Stop>)
        ensures
            (out_number(r), final(self)@) == for_number(old(self)@, ans@, *e, fuel as nat),
            same_place(old(self)@, final(self)@),
        decreases fuel, 5nat, 0int,
    {
        match self.eval_expr(ans, e, fuel) {
            Err(x) => Err(x),
            Ok(Value::Number(n)) => Ok(n),
            Ok(other) => match self.ask_text(ans, request_value(Task::TypeName, &other)) {
                Err(x) => Err(x),
                Ok(t) => {
                    let mut m = chars_of(t.as_str());
                    append_str(&mut m, " is not a number.");
                    Err(stop(string_of(m.as_slice()).as_str()))
                },
            },
        }
    }

    /// `@warn`.
    pub fn emit_warn(&mut self, ans: &Vec<Answer>, value: &Expr, pos: Pos, fuel: usize) -> (r: Result<(), Stop>)
        ensures
            (out_unit(r), final(self)@) == warn(old(self)@, ans@, *value, pos, fuel as nat),
            same_place(old(self)@, final(self)@),
        decreases fuel, 8nat, 0int,
    {
        let v = match self.eval_expr(ans, value, fuel) {
            Ok(v) => v,
            Err(x) => {
                return Err(x);
            },
        };
        match self.ask_text(ans, request_value(Task::Message, &v)) {
            Err(x) => Err(x),
            Ok(t) => {
                self.log_warning(t.as_str(), pos);
                Ok(())
            },
        }
    }

    /// `@debug`.
    pub fn emit_debug(&mut self, ans: &Vec<Answer>, value: &Expr, pos: Pos, fuel: usize) -> (r: Result<
        (),
        Stop,
    >)
        ensures
            (out_unit(r), final(self)@) == debug(old(self)@, ans@, *value, pos, fuel as nat),
            same_place(old(self)@, final(self)@),
        decreases fuel, 8nat, 0int,
    {
        let v = match self.eval_expr(ans, value, fuel) {
            Ok(v) => v,
            Err(x) => {
                return Err(x);
            },
        };
        match self.ask_text(ans, request_value(Task::Message, &v)) {
            Err(x) => Err(x),
            Ok(t) => {
                self.log_debug(t.as_str(), pos);
                Ok(())
            },
        }
    }

    /// `@error`.
    pub fn emit_error(&mut self, ans: &Vec<Answer>, value: &Expr, pos: Pos, length: usize, fuel: usize) -> (r: Result<
        (),
        Stop,
    >)
        ensures
            (out_unit(r), final(self)@) == raise(old(self)@, ans@, *value, pos, length, fuel as nat),
            same_place(old(self)@, final(self)@),
        decreases fuel, 8nat, 0int,
    {
        let v = match self.eval_expr(ans, value, fuel) {
            Ok(v) => v,
            Err(x) => {
                return Err(x);
            },
        };
        match self.ask_text(ans, request_value(Task::ErrorMessage, &v)) {
            Err(x) => Err(x),
            Ok(t) => Err(Stop::Error(self.build_error(t.as_str(), pos, length))),
        }
    }

    // ---- variables -------------------------------------------------------

    /// A variable declaration.
    pub fn apply_var(&mut self, ans: &Vec<Answer>, v: &VarDecl, fuel: usize) -> (r: Result<(), Stop>)
        ensures
            (out_unit(r), final(self)@) == declare(old(self)@, ans@, *v, fuel as nat),
            same_place(old(self)@, final(self)@),
        decreases fuel, 9nat, 0int,
    {
        if let Some(ns) = &v.namespace {
            return self.assign_module_var(ans, ns.as_str(), v, fuel);
        }
        if v.is_default && self.scope_count() == 1 {
            self.apply_default_var(ans, v, fuel)
        } else {
            self.apply_written_var(ans, v, fuel)
        }
    }

    fn apply_default_var(&mut self, ans: &Vec<Answer>, v: &VarDecl, fuel: usize) -> (r: Result<(), Stop>)
        ensures
            (out_unit(r), final(self)@) == declare_default(old(self)@, ans@, *v, fuel as nat),
            same_place(old(self)@, final(self)@),
        decreases fuel, 8nat, 0int,
    {
        let name = v.name.as_str();
        let here = self.lookup(name);
        if here.is_none() && self.star_member_count(name, MemberKind::Variable) > 1 {
            return Err(stop("This variable is available from multiple global modules."));
        }
        match self.config_entry(name) {
            None => self.apply_written_var(ans, v, fuel),
            Some((c, guarded)) => {
                self.note_config_use(name);
                if matches!(&c, Value::Null) || (guarded && keeps_value(&here)) {
                    return self.apply_written_var(ans, v, fuel);
                }
                self.set_global(name, c);
                Ok(())
            },
        }
    }

    fn apply_written_var(&mut self, ans: &Vec<Answer>, v: &VarDecl, fuel: usize) -> (r: Result<(), Stop>)
        ensures
            (out_unit(r), final(self)@) == declare_value(old(self)@, ans@, *v, fuel as nat),
            same_place(old(self)@, final(self)@),
        decreases fuel, 7nat, 0int,
    {
        let name = v.name.as_str();
        let value = match self.eval_expr(ans, &v.value, fuel) {
            Ok(x) => x,
            Err(x) => {
                return Err(x);
            },
        };
        if v.is_default && keeps_value(&self.lookup(name)) {
            return Ok(());
        }
        if self.scope_count() == 1 || v.is_global {
            if self.lacks_global(name) {
                let hits = self.star_hits(name, MemberKind::Variable);
                if hits.len() == 1 {
                    if v.is_default && keeps_value(&self.module_var(hits[0], name)) {
                        return Ok(());
                    }
                    self.set_module_var(hits[0], name, value);
                    return Ok(());
                }
            }
        }
        if v.is_global {
            self.set_global(name, value);
        } else {
            self.assign(name, value);
        }
        Ok(())
    }

    fn lacks_global(&self, name: &str) -> (r: bool)
        ensures
            r == (self@.chain.scopes.len() > 0 && get(frame(self@, self@.chain.scopes[0]), name@) is None),
    {
        proof {
            reveal(ev_of);
        }
        if self.chain.scopes.len() == 0 {
            return false;
        }
        let i: usize = self.chain.scopes[0];
        if i >= self.frames.len() {
            return true;
        }
        get_var(&self.frames[i], name).is_none()
    }

    fn assign_module_var(&mut self, ans: &Vec<Answer>, ns: &str, v: &VarDecl, fuel: usize) -> (r: Result<
        (),
        Stop,
    >)
        ensures
            (out_unit(r), final(self)@) == declare_in(old(self)@, ans@, ns@, *v, fuel as nat),
            same_place(old(self)@, final(self)@),
        decreases fuel, 7nat, 0int,
    {
        let name = v.name.as_str();
        if is_private_member(name) {
            return Err(stop("Private members can't be accessed from outside their modules."));
        }
        let m: usize = match self.used_module(ns) {
            Some(m) => m,
            None => {
                if self.used_builtin(ns).is_some() {
                    return Err(stop("Cannot modify built-in variable."));
                }
                return Err(stop(no_namespace_message(ns).as_str()));
            },
        };
        let (t, other) = self.var_write_origin(m, name);
        let existing = self.module_var(t, other.as_str());
        if existing.is_none() {
            return Err(stop("Undefined variable."));
        }
        if v.is_default && keeps_value(&existing) {
            return Ok(());
        }
        match self.eval_expr(ans, &v.value, fuel) {
            Err(x) => Err(x),
            Ok(value) => {
                self.set_module_var(t, other.as_str(), value.without_slash());
                Ok(())
            },
        }
    }
}

// ---- if() ----------------------------------------------------------------

/// An argument of `if()`.
#[derive(Debug)]
pub enum IfArg<'a> {
    Lazy(&'a Expr),
    Eager(Value),
}

pub open spec fn branch(a: IfArg<'_>) -> Branch {
    match a {
        IfArg::Lazy(e) => Branch::Lazy(*e),
        IfArg::Eager(v) => Branch::Eager(val(v)),
    }
}

pub open spec fn opt_branch(a: Option<IfArg<'_>>) -> Option<Branch> {
    match a {
        Some(b) => Some(branch(b)),
        None => None,
    }
}

pub open spec fn branch_seq(v: Seq<IfArg<'_>>) -> Seq<Branch> {
    Seq::new(v.len(), |i: int| branch(v[i]))
}

/// The arguments of `if()`: by position, and by slot.
#[derive(Debug)]
pub struct IfArgs<'a> {
    pub by_pos: Vec<IfArg<'a>>,
    pub condition: Option<IfArg<'a>>,
    pub if_true: Option<IfArg<'a>>,
    pub if_false: Option<IfArg<'a>>,
}

pub open spec fn branches(a: IfArgs<'_>) -> Branches {
    Branches {
        by_pos: branch_seq(a.by_pos@),
        slots: seq![opt_branch(a.condition), opt_branch(a.if_true), opt_branch(a.if_false)],
    }
}

pub open spec fn out_branches(r: Result<IfArgs<'_>, Stop>) -> Result<Branches, Halt> {
    match r {
        Ok(a) => Ok(branches(a)),
        Err(e) => Err(e@),
    }
}

/// Put an argument of `if()` into the slot of its name.
fn put_slot<'a>(args: IfArgs<'a>, name: &str, v: IfArg<'a>, pos: Pos) -> (r: Result<IfArgs<'a>, Stop>)
    ensures
        forall|s: Ev| (out_branches(r), s) == #[trigger] with_slot(s, branches(args), name@, branch(v), pos),
{
    let mut a = args;
    let ghost b = branches(args);
    let ghost w = Some(branch(v));
    if same_str(name, "condition") {
        a.condition = Some(v);
        proof {
            assert(branches(a).slots =~= b.slots.update(0, w));
        }
        return Ok(a);
    }
    if same_str(name, "if-true") {
        a.if_true = Some(v);
        proof {
            assert(branches(a).slots =~= b.slots.update(1, w));
        }
        return Ok(a);
    }
    if same_str(name, "if-false") {
        a.if_false = Some(v);
        proof {
            assert(branches(a).slots =~= b.slots.update(2, w));
        }
        return Ok(a);
    }
    let mut m = chars_of("if() has no argument named $");
    append_str(&mut m, name);
    append_str(&mut m, ".");
    Err(stop_at(string_of(m.as_slice()).as_str(), pos))
}

fn push_branch<'a>(args: IfArgs<'a>, v: IfArg<'a>) -> (r: IfArgs<'a>)
    ensures
        branches(r) == (Branches {
            by_pos: branches(args).by_pos.push(branch(v)),
            ..branches(args)
        }),
{
    let mut a = args;
    let ghost b = branch(v);
    a.by_pos.push(v);
    proof {
        assert(branches(a).by_pos =~= branches(args).by_pos.push(b));
    }
    a
}

impl Evaluator {
    #[verifier::loop_isolation(false)]
    fn spread_if_keywords<'a>(&mut self, args: IfArgs<'a>, kw: &Vec<(Value, Value)>, pos: Pos) -> (r: Result<
        IfArgs<'a>,
        Stop,
    >)
        ensures
            (out_branches(r), final(self)@) == with_if_keywords(
                old(self)@,
                branches(args),
                val_pairs(kw@),
                0,
                pos,
            ),
            same_place(old(self)@, final(self)@),
    {
        let ghost goal = with_if_keywords(self@, branches(args), val_pairs(kw@), 0, pos);
        let mut a = args;
        let mut i: usize = 0;
        while i < kw.len()
            invariant
                same_place(old(self)@, self@),
                i <= kw@.len(),
                self@ == old(self)@,
                with_if_keywords(self@, branches(a), val_pairs(kw@), i as int, pos) == goal,
            decreases kw@.len() - i,
        {
            proof {
                let e = kw@[i as int];
                assert(val_pairs(kw@)[i as int] == (val(e.0), val(e.1)));
            }
            if let Value::Str(t) = &kw[i].0 {
                let ghost before = branches(a);
                match put_slot(a, t.text.as_str(), IfArg::Eager(copy_value(&kw[i].1)), pos) {
                    Ok(b) => {
                        a = b;
                    },
                    Err(x) => {
                        proof {
                            assert((Err::<Branches, Halt>(x@), self@) == with_slot(
                                self@,
                                before,
                                t.text@,
                                Branch::Eager(val(kw@[i as int].1)),
                                pos,
                            ));
                        }
                        return Err(x);
                    },
                }
                proof {
                    assert((Ok::<Branches, Halt>(branches(a)), self@) == with_slot(
                        self@,
                        before,
                        t.text@,
                        Branch::Eager(val(kw@[i as int].1)),
                        pos,
                    ));
                }
            }
            i += 1;
        }
        Ok(a)
    }

    #[verifier::loop_isolation(false)]
    fn spread_if_map<'a>(&mut self, ans: &Vec<Answer>, args: IfArgs<'a>, m: &Vec<(Value, Value)>, pos: Pos) -> (r: Result<
        IfArgs<'a>,
        Stop,
    >)
        ensures
            (out_branches(r), final(self)@) == with_if_map(
                old(self)@,
                ans@,
                branches(args),
                val_pairs(m@),
                0,
                pos,
            ),
            same_place(old(self)@, final(self)@),
    {
        let ghost goal = with_if_map(self@, ans@, branches(args), val_pairs(m@), 0, pos);
        let mut a = args;
        let mut i: usize = 0;
        while i < m.len()
            invariant
                same_place(old(self)@, self@),
                i <= m@.len(),
                self@ == old(self)@,
                with_if_map(self@, ans@, branches(a), val_pairs(m@), i as int, pos) == goal,
            decreases m@.len() - i,
        {
            proof {
                let e = m@[i as int];
                assert(val_pairs(m@)[i as int] == (val(e.0), val(e.1)));
            }
            match &m[i].0 {
                Value::Str(t) => {
                    let ghost before = branches(a);
                    match put_slot(a, t.text.as_str(), IfArg::Eager(copy_value(&m[i].1)), pos) {
                        Ok(b) => {
                            a = b;
                        },
                        Err(x) => {
                            proof {
                                assert((Err::<Branches, Halt>(x@), self@) == with_slot(
                                    self@,
                                    before,
                                    t.text@,
                                    Branch::Eager(val(m@[i as int].1)),
                                    pos,
                                ));
                            }
                            return Err(x);
                        },
                    }
                    proof {
                        assert((Ok::<Branches, Halt>(branches(a)), self@) == with_slot(
                            self@,
                            before,
                            t.text@,
                            Branch::Eager(val(m@[i as int].1)),
                            pos,
                        ));
                    }
                },
                k => {
                    return Err(
                        self.wrong_type(
                            ans,
                            "Variable keyword argument map must have string keys.\n",
                            k,
                            " is not a string.",
                            pos,
                        ),
                    );
                },
            }
            i += 1;
        }
        Ok(a)
    }

    fn spread_if<'a>(&mut self, ans: &Vec<Answer>, args: IfArgs<'a>, v: Value, pos: Pos) -> (r: Result<
        IfArgs<'a>,
        Stop,
    >)
        ensures
            (out_branches(r), final(self)@) == with_if_spread(
                old(self)@,
                ans@,
                branches(args),
                val(v),
                pos,
            ),
            same_place(old(self)@, final(self)@),
    {
        proof {
            reveal(with_if_spread);
        }
        match v {
            Value::List(l) => {
                let kw = match l.keywords {
                    Some(k) => k,
                    None => {
                        let none: Vec<(Value, Value)> = Vec::new();
                        proof {
                            assert(val_pairs(none@) =~= Seq::empty());
                        }
                        none
                    },
                };
                let mut a = match self.spread_if_keywords(args, &kw, pos) {
                    Ok(a) => a,
                    Err(x) => {
                        return Err(x);
                    },
                };
                let items = l.items;
                let ghost b1 = branches(a);
                let ghost all = eager(vals(items@));
                let mut i: usize = 0;
                proof {
                    assert(b1.by_pos + all.take(0) =~= b1.by_pos);
                }
                while i < items.len()
                    invariant
                        same_place(old(self)@, self@),
                        i <= items@.len(),
                        all == eager(vals(items@)),
                        branches(a) == (Branches { by_pos: b1.by_pos + all.take(i as int), ..b1 }),
                    decreases items@.len() - i,
                {
                    proof {
                        reveal(with_if_spread);
                    }
                    a = push_branch(a, IfArg::Eager(copy_value(&items[i])));
                    i += 1;
                    proof {
                        assert(b1.by_pos + all.take(i as int) =~= (b1.by_pos + all.take(i - 1)).push(
                            all[i - 1],
                        ));
                    }
                }
                proof {
                    assert(all.take(i as int) =~= all);
                }
                Ok(a)
            },
            Value::Pairs(m) => self.spread_if_map(ans, args, &m.entries, pos),
            other => Ok(push_branch(args, IfArg::Eager(other))),
        }
    }

    /// `if()` with three arguments.
    pub fn eval_if_function(&mut self, ans: &Vec<Answer>, args: &Vec<CallArg>, pos: Pos, fuel: usize) -> (r: Result<
        Value,
        Stop,
    >)
        ensures
            (out_val(r), final(self)@) == if_function(old(self)@, ans@, args@, pos, fuel as nat),
            same_place(old(self)@, final(self)@),
        decreases fuel, 20nat, 0int,
    {
        let a = match self.eval_if_args(ans, args, pos, fuel) {
            Ok(a) => a,
            Err(x) => {
                return Err(x);
            },
        };
        let (c, t, f) = match fill_slots(a) {
            Some(x) => x,
            None => {
                return Err(
                    stop_at("if() requires arguments $condition, $if-true, $if-false.", pos),
                );
            },
        };
        let v = match self.eval_branch(ans, c, fuel) {
            Ok(v) => v,
            Err(x) => {
                return Err(x);
            },
        };
        let chosen = if v.is_truthy() {
            t
        } else {
            f
        };
        match self.eval_branch(ans, chosen, fuel) {
            Err(x) => Err(x),
            Ok(w) => Ok(w.without_slash()),
        }
    }

    fn eval_if_args<'a>(&mut self, ans: &Vec<Answer>, args: &'a Vec<CallArg>, pos: Pos, fuel: usize) -> (r: Result<
        IfArgs<'a>,
        Stop,
    >)
        ensures
            (out_branches(r), final(self)@) == if_args(
                old(self)@,
                ans@,
                args@,
                0,
                no_branches(),
                pos,
                fuel as nat,
            ),
            same_place(old(self)@, final(self)@),
        decreases fuel, 1nat, args@.len(),
    {
        let ghost goal = if_args(old(self)@, ans@, args@, 0, no_branches(), pos, fuel as nat);
        let mut a = IfArgs { by_pos: Vec::new(), condition: None, if_true: None, if_false: None };
        let mut i: usize = 0;
        proof {
            assert(branches(a).by_pos =~= no_branches().by_pos);
            assert(branches(a).slots =~= no_branches().slots);
        }
        while i < args.len()
            invariant
                same_place(old(self)@, self@),
                i <= args@.len(),
                goal == if_args(old(self)@, ans@, args@, 0, no_branches(), pos, fuel as nat),
                if_args(self@, ans@, args@, i as int, branches(a), pos, fuel as nat) == goal,
            decreases args@.len() - i,
        {
            if args[i].splat {
                let v = match self.eval_expr(ans, &args[i].value, fuel) {
                    Ok(v) => v,
                    Err(x) => {
                        return Err(x);
                    },
                };
                match self.spread_if(ans, a, v, pos) {
                    Ok(b) => {
                        a = b;
                    },
                    Err(x) => {
                        return Err(x);
                    },
                }
            } else {
                match &args[i].name {
                    None => {
                        a = push_branch(a, IfArg::Lazy(&args[i].value));
                    },
                    Some(n) => {
                        let ghost before = branches(a);
                        match put_slot(a, n.as_str(), IfArg::Lazy(&args[i].value), pos) {
                            Ok(b) => {
                                a = b;
                            },
                            Err(x) => {
                                proof {
                                    assert((Err::<Branches, Halt>(x@), self@) == with_slot(
                                        self@,
                                        before,
                                        n@,
                                        Branch::Lazy(args@[i as int].value),
                                        pos,
                                    ));
                                }
                                return Err(x);
                            },
                        }
                        proof {
                            assert((Ok::<Branches, Halt>(branches(a)), self@) == with_slot(
                                self@,
                                before,
                                n@,
                                Branch::Lazy(args@[i as int].value),
                                pos,
                            ));
                        }
                    },
                }
            }
            i += 1;
        }
        Ok(a)
    }

    fn eval_branch<'a>(&mut self, ans: &Vec<Answer>, b: IfArg<'a>, fuel: usize) -> (r: Result<Value, Stop>)
        ensures
            (out_val(r), final(self)@) == branch_value(old(self)@, ans@, branch(b), fuel as nat),
            same_place(old(self)@, final(self)@),
        decreases fuel, 1nat, 0int,
    {
        match b {
            IfArg::Lazy(e) => self.eval_expr(ans, e, fuel),
            IfArg::Eager(v) => Ok(v),
        }
    }
}

pub open spec fn opt_branches(o: Option<(IfArg<'_>, IfArg<'_>, IfArg<'_>)>) -> Option<
    (Branch, Branch, Branch),
> {
    match o {
        Some(t) => Some((branch(t.0), branch(t.1), branch(t.2))),
        None => None,
    }
}

fn copy_branch<'a>(v: &Vec<IfArg<'a>>, i: usize) -> (r: IfArg<'a>)
    requires
        i < v@.len(),
    ensures
        branch(r) == branch_seq(v@)[i as int],
{
    match &v[i] {
        IfArg::Lazy(e) => IfArg::Lazy(*e),
        IfArg::Eager(v) => IfArg::Eager(copy_value(v)),
    }
}

fn fill_slots<'a>(a: IfArgs<'a>) -> (r: Option<(IfArg<'a>, IfArg<'a>, IfArg<'a>)>)
    ensures
        opt_branches(r) == filled(branches(a)),
{
    proof {
        reveal(filled);
    }
    let n: usize = a.by_pos.len();
    let k1: usize = if a.condition.is_some() {
        0
    } else {
        1
    };
    let k2: usize = if a.if_true.is_some() {
        k1
    } else {
        k1 + 1
    };
    let k3: usize = if a.if_false.is_some() {
        k2
    } else {
        k2 + 1
    };
    if k3 > n {
        return None;
    }
    let c = match a.condition {
        Some(c) => c,
        None => copy_branch(&a.by_pos, 0),
    };
    let t = match a.if_true {
        Some(t) => t,
        None => copy_branch(&a.by_pos, k1),
    };
    let f = match a.if_false {
        Some(f) => f,
        None => copy_branch(&a.by_pos, k2),
    };
    Some((c, t, f))
}

} // verus!
