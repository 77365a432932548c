//! Evaluation of expressions.

use vstd::prelude::*;
use crate::ast::{BinOp, CallArg, Expr, IfClause, IfCond, TplPiece};
use crate::at_root::{split_whitespace, words};
use crate::cond::{
    CondEval, Outcome, RCond, collapse_condition, combine_residuals, outcome, rest, rests,
};
use crate::env::opt_texts;
use crate::error::Pos;
use crate::eval::{Evaluator, ev_of, out_flag, out_text, out_val, same_place, stop, stop_at};
use crate::host::{Answer, Halt, Stop, Task, request_value, request_values};
use crate::names::is_complete_calculation;
use crate::sem::{
    any_named, calc_value, calc_value_text, call_text, holds_key, if_value_text,
    interpolated_string, parent_value, selector_vals, settle, space_list, word_vals,
};
use crate::semantics::{
    arg_texts, css_call, eval, eval_inner, eval_list, eval_pairs, if_cond, if_cond_inner,
    if_operands, if_value, modern_if, quiet_template, template,
};
use crate::text::{append, append_str, chars_of, join, rows, string_of, texts};
use crate::value::{
    CalcNode, Color, List, ListSep, Number, SassMap, SassStr, Val, Value, cal, push_pair,
    push_value, val, val_pairs, vals, word,
};

verus! {

broadcast use crate::kept::group_kept;

pub open spec fn out_vals(r: Result<Vec<Value>, Stop>) -> Result<Seq<Val>, Halt> {
    match r {
        Ok(v) => Ok(vals(v@)),
        Err(e) => Err(e@),
    }
}

pub open spec fn out_pairs(r: Result<Vec<(Value, Value)>, Stop>) -> Result<Seq<(Val, Val)>, Halt> {
    match r {
        Ok(v) => Ok(val_pairs(v@)),
        Err(e) => Err(e@),
    }
}

pub open spec fn out_texts(r: Result<Vec<String>, Stop>) -> Result<Seq<Seq<char>>, Halt> {
    match r {
        Ok(v) => Ok(texts(v@)),
        Err(e) => Err(e@),
    }
}

/// Append a string to a list.
pub fn push_string(out: &mut Vec<String>, s: String)
    ensures
        texts(final(out)@) == texts(old(out)@).push(s@),
{
    out.push(s);
    proof {
        assert(texts(final(out)@) =~= texts(old(out)@).push(s@));
    }
}

pub fn empty_strings() -> (r: Vec<String>)
    ensures
        texts(r@) == Seq::<Seq<char>>::empty(),
{
    let r: Vec<String> = Vec::new();
    proof {
        assert(texts(r@) =~= Seq::empty());
    }
    r
}

pub fn empty_values() -> (r: Vec<Value>)
    ensures
        vals(r@) == Seq::<Val>::empty(),
{
    let r: Vec<Value> = Vec::new();
    proof {
        assert(vals(r@) =~= Seq::empty());
    }
    r
}

/// A call as text.
pub fn write_call(name: &str, parts: &Vec<String>) -> (r: String)
    ensures
        r@ == call_text(name@, texts(parts@)),
{
    let mut t = chars_of(name);
    t.push('(');
    append(&mut t, join(parts, ", ").as_slice());
    append_str(&mut t, ")");
    string_of(t.as_slice())
}

fn word_list(sel: &str) -> (r: Value)
    ensures
        val(r) == space_list(word_vals(words(sel@))),
{
    let chars = chars_of(sel);
    let ws = split_whitespace(chars.as_slice());
    let ghost all = word_vals(words(sel@));
    let mut items = empty_values();
    let mut i: usize = 0;
    while i < ws.len()
        invariant
            i <= ws@.len(),
            rows(ws@) == words(sel@),
            all == word_vals(words(sel@)),
            vals(items@) =~= all.take(i as int),
        decreases ws@.len() - i,
    {
        push_value(&mut items, word(string_of(ws[i].as_slice())));
        i += 1;
        proof {
            assert(rows(ws@)[i - 1] == ws@[i - 1]@);
            assert(all.take(i as int) =~= all.take(i - 1).push(all[i - 1]));
        }
    }
    proof {
        assert(all.take(i as int) =~= all);
    }
    Value::List(List { items, sep: ListSep::Space, bracketed: false, keywords: None })
}

impl Evaluator {
    /// The value of `&`.
    pub fn parent_selector_value(&self) -> (r: Value)
        ensures
            val(r) == parent_value(self@),
    {
        proof {
            reveal(parent_value);
        }
        proof {
            reveal(ev_of);
        }
        match &self.selector {
            None => Value::Null,
            Some(sels) => {
                if sels.len() == 0 {
                    return Value::Null;
                }
                let ghost all = selector_vals(texts(sels@));
                let mut items = empty_values();
                let mut i: usize = 0;
                while i < sels.len()
                    invariant
                        i <= sels@.len(),
                        all == selector_vals(texts(sels@)),
                        vals(items@) =~= all.take(i as int),
                    decreases sels@.len() - i,
                {
                    proof {
                        reveal(parent_value);
                    }
                    proof {
                        reveal(ev_of);
                    }
                    push_value(&mut items, word_list(sels[i].as_str()));
                    i += 1;
                    proof {
                        assert(all.take(i as int) =~= all.take(i - 1).push(all[i - 1]));
                    }
                }
                proof {
                    assert(all.take(i as int) =~= all);
                }
                Value::List(List { items, sep: ListSep::Comma, bracketed: false, keywords: None })
            },
        }
    }

    fn settle_value(&self, r: Result<Value, Stop>) -> (o: Result<Value, Stop>)
        ensures
            (out_val(o), self@) == settle((out_val(r), self@)),
    {
        match r {
            Ok(v) => Ok(v),
            Err(Stop::Error(e)) => Err(Stop::Error(self.finalize_error(e))),
            Err(e) => Err(e),
        }
    }

    /// The value of an expression. Evaluation is at the same place after it as before it.
    pub fn eval_expr(&mut self, ans: &Vec<Answer>, e: &Expr, fuel: usize) -> (r: Result<Value, Stop>)
        ensures
            (out_val(r), final(self)@) == eval(old(self)@, ans@, *e, fuel as nat),
            same_place(old(self)@, final(self)@),
        decreases fuel, 0nat, 0int,
    {
        if fuel == 0 {
            return Err(Stop::Depth);
        }
        let r = self.eval_expr_inner(ans, e, fuel - 1);
        self.settle_value(r)
    }

    fn eval_expr_inner(&mut self, ans: &Vec<Answer>, e: &Expr, fuel: usize) -> (r: Result<Value, Stop>)
        ensures
            (out_val(r), final(self)@) == eval_inner(old(self)@, ans@, *e, fuel as nat),
            same_place(old(self)@, final(self)@),
        decreases fuel, 40nat, 0int,
    {
        match e {
            Expr::Number(bits, unit) => Ok(Value::Number(Number::with_unit(*bits, unit.as_str()))),
            Expr::Color(c) => Ok(Value::Color(*c)),
            Expr::Bool(b) => Ok(Value::Bool(*b)),
            Expr::Null => Ok(Value::Null),
            Expr::Parent => Ok(self.parent_selector_value()),
            Expr::Var { name, pos } => self.eval_variable(ans, name.as_str(), *pos),
            Expr::NsVar { module, name } => self.eval_module_var(
                ans,
                module.as_str(),
                name.as_str(),
                Pos { line: 1, col: 1 },
            ),
            Expr::QuotedString(pieces) => match self.eval_quiet_template(ans, pieces, fuel) {
                Err(x) => Err(x),
                Ok(text) => Ok(Value::Str(SassStr { text, quoted: true })),
            },
            Expr::Ident(pieces) => match self.eval_quiet_template(ans, pieces, fuel) {
                Err(x) => Err(x),
                Ok(text) => Ok(word(text)),
            },
            _ => self.eval_composite(ans, e, fuel),
        }
    }

    fn eval_composite(&mut self, ans: &Vec<Answer>, e: &Expr, fuel: usize) -> (r: Result<Value, Stop>)
        requires
            is_composite(*e),
        ensures
            (out_val(r), final(self)@) == eval_inner(old(self)@, ans@, *e, fuel as nat),
            same_place(old(self)@, final(self)@),
        decreases fuel, 39nat, 0int,
    {
        match e {
            Expr::Interp(inner) => self.eval_interp(ans, e, inner, fuel),
            Expr::ModernIf(clauses) => self.eval_modern_if(ans, clauses, fuel),
            Expr::Paren(inner) => match self.eval_expr(ans, inner, fuel) {
                Err(x) => Err(x),
                Ok(v) => Ok(v.without_slash()),
            },
            Expr::List { items, sep, bracketed } => match self.eval_items(ans, items, fuel) {
                Err(x) => Err(x),
                Ok(vs) => Ok(
                    Value::List(List { items: vs, sep: *sep, bracketed: *bracketed, keywords: None }),
                ),
            },
            Expr::Pairs(entries) => match self.eval_entries(ans, entries, fuel) {
                Err(x) => Err(x),
                Ok(entries) => Ok(Value::Pairs(SassMap { entries })),
            },
            Expr::Unary { op, operand } => match self.eval_expr(ans, operand, fuel) {
                Err(x) => Err(x),
                Ok(v) => self.eval_unary(ans, *op, v.without_slash()),
            },
            Expr::Binary { op, lhs, rhs, pos } => self.eval_operation(
                ans,
                e,
                *op,
                lhs,
                rhs,
                *pos,
                fuel,
            ),
            Expr::Div { lhs, rhs, slash, pos } => match self.eval_expr(ans, lhs, fuel) {
                Err(x) => Err(x),
                Ok(l) => match self.eval_expr(ans, rhs, fuel) {
                    Err(x) => Err(x),
                    Ok(r) => self.eval_div(ans, &l, &r, *slash, *pos),
                },
            },
            Expr::Calc { inner } => match self.eval_calc(ans, inner, fuel) {
                Err(x) => Err(x),
                Ok(c) => Ok(self.calc_value(c)),
            },
            Expr::InterpFunc { name, args, pos } => match self.eval_template(ans, name, fuel) {
                Err(x) => Err(x),
                Ok(fname) => {
                    if holds_named(args) {
                        return Err(
                            stop_at("Plain CSS functions don't support keyword arguments.", *pos),
                        );
                    }
                    self.eval_css_call(ans, fname.as_str(), args, fuel)
                },
            },
            Expr::Func { name, args, pos, length, module } => match module {
                Some(ns) => self.eval_module_call(
                    ans,
                    ns.as_str(),
                    name.as_str(),
                    args,
                    *pos,
                    *length,
                    fuel,
                ),
                None => self.eval_function(ans, name.as_str(), args, *pos, *length, fuel),
            },
            _ => Ok(Value::Null),
        }
    }

    fn eval_interp(&mut self, ans: &Vec<Answer>, e: &Expr, inner: &Box<Expr>, fuel: usize) -> (r: Result<
        Value,
        Stop,
    >)
        requires
            *e == Expr::Interp(*inner),
        ensures
            (out_val(r), final(self)@) == eval_inner(old(self)@, ans@, *e, fuel as nat),
            same_place(old(self)@, final(self)@),
        decreases fuel, 38nat, 0int,
    {
        proof {
            reveal(interpolated_string);
        }
        let saved = self.in_supports();
        self.set_supports(false);
        let r = self.eval_expr(ans, inner, fuel);
        self.set_supports(saved);
        match r {
            Err(x) => Err(x),
            Ok(v) => match self.ask_text(ans, request_value(Task::Interp, &v)) {
                Err(x) => Err(x),
                Ok(t) => Ok(word(t)),
            },
        }
    }

    fn eval_operation(
        &mut self,
        ans: &Vec<Answer>,
        e: &Expr,
        op: BinOp,
        lhs: &Box<Expr>,
        rhs: &Box<Expr>,
        pos: Pos,
        fuel: usize,
    ) -> (r: Result<Value, Stop>)
        requires
            *e == (Expr::Binary { op, lhs: *lhs, rhs: *rhs, pos }),
        ensures
            (out_val(r), final(self)@) == eval_inner(old(self)@, ans@, *e, fuel as nat),
            same_place(old(self)@, final(self)@),
        decreases fuel, 38nat, 0int,
    {
        let l = match self.eval_expr(ans, lhs, fuel) {
            Ok(l) => l,
            Err(x) => {
                return Err(x);
            },
        };
        if op == BinOp::And {
            if l.is_truthy() {
                self.eval_expr(ans, rhs, fuel)
            } else {
                Ok(l)
            }
        } else if op == BinOp::Or {
            if l.is_truthy() {
                Ok(l)
            } else {
                self.eval_expr(ans, rhs, fuel)
            }
        } else {
            match self.eval_expr(ans, rhs, fuel) {
                Err(x) => Err(x),
                Ok(r) => self.eval_binary(ans, op, &l.without_slash(), &r.without_slash(), pos),
            }
        }
    }

    fn calc_value(&self, c: CalcNode) -> (r: Value)
        ensures
            val(r) == calc_value(self@, cal(c)),
    {
        proof {
            reveal(calc_value);
        }
        proof {
            reveal(ev_of);
        }
        if self.supports {
            return Value::Calc(c);
        }
        match c {
            CalcNode::Number(n) => Value::Number(n),
            CalcNode::Str(t) => {
                if is_complete_calculation(t.as_str()) {
                    word(t)
                } else {
                    Value::Calc(CalcNode::Str(t))
                }
            },
            other => Value::Calc(other),
        }
    }

    /// The text of a template.
    pub fn eval_template(&mut self, ans: &Vec<Answer>, pieces: &Vec<TplPiece>, fuel: usize) -> (r: Result<
        String,
        Stop,
    >)
        ensures
            (out_text(r), final(self)@) == template(
                old(self)@,
                ans@,
                pieces@,
                0,
                Seq::empty(),
                fuel as nat,
            ),
            same_place(old(self)@, final(self)@),
        decreases fuel, 1nat, pieces@.len(),
    {
        let ghost goal = template(old(self)@, ans@, pieces@, 0, Seq::empty(), fuel as nat);
        let mut acc: Vec<char> = Vec::new();
        let mut i: usize = 0;
        while i < pieces.len()
            invariant
                same_place(old(self)@, self@),
                i <= pieces@.len(),
                goal == template(old(self)@, ans@, pieces@, 0, Seq::empty(), fuel as nat),
                template(self@, ans@, pieces@, i as int, acc@, fuel as nat) == goal,
            decreases pieces@.len() - i,
        {
            match &pieces[i] {
                TplPiece::Lit(t) => {
                    append_str(&mut acc, t.as_str());
                },
                TplPiece::Interp(e) => {
                    let v = match self.eval_expr(ans, e, fuel) {
                        Ok(v) => v,
                        Err(x) => {
                            return Err(x);
                        },
                    };
                    match self.ask_text(ans, request_value(Task::Interp, &v)) {
                        Ok(t) => {
                            append_str(&mut acc, t.as_str());
                        },
                        Err(x) => {
                            return Err(x);
                        },
                    }
                },
            }
            i += 1;
        }
        Ok(string_of(acc.as_slice()))
    }

    fn eval_quiet_template(&mut self, ans: &Vec<Answer>, pieces: &Vec<TplPiece>, fuel: usize) -> (r: Result<
        String,
        Stop,
    >)
        ensures
            (out_text(r), final(self)@) == quiet_template(old(self)@, ans@, pieces@, fuel as nat),
            same_place(old(self)@, final(self)@),
        decreases fuel, 2nat, 0int,
    {
        let saved = self.in_supports();
        self.set_supports(false);
        let r = self.eval_template(ans, pieces, fuel);
        self.set_supports(saved);
        r
    }

    fn eval_items(&mut self, ans: &Vec<Answer>, items: &Vec<Expr>, fuel: usize) -> (r: Result<
        Vec<Value>,
        Stop,
    >)
        ensures
            (out_vals(r), final(self)@) == eval_list(
                old(self)@,
                ans@,
                items@,
                0,
                Seq::empty(),
                fuel as nat,
            ),
            same_place(old(self)@, final(self)@),
        decreases fuel, 1nat, items@.len(),
    {
        let ghost goal = eval_list(old(self)@, ans@, items@, 0, Seq::empty(), fuel as nat);
        let mut acc = empty_values();
        let mut i: usize = 0;
        while i < items.len()
            invariant
                same_place(old(self)@, self@),
                i <= items@.len(),
                goal == eval_list(old(self)@, ans@, items@, 0, Seq::empty(), fuel as nat),
                eval_list(self@, ans@, items@, i as int, vals(acc@), fuel as nat) == goal,
            decreases items@.len() - i,
        {
            match self.eval_expr(ans, &items[i], fuel) {
                Ok(v) => {
                    push_value(&mut acc, v);
                },
                Err(x) => {
                    return Err(x);
                },
            }
            i += 1;
        }
        Ok(acc)
    }

    fn has_key(&mut self, ans: &Vec<Answer>, m: &Vec<(Value, Value)>, key: &Value) -> (r: Result<bool, Stop>)
        ensures
            (out_flag(r), final(self)@) == holds_key(old(self)@, ans@, val_pairs(m@), val(*key), 0),
            same_place(old(self)@, final(self)@),
    {
        let ghost goal = holds_key(old(self)@, ans@, val_pairs(m@), val(*key), 0);
        let mut i: usize = 0;
        while i < m.len()
            invariant
                same_place(old(self)@, self@),
                i <= m@.len(),
                goal == holds_key(old(self)@, ans@, val_pairs(m@), val(*key), 0),
                holds_key(self@, ans@, val_pairs(m@), val(*key), i as int) == goal,
            decreases m@.len() - i,
        {
            match self.ask_flag(ans, request_values(Task::SameValue, &m[i].0, key)) {
                Err(x) => {
                    return Err(x);
                },
                Ok(true) => {
                    return Ok(true);
                },
                Ok(false) => {},
            }
            i += 1;
        }
        Ok(false)
    }

    fn eval_entries(&mut self, ans: &Vec<Answer>, entries: &Vec<(Expr, Expr)>, fuel: usize) -> (r: Result<
        Vec<(Value, Value)>,
        Stop,
    >)
        ensures
            (out_pairs(r), final(self)@) == eval_pairs(
                old(self)@,
                ans@,
                entries@,
                0,
                Seq::empty(),
                fuel as nat,
            ),
            same_place(old(self)@, final(self)@),
        decreases fuel, 1nat, entries@.len(),
    {
        let ghost goal = eval_pairs(old(self)@, ans@, entries@, 0, Seq::empty(), fuel as nat);
        let mut acc: Vec<(Value, Value)> = Vec::new();
        let mut i: usize = 0;
        proof {
            assert(val_pairs(acc@) =~= Seq::empty());
        }
        while i < entries.len()
            invariant
                same_place(old(self)@, self@),
                i <= entries@.len(),
                goal == eval_pairs(old(self)@, ans@, entries@, 0, Seq::empty(), fuel as nat),
                eval_pairs(self@, ans@, entries@, i as int, val_pairs(acc@), fuel as nat) == goal,
            decreases entries@.len() - i,
        {
            let k = match self.eval_expr(ans, &entries[i].0, fuel) {
                Ok(v) => v.without_slash(),
                Err(x) => {
                    return Err(x);
                },
            };
            let v = match self.eval_expr(ans, &entries[i].1, fuel) {
                Ok(v) => v,
                Err(x) => {
                    return Err(x);
                },
            };
            match self.has_key(ans, &acc, &k) {
                Err(x) => {
                    return Err(x);
                },
                Ok(true) => {
                    return Err(stop("Duplicate key."));
                },
                Ok(false) => {},
            }
            push_pair(&mut acc, k, v);
            i += 1;
        }
        Ok(acc)
    }

    fn eval_arg_texts(&mut self, ans: &Vec<Answer>, args: &Vec<CallArg>, fuel: usize) -> (r: Result<
        Vec<String>,
        Stop,
    >)
        ensures
            (out_texts(r), final(self)@) == arg_texts(
                old(self)@,
                ans@,
                args@,
                0,
                Seq::empty(),
                fuel as nat,
            ),
            same_place(old(self)@, final(self)@),
        decreases fuel, 1nat, args@.len(),
    {
        let ghost goal = arg_texts(old(self)@, ans@, args@, 0, Seq::empty(), fuel as nat);
        let mut acc = empty_strings();
        let mut i: usize = 0;
        while i < args.len()
            invariant
                same_place(old(self)@, self@),
                i <= args@.len(),
                goal == arg_texts(old(self)@, ans@, args@, 0, Seq::empty(), fuel as nat),
                arg_texts(self@, ans@, args@, i as int, texts(acc@), fuel as nat) == goal,
            decreases args@.len() - i,
        {
            let v = match self.eval_expr(ans, &args[i].value, fuel) {
                Ok(v) => v,
                Err(x) => {
                    return Err(x);
                },
            };
            match self.styled_css(ans, &v) {
                Ok(t) => {
                    push_string(&mut acc, t);
                },
                Err(x) => {
                    return Err(x);
                },
            }
            i += 1;
        }
        Ok(acc)
    }

    /// A call of a plain CSS function.
    pub fn eval_css_call(&mut self, ans: &Vec<Answer>, name: &str, args: &Vec<CallArg>, fuel: usize) -> (r: Result<
        Value,
        Stop,
    >)
        ensures
            (out_val(r), final(self)@) == css_call(old(self)@, ans@, name@, args@, fuel as nat),
            same_place(old(self)@, final(self)@),
        decreases fuel, 2nat, 0int,
    {
        match self.eval_arg_texts(ans, args, fuel) {
            Err(x) => Err(x),
            Ok(parts) => Ok(word(write_call(name, &parts))),
        }
    }

    // ---- if() ------------------------------------------------------------

    fn write_if_value(&mut self, ans: &Vec<Answer>, v: &Value) -> (r: Result<String, Stop>)
        ensures
            (out_text(r), final(self)@) == if_value_text(old(self)@, ans@, val(*v)),
            same_place(old(self)@, final(self)@),
    {
        proof {
            reveal(if_value_text);
        }
        match v {
            Value::Null => Ok("null".to_owned()),
            Value::List(_) => match self.plain_css(ans, v) {
                Err(x) => Err(x),
                Ok(t) => {
                    let mut m: Vec<char> = Vec::new();
                    m.push('(');
                    append_str(&mut m, t.as_str());
                    m.push(')');
                    proof {
                        assert(m@ =~= seq!['('] + t@ + seq![')']);
                    }
                    Ok(string_of(m.as_slice()))
                },
            },
            _ => self.plain_css(ans, v),
        }
    }

    /// The text of a value that no calculation can hold.
    pub fn calc_value_repr(&mut self, ans: &Vec<Answer>, v: &Value) -> (r: Result<String, Stop>)
        ensures
            (out_text(r), final(self)@) == calc_value_text(old(self)@, ans@, val(*v)),
            same_place(old(self)@, final(self)@),
    {
        self.write_if_value(ans, v)
    }

    fn eval_if_value(&mut self, ans: &Vec<Answer>, e: &Expr, fuel: usize) -> (r: Result<String, Stop>)
        ensures
            (out_text(r), final(self)@) == if_value(old(self)@, ans@, *e, fuel as nat),
            same_place(old(self)@, final(self)@),
        decreases fuel, 2nat, 0int,
    {
        match self.eval_expr(ans, e, fuel) {
            Err(x) => Err(x),
            Ok(v) => self.write_if_value(ans, &v.without_slash()),
        }
    }

    /// The value of a CSS `if()`.
    pub fn eval_modern_if(&mut self, ans: &Vec<Answer>, clauses: &Vec<IfClause>, fuel: usize) -> (r: Result<
        Value,
        Stop,
    >)
        ensures
            (out_val(r), final(self)@) == modern_if(old(self)@, ans@, clauses@, 0, None, fuel as nat),
            same_place(old(self)@, final(self)@),
        decreases fuel, 20nat, clauses@.len(),
    {
        let ghost goal = modern_if(old(self)@, ans@, clauses@, 0, None, fuel as nat);
        let mut parts: Option<Vec<String>> = None;
        let mut i: usize = 0;
        while i < clauses.len()
            invariant
                same_place(old(self)@, self@),
                i <= clauses@.len(),
                goal == modern_if(old(self)@, ans@, clauses@, 0, None, fuel as nat),
                modern_if(self@, ans@, clauses@, i as int, opt_texts(parts), fuel as nat) == goal,
            decreases clauses@.len() - i,
        {
            let o = match &clauses[i].condition {
                None => CondEval::Bool(true),
                Some(c) => match self.eval_if_cond(ans, c, fuel) {
                    Ok(o) => o,
                    Err(x) => {
                        return Err(x);
                    },
                },
            };
            match o {
                CondEval::Bool(false) => {},
                CondEval::Bool(true) => {
                    match parts {
                        None => {
                            return match self.eval_expr(ans, &clauses[i].value, fuel) {
                                Err(x) => Err(x),
                                Ok(v) => Ok(v.without_slash()),
                            };
                        },
                        Some(p) => {
                            let t = match self.eval_if_value(ans, &clauses[i].value, fuel) {
                                Ok(t) => t,
                                Err(x) => {
                                    return Err(x);
                                },
                            };
                            let mut m = chars_of("else: ");
                            append_str(&mut m, t.as_str());
                            let mut p = p;
                            push_string(&mut p, string_of(m.as_slice()));
                            parts = Some(p);
                        },
                    }
                },
                CondEval::Css(rc) => {
                    let t = match self.eval_if_value(ans, &clauses[i].value, fuel) {
                        Ok(t) => t,
                        Err(x) => {
                            return Err(x);
                        },
                    };
                    let head = rc.to_css();
                    let mut m = chars_of(head.as_str());
                    append_str(&mut m, ": ");
                    append_str(&mut m, t.as_str());
                    let mut p = match parts {
                        Some(p) => p,
                        None => empty_strings(),
                    };
                    push_string(&mut p, string_of(m.as_slice()));
                    parts = Some(p);
                },
            }
            i += 1;
        }
        match parts {
            None => Ok(Value::Null),
            Some(p) => {
                let mut m = chars_of("if(");
                append(&mut m, join(&p, "; ").as_slice());
                append_str(&mut m, ")");
                Ok(word(string_of(m.as_slice())))
            },
        }
    }

    /// What a condition of a CSS `if()` comes to.
    pub fn eval_if_cond(&mut self, ans: &Vec<Answer>, c: &IfCond, fuel: usize) -> (r: Result<CondEval, Stop>)
        ensures
            (out_cond(r), final(self)@) == if_cond(old(self)@, ans@, *c, fuel as nat),
            same_place(old(self)@, final(self)@),
        decreases fuel, 2nat, 0int,
    {
        if fuel == 0 {
            return Err(Stop::Depth);
        }
        self.eval_if_cond_inner(ans, c, fuel - 1)
    }

    fn eval_if_cond_inner(&mut self, ans: &Vec<Answer>, c: &IfCond, fuel: usize) -> (r: Result<
        CondEval,
        Stop,
    >)
        ensures
            (out_cond(r), final(self)@) == if_cond_inner(old(self)@, ans@, *c, fuel as nat),
            same_place(old(self)@, final(self)@),
        decreases fuel, 21nat, 0int,
    {
        match c {
            IfCond::Sass(e) => match self.eval_expr(ans, e, fuel) {
                Err(x) => Err(x),
                Ok(v) => Ok(CondEval::Bool(v.is_truthy())),
            },
            IfCond::Raw { pieces } => match self.eval_template(ans, pieces, fuel) {
                Err(x) => Err(x),
                Ok(t) => Ok(CondEval::Css(RCond::Css(collapse_condition(t.as_str())))),
            },
            IfCond::Not(inner) => match self.eval_if_cond(ans, inner, fuel) {
                Err(x) => Err(x),
                Ok(CondEval::Bool(b)) => Ok(CondEval::Bool(!b)),
                Ok(CondEval::Css(rc)) => Ok(CondEval::Css(RCond::Not(Box::new(rc)))),
            },
            IfCond::Paren(inner) => match self.eval_if_cond(ans, inner, fuel) {
                Err(x) => Err(x),
                Ok(CondEval::Bool(b)) => Ok(CondEval::Bool(b)),
                Ok(CondEval::Css(rc)) => Ok(CondEval::Css(RCond::Paren(Box::new(rc)))),
            },
            IfCond::And(items) => self.eval_if_operands(ans, items, true, fuel),
            IfCond::Or(items) => self.eval_if_operands(ans, items, false, fuel),
        }
    }

    fn eval_if_operands(&mut self, ans: &Vec<Answer>, items: &Vec<IfCond>, and: bool, fuel: usize) -> (r: Result<
        CondEval,
        Stop,
    >)
        ensures
            (out_cond(r), final(self)@) == if_operands(
                old(self)@,
                ans@,
                items@,
                0,
                Seq::empty(),
                and,
                fuel as nat,
            ),
            same_place(old(self)@, final(self)@),
        decreases fuel, 6nat, items@.len(),
    {
        let ghost goal = if_operands(old(self)@, ans@, items@, 0, Seq::empty(), and, fuel as nat);
        let mut left: Vec<RCond> = Vec::new();
        let mut i: usize = 0;
        proof {
            assert(rests(left@) =~= Seq::empty());
        }
        while i < items.len()
            invariant
                same_place(old(self)@, self@),
                i <= items@.len(),
                goal == if_operands(old(self)@, ans@, items@, 0, Seq::empty(), and, fuel as nat),
                if_operands(self@, ans@, items@, i as int, rests(left@), and, fuel as nat) == goal,
            decreases items@.len() - i,
        {
            match self.eval_if_cond(ans, &items[i], fuel) {
                Err(x) => {
                    return Err(x);
                },
                Ok(CondEval::Bool(b)) => {
                    if b != and {
                        return Ok(CondEval::Bool(b));
                    }
                },
                Ok(CondEval::Css(rc)) => {
                    let ghost before = rests(left@);
                    let ghost rv = rest(rc);
                    left.push(rc);
                    proof {
                        assert(rests(left@) =~= before.push(rv));
                    }
                },
            }
            i += 1;
        }
        Ok(combine_residuals(left, and))
    }
}

/// An expression that is not a leaf.
pub open spec fn is_composite(e: Expr) -> bool {
    !(e is Number || e is Color || e is Bool || e is Null || e is Parent || e is Var || e is NsVar || e
        is QuotedString || e is Ident)
}

pub open spec fn out_cond(r: Result<CondEval, Stop>) -> Result<Outcome, Halt> {
    match r {
        Ok(c) => Ok(outcome(c)),
        Err(e) => Err(e@),
    }
}

/// Whether an argument is named.
pub fn holds_named(args: &Vec<CallArg>) -> (r: bool)
    ensures
        r == any_named(args@),
{
    let mut i: usize = 0;
    while i < args.len()
        invariant
            i <= args@.len(),
            forall|k: int| 0 <= k < i ==> (#[trigger] args@[k]).name is None,
        decreases args@.len() - i,
    {
        if args[i].name.is_some() {
            return true;
        }
        i += 1;
    }
    false
}

} // verus!
