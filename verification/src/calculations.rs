//! Evaluation of calculations.

use vstd::prelude::*;
use crate::analysis::{expr_has_substitution, is_word, substitutes};
use crate::ast::{BinOp, CallArg, Expr, UnOp};
use crate::error::Pos;
use crate::eval::{Evaluator, ev_of, out_val, same_place, stop, stop_at};
use crate::expr::{empty_strings, empty_values, out_texts, push_string, write_call};
use crate::host::{Answer, Halt, Request, Stop, Task, named_vals, one_name, request_numbers};
use crate::meta::only_allowed_message;
use crate::names::nested_calc_needs_parens;
use crate::ops::{one_bits, out_calc, two_bits};
use crate::sem::{
    any_splat, any_substitutes, any_variable, ask_call, asked_int_bits, calc_leaf, calc_negative,
    calc_texts, constant_bits, in_parens, is_variable, kept_call,
};
use crate::semantics::{
    calc_args, calc_inner, calc_pair, calc_run, calc_size, clamp_args, clamp_call, number_values,
    simplified, size_texts, supports_call,
};
use crate::text::{append_str, chars_of, join, string_of, texts};
use crate::value::{
    Cal, CalcNode, CalcOp, ListSep, Num, Number, Value, are_numbers, cal,
    calc_complex_unit_operand, cals, copy_calc, num, push_value, val, vals, word,
};

verus! {

broadcast use crate::kept::group_kept;

pub open spec fn out_calcs(r: Result<Vec<CalcNode>, Stop>) -> Result<Seq<Cal>, Halt> {
    match r {
        Ok(v) => Ok(cals(v@)),
        Err(e) => Err(e@),
    }
}

/// Append a calculation to a list.
pub fn push_calc(out: &mut Vec<CalcNode>, c: CalcNode)
    ensures
        cals(final(out)@) == cals(old(out)@).push(cal(c)),
{
    out.push(c);
    proof {
        assert(cals(final(out)@) =~= cals(old(out)@).push(cal(c)));
    }
}

pub fn empty_calcs() -> (r: Vec<CalcNode>)
    ensures
        cals(r@) == Seq::<Cal>::empty(),
{
    let r: Vec<CalcNode> = Vec::new();
    proof {
        assert(cals(r@) =~= Seq::empty());
    }
    r
}

fn parens(t: &str) -> (r: String)
    ensures
        r@ == in_parens(t@),
{
    let mut m: Vec<char> = Vec::new();
    m.push('(');
    append_str(&mut m, t);
    m.push(')');
    proof {
        assert(m@ =~= in_parens(t@));
    }
    string_of(m.as_slice())
}

/// A number without units.
fn bare_number(bits: u64) -> (r: Number)
    ensures
        num(r) == (Num { bits, numer: Seq::empty(), denom: Seq::empty() }),
{
    let n = Number { bits, numer: Vec::new(), denom: Vec::new() };
    proof {
        assert(num(n).numer =~= Seq::empty());
        assert(num(n).denom =~= Seq::empty());
    }
    n
}

/// The bits of the number that a constant of a calculation is.
pub fn calc_constant(text: &str) -> (r: Option<u64>)
    ensures
        r == constant_bits(text@),
{
    proof {
        reveal(constant_bits);
    }
    if is_word(text, "pi") {
        Some(0x4009_21FB_5444_2D18)
    } else if is_word(text, "e") {
        Some(0x4005_BF0A_8B14_5769)
    } else if is_word(text, "infinity") {
        Some(0x7FF0_0000_0000_0000)
    } else if is_word(text, "-infinity") {
        Some(0xFFF0_0000_0000_0000)
    } else if is_word(text, "nan") {
        Some(0x7FF8_0000_0000_0000)
    } else {
        None
    }
}

fn some_substitutes(items: &Vec<Expr>) -> (r: bool)
    ensures
        r == any_substitutes(items@),
{
    let mut i: usize = 0;
    while i < items.len()
        invariant
            i <= items@.len(),
            forall|k: int| 0 <= k < i ==> !substitutes(#[trigger] items@[k]),
        decreases items@.len() - i,
    {
        if expr_has_substitution(&items[i]) {
            return true;
        }
        i += 1;
    }
    false
}

fn some_variable(items: &Vec<Expr>) -> (r: bool)
    ensures
        r == any_variable(items@),
{
    let mut i: usize = 0;
    while i < items.len()
        invariant
            i <= items@.len(),
            forall|k: int| 0 <= k < i ==> !is_variable(#[trigger] items@[k]),
        decreases items@.len() - i,
    {
        if matches!(&items[i], Expr::Var { .. }) || matches!(&items[i], Expr::NsVar { .. }) {
            proof {
                assert(is_variable(items@[i as int]));
            }
            return true;
        }
        i += 1;
    }
    false
}

/// Whether an argument is spread.
pub fn holds_splat(args: &Vec<CallArg>) -> (r: bool)
    ensures
        r == any_splat(args@),
{
    let mut i: usize = 0;
    while i < args.len()
        invariant
            i <= args@.len(),
            forall|k: int| 0 <= k < i ==> !(#[trigger] args@[k]).splat,
        decreases args@.len() - i,
    {
        if args[i].splat {
            return true;
        }
        i += 1;
    }
    false
}

fn values_of_numbers(nodes: &Vec<CalcNode>) -> (r: Vec<Value>)
    ensures
        vals(r@) == number_values(cals(nodes@)),
{
    let ghost all = number_values(cals(nodes@));
    let mut out = empty_values();
    let mut i: usize = 0;
    while i < nodes.len()
        invariant
            i <= nodes@.len(),
            all == number_values(cals(nodes@)),
            vals(out@) =~= all.take(i as int),
        decreases nodes@.len() - i,
    {
        let v = match &nodes[i] {
            CalcNode::Number(n) => Value::Number(n.copy()),
            other => Value::Calc(copy_calc(other)),
        };
        proof {
            assert(cals(nodes@)[i as int] == cal(nodes@[i as int]));
        }
        push_value(&mut out, v);
        i += 1;
        proof {
            assert(all.take(i as int) =~= all.take(i - 1).push(all[i - 1]));
        }
    }
    proof {
        assert(all.take(i as int) =~= all);
    }
    out
}

/// The question that calls a function.
pub fn request_call(task: Task, names: Vec<String>, p: Vec<Value>, n: Vec<(String, Value)>, pos: Pos) -> (r:
    Request)
    ensures
        r@ == ask_call(task, texts(names@), vals(p@), named_vals(n@), pos),
{
    let numbers: Vec<u64> = Vec::new();
    proof {
        assert(numbers@ =~= Seq::empty());
    }
    Request { task, values: p, names, named: n, numbers, pos: Some(pos) }
}

impl Evaluator {
    fn calc_leaf(&mut self, ans: &Vec<Answer>, v: Value) -> (r: Result<CalcNode, Stop>)
        ensures
            (out_calc(r), final(self)@) == calc_leaf(old(self)@, ans@, val(v)),
            same_place(old(self)@, final(self)@),
    {
        proof {
            reveal(calc_leaf);
        }
        if let Value::Str(t) = &v {
            if !t.quoted {
                return match calc_constant(t.text.as_str()) {
                    Some(b) => Ok(CalcNode::Number(bare_number(b))),
                    None => match self.plain_css(ans, &v) {
                        Err(x) => Err(x),
                        Ok(x) => Ok(CalcNode::Str(x)),
                    },
                };
            }
        }
        match v {
            Value::Number(n) => Ok(CalcNode::Number(n)),
            Value::Slash(n, _) => Ok(CalcNode::Number(n)),
            Value::Calc(c) => Ok(c),
            other => match self.calc_value_repr(ans, &other) {
                Err(x) => Err(x),
                Ok(t) => {
                    let mut m = chars_of("Value ");
                    append_str(&mut m, t.as_str());
                    append_str(&mut m, " can't be used in a calculation.");
                    Err(stop(string_of(m.as_slice()).as_str()))
                },
            },
        }
    }

    /// The bits that an integer has as a number.
    pub fn ask_int_bits(&mut self, ans: &Vec<Answer>, i: i64) -> (r: Result<u64, Stop>)
        ensures
            (match r {
                Ok(b) => Ok(b),
                Err(e) => Err(e@),
            }, final(self)@) == asked_int_bits(old(self)@, ans@, i as int),
            same_place(old(self)@, final(self)@),
    {
        let numbers = if i < 0 {
            let size: u64 = (-(i as i128)) as u64;
            two_bits(1, size)
        } else {
            two_bits(0, i as u64)
        };
        match self.ask_bits(ans, request_numbers(Task::FromInteger, numbers)) {
            Err(x) => Err(x),
            Ok(None) => Err(Stop::Mismatch),
            Ok(Some(b)) => Ok(b),
        }
    }

    fn calc_negative(&mut self, ans: &Vec<Answer>, c: CalcNode) -> (r: Result<CalcNode, Stop>)
        ensures
            (out_calc(r), final(self)@) == calc_negative(old(self)@, ans@, cal(c)),
            same_place(old(self)@, final(self)@),
    {
        proof {
            reveal(calc_negative);
        }
        match c {
            CalcNode::Number(n) => match self.ask_bits(
                ans,
                request_numbers(Task::Negative, one_bits(n.bits)),
            ) {
                Err(x) => Err(x),
                Ok(None) => Err(Stop::Mismatch),
                Ok(Some(x)) => Ok(CalcNode::Number(n.copy_units(x))),
            },
            other => match self.ask_int_bits(ans, -1) {
                Err(x) => Err(x),
                Ok(b) => {
                    let left = CalcNode::Number(bare_number(b));
                    let ghost l = cal(left);
                    proof {
                        assert(l == Cal::Number(Num { bits: b, numer: Seq::empty(), denom: Seq::empty() }));
                    }
                    Ok(CalcNode::Op { op: CalcOp::Mul, left: Box::new(left), right: Box::new(other) })
                },
            },
        }
    }

    /// A calculation, simplified.
    pub fn eval_calc(&mut self, ans: &Vec<Answer>, e: &Expr, fuel: usize) -> (r: Result<CalcNode, Stop>)
        ensures
            (out_calc(r), final(self)@) == simplified(old(self)@, ans@, *e, fuel as nat),
            same_place(old(self)@, final(self)@),
        decreases fuel, 2nat, 0int,
    {
        if fuel == 0 {
            return Err(Stop::Depth);
        }
        self.eval_calc_inner(ans, e, fuel - 1)
    }

    fn eval_calc_inner(&mut self, ans: &Vec<Answer>, e: &Expr, fuel: usize) -> (r: Result<CalcNode, Stop>)
        ensures
            (out_calc(r), final(self)@) == calc_inner(old(self)@, ans@, *e, fuel as nat),
            same_place(old(self)@, final(self)@),
        decreases fuel, 33nat, 0int,
    {
        proof {
            reveal(ev_of);
        }
        match e {
            Expr::Binary { op, lhs, rhs, pos } => {
                let c = match *op {
                    BinOp::Add => CalcOp::Add,
                    BinOp::Sub => CalcOp::Sub,
                    BinOp::Mul => CalcOp::Mul,
                    _ => {
                        return Err(stop_at("This operation can't be used in a calculation.", *pos));
                    },
                };
                self.eval_calc_pair(ans, c, lhs, rhs, *pos, fuel)
            },
            Expr::Div { lhs, rhs, slash: _, pos } => self.eval_calc_pair(
                ans,
                CalcOp::Div,
                lhs,
                rhs,
                *pos,
                fuel,
            ),
            Expr::Unary { op: UnOp::Neg, operand } => match self.eval_calc(ans, operand, fuel) {
                Err(x) => Err(x),
                Ok(c) => self.calc_negative(ans, c),
            },
            Expr::Paren(inner) => match self.eval_calc(ans, inner, fuel) {
                Err(x) => Err(x),
                Ok(CalcNode::Str(t)) => Ok(CalcNode::Str(parens(t.as_str()))),
                Ok(c) => Ok(c),
            },
            Expr::Calc { inner } => match self.eval_calc(ans, inner, fuel) {
                Err(x) => Err(x),
                Ok(c) => {
                    if self.supports {
                        return match self.styled_calc(ans, &c) {
                            Err(x) => Err(x),
                            Ok(t) => {
                                let mut m = chars_of("calc(");
                                append_str(&mut m, t.as_str());
                                append_str(&mut m, ")");
                                Ok(CalcNode::Str(string_of(m.as_slice())))
                            },
                        };
                    }
                    match c {
                        CalcNode::Str(t) => {
                            if nested_calc_needs_parens(t.as_str()) {
                                Ok(CalcNode::Str(parens(t.as_str())))
                            } else {
                                Ok(CalcNode::Str(t))
                            }
                        },
                        other => Ok(other),
                    }
                },
            },
            Expr::List { items, sep: ListSep::Space, bracketed: false } => {
                let subst = some_substitutes(items);
                if !subst && !some_variable(items) {
                    return Err(stop("Missing math operator."));
                }
                self.eval_calc_run(ans, items, subst, fuel)
            },
            other => match self.eval_expr(ans, other, fuel) {
                Err(x) => Err(x),
                Ok(v) => self.calc_leaf(ans, v),
            },
        }
    }

    fn eval_calc_pair(
        &mut self,
        ans: &Vec<Answer>,
        op: CalcOp,
        lhs: &Expr,
        rhs: &Expr,
        pos: Pos,
        fuel: usize,
    ) -> (r: Result<CalcNode, Stop>)
        ensures
            (out_calc(r), final(self)@) == calc_pair(old(self)@, ans@, op, *lhs, *rhs, pos, fuel as nat),
            same_place(old(self)@, final(self)@),
        decreases fuel, 4nat, 0int,
    {
        proof {
            reveal(ev_of);
        }
        let l = match self.eval_calc(ans, lhs, fuel) {
            Ok(c) => c,
            Err(x) => {
                return Err(x);
            },
        };
        let r = match self.eval_calc(ans, rhs, fuel) {
            Ok(c) => c,
            Err(x) => {
                return Err(x);
            },
        };
        if self.supports {
            return Ok(CalcNode::Op { op, left: Box::new(l), right: Box::new(r) });
        }
        self.fold_calc(ans, op, l, r, pos)
    }

    fn eval_calc_run(&mut self, ans: &Vec<Answer>, items: &Vec<Expr>, subst: bool, fuel: usize) -> (r: Result<
        CalcNode,
        Stop,
    >)
        ensures
            (out_calc(r), final(self)@) == calc_run(
                old(self)@,
                ans@,
                items@,
                0,
                Seq::empty(),
                subst,
                fuel as nat,
            ),
            same_place(old(self)@, final(self)@),
        decreases fuel, 5nat, items@.len(),
    {
        let ghost goal = calc_run(old(self)@, ans@, items@, 0, Seq::empty(), subst, fuel as nat);
        let mut parts = empty_strings();
        let mut raw: bool = subst;
        let mut i: usize = 0;
        while i < items.len()
            invariant
                same_place(old(self)@, self@),
                i <= items@.len(),
                goal == calc_run(old(self)@, ans@, items@, 0, Seq::empty(), subst, fuel as nat),
                calc_run(self@, ans@, items@, i as int, texts(parts@), raw, fuel as nat) == goal,
            decreases items@.len() - i,
        {
            let c = match self.eval_calc(ans, &items[i], fuel) {
                Ok(c) => c,
                Err(x) => {
                    return Err(x);
                },
            };
            if matches!(&c, CalcNode::Str(_)) {
                raw = true;
            }
            match self.plain_calc(ans, &c) {
                Ok(t) => {
                    push_string(&mut parts, t);
                },
                Err(x) => {
                    return Err(x);
                },
            }
            i += 1;
        }
        if !raw {
            return Err(stop("Missing math operator."));
        }
        Ok(CalcNode::Str(string_of(join(&parts, " ").as_slice())))
    }

    /// The arguments of a call as calculations.
    pub fn eval_calc_args(&mut self, ans: &Vec<Answer>, args: &Vec<CallArg>, fuel: usize) -> (r: Result<
        Vec<CalcNode>,
        Stop,
    >)
        ensures
            (out_calcs(r), final(self)@) == calc_args(
                old(self)@,
                ans@,
                args@,
                0,
                Seq::empty(),
                fuel as nat,
            ),
            same_place(old(self)@, final(self)@),
        decreases fuel, 5nat, args@.len(),
    {
        let ghost goal = calc_args(old(self)@, ans@, args@, 0, Seq::empty(), fuel as nat);
        let mut acc = empty_calcs();
        let mut i: usize = 0;
        while i < args.len()
            invariant
                same_place(old(self)@, self@),
                i <= args@.len(),
                goal == calc_args(old(self)@, ans@, args@, 0, Seq::empty(), fuel as nat),
                calc_args(self@, ans@, args@, i as int, cals(acc@), fuel as nat) == goal,
            decreases args@.len() - i,
        {
            match self.eval_calc(ans, &args[i].value, fuel) {
                Ok(c) => {
                    push_calc(&mut acc, c);
                },
                Err(x) => {
                    return Err(x);
                },
            }
            i += 1;
        }
        Ok(acc)
    }

    fn eval_size_texts(&mut self, ans: &Vec<Answer>, args: &Vec<CallArg>, fuel: usize) -> (r: Result<
        Vec<String>,
        Stop,
    >)
        ensures
            (out_texts(r), final(self)@) == size_texts(
                old(self)@,
                ans@,
                args@,
                0,
                Seq::empty(),
                fuel as nat,
            ),
            same_place(old(self)@, final(self)@),
        decreases fuel, 5nat, args@.len(),
    {
        let ghost goal = size_texts(old(self)@, ans@, args@, 0, Seq::empty(), fuel as nat);
        let mut acc = empty_strings();
        let mut i: usize = 0;
        while i < args.len()
            invariant
                same_place(old(self)@, self@),
                i <= args@.len(),
                goal == size_texts(old(self)@, ans@, args@, 0, Seq::empty(), fuel as nat),
                size_texts(self@, ans@, args@, i as int, texts(acc@), fuel as nat) == goal,
            decreases args@.len() - i,
        {
            let c = match self.eval_calc(ans, &args[i].value, fuel) {
                Ok(c) => c,
                Err(x) => {
                    return Err(x);
                },
            };
            let t = match self.styled_calc(ans, &c) {
                Ok(t) => t,
                Err(x) => {
                    return Err(x);
                },
            };
            let part = match &args[i].name {
                None => t,
                Some(n) => {
                    let mut m: Vec<char> = Vec::new();
                    m.push('$');
                    append_str(&mut m, n.as_str());
                    append_str(&mut m, ": ");
                    append_str(&mut m, t.as_str());
                    proof {
                        assert(m@ =~= seq!['$'] + n@ + ": "@ + t@);
                    }
                    string_of(m.as_slice())
                },
            };
            push_string(&mut acc, part);
            i += 1;
        }
        Ok(acc)
    }

    /// `calc-size()`.
    pub fn eval_calc_size(&mut self, ans: &Vec<Answer>, args: &Vec<CallArg>, pos: Pos, fuel: usize) -> (r: Result<
        Value,
        Stop,
    >)
        ensures
            (out_val(r), final(self)@) == calc_size(old(self)@, ans@, args@, pos, fuel as nat),
            same_place(old(self)@, final(self)@),
        decreases fuel, 7nat, 0int,
    {
        if args.len() == 0 {
            return Err(stop_at("Missing argument.", pos));
        }
        if args.len() > 2 {
            return Err(stop_at(only_allowed_message(2, args.len()).as_str(), pos));
        }
        match self.eval_size_texts(ans, args, fuel) {
            Err(x) => Err(x),
            Ok(parts) => Ok(word(write_call("calc-size", &parts))),
        }
    }

    /// A math function that a `@supports` declaration keeps.
    pub fn eval_supports_calc_func(
        &mut self,
        ans: &Vec<Answer>,
        name: &str,
        args: &Vec<CallArg>,
        pos: Pos,
        fuel: usize,
    ) -> (r: Result<Value, Stop>)
        ensures
            (out_val(r), final(self)@) == supports_call(
                old(self)@,
                ans@,
                name@,
                args@,
                pos,
                fuel as nat,
            ),
            same_place(old(self)@, final(self)@),
        decreases fuel, 7nat, 0int,
    {
        if holds_splat(args) {
            return Err(stop_at("Rest arguments can't be used with calculations.", pos));
        }
        match self.eval_size_texts(ans, args, fuel) {
            Err(x) => Err(x),
            Ok(parts) => Ok(word(write_call(name, &parts))),
        }
    }

    fn eval_clamp_args(&mut self, ans: &Vec<Answer>, args: &Vec<CallArg>, pos: Pos, fuel: usize) -> (r: Result<
        Vec<CalcNode>,
        Stop,
    >)
        ensures
            (out_calcs(r), final(self)@) == clamp_args(
                old(self)@,
                ans@,
                args@,
                0,
                Seq::empty(),
                pos,
                fuel as nat,
            ),
            same_place(old(self)@, final(self)@),
        decreases fuel, 5nat, args@.len(),
    {
        let ghost goal = clamp_args(old(self)@, ans@, args@, 0, Seq::empty(), pos, fuel as nat);
        let mut acc = empty_calcs();
        let mut i: usize = 0;
        while i < args.len()
            invariant
                same_place(old(self)@, self@),
                i <= args@.len(),
                goal == clamp_args(old(self)@, ans@, args@, 0, Seq::empty(), pos, fuel as nat),
                clamp_args(self@, ans@, args@, i as int, cals(acc@), pos, fuel as nat) == goal,
            decreases args@.len() - i,
        {
            match self.eval_calc(ans, &args[i].value, fuel) {
                Ok(c) => {
                    if calc_complex_unit_operand(&c) {
                        return Err(self.complex_operand_error(ans, &c, pos));
                    }
                    push_calc(&mut acc, c);
                },
                Err(x) => {
                    return Err(x);
                },
            }
            i += 1;
        }
        Ok(acc)
    }

    /// A call kept as text.
    pub fn keep_call(&mut self, ans: &Vec<Answer>, name: &str, nodes: &Vec<CalcNode>) -> (r: Result<
        Value,
        Stop,
    >)
        ensures
            (out_val(r), final(self)@) == kept_call(old(self)@, ans@, name@, cals(nodes@)),
            same_place(old(self)@, final(self)@),
    {
        proof {
            reveal(kept_call);
        }
        let ghost goal = calc_texts(old(self)@, ans@, cals(nodes@), 0, Seq::empty());
        let mut parts = empty_strings();
        let mut i: usize = 0;
        while i < nodes.len()
            invariant
                same_place(old(self)@, self@),
                i <= nodes@.len(),
                goal == calc_texts(old(self)@, ans@, cals(nodes@), 0, Seq::empty()),
                calc_texts(self@, ans@, cals(nodes@), i as int, texts(parts@)) == goal,
            decreases nodes@.len() - i,
        {
            proof {
                reveal(kept_call);
            }
            match self.styled_calc(ans, &nodes[i]) {
                Ok(t) => {
                    push_string(&mut parts, t);
                },
                Err(x) => {
                    return Err(x);
                },
            }
            i += 1;
        }
        Ok(word(write_call(name, &parts)))
    }

    /// `clamp()` with three arguments.
    pub fn try_eval_clamp(&mut self, ans: &Vec<Answer>, args: &Vec<CallArg>, pos: Pos, fuel: usize) -> (r: Result<
        Value,
        Stop,
    >)
        ensures
            (out_val(r), final(self)@) == clamp_call(old(self)@, ans@, args@, pos, fuel as nat),
            same_place(old(self)@, final(self)@),
        decreases fuel, 7nat, 0int,
    {
        let nodes = match self.eval_clamp_args(ans, args, pos, fuel) {
            Ok(n) => n,
            Err(x) => {
                return Err(x);
            },
        };
        if are_numbers(&nodes) {
            let none: Vec<(String, Value)> = Vec::new();
            proof {
                assert(named_vals(none@) =~= Seq::empty());
            }
            let q = request_call(
                Task::Call,
                one_name("clamp"),
                values_of_numbers(&nodes),
                none,
                pos,
            );
            return self.ask_value(ans, q);
        }
        self.keep_call(ans, "clamp", &nodes)
    }
}

} // verus!
