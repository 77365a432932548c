//! Operators on values. What is decided by kinds and units is decided here; what the numbers come
//! to is asked.

use vstd::prelude::*;
use crate::ast::{BinOp, UnOp};
use crate::error::{Pos, fault, fault_at};
use crate::eval::{
    Ev, Evaluator, Run, asked_bits, asked_flag, asked_number, asked_text, fail, out_text, out_val,
    plain_calc, plain_css, same_place, stop, stop_at,
};
use crate::host::{
    Answer, Halt, Stop, Task, ask_names, ask_numbers, ask_value, ask_values, request_names,
    request_numbers, request_value, request_values, two_names,
};
use crate::text::{append_str, chars_of, same_str, string_of};
use crate::value::{
    Cal, CalcNode, CalcOp, Color, Num, Number, SassMap, SassStr, Val, Value, cal,
    calc_complex_unit_operand, complex_operand, complex_units, copy_pairs, copy_value, find_map,
    first_map, num, slashless, truthy, unit_of, unitless, val, val_pairs, word,
};

verus! {

broadcast use crate::kept::group_kept;

// ---- numbers -------------------------------------------------------------

/// The error for two numbers whose units do not fit, each in its CSS form.
pub open spec fn two_numbers_fault<T>(
    s: Ev,
    ans: Seq<Answer>,
    a: Num,
    b: Num,
    tail: Seq<char>,
    pos: Pos,
) -> Run<T> {
    match plain_css(s, ans, Val::Number(a)) {
        (Err(h), s1) => (Err(h), s1),
        (Ok(x), s1) => match plain_css(s1, ans, Val::Number(b)) {
            (Err(h), s2) => (Err(h), s2),
            (Ok(y), s2) => fail(fault_at(x + " and "@ + y + tail, pos), s2),
        },
    }
}

/// The second value times a factor, if there is one; else the error.
pub open spec fn scaled_or_fault(
    s: Ev,
    ans: Seq<Answer>,
    a: Num,
    b: Num,
    factor: Option<u64>,
    pos: Pos,
) -> Run<(u64, u64, Num)> {
    match factor {
        None => two_numbers_fault(s, ans, a, b, " have incompatible units."@, pos),
        Some(f) => match asked_bits(s, ans, ask_numbers(Task::Scale, seq![b.bits, f])) {
            (Err(h), s1) => (Err(h), s1),
            (Ok(None), s1) => (Err(Halt::Mismatch), s1),
            (Ok(Some(x)), s1) => (Ok((a.bits, x, a)), s1),
        },
    }
}

/// Two numbers on common units: their values, and a number that has those units. A number without
/// units takes those of the other; else the second is converted to the first.
pub open spec fn coerced(s: Ev, ans: Seq<Answer>, a: Num, b: Num, pos: Pos) -> Run<(u64, u64, Num)> {
    if unitless(b) {
        (Ok((a.bits, b.bits, a)), s)
    } else if unitless(a) {
        (Ok((a.bits, b.bits, b)), s)
    } else if complex_units(a) || complex_units(b) {
        match asked_bits(s, ans, ask_values(Task::UnitsFactor, Val::Number(b), Val::Number(a))) {
            (Err(h), s1) => (Err(h), s1),
            (Ok(f), s1) => scaled_or_fault(s1, ans, a, b, f, pos),
        }
    } else if unit_of(a) == unit_of(b) {
        (Ok((a.bits, b.bits, a)), s)
    } else {
        match asked_bits(s, ans, ask_names(Task::ConvertFactor, seq![unit_of(b), unit_of(a)])) {
            (Err(h), s1) => (Err(h), s1),
            (Ok(f), s1) => scaled_or_fault(s1, ans, a, b, f, pos),
        }
    }
}

pub open spec fn out_pair(r: Result<(u64, u64, Number), Stop>) -> Result<(u64, u64, Num), Halt> {
    match r {
        Ok(t) => Ok((t.0, t.1, num(t.2))),
        Err(e) => Err(e@),
    }
}

/// A list of two numbers.
pub fn two_bits(a: u64, b: u64) -> (r: Vec<u64>)
    ensures
        r@ == seq![a, b],
{
    let mut v: Vec<u64> = Vec::new();
    v.push(a);
    v.push(b);
    proof {
        assert(v@ =~= seq![a, b]);
    }
    v
}

impl Evaluator {
    /// The error for two numbers whose units do not fit.
    fn two_numbers_error(
        &mut self,
        ans: &Vec<Answer>,
        a: &Number,
        b: &Number,
        tail: &str,
        pos: Pos,
    ) -> (r: Stop)
        ensures
            two_numbers_fault::<()>(old(self)@, ans@, num(*a), num(*b), tail@, pos) == (
                Err::<(), Halt>(r@),
                final(self)@,
            ),
            same_place(old(self)@, final(self)@),
    {
        let x = match self.plain_css(ans, &Value::Number(a.copy())) {
            Ok(t) => t,
            Err(e) => {
                return e;
            },
        };
        let y = match self.plain_css(ans, &Value::Number(b.copy())) {
            Ok(t) => t,
            Err(e) => {
                return e;
            },
        };
        let mut m = chars_of(x.as_str());
        append_str(&mut m, " and ");
        append_str(&mut m, y.as_str());
        append_str(&mut m, tail);
        stop_at(string_of(m.as_slice()).as_str(), pos)
    }

    fn scale_or_error(
        &mut self,
        ans: &Vec<Answer>,
        a: &Number,
        b: &Number,
        factor: Option<u64>,
        pos: Pos,
    ) -> (r: Result<(u64, u64, Number), Stop>)
        ensures
            (out_pair(r), final(self)@) == scaled_or_fault(
                old(self)@,
                ans@,
                num(*a),
                num(*b),
                factor,
                pos,
            ),
            same_place(old(self)@, final(self)@),
    {
        match factor {
            None => Err(self.two_numbers_error(ans, a, b, " have incompatible units.", pos)),
            Some(f) => match self.ask_bits(ans, request_numbers(Task::Scale, two_bits(b.bits, f))) {
                Err(e) => Err(e),
                Ok(None) => Err(Stop::Mismatch),
                Ok(Some(x)) => Ok((a.bits, x, a.copy())),
            },
        }
    }

    /// Two numbers on common units.
    pub fn coerce_pair(&mut self, ans: &Vec<Answer>, a: &Number, b: &Number, pos: Pos) -> (r: Result<
        (u64, u64, Number),
        Stop,
    >)
        ensures
            (out_pair(r), final(self)@) == coerced(old(self)@, ans@, num(*a), num(*b), pos),
            same_place(old(self)@, final(self)@),
    {
        if b.is_unitless() {
            return Ok((a.bits, b.bits, a.copy()));
        }
        if a.is_unitless() {
            return Ok((a.bits, b.bits, b.copy()));
        }
        if a.has_complex_units() || b.has_complex_units() {
            let q = request_values(
                Task::UnitsFactor,
                &Value::Number(b.copy()),
                &Value::Number(a.copy()),
            );
            return match self.ask_bits(ans, q) {
                Err(e) => Err(e),
                Ok(f) => self.scale_or_error(ans, a, b, f, pos),
            };
        }
        let ua = a.unit();
        let ub = b.unit();
        if same_str(ua.as_str(), ub.as_str()) {
            return Ok((a.bits, b.bits, a.copy()));
        }
        let q = request_names(Task::ConvertFactor, two_names(ub.as_str(), ua.as_str()));
        match self.ask_bits(ans, q) {
            Err(e) => Err(e),
            Ok(f) => self.scale_or_error(ans, a, b, f, pos),
        }
    }
}

/// The number that an operation gives, with the units of the coerced pair.
pub open spec fn number_result(s: Ev, ans: Seq<Answer>, task: Task, a: Num, b: Num, pos: Pos) -> Run<Val> {
    match coerced(s, ans, a, b, pos) {
        (Err(h), s1) => (Err(h), s1),
        (Ok(t), s1) => match asked_bits(s1, ans, ask_numbers(task, seq![t.0, t.1])) {
            (Err(h), s2) => (Err(h), s2),
            (Ok(None), s2) => (Err(Halt::Mismatch), s2),
            (Ok(Some(x)), s2) => (Ok(Val::Number(Num { bits: x, ..t.2 })), s2),
        },
    }
}

/// The truth value that a comparison gives.
pub open spec fn compare_result(s: Ev, ans: Seq<Answer>, task: Task, a: Num, b: Num, pos: Pos) -> Run<Val> {
    match coerced(s, ans, a, b, pos) {
        (Err(h), s1) => (Err(h), s1),
        (Ok(t), s1) => match asked_flag(s1, ans, ask_numbers(task, seq![t.0, t.1])) {
            (Err(h), s2) => (Err(h), s2),
            (Ok(x), s2) => (Ok(Val::Bool(x)), s2),
        },
    }
}

impl Evaluator {
    fn number_op(&mut self, ans: &Vec<Answer>, task: Task, a: &Number, b: &Number, pos: Pos) -> (r: Result<
        Value,
        Stop,
    >)
        ensures
            (out_val(r), final(self)@) == number_result(old(self)@, ans@, task, num(*a), num(*b), pos),
            same_place(old(self)@, final(self)@),
    {
        match self.coerce_pair(ans, a, b, pos) {
            Err(e) => Err(e),
            Ok((x, y, proto)) => match self.ask_bits(ans, request_numbers(task, two_bits(x, y))) {
                Err(e) => Err(e),
                Ok(None) => Err(Stop::Mismatch),
                Ok(Some(bits)) => Ok(Value::Number(proto.copy_units(bits))),
            },
        }
    }

    fn number_test(&mut self, ans: &Vec<Answer>, task: Task, a: &Number, b: &Number, pos: Pos) -> (r: Result<
        Value,
        Stop,
    >)
        ensures
            (out_val(r), final(self)@) == compare_result(old(self)@, ans@, task, num(*a), num(*b), pos),
            same_place(old(self)@, final(self)@),
    {
        match self.coerce_pair(ans, a, b, pos) {
            Err(e) => Err(e),
            Ok((x, y, _)) => match self.ask_flag(ans, request_numbers(task, two_bits(x, y))) {
                Err(e) => Err(e),
                Ok(b) => Ok(Value::Bool(b)),
            },
        }
    }
}

// ---- faults --------------------------------------------------------------

/// The message for an operator that its operands do not have.
pub open spec fn undefined_message(x: Seq<char>, sym: Seq<char>, y: Seq<char>) -> Seq<char> {
    "Undefined operation \""@ + x + seq![' '] + sym + seq![' '] + y + "\"."@
}

pub open spec fn undefined<T>(s: Ev, ans: Seq<Answer>, l: Val, sym: Seq<char>, r: Val, pos: Pos) -> Run<T> {
    match plain_css(s, ans, l) {
        (Err(h), s1) => (Err(h), s1),
        (Ok(x), s1) => match plain_css(s1, ans, r) {
            (Err(h), s2) => (Err(h), s2),
            (Ok(y), s2) => fail(fault_at(undefined_message(x, sym, y), pos), s2),
        },
    }
}

/// The error for a text that is no CSS value.
pub open spec fn invalid_css(text: Seq<char>) -> Seq<char> {
    text + " isn't a valid CSS value."@
}

pub open spec fn is_callable(v: Val) -> bool {
    v is Function || v is Mixin
}

/// The error for an operand that is a reference to a function or a mixin, the left one first.
pub open spec fn callable_fault<T>(s: Ev, ans: Seq<Answer>, v: Val, pos: Pos) -> Run<T> {
    match asked_text(s, ans, ask_value(Task::Inspect, v)) {
        (Err(h), s1) => (Err(h), s1),
        (Ok(t), s1) => fail(fault_at(invalid_css(t), pos), s1),
    }
}

/// The error for an operand that holds a map.
pub open spec fn map_fault<T>(s: Ev, ans: Seq<Answer>, m: Seq<(Val, Val)>, pos: Pos) -> Run<T> {
    match plain_css(s, ans, Val::Pairs(m)) {
        (Err(h), s1) => (Err(h), s1),
        (Ok(t), s1) => fail(fault_at(invalid_css(t), pos), s1),
    }
}

impl Evaluator {
    pub fn undefined_op(&mut self, ans: &Vec<Answer>, l: &Value, sym: &str, r: &Value, pos: Pos) -> (e: Stop)
        ensures
            undefined::<()>(old(self)@, ans@, val(*l), sym@, val(*r), pos) == (
                Err::<(), Halt>(e@),
                final(self)@,
            ),
            same_place(old(self)@, final(self)@),
    {
        let x = match self.plain_css(ans, l) {
            Ok(t) => t,
            Err(e) => {
                return e;
            },
        };
        let y = match self.plain_css(ans, r) {
            Ok(t) => t,
            Err(e) => {
                return e;
            },
        };
        let mut m = chars_of("Undefined operation \"");
        append_str(&mut m, x.as_str());
        m.push(' ');
        append_str(&mut m, sym);
        m.push(' ');
        append_str(&mut m, y.as_str());
        append_str(&mut m, "\".");
        proof {
            assert(m@ =~= undefined_message(x@, sym@, y@));
        }
        stop_at(string_of(m.as_slice()).as_str(), pos)
    }

    fn invalid_value(&mut self, text: &str, pos: Pos) -> (e: Stop)
        ensures
            e@ == Halt::Error(fault_at(invalid_css(text@), pos)),
            final(self)@ == old(self)@,
            same_place(old(self)@, final(self)@),
    {
        let mut m = chars_of(text);
        append_str(&mut m, " isn't a valid CSS value.");
        stop_at(string_of(m.as_slice()).as_str(), pos)
    }

    /// The error for a reference to a function or a mixin.
    pub fn callable_error(&mut self, ans: &Vec<Answer>, v: &Value, pos: Pos) -> (e: Stop)
        ensures
            callable_fault::<()>(old(self)@, ans@, val(*v), pos) == (Err::<(), Halt>(e@), final(self)@),
            same_place(old(self)@, final(self)@),
    {
        match self.ask_text(ans, request_value(Task::Inspect, v)) {
            Err(e) => e,
            Ok(t) => self.invalid_value(t.as_str(), pos),
        }
    }

    /// The error for a map.
    pub fn map_error(&mut self, ans: &Vec<Answer>, m: &SassMap, pos: Pos) -> (e: Stop)
        ensures
            map_fault::<()>(old(self)@, ans@, val_pairs(m.entries@), pos) == (
                Err::<(), Halt>(e@),
                final(self)@,
            ),
            same_place(old(self)@, final(self)@),
    {
        let v = Value::Pairs(SassMap { entries: copy_pairs(&m.entries) });
        match self.plain_css(ans, &v) {
            Err(e) => e,
            Ok(t) => self.invalid_value(t.as_str(), pos),
        }
    }
}

pub fn is_callable_value(v: &Value) -> (r: bool)
    ensures
        r == is_callable(val(*v)),
{
    matches!(v, Value::Function(_)) || matches!(v, Value::Mixin(_))
}

// ---- plus and minus ------------------------------------------------------

pub open spec fn is_numeric(v: Val) -> bool {
    v is Color || v is Number
}

/// Whether a sum or difference is of a colour and a colour or number, which has no meaning.
pub open spec fn color_arithmetic(l: Val, r: Val) -> bool {
    (l is Color && is_numeric(r)) || (r is Color && is_numeric(l))
}

fn color_arith_undefined(l: &Value, r: &Value) -> (b: bool)
    ensures
        b == color_arithmetic(val(*l), val(*r)),
{
    let lc = matches!(l, Value::Color(_));
    let rc = matches!(r, Value::Color(_));
    let ln = matches!(l, Value::Number(_));
    let rn = matches!(r, Value::Number(_));
    (lc && (rc || rn)) || (rc && (lc || ln))
}

/// The text of an operand of a concatenation: that of a string has no quotes.
pub open spec fn concat_text(s: Ev, ans: Seq<Answer>, v: Val) -> Run<Seq<char>> {
    match v {
        Val::Str(t, q) => (Ok(t), s),
        _ => plain_css(s, ans, v),
    }
}

/// The join of two operands as text.
pub open spec fn concatenated(s: Ev, ans: Seq<Answer>, l: Val, r: Val, quoted: bool) -> Run<Val> {
    match concat_text(s, ans, l) {
        (Err(h), s1) => (Err(h), s1),
        (Ok(x), s1) => match concat_text(s1, ans, r) {
            (Err(h), s2) => (Err(h), s2),
            (Ok(y), s2) => (Ok(Val::Str(x + y, quoted)), s2),
        },
    }
}

/// The first map in two operands.
pub open spec fn either_map(l: Val, r: Val) -> Option<Seq<(Val, Val)>> {
    match first_map(l) {
        Some(m) => Some(m),
        None => first_map(r),
    }
}

/// `l + r`.
pub open spec fn sum(s: Ev, ans: Seq<Answer>, l: Val, r: Val, pos: Pos) -> Run<Val> {
    if l is Number && r is Number {
        number_result(s, ans, Task::Sum, l->Number_0, r->Number_0, pos)
    } else if color_arithmetic(l, r) {
        undefined(s, ans, l, "+"@, r, pos)
    } else if is_callable(l) {
        callable_fault(s, ans, l, pos)
    } else if is_callable(r) {
        callable_fault(s, ans, r, pos)
    } else if (l is Calc && !(r is Str)) || (r is Calc && !(l is Str)) {
        undefined(s, ans, l, "+"@, r, pos)
    } else if either_map(l, r) is Some {
        map_fault(s, ans, either_map(l, r)->0, pos)
    } else {
        let quoted = match l {
            Val::Str(_, q) => q,
            _ => match r {
                Val::Str(_, q) => q,
                _ => false,
            },
        };
        concatenated(s, ans, l, r, quoted)
    }
}

/// Two values joined by a separator, each in its CSS form.
pub open spec fn separated(s: Ev, ans: Seq<Answer>, l: Val, sep: Seq<char>, r: Val) -> Run<Val> {
    match plain_css(s, ans, l) {
        (Err(h), s1) => (Err(h), s1),
        (Ok(x), s1) => match plain_css(s1, ans, r) {
            (Err(h), s2) => (Err(h), s2),
            (Ok(y), s2) => (Ok(Val::Str(x + sep + y, false)), s2),
        },
    }
}

/// `l - r`.
pub open spec fn difference(s: Ev, ans: Seq<Answer>, l: Val, r: Val, pos: Pos) -> Run<Val> {
    if l is Number && r is Number {
        number_result(s, ans, Task::Difference, l->Number_0, r->Number_0, pos)
    } else if color_arithmetic(l, r) {
        undefined(s, ans, l, "-"@, r, pos)
    } else if is_callable(l) {
        callable_fault(s, ans, l, pos)
    } else if is_callable(r) {
        callable_fault(s, ans, r, pos)
    } else if l is Calc || r is Calc {
        undefined(s, ans, l, "-"@, r, pos)
    } else if either_map(l, r) is Some {
        map_fault(s, ans, either_map(l, r)->0, pos)
    } else {
        separated(s, ans, l, "-"@, r)
    }
}

impl Evaluator {
    fn concat_str(&mut self, ans: &Vec<Answer>, v: &Value) -> (r: Result<String, Stop>)
        ensures
            (out_text(r), final(self)@) == concat_text(old(self)@, ans@, val(*v)),
            same_place(old(self)@, final(self)@),
    {
        match v {
            Value::Str(t) => Ok(t.text.clone()),
            _ => self.plain_css(ans, v),
        }
    }

    fn concat(&mut self, ans: &Vec<Answer>, l: &Value, r: &Value, quoted: bool) -> (o: Result<Value, Stop>)
        ensures
            (out_val(o), final(self)@) == concatenated(old(self)@, ans@, val(*l), val(*r), quoted),
            same_place(old(self)@, final(self)@),
    {
        let x = match self.concat_str(ans, l) {
            Ok(t) => t,
            Err(e) => {
                return Err(e);
            },
        };
        let y = match self.concat_str(ans, r) {
            Ok(t) => t,
            Err(e) => {
                return Err(e);
            },
        };
        let mut m = chars_of(x.as_str());
        append_str(&mut m, y.as_str());
        Ok(Value::Str(SassStr { text: string_of(m.as_slice()), quoted }))
    }

    /// Two values joined by a separator.
    pub fn join_css(&mut self, ans: &Vec<Answer>, l: &Value, sep: &str, r: &Value) -> (o: Result<Value, Stop>)
        ensures
            (out_val(o), final(self)@) == separated(old(self)@, ans@, val(*l), sep@, val(*r)),
            same_place(old(self)@, final(self)@),
    {
        let x = match self.plain_css(ans, l) {
            Ok(t) => t,
            Err(e) => {
                return Err(e);
            },
        };
        let y = match self.plain_css(ans, r) {
            Ok(t) => t,
            Err(e) => {
                return Err(e);
            },
        };
        let mut m = chars_of(x.as_str());
        append_str(&mut m, sep);
        append_str(&mut m, y.as_str());
        Ok(word(string_of(m.as_slice())))
    }

    /// `l + r`.
    pub fn binary_add(&mut self, ans: &Vec<Answer>, l: &Value, r: &Value, pos: Pos) -> (o: Result<Value, Stop>)
        ensures
            (out_val(o), final(self)@) == sum(old(self)@, ans@, val(*l), val(*r), pos),
            same_place(old(self)@, final(self)@),
    {
        if let (Value::Number(a), Value::Number(b)) = (l, r) {
            return self.number_op(ans, Task::Sum, a, b, pos);
        }
        if color_arith_undefined(l, r) {
            return Err(self.undefined_op(ans, l, "+", r, pos));
        }
        if is_callable_value(l) {
            return Err(self.callable_error(ans, l, pos));
        }
        if is_callable_value(r) {
            return Err(self.callable_error(ans, r, pos));
        }
        let l_calc = matches!(l, Value::Calc(_));
        let r_calc = matches!(r, Value::Calc(_));
        let l_str = matches!(l, Value::Str(_));
        let r_str = matches!(r, Value::Str(_));
        if (l_calc && !r_str) || (r_calc && !l_str) {
            return Err(self.undefined_op(ans, l, "+", r, pos));
        }
        if let Some(m) = find_map(l) {
            return Err(self.map_error(ans, m, pos));
        }
        if let Some(m) = find_map(r) {
            return Err(self.map_error(ans, m, pos));
        }
        let quoted = match l {
            Value::Str(t) => t.quoted,
            _ => match r {
                Value::Str(t) => t.quoted,
                _ => false,
            },
        };
        self.concat(ans, l, r, quoted)
    }

    /// `l - r`.
    pub fn binary_sub(&mut self, ans: &Vec<Answer>, l: &Value, r: &Value, pos: Pos) -> (o: Result<Value, Stop>)
        ensures
            (out_val(o), final(self)@) == difference(old(self)@, ans@, val(*l), val(*r), pos),
            same_place(old(self)@, final(self)@),
    {
        if let (Value::Number(a), Value::Number(b)) = (l, r) {
            return self.number_op(ans, Task::Difference, a, b, pos);
        }
        if color_arith_undefined(l, r) {
            return Err(self.undefined_op(ans, l, "-", r, pos));
        }
        if is_callable_value(l) {
            return Err(self.callable_error(ans, l, pos));
        }
        if is_callable_value(r) {
            return Err(self.callable_error(ans, r, pos));
        }
        if matches!(l, Value::Calc(_)) || matches!(r, Value::Calc(_)) {
            return Err(self.undefined_op(ans, l, "-", r, pos));
        }
        if let Some(m) = find_map(l) {
            return Err(self.map_error(ans, m, pos));
        }
        if let Some(m) = find_map(r) {
            return Err(self.map_error(ans, m, pos));
        }
        self.join_css(ans, l, "-", r)
    }
}

// ---- the other operators -------------------------------------------------

/// `l * r`.
pub open spec fn product(s: Ev, ans: Seq<Answer>, l: Val, r: Val, pos: Pos) -> Run<Val> {
    if l is Number && r is Number {
        match asked_number(s, ans, ask_values(Task::Product, l, r)) {
            (Err(h), s1) => (Err(h), s1),
            (Ok(n), s1) => (Ok(Val::Number(n)), s1),
        }
    } else {
        undefined(s, ans, l, "*"@, r, pos)
    }
}

/// `l % r`.
pub open spec fn modulo(s: Ev, ans: Seq<Answer>, l: Val, r: Val, pos: Pos) -> Run<Val> {
    if l is Number && r is Number {
        number_result(s, ans, Task::Remainder, l->Number_0, r->Number_0, pos)
    } else {
        undefined(s, ans, l, "%"@, r, pos)
    }
}

/// A comparison by order.
pub open spec fn ordered(s: Ev, ans: Seq<Answer>, task: Task, sym: Seq<char>, l: Val, r: Val, pos: Pos) -> Run<
    Val,
> {
    if l is Number && r is Number {
        compare_result(s, ans, task, l->Number_0, r->Number_0, pos)
    } else {
        undefined(s, ans, l, sym, r, pos)
    }
}

/// A test for equality, or for its opposite.
pub open spec fn equality(s: Ev, ans: Seq<Answer>, l: Val, r: Val, wanted: bool) -> Run<Val> {
    match asked_flag(s, ans, ask_values(Task::SameValue, l, r)) {
        (Err(h), s1) => (Err(h), s1),
        (Ok(b), s1) => (Ok(Val::Bool(b == wanted)), s1),
    }
}

/// A binary operator on operands that are both evaluated.
#[verifier::opaque]
pub open spec fn binary(s: Ev, ans: Seq<Answer>, op: BinOp, l: Val, r: Val, pos: Pos) -> Run<Val> {
    match op {
        BinOp::Add => sum(s, ans, l, r, pos),
        BinOp::Sub => difference(s, ans, l, r, pos),
        BinOp::Mod => modulo(s, ans, l, r, pos),
        BinOp::Mul => product(s, ans, l, r, pos),
        BinOp::Eq => equality(s, ans, l, r, true),
        BinOp::Neq => equality(s, ans, l, r, false),
        BinOp::Lt => ordered(s, ans, Task::Less, "<"@, l, r, pos),
        BinOp::Gt => ordered(s, ans, Task::Greater, ">"@, l, r, pos),
        BinOp::Le => ordered(s, ans, Task::LessEqual, "<="@, l, r, pos),
        BinOp::Ge => ordered(s, ans, Task::GreaterEqual, ">="@, l, r, pos),
        BinOp::And => fail(fault("internal: and/or are short-circuited in eval_expr"@), s),
        BinOp::Or => fail(fault("internal: and/or are short-circuited in eval_expr"@), s),
        BinOp::SingleEq => separated(s, ans, l, "="@, r),
    }
}

impl Evaluator {
    fn binary_mul(&mut self, ans: &Vec<Answer>, l: &Value, r: &Value, pos: Pos) -> (o: Result<Value, Stop>)
        ensures
            (out_val(o), final(self)@) == product(old(self)@, ans@, val(*l), val(*r), pos),
            same_place(old(self)@, final(self)@),
    {
        if let (Value::Number(_), Value::Number(_)) = (l, r) {
            return match self.ask_number(ans, request_values(Task::Product, l, r)) {
                Err(e) => Err(e),
                Ok(n) => Ok(Value::Number(n)),
            };
        }
        Err(self.undefined_op(ans, l, "*", r, pos))
    }

    fn num_binop(&mut self, ans: &Vec<Answer>, l: &Value, r: &Value, pos: Pos) -> (o: Result<Value, Stop>)
        ensures
            (out_val(o), final(self)@) == modulo(old(self)@, ans@, val(*l), val(*r), pos),
            same_place(old(self)@, final(self)@),
    {
        if let (Value::Number(a), Value::Number(b)) = (l, r) {
            return self.number_op(ans, Task::Remainder, a, b, pos);
        }
        Err(self.undefined_op(ans, l, "%", r, pos))
    }

    fn num_compare(
        &mut self,
        ans: &Vec<Answer>,
        task: Task,
        sym: &str,
        l: &Value,
        r: &Value,
        pos: Pos,
    ) -> (o: Result<Value, Stop>)
        ensures
            (out_val(o), final(self)@) == ordered(old(self)@, ans@, task, sym@, val(*l), val(*r), pos),
            same_place(old(self)@, final(self)@),
    {
        if let (Value::Number(a), Value::Number(b)) = (l, r) {
            return self.number_test(ans, task, a, b, pos);
        }
        Err(self.undefined_op(ans, l, sym, r, pos))
    }

    fn equals(&mut self, ans: &Vec<Answer>, l: &Value, r: &Value, wanted: bool) -> (o: Result<Value, Stop>)
        ensures
            (out_val(o), final(self)@) == equality(old(self)@, ans@, val(*l), val(*r), wanted),
            same_place(old(self)@, final(self)@),
    {
        match self.ask_flag(ans, request_values(Task::SameValue, l, r)) {
            Err(e) => Err(e),
            Ok(b) => Ok(Value::Bool(b == wanted)),
        }
    }

    /// A binary operator on operands that are both evaluated.
    pub fn eval_binary(&mut self, ans: &Vec<Answer>, op: BinOp, l: &Value, r: &Value, pos: Pos) -> (o: Result<
        Value,
        Stop,
    >)
        ensures
            (out_val(o), final(self)@) == binary(old(self)@, ans@, op, val(*l), val(*r), pos),
            same_place(old(self)@, final(self)@),
    {
        proof {
            reveal(binary);
        }
        match op {
            BinOp::Add => self.binary_add(ans, l, r, pos),
            BinOp::Sub => self.binary_sub(ans, l, r, pos),
            BinOp::Mod => self.num_binop(ans, l, r, pos),
            BinOp::Mul => self.binary_mul(ans, l, r, pos),
            BinOp::Eq => self.equals(ans, l, r, true),
            BinOp::Neq => self.equals(ans, l, r, false),
            BinOp::Lt => self.num_compare(ans, Task::Less, "<", l, r, pos),
            BinOp::Gt => self.num_compare(ans, Task::Greater, ">", l, r, pos),
            BinOp::Le => self.num_compare(ans, Task::LessEqual, "<=", l, r, pos),
            BinOp::Ge => self.num_compare(ans, Task::GreaterEqual, ">=", l, r, pos),
            BinOp::And => Err(stop("internal: and/or are short-circuited in eval_expr")),
            BinOp::Or => Err(stop("internal: and/or are short-circuited in eval_expr")),
            BinOp::SingleEq => self.join_css(ans, l, "=", r),
        }
    }
}

// ---- division ------------------------------------------------------------

/// The spelling of an operand of `/`: a division keeps its own.
pub open spec fn slash_text(s: Ev, ans: Seq<Answer>, v: Val) -> Run<Seq<char>> {
    match v {
        Val::Slash(n, t) => (Ok(t), s),
        _ => plain_css(s, ans, v),
    }
}

/// The spelling `l/r`.
pub open spec fn slash_spelling(s: Ev, ans: Seq<Answer>, l: Val, r: Val) -> Run<Seq<char>> {
    match slash_text(s, ans, l) {
        (Err(h), s1) => (Err(h), s1),
        (Ok(x), s1) => match slash_text(s1, ans, r) {
            (Err(h), s2) => (Err(h), s2),
            (Ok(y), s2) => (Ok(x.push('/') + y), s2),
        },
    }
}

/// `l / r`. Two numbers that are written with a slash keep that spelling beside their quotient.
#[verifier::opaque]
pub open spec fn division(s: Ev, ans: Seq<Answer>, l: Val, r: Val, slash: bool, pos: Pos) -> Run<Val> {
    let a = slashless(l);
    let b = slashless(r);
    if is_callable(l) {
        callable_fault(s, ans, l, pos)
    } else if is_callable(r) {
        callable_fault(s, ans, r, pos)
    } else if a is Number && b is Number {
        if slash {
            match slash_spelling(s, ans, l, r) {
                (Err(h), s1) => (Err(h), s1),
                (Ok(t), s1) => match asked_number(s1, ans, ask_values(Task::Quotient, a, b)) {
                    (Err(h), s2) => (Err(h), s2),
                    (Ok(n), s2) => (Ok(Val::Slash(n, t)), s2),
                },
            }
        } else {
            match asked_number(s, ans, ask_values(Task::Quotient, a, b)) {
                (Err(h), s1) => (Err(h), s1),
                (Ok(n), s1) => (Ok(Val::Number(n)), s1),
            }
        }
    } else if a is Color && is_numeric(b) {
        undefined(s, ans, a, "/"@, b, pos)
    } else {
        match slash_spelling(s, ans, l, r) {
            (Err(h), s1) => (Err(h), s1),
            (Ok(t), s1) => (Ok(Val::Str(t, false)), s1),
        }
    }
}

impl Evaluator {
    fn slash_repr(&mut self, ans: &Vec<Answer>, v: &Value) -> (r: Result<String, Stop>)
        ensures
            (out_text(r), final(self)@) == slash_text(old(self)@, ans@, val(*v)),
            same_place(old(self)@, final(self)@),
    {
        match v {
            Value::Slash(_, t) => Ok(t.clone()),
            _ => self.plain_css(ans, v),
        }
    }

    fn spell_slash(&mut self, ans: &Vec<Answer>, l: &Value, r: &Value) -> (o: Result<String, Stop>)
        ensures
            (out_text(o), final(self)@) == slash_spelling(old(self)@, ans@, val(*l), val(*r)),
            same_place(old(self)@, final(self)@),
    {
        let x = match self.slash_repr(ans, l) {
            Ok(t) => t,
            Err(e) => {
                return Err(e);
            },
        };
        let y = match self.slash_repr(ans, r) {
            Ok(t) => t,
            Err(e) => {
                return Err(e);
            },
        };
        let mut m = chars_of(x.as_str());
        m.push('/');
        append_str(&mut m, y.as_str());
        Ok(string_of(m.as_slice()))
    }

    /// `l / r`.
    pub fn eval_div(&mut self, ans: &Vec<Answer>, l: &Value, r: &Value, slash: bool, pos: Pos) -> (o: Result<
        Value,
        Stop,
    >)
        ensures
            (out_val(o), final(self)@) == division(old(self)@, ans@, val(*l), val(*r), slash, pos),
            same_place(old(self)@, final(self)@),
    {
        proof {
            reveal(division);
        }
        if is_callable_value(l) {
            return Err(self.callable_error(ans, l, pos));
        }
        if is_callable_value(r) {
            return Err(self.callable_error(ans, r, pos));
        }
        let a = copy_value(l).without_slash();
        let b = copy_value(r).without_slash();
        if matches!(&a, Value::Number(_)) && matches!(&b, Value::Number(_)) {
            if slash {
                let t = match self.spell_slash(ans, l, r) {
                    Ok(t) => t,
                    Err(e) => {
                        return Err(e);
                    },
                };
                return match self.ask_number(ans, request_values(Task::Quotient, &a, &b)) {
                    Err(e) => Err(e),
                    Ok(n) => Ok(Value::Slash(n, t)),
                };
            }
            return match self.ask_number(ans, request_values(Task::Quotient, &a, &b)) {
                Err(e) => Err(e),
                Ok(n) => Ok(Value::Number(n)),
            };
        }
        if matches!(&a, Value::Color(_)) && (matches!(&b, Value::Color(_)) || matches!(
            &b,
            Value::Number(_)
        )) {
            return Err(self.undefined_op(ans, &a, "/", &b, pos));
        }
        match self.spell_slash(ans, l, r) {
            Ok(t) => Ok(word(t)),
            Err(e) => Err(e),
        }
    }
}

// ---- calculations --------------------------------------------------------

pub open spec fn out_calc(r: Result<CalcNode, Stop>) -> Result<Cal, Halt> {
    match r {
        Ok(c) => Ok(cal(c)),
        Err(e) => Err(e@),
    }
}

/// An operation of a calculation that is kept.
pub open spec fn kept(op: CalcOp, l: Cal, r: Cal) -> Cal {
    Cal::Op(op, Box::new(l), Box::new(r))
}

/// The number that a sum or difference of two numbers gives: their values as they are, or the
/// second times a factor.
pub open spec fn folded_sum(s: Ev, ans: Seq<Answer>, op: CalcOp, a: Num, b: u64) -> Run<Option<Num>> {
    let task = if op == CalcOp::Add {
        Task::Sum
    } else {
        Task::Difference
    };
    match asked_bits(s, ans, ask_numbers(task, seq![a.bits, b])) {
        (Err(h), s1) => (Err(h), s1),
        (Ok(None), s1) => (Err(Halt::Mismatch), s1),
        (Ok(Some(x)), s1) => (Ok(Some(Num { bits: x, ..a })), s1),
    }
}

pub open spec fn folded_scaled(s: Ev, ans: Seq<Answer>, op: CalcOp, a: Num, b: Num, f: u64) -> Run<Option<Num>> {
    match asked_bits(s, ans, ask_numbers(Task::Scale, seq![b.bits, f])) {
        (Err(h), s1) => (Err(h), s1),
        (Ok(None), s1) => (Err(Halt::Mismatch), s1),
        (Ok(Some(x)), s1) => folded_sum(s1, ans, op, a, x),
    }
}

/// The error for a number whose units no calculation can have.
pub open spec fn complex_number_fault<T>(s: Ev, ans: Seq<Answer>, n: Num, pos: Pos) -> Run<T> {
    match plain_css(s, ans, Val::Number(n)) {
        (Err(h), s1) => (Err(h), s1),
        (Ok(t), s1) => fail(
            fault_at("Number "@ + t + " isn't compatible with CSS calculations."@, pos),
            s1,
        ),
    }
}

/// The number that two numbers come to in a calculation; nothing where the operation is kept. A
/// sum needs units that are the same or convert; a number without units fits no other.
pub open spec fn folded_numbers(s: Ev, ans: Seq<Answer>, op: CalcOp, a: Num, b: Num, pos: Pos) -> Run<
    Option<Num>,
> {
    if op == CalcOp::Mul || op == CalcOp::Div {
        let task = if op == CalcOp::Mul {
            Task::Product
        } else {
            Task::Quotient
        };
        match asked_number(s, ans, ask_values(task, Val::Number(a), Val::Number(b))) {
            (Err(h), s1) => (Err(h), s1),
            (Ok(n), s1) => (Ok(Some(n)), s1),
        }
    } else if complex_units(a) || complex_units(b) {
        match asked_bits(s, ans, ask_values(Task::UnitsFactor, Val::Number(b), Val::Number(a))) {
            (Err(h), s1) => (Err(h), s1),
            (Ok(Some(f)), s1) => folded_scaled(s1, ans, op, a, b, f),
            (Ok(None), s1) => complex_number_fault(
                s1,
                ans,
                if complex_units(a) {
                    a
                } else {
                    b
                },
                pos,
            ),
        }
    } else if unit_of(a) == unit_of(b) {
        folded_sum(s, ans, op, a, b.bits)
    } else if unitless(a) || unitless(b) {
        two_numbers_fault(s, ans, a, b, " are incompatible."@, pos)
    } else {
        match asked_bits(s, ans, ask_names(Task::ConvertFactor, seq![unit_of(b), unit_of(a)])) {
            (Err(h), s1) => (Err(h), s1),
            (Ok(Some(f)), s1) => folded_scaled(s1, ans, op, a, b, f),
            (Ok(None), s1) => match asked_flag(
                s1,
                ans,
                ask_names(Task::UnitsIncompatible, seq![unit_of(a), unit_of(b)]),
            ) {
                (Err(h), s2) => (Err(h), s2),
                (Ok(true), s2) => two_numbers_fault(s2, ans, a, b, " are incompatible."@, pos),
                (Ok(false), s2) => (Ok(None), s2),
            },
        }
    }
}

/// The error for an operand of a sum that stands for a number with complex units.
pub open spec fn complex_operand_fault<T>(s: Ev, ans: Seq<Answer>, c: Cal, pos: Pos) -> Run<T> {
    match plain_calc(s, ans, c) {
        (Err(h), s1) => (Err(h), s1),
        (Ok(t), s1) => fail(
            fault_at("Number calc("@ + t + ") isn't compatible with CSS calculations."@, pos),
            s1,
        ),
    }
}

/// An operation of a calculation whose operands do not fold.
pub open spec fn unfolded_op(s: Ev, ans: Seq<Answer>, op: CalcOp, l: Cal, r: Cal, pos: Pos) -> Run<Cal> {
    let additive = op == CalcOp::Add || op == CalcOp::Sub;
    if additive && complex_operand(l) {
        complex_operand_fault(s, ans, l, pos)
    } else if additive && complex_operand(r) {
        complex_operand_fault(s, ans, r, pos)
    } else {
        (Ok(kept(op, l, r)), s)
    }
}

/// An operation of a calculation: a number where both operands are numbers that fold.
#[verifier::opaque]
pub open spec fn folded(s: Ev, ans: Seq<Answer>, op: CalcOp, l: Cal, r: Cal, pos: Pos) -> Run<Cal> {
    if l is Number && r is Number {
        match folded_numbers(s, ans, op, l->Number_0, r->Number_0, pos) {
            (Err(h), s1) => (Err(h), s1),
            (Ok(Some(n)), s1) => (Ok(Cal::Number(n)), s1),
            (Ok(None), s1) => unfolded_op(s1, ans, op, l, r, pos),
        }
    } else {
        unfolded_op(s, ans, op, l, r, pos)
    }
}

pub open spec fn out_fold(r: Result<Option<Number>, Stop>) -> Result<Option<Num>, Halt> {
    match r {
        Ok(Some(n)) => Ok(Some(num(n))),
        Ok(None) => Ok(None),
        Err(e) => Err(e@),
    }
}

impl Evaluator {
    fn fold_sum(&mut self, ans: &Vec<Answer>, op: CalcOp, a: &Number, b: u64) -> (r: Result<
        Option<Number>,
        Stop,
    >)
        ensures
            (out_fold(r), final(self)@) == folded_sum(old(self)@, ans@, op, num(*a), b),
            same_place(old(self)@, final(self)@),
    {
        let task = if op == CalcOp::Add {
            Task::Sum
        } else {
            Task::Difference
        };
        match self.ask_bits(ans, request_numbers(task, two_bits(a.bits, b))) {
            Err(e) => Err(e),
            Ok(None) => Err(Stop::Mismatch),
            Ok(Some(x)) => Ok(Some(a.copy_units(x))),
        }
    }

    fn fold_scaled(&mut self, ans: &Vec<Answer>, op: CalcOp, a: &Number, b: &Number, f: u64) -> (r: Result<
        Option<Number>,
        Stop,
    >)
        ensures
            (out_fold(r), final(self)@) == folded_scaled(old(self)@, ans@, op, num(*a), num(*b), f),
            same_place(old(self)@, final(self)@),
    {
        match self.ask_bits(ans, request_numbers(Task::Scale, two_bits(b.bits, f))) {
            Err(e) => Err(e),
            Ok(None) => Err(Stop::Mismatch),
            Ok(Some(x)) => self.fold_sum(ans, op, a, x),
        }
    }

    fn complex_number_error(&mut self, ans: &Vec<Answer>, n: &Number, pos: Pos) -> (e: Stop)
        ensures
            complex_number_fault::<()>(old(self)@, ans@, num(*n), pos) == (
                Err::<(), Halt>(e@),
                final(self)@,
            ),
            same_place(old(self)@, final(self)@),
    {
        match self.plain_css(ans, &Value::Number(n.copy())) {
            Err(e) => e,
            Ok(t) => {
                let mut m = chars_of("Number ");
                append_str(&mut m, t.as_str());
                append_str(&mut m, " isn't compatible with CSS calculations.");
                stop_at(string_of(m.as_slice()).as_str(), pos)
            },
        }
    }

    /// Combine two numbers in a calculation.
    pub fn fold_numbers(&mut self, ans: &Vec<Answer>, op: CalcOp, a: &Number, b: &Number, pos: Pos) -> (r: Result<
        Option<Number>,
        Stop,
    >)
        ensures
            (out_fold(r), final(self)@) == folded_numbers(old(self)@, ans@, op, num(*a), num(*b), pos),
            same_place(old(self)@, final(self)@),
    {
        if op == CalcOp::Mul || op == CalcOp::Div {
            let task = if op == CalcOp::Mul {
                Task::Product
            } else {
                Task::Quotient
            };
            let q = request_values(task, &Value::Number(a.copy()), &Value::Number(b.copy()));
            return match self.ask_number(ans, q) {
                Err(e) => Err(e),
                Ok(n) => Ok(Some(n)),
            };
        }
        if a.has_complex_units() || b.has_complex_units() {
            let q = request_values(
                Task::UnitsFactor,
                &Value::Number(b.copy()),
                &Value::Number(a.copy()),
            );
            return match self.ask_bits(ans, q) {
                Err(e) => Err(e),
                Ok(Some(f)) => self.fold_scaled(ans, op, a, b, f),
                Ok(None) => {
                    let n = if a.has_complex_units() {
                        a
                    } else {
                        b
                    };
                    Err(self.complex_number_error(ans, n, pos))
                },
            };
        }
        let ua = a.unit();
        let ub = b.unit();
        if same_str(ua.as_str(), ub.as_str()) {
            return self.fold_sum(ans, op, a, b.bits);
        }
        if a.is_unitless() || b.is_unitless() {
            return Err(self.two_numbers_error(ans, a, b, " are incompatible.", pos));
        }
        let q = request_names(Task::ConvertFactor, two_names(ub.as_str(), ua.as_str()));
        match self.ask_bits(ans, q) {
            Err(e) => Err(e),
            Ok(Some(f)) => self.fold_scaled(ans, op, a, b, f),
            Ok(None) => {
                let q = request_names(Task::UnitsIncompatible, two_names(ua.as_str(), ub.as_str()));
                match self.ask_flag(ans, q) {
                    Err(e) => Err(e),
                    Ok(true) => Err(self.two_numbers_error(ans, a, b, " are incompatible.", pos)),
                    Ok(false) => Ok(None),
                }
            },
        }
    }

    /// The error for an operand that stands for a number with complex units.
    pub fn complex_operand_error(&mut self, ans: &Vec<Answer>, c: &CalcNode, pos: Pos) -> (e: Stop)
        ensures
            complex_operand_fault::<()>(old(self)@, ans@, cal(*c), pos) == (
                Err::<(), Halt>(e@),
                final(self)@,
            ),
            same_place(old(self)@, final(self)@),
    {
        match self.plain_calc(ans, c) {
            Err(e) => e,
            Ok(t) => {
                let mut m = chars_of("Number calc(");
                append_str(&mut m, t.as_str());
                append_str(&mut m, ") isn't compatible with CSS calculations.");
                stop_at(string_of(m.as_slice()).as_str(), pos)
            },
        }
    }

    /// An operation of a calculation.
    pub fn fold_calc(&mut self, ans: &Vec<Answer>, op: CalcOp, l: CalcNode, r: CalcNode, pos: Pos) -> (o: Result<
        CalcNode,
        Stop,
    >)
        ensures
            (out_calc(o), final(self)@) == folded(old(self)@, ans@, op, cal(l), cal(r), pos),
            same_place(old(self)@, final(self)@),
    {
        proof {
            reveal(folded);
        }
        if let (CalcNode::Number(a), CalcNode::Number(b)) = (&l, &r) {
            match self.fold_numbers(ans, op, a, b, pos) {
                Err(e) => {
                    return Err(e);
                },
                Ok(Some(n)) => {
                    return Ok(CalcNode::Number(n));
                },
                Ok(None) => {},
            }
        }
        if op == CalcOp::Add || op == CalcOp::Sub {
            if calc_complex_unit_operand(&l) {
                return Err(self.complex_operand_error(ans, &l, pos));
            }
            if calc_complex_unit_operand(&r) {
                return Err(self.complex_operand_error(ans, &r, pos));
            }
        }
        Ok(CalcNode::Op { op, left: Box::new(l), right: Box::new(r) })
    }
}

// ---- unary operators -----------------------------------------------------

/// A sign before a value that is no number: text, unless it is a calculation.
pub open spec fn signed(s: Ev, ans: Seq<Answer>, sign: char, v: Val) -> Run<Val> {
    match plain_css(s, ans, v) {
        (Err(h), s1) => (Err(h), s1),
        (Ok(t), s1) => if v is Calc {
            fail(fault("Undefined operation \""@.push(sign) + t + "\"."@), s1)
        } else {
            (Ok(Val::Str(seq![sign] + t, false)), s1)
        },
    }
}

/// A unary operator.
#[verifier::opaque]
pub open spec fn unary(s: Ev, ans: Seq<Answer>, op: UnOp, v: Val) -> Run<Val> {
    match op {
        UnOp::Not => (Ok(Val::Bool(!truthy(v))), s),
        UnOp::Plus => if v is Number {
            (Ok(v), s)
        } else {
            signed(s, ans, '+', v)
        },
        UnOp::Neg => if v is Number {
            match asked_bits(s, ans, ask_numbers(Task::Negative, seq![(v->Number_0).bits])) {
                (Err(h), s1) => (Err(h), s1),
                (Ok(None), s1) => (Err(Halt::Mismatch), s1),
                (Ok(Some(x)), s1) => (Ok(Val::Number(Num { bits: x, ..v->Number_0 })), s1),
            }
        } else {
            signed(s, ans, '-', v)
        },
    }
}

/// A list of one number.
pub fn one_bits(a: u64) -> (r: Vec<u64>)
    ensures
        r@ == seq![a],
{
    let mut v: Vec<u64> = Vec::new();
    v.push(a);
    proof {
        assert(v@ =~= seq![a]);
    }
    v
}

impl Evaluator {
    fn sign(&mut self, ans: &Vec<Answer>, sign: char, v: &Value) -> (r: Result<Value, Stop>)
        ensures
            (out_val(r), final(self)@) == signed(old(self)@, ans@, sign, val(*v)),
            same_place(old(self)@, final(self)@),
    {
        let t = match self.plain_css(ans, v) {
            Ok(t) => t,
            Err(e) => {
                return Err(e);
            },
        };
        if matches!(v, Value::Calc(_)) {
            let mut m = chars_of("Undefined operation \"");
            m.push(sign);
            append_str(&mut m, t.as_str());
            append_str(&mut m, "\".");
            return Err(stop(string_of(m.as_slice()).as_str()));
        }
        let mut m: Vec<char> = Vec::new();
        m.push(sign);
        append_str(&mut m, t.as_str());
        proof {
            assert(m@ =~= seq![sign] + t@);
        }
        Ok(word(string_of(m.as_slice())))
    }

    /// A unary operator.
    pub fn eval_unary(&mut self, ans: &Vec<Answer>, op: UnOp, v: Value) -> (r: Result<Value, Stop>)
        ensures
            (out_val(r), final(self)@) == unary(old(self)@, ans@, op, val(v)),
            same_place(old(self)@, final(self)@),
    {
        proof {
            reveal(unary);
        }
        match op {
            UnOp::Not => Ok(Value::Bool(!v.is_truthy())),
            UnOp::Plus => {
                if matches!(&v, Value::Number(_)) {
                    return Ok(v);
                }
                self.sign(ans, '+', &v)
            },
            UnOp::Neg => match &v {
                Value::Number(n) => match self.ask_bits(
                    ans,
                    request_numbers(Task::Negative, one_bits(n.bits)),
                ) {
                    Err(e) => Err(e),
                    Ok(None) => Err(Stop::Mismatch),
                    Ok(Some(x)) => Ok(Value::Number(n.copy_units(x))),
                },
                _ => self.sign(ans, '-', &v),
            },
        }
    }
}

} // verus!
