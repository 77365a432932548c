//! The values of the language.
//!
//! Arithmetic is not done here: a number carries the bits of its value and its units, a colour a
//! token by which it is found again, and what they come to is computed outside.

use vstd::prelude::*;
use crate::text::{clone_strings, texts};

verus! {

/// A number: the bits of its double-precision value, and its units.
#[derive(Debug)]
pub struct Number {
    pub bits: u64,
    pub numer: Vec<String>,
    pub denom: Vec<String>,
}

/// A colour, by its token.
#[derive(Clone, Copy, Debug, PartialEq, Eq, Structural)]
pub struct Color {
    pub token: u64,
}

#[derive(Clone, Copy, Debug, PartialEq, Eq, Structural)]
pub enum ListSep {
    Comma,
    Space,
    Slash,
    Undecided,
}

#[derive(Clone, Copy, Debug, PartialEq, Eq, Structural)]
pub enum CalcOp {
    Add,
    Sub,
    Mul,
    Div,
}

/// A calculation that could not be reduced to a number.
#[derive(Debug)]
pub enum CalcNode {
    Number(Number),
    Str(String),
    Op { op: CalcOp, left: Box<CalcNode>, right: Box<CalcNode> },
    Func { name: String, args: Vec<CalcNode> },
}

#[derive(Debug)]
pub struct SassStr {
    pub text: String,
    pub quoted: bool,
}

#[derive(Debug)]
pub struct List {
    pub items: Vec<Value>,
    pub sep: ListSep,
    pub bracketed: bool,
    /// The keyword arguments of an argument list.
    pub keywords: Option<Vec<(Value, Value)>>,
}

#[derive(Debug)]
pub struct SassMap {
    pub entries: Vec<(Value, Value)>,
}

/// A reference to a function; `user` is the index of a user-defined one.
#[derive(Debug)]
pub struct SassFunction {
    pub name: String,
    pub css: bool,
    pub user: Option<usize>,
}

/// A reference to a mixin; `user` is the index of a user-defined one, `module` that of the module
/// it runs in.
#[derive(Debug)]
pub struct SassMixin {
    pub name: String,
    pub user: Option<usize>,
    pub module: Option<usize>,
}

#[derive(Debug)]
pub enum Value {
    Null,
    Bool(bool),
    Number(Number),
    Color(Color),
    Str(SassStr),
    List(List),
    Pairs(SassMap),
    Calc(CalcNode),
    /// A division that keeps its spelling until it is used as a number.
    Slash(Number, String),
    Function(SassFunction),
    Mixin(SassMixin),
}

/// What a [`Number`] is.
pub ghost struct Num {
    pub bits: u64,
    pub numer: Seq<Seq<char>>,
    pub denom: Seq<Seq<char>>,
}

/// What a [`CalcNode`] is.
pub ghost enum Cal {
    Number(Num),
    Str(Seq<char>),
    Op(CalcOp, Box<Cal>, Box<Cal>),
    Func(Seq<char>, Seq<Cal>),
}

/// What a [`Value`] is.
pub ghost enum Val {
    Null,
    Bool(bool),
    Number(Num),
    Color(Color),
    Str(Seq<char>, bool),
    List { items: Seq<Val>, sep: ListSep, bracketed: bool, keywords: Option<Seq<(Val, Val)>> },
    Pairs(Seq<(Val, Val)>),
    Calc(Cal),
    Slash(Num, Seq<char>),
    Function { name: Seq<char>, css: bool, user: Option<usize> },
    Mixin { name: Seq<char>, user: Option<usize>, module: Option<usize> },
}

pub open spec fn num(n: Number) -> Num {
    Num { bits: n.bits, numer: texts(n.numer@), denom: texts(n.denom@) }
}

pub open spec fn cal(c: CalcNode) -> Cal
    decreases c,
{
    match c {
        CalcNode::Number(n) => Cal::Number(num(n)),
        CalcNode::Str(s) => Cal::Str(s@),
        CalcNode::Op { op, left, right } => Cal::Op(op, Box::new(cal(*left)), Box::new(cal(*right))),
        CalcNode::Func { name, args } => Cal::Func(name@, cals(args@)),
    }
}

pub open spec fn cals(s: Seq<CalcNode>) -> Seq<Cal>
    decreases s,
{
    Seq::new(
        s.len(),
        |i: int|
            if 0 <= i < s.len() {
                cal(s[i])
            } else {
                arbitrary()
            },
    )
}

pub open spec fn val(v: Value) -> Val
    decreases v,
{
    match v {
        Value::Null => Val::Null,
        Value::Bool(b) => Val::Bool(b),
        Value::Number(n) => Val::Number(num(n)),
        Value::Color(c) => Val::Color(c),
        Value::Str(s) => Val::Str(s.text@, s.quoted),
        Value::List(l) => Val::List {
            items: vals(l.items@),
            sep: l.sep,
            bracketed: l.bracketed,
            keywords: match l.keywords {
                Some(k) => Some(val_pairs(k@)),
                None => None,
            },
        },
        Value::Pairs(m) => Val::Pairs(val_pairs(m.entries@)),
        Value::Calc(c) => Val::Calc(cal(c)),
        Value::Slash(n, s) => Val::Slash(num(n), s@),
        Value::Function(f) => Val::Function { name: f.name@, css: f.css, user: f.user },
        Value::Mixin(m) => Val::Mixin { name: m.name@, user: m.user, module: m.module },
    }
}

pub open spec fn vals(s: Seq<Value>) -> Seq<Val>
    decreases s,
{
    Seq::new(
        s.len(),
        |i: int|
            if 0 <= i < s.len() {
                val(s[i])
            } else {
                arbitrary()
            },
    )
}

pub open spec fn val_pairs(s: Seq<(Value, Value)>) -> Seq<(Val, Val)>
    decreases s,
{
    Seq::new(
        s.len(),
        |i: int|
            if 0 <= i < s.len() {
                (val(s[i].0), val(s[i].1))
            } else {
                arbitrary()
            },
    )
}

// ---- copies --------------------------------------------------------------

impl Number {
    pub fn copy(&self) -> (r: Number)
        ensures
            num(r) == num(*self),
    {
        Number {
            bits: self.bits,
            numer: clone_strings(&self.numer),
            denom: clone_strings(&self.denom),
        }
    }
}

pub fn copy_calc(c: &CalcNode) -> (r: CalcNode)
    ensures
        cal(r) == cal(*c),
    decreases c,
{
    match c {
        CalcNode::Number(n) => CalcNode::Number(n.copy()),
        CalcNode::Str(s) => CalcNode::Str(s.clone()),
        CalcNode::Op { op, left, right } => CalcNode::Op {
            op: *op,
            left: Box::new(copy_calc(left)),
            right: Box::new(copy_calc(right)),
        },
        CalcNode::Func { name, args } => CalcNode::Func { name: name.clone(), args: copy_calcs(args) },
    }
}

pub fn copy_calcs(v: &Vec<CalcNode>) -> (r: Vec<CalcNode>)
    ensures
        cals(r@) == cals(v@),
    decreases v@,
{
    let mut out: Vec<CalcNode> = Vec::new();
    let mut i: usize = 0;
    while i < v.len()
        invariant
            i <= v@.len(),
            cals(out@) =~= cals(v@).take(i as int),
        decreases v@.len() - i,
    {
        let ghost before = cals(out@);
        let c = copy_calc(&v[i]);
        out.push(c);
        i += 1;
        proof {
            assert(cals(out@) =~= before.push(cal(c)));
            assert(cals(v@).take(i as int) =~= cals(v@).take(i - 1).push(cals(v@)[i - 1]));
        }
    }
    proof {
        assert(cals(v@).take(i as int) =~= cals(v@));
    }
    out
}

pub fn copy_value(v: &Value) -> (r: Value)
    ensures
        val(r) == val(*v),
    decreases v,
{
    match v {
        Value::Null => Value::Null,
        Value::Bool(b) => Value::Bool(*b),
        Value::Number(n) => Value::Number(n.copy()),
        Value::Color(c) => Value::Color(*c),
        Value::Str(s) => Value::Str(SassStr { text: s.text.clone(), quoted: s.quoted }),
        Value::List(l) => Value::List(
            List {
                items: copy_values(&l.items),
                sep: l.sep,
                bracketed: l.bracketed,
                keywords: match &l.keywords {
                    Some(k) => Some(copy_pairs(k)),
                    None => None,
                },
            },
        ),
        Value::Pairs(m) => Value::Pairs(SassMap { entries: copy_pairs(&m.entries) }),
        Value::Calc(c) => Value::Calc(copy_calc(c)),
        Value::Slash(n, s) => Value::Slash(n.copy(), s.clone()),
        Value::Function(f) => Value::Function(
            SassFunction { name: f.name.clone(), css: f.css, user: f.user },
        ),
        Value::Mixin(m) => Value::Mixin(
            SassMixin { name: m.name.clone(), user: m.user, module: m.module },
        ),
    }
}

pub fn copy_values(v: &Vec<Value>) -> (r: Vec<Value>)
    ensures
        vals(r@) == vals(v@),
    decreases v@,
{
    let mut out: Vec<Value> = Vec::new();
    let mut i: usize = 0;
    while i < v.len()
        invariant
            i <= v@.len(),
            vals(out@) =~= vals(v@).take(i as int),
        decreases v@.len() - i,
    {
        push_value(&mut out, copy_value(&v[i]));
        i += 1;
        proof {
            assert(vals(v@).take(i as int) =~= vals(v@).take(i - 1).push(vals(v@)[i - 1]));
        }
    }
    proof {
        assert(vals(v@).take(i as int) =~= vals(v@));
    }
    out
}

/// Append a value.
pub fn push_value(out: &mut Vec<Value>, v: Value)
    ensures
        vals(final(out)@) == vals(old(out)@).push(val(v)),
{
    out.push(v);
    proof {
        assert(vals(final(out)@) =~= vals(old(out)@).push(val(v)));
    }
}

/// Append all of `more`.
pub fn push_values(out: &mut Vec<Value>, more: Vec<Value>)
    ensures
        vals(final(out)@) == vals(old(out)@) + vals(more@),
{
    let mut more = more;
    let ghost mv = vals(more@);
    out.append(&mut more);
    proof {
        assert(vals(final(out)@) =~= vals(old(out)@) + mv);
    }
}

pub fn copy_pairs(v: &Vec<(Value, Value)>) -> (r: Vec<(Value, Value)>)
    ensures
        val_pairs(r@) == val_pairs(v@),
    decreases v@,
{
    let mut out: Vec<(Value, Value)> = Vec::new();
    let mut i: usize = 0;
    while i < v.len()
        invariant
            i <= v@.len(),
            val_pairs(out@) =~= val_pairs(v@).take(i as int),
        decreases v@.len() - i,
    {
        let k = copy_value(&v[i].0);
        let w = copy_value(&v[i].1);
        push_pair(&mut out, k, w);
        i += 1;
        proof {
            assert(val_pairs(v@).take(i as int) =~= val_pairs(v@).take(i - 1).push(
                val_pairs(v@)[i - 1],
            ));
        }
    }
    proof {
        assert(val_pairs(v@).take(i as int) =~= val_pairs(v@));
    }
    out
}

/// Append a pair.
pub fn push_pair(out: &mut Vec<(Value, Value)>, k: Value, v: Value)
    ensures
        val_pairs(final(out)@) == val_pairs(old(out)@).push((val(k), val(v))),
{
    out.push((k, v));
    proof {
        assert(val_pairs(final(out)@) =~= val_pairs(old(out)@).push((val(k), val(v))));
    }
}

// ---- numbers -------------------------------------------------------------

/// A number without units.
pub open spec fn unitless(n: Num) -> bool {
    n.numer.len() == 0 && n.denom.len() == 0
}

/// A number with more than one unit, or one below the line.
pub open spec fn complex_units(n: Num) -> bool {
    n.numer.len() > 1 || n.denom.len() > 0
}

/// The unit of a number that has at most one.
pub open spec fn unit_of(n: Num) -> Seq<char> {
    if n.numer.len() > 0 {
        n.numer[0]
    } else {
        Seq::empty()
    }
}

/// A number of at most one unit.
pub open spec fn with_unit(bits: u64, unit: Seq<char>) -> Num {
    Num {
        bits,
        numer: if unit.len() == 0 {
            Seq::empty()
        } else {
            seq![unit]
        },
        denom: Seq::empty(),
    }
}

impl Number {
    pub fn is_unitless(&self) -> (r: bool)
        ensures
            r == unitless(num(*self)),
    {
        self.numer.len() == 0 && self.denom.len() == 0
    }

    pub fn has_complex_units(&self) -> (r: bool)
        ensures
            r == complex_units(num(*self)),
    {
        self.numer.len() > 1 || self.denom.len() > 0
    }

    pub fn unit(&self) -> (r: String)
        ensures
            r@ == unit_of(num(*self)),
    {
        if self.numer.len() > 0 {
            self.numer[0].clone()
        } else {
            String::new()
        }
    }

    pub fn with_unit(bits: u64, unit: &str) -> (r: Number)
        ensures
            num(r) == with_unit(bits, unit@),
    {
        let mut numer: Vec<String> = Vec::new();
        if !unit.is_empty() {
            numer.push(unit.to_owned());
        }
        let r = Number { bits, numer, denom: Vec::new() };
        proof {
            assert(num(r).numer =~= with_unit(bits, unit@).numer);
            assert(num(r).denom =~= Seq::empty());
        }
        r
    }

    /// This number's units on another value.
    pub fn copy_units(&self, bits: u64) -> (r: Number)
        ensures
            num(r) == (Num { bits, ..num(*self) }),
    {
        Number { bits, numer: clone_strings(&self.numer), denom: clone_strings(&self.denom) }
    }
}

// ---- simple questions ----------------------------------------------------

/// Every value but `null` and `false` is true.
pub open spec fn truthy(v: Val) -> bool {
    v != Val::Null && v != Val::Bool(false)
}

/// A value whose spelling as a division, if it has one, is dropped.
pub open spec fn slashless(v: Val) -> Val {
    match v {
        Val::Slash(n, s) => Val::Number(n),
        other => other,
    }
}

impl Value {
    pub fn is_truthy(&self) -> (r: bool)
        ensures
            r == truthy(val(*self)),
    {
        match self {
            Value::Null => false,
            Value::Bool(b) => *b,
            _ => true,
        }
    }

    pub fn without_slash(self) -> (r: Value)
        ensures
            val(r) == slashless(val(self)),
    {
        match self {
            Value::Slash(n, _) => Value::Number(n),
            other => other,
        }
    }
}

/// An unquoted string.
pub fn word(text: String) -> (r: Value)
    ensures
        val(r) == Val::Str(text@, false),
{
    Value::Str(SassStr { text, quoted: false })
}

pub open spec fn all_slashless(s: Seq<Val>) -> Seq<Val> {
    Seq::new(s.len(), |i: int| slashless(s[i]))
}

/// The values without their spellings as divisions.
pub fn drop_slashes(v: Vec<Value>) -> (r: Vec<Value>)
    ensures
        vals(r@) == all_slashless(vals(v@)),
{
    let ghost all = all_slashless(vals(v@));
    let mut out: Vec<Value> = Vec::new();
    let mut i: usize = 0;
    while i < v.len()
        invariant
            i <= v@.len(),
            all == all_slashless(vals(v@)),
            vals(out@) =~= all.take(i as int),
        decreases v@.len() - i,
    {
        push_value(&mut out, copy_value(&v[i]).without_slash());
        i += 1;
        proof {
            assert(all.take(i as int) =~= all.take(i - 1).push(all[i - 1]));
        }
    }
    proof {
        assert(all.take(i as int) =~= all);
    }
    out
}

/// The first map in a value or, in order, in the items of a list.
pub open spec fn first_map(v: Val) -> Option<Seq<(Val, Val)>>
    decreases v,
{
    match v {
        Val::Pairs(m) => Some(m),
        Val::List { items, sep, bracketed, keywords } => first_map_from(items, 0),
        _ => None,
    }
}

pub open spec fn first_map_from(s: Seq<Val>, i: int) -> Option<Seq<(Val, Val)>>
    decreases s, s.len() - i,
{
    if i < 0 || i >= s.len() {
        None
    } else {
        match first_map(s[i]) {
            Some(m) => Some(m),
            None => first_map_from(s, i + 1),
        }
    }
}

/// The first map in a value, which no CSS value can be.
pub fn find_map(v: &Value) -> (r: Option<&SassMap>)
    ensures
        match r {
            Some(m) => first_map(val(*v)) == Some(val_pairs(m.entries@)),
            None => first_map(val(*v)) is None,
        },
    decreases v,
{
    match v {
        Value::Pairs(m) => Some(m),
        Value::List(l) => find_map_in(&l.items),
        _ => None,
    }
}

fn find_map_in(v: &Vec<Value>) -> (r: Option<&SassMap>)
    ensures
        match r {
            Some(m) => first_map_from(vals(v@), 0) == Some(val_pairs(m.entries@)),
            None => first_map_from(vals(v@), 0) is None,
        },
    decreases v@,
{
    let mut i: usize = 0;
    while i < v.len()
        invariant
            i <= v@.len(),
            first_map_from(vals(v@), i as int) == first_map_from(vals(v@), 0),
        decreases v@.len() - i,
    {
        if let Some(m) = find_map(&v[i]) {
            return Some(m);
        }
        i += 1;
    }
    None
}

// ---- calculations --------------------------------------------------------

/// Whether a calculation holds an operand that is kept as text, or a call that is kept.
pub open spec fn opaque_calc(c: Cal) -> bool
    decreases c,
{
    match c {
        Cal::Number(_) => false,
        Cal::Str(_) => true,
        Cal::Op(_, l, r) => opaque_calc(*l) || opaque_calc(*r),
        Cal::Func(..) => true,
    }
}

pub fn calc_node_has_opaque(c: &CalcNode) -> (r: bool)
    ensures
        r == opaque_calc(cal(*c)),
    decreases c,
{
    match c {
        CalcNode::Number(_) => false,
        CalcNode::Str(_) => true,
        CalcNode::Op { op: _, left, right } => calc_node_has_opaque(left) || calc_node_has_opaque(right),
        CalcNode::Func { .. } => true,
    }
}

/// Whether a calculation is a number with a unit, or a product or quotient that holds one.
pub open spec fn carries_unit(c: Cal) -> bool
    decreases c,
{
    match c {
        Cal::Number(n) => !unitless(n),
        Cal::Op(op, l, r) => (op == CalcOp::Mul || op == CalcOp::Div) && (carries_unit(*l) || carries_unit(
            *r,
        )),
        _ => false,
    }
}

pub fn calc_node_carries_unit(c: &CalcNode) -> (r: bool)
    ensures
        r == carries_unit(cal(*c)),
    decreases c,
{
    match c {
        CalcNode::Number(n) => !n.is_unitless(),
        CalcNode::Op { op, left, right } => (*op == CalcOp::Mul || *op == CalcOp::Div) && (
        calc_node_carries_unit(left) || calc_node_carries_unit(right)),
        _ => false,
    }
}

/// Whether a calculation stands for a number whose units cannot be added: a product of two
/// operands with units, or a quotient by one.
pub open spec fn complex_operand(c: Cal) -> bool {
    match c {
        Cal::Op(op, l, r) => (op == CalcOp::Mul && carries_unit(*l) && carries_unit(*r)) || (op
            == CalcOp::Div && carries_unit(*r)),
        _ => false,
    }
}

pub fn calc_complex_unit_operand(c: &CalcNode) -> (r: bool)
    ensures
        r == complex_operand(cal(*c)),
{
    match c {
        CalcNode::Op { op, left, right } => (*op == CalcOp::Mul && calc_node_carries_unit(left)
            && calc_node_carries_unit(right)) || (*op == CalcOp::Div && calc_node_carries_unit(right)),
        _ => false,
    }
}

pub open spec fn is_number(c: Cal) -> bool {
    c is Number
}

/// Whether all of the calculations are numbers.
pub open spec fn all_numbers(s: Seq<Cal>) -> bool {
    forall|k: int| 0 <= k < s.len() ==> is_number(#[trigger] s[k])
}

pub fn are_numbers(v: &Vec<CalcNode>) -> (r: bool)
    ensures
        r == all_numbers(cals(v@)),
{
    let mut i: usize = 0;
    while i < v.len()
        invariant
            i <= v@.len(),
            forall|k: int| 0 <= k < i ==> is_number(#[trigger] cals(v@)[k]),
        decreases v@.len() - i,
    {
        if !matches!(&v[i], CalcNode::Number(_)) {
            proof {
                assert(!is_number(cals(v@)[i as int]));
            }
            return false;
        }
        i += 1;
    }
    true
}

/// Whether some of the calculations is opaque.
pub open spec fn any_opaque(s: Seq<Cal>) -> bool {
    exists|k: int| 0 <= k < s.len() && opaque_calc(#[trigger] s[k])
}

pub fn is_any_opaque(v: &Vec<CalcNode>) -> (r: bool)
    ensures
        r == any_opaque(cals(v@)),
{
    let mut i: usize = 0;
    while i < v.len()
        invariant
            i <= v@.len(),
            forall|k: int| 0 <= k < i ==> !opaque_calc(#[trigger] cals(v@)[k]),
        decreases v@.len() - i,
    {
        if calc_node_has_opaque(&v[i]) {
            proof {
                assert(opaque_calc(cals(v@)[i as int]));
            }
            return true;
        }
        i += 1;
    }
    false
}

} // verus!
