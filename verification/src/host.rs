//! What the evaluator asks of its surroundings.
//!
//! Evaluation is a function of the program and of the answers it has been given so far. Where it
//! comes to something that it does not compute itself (arithmetic on floating-point numbers, the
//! text of a value, a built-in function, a source file), it takes the next answer; where there is
//! none left, it stops and says what it needs. Run again with that answer added, it goes on.

use std::rc::Rc;
use vstd::prelude::*;
use crate::ast::Stylesheet;
use crate::error::{Error, Fault, Pos};
use crate::options::Syntax;
use crate::text::texts;
use crate::value::{Number, Val, Value, copy_value, push_value, val, vals};

verus! {

/// What is asked.
#[derive(Clone, Copy, Debug, PartialEq, Eq, Structural)]
pub enum Task {
    /// The text of a value in CSS.
    Css,
    /// The same, in compressed output.
    CssCompressed,
    /// The text of a value in interpolation.
    Interp,
    /// The text of a value in a warning.
    Message,
    /// The text of a value in an error.
    ErrorMessage,
    /// The name of a value's type.
    TypeName,
    /// The text of a reference to a function or a mixin.
    Inspect,
    /// The text of a calculation, without `calc()` round it.
    CalcCss,
    /// The same, in compressed output.
    CalcCssCompressed,
    /// The factor by which the first unit converts to the second, if it does.
    ConvertFactor,
    /// The factor by which the units of the second number convert to those of the first.
    UnitsFactor,
    /// Whether two units can never stand for the same quantity.
    UnitsIncompatible,
    /// The sum of two values, the second times a factor.
    Sum,
    /// The difference of two values, the second times a factor.
    Difference,
    /// The remainder of two values, the second times a factor.
    Remainder,
    /// Whether the first value is less than the second times a factor.
    Less,
    Greater,
    LessEqual,
    GreaterEqual,
    /// The product of two numbers, with its units.
    Product,
    /// The quotient of two numbers, with its units.
    Quotient,
    /// The negative of a value.
    Negative,
    /// A value times a factor.
    Scale,
    /// The integer that a value is, if it is one.
    Integer,
    /// The value that an integer has.
    FromInteger,
    /// Whether two values are equal.
    SameValue,
    /// Whether there is a built-in module of this name.
    IsModule,
    /// Whether a global function of this name is built in.
    IsBuiltin,
    /// Call a global function.
    Call,
    /// Call a function of a built-in module.
    CallModule,
    /// Whether a built-in module has a function of this name.
    HasMember,
    /// A variable of a built-in module.
    ModuleVar,
    /// The global name of a function of a built-in module.
    GlobalName,
    /// The names of the functions of a built-in module.
    FunctionNames,
    /// The names of the mixins of a built-in module.
    MixinNames,
    /// The canonical spellings of the escaped names, the attribute selectors and the pseudo
    /// selectors in a list of selectors.
    Spellings,
    /// What kind of selector an `@extend` target is.
    ExtendTarget,
    /// An extension, after its target and its origin, with the modules that see it.
    Extension,
    /// Whether a selector list holds a simple selector.
    HoldsSimple,
    /// A selector list under the extensions that are seen.
    Extend,
    /// The heading of a deprecation warning.
    Deprecation,
    /// The file that a module URL names.
    ResolveModule,
    /// The file that an import names.
    ResolveImport,
    /// The syntax tree of a source.
    Parse,
}

/// A question: what is asked, and about what.
#[derive(Debug)]
pub struct Request {
    pub task: Task,
    pub values: Vec<Value>,
    pub names: Vec<String>,
    pub named: Vec<(String, Value)>,
    pub numbers: Vec<u64>,
    pub pos: Option<Pos>,
}

/// What a [`Request`] asks.
pub ghost struct Ask {
    pub task: Task,
    pub values: Seq<Val>,
    pub names: Seq<Seq<char>>,
    pub named: Seq<(Seq<char>, Val)>,
    pub numbers: Seq<u64>,
    pub pos: Option<Pos>,
}

/// Named values.
pub open spec fn named_vals(s: Seq<(String, Value)>) -> Seq<(Seq<char>, Val)> {
    Seq::new(s.len(), |i: int| (s[i].0@, val(s[i].1)))
}

impl View for Request {
    type V = Ask;

    open spec fn view(&self) -> Ask {
        Ask {
            task: self.task,
            values: vals(self.values@),
            names: texts(self.names@),
            named: named_vals(self.named@),
            numbers: self.numbers@,
            pos: self.pos,
        }
    }
}

/// A source file.
#[derive(Debug)]
pub struct Source {
    pub key: String,
    pub text: String,
    pub syntax: Syntax,
}

/// An answer.
#[derive(Debug)]
pub enum Answer {
    Text(String),
    Value(Value),
    Fail(Error),
    Flag(bool),
    Number(Number),
    Bits(u64),
    Int(i64),
    Nothing,
    Names(Vec<String>),
    Source(Source),
    Sheet(Rc<Stylesheet>),
    Spellings(crate::selector_text::Spellings),
    Target(TargetClass),
    /// A selector list under extensions, and the numbers of those that matched.
    Extended { selectors: Vec<String>, breaks: Vec<bool>, matched: Vec<u64> },
}

/// What kind of selector an `@extend` target is.
#[derive(Clone, Copy, Debug, PartialEq, Eq, Structural)]
pub enum TargetClass {
    Simple,
    Compound,
    Complex,
    Invalid,
}

/// Why evaluation stopped.
#[derive(Debug)]
pub enum Stop {
    /// The program is wrong.
    Error(Error),
    /// An answer is missing.
    Need(Request),
    /// The nesting of calls and expressions is too deep.
    Depth,
    /// An answer is not of the kind that was asked for.
    Mismatch,
}

/// What a [`Stop`] is.
pub ghost enum Halt {
    Error(Fault),
    Need(Ask),
    Depth,
    Mismatch,
}

impl View for Stop {
    type V = Halt;

    open spec fn view(&self) -> Halt {
        match *self {
            Stop::Error(e) => Halt::Error(e@),
            Stop::Need(q) => Halt::Need(q@),
            Stop::Depth => Halt::Depth,
            Stop::Mismatch => Halt::Mismatch,
        }
    }
}

// ---- questions -----------------------------------------------------------

/// A question about one value.
pub open spec fn ask_value(task: Task, v: Val) -> Ask {
    Ask {
        task,
        values: seq![v],
        names: Seq::empty(),
        named: Seq::empty(),
        numbers: Seq::empty(),
        pos: None,
    }
}

/// A question about two values.
pub open spec fn ask_values(task: Task, v: Val, w: Val) -> Ask {
    Ask { values: seq![v, w], ..ask_value(task, v) }
}

/// A question about names.
pub open spec fn ask_names(task: Task, names: Seq<Seq<char>>) -> Ask {
    Ask {
        task,
        values: Seq::empty(),
        names,
        named: Seq::empty(),
        numbers: Seq::empty(),
        pos: None,
    }
}

/// A question about numbers given by their bits.
pub open spec fn ask_numbers(task: Task, numbers: Seq<u64>) -> Ask {
    Ask { numbers, ..ask_names(task, Seq::empty()) }
}

pub fn request_names(task: Task, names: Vec<String>) -> (r: Request)
    ensures
        r@ == ask_names(task, texts(names@)),
{
    let r = Request {
        task,
        values: Vec::new(),
        names,
        named: Vec::new(),
        numbers: Vec::new(),
        pos: None,
    };
    proof {
        assert(r@.values =~= Seq::empty());
        assert(r@.named =~= Seq::empty());
        assert(r@.numbers =~= Seq::empty());
    }
    r
}

pub fn request_value(task: Task, v: &Value) -> (r: Request)
    ensures
        r@ == ask_value(task, val(*v)),
{
    let mut values: Vec<Value> = Vec::new();
    values.push(copy_value(v));
    let r = Request {
        task,
        values,
        names: Vec::new(),
        named: Vec::new(),
        numbers: Vec::new(),
        pos: None,
    };
    proof {
        assert(r@.values =~= seq![val(*v)]);
        assert(r@.names =~= Seq::empty());
        assert(r@.named =~= Seq::empty());
        assert(r@.numbers =~= Seq::empty());
    }
    r
}

pub fn request_values(task: Task, v: &Value, w: &Value) -> (r: Request)
    ensures
        r@ == ask_values(task, val(*v), val(*w)),
{
    let mut r = request_value(task, v);
    push_value(&mut r.values, copy_value(w));
    proof {
        assert(r@.values =~= seq![val(*v), val(*w)]);
    }
    r
}

pub fn request_numbers(task: Task, numbers: Vec<u64>) -> (r: Request)
    ensures
        r@ == ask_numbers(task, numbers@),
{
    let names: Vec<String> = Vec::new();
    proof {
        assert(texts(names@) =~= Seq::empty());
    }
    let mut r = request_names(task, names);
    r.numbers = numbers;
    r
}

/// A list of one name.
pub fn one_name(s: &str) -> (r: Vec<String>)
    ensures
        texts(r@) == seq![s@],
{
    let mut out: Vec<String> = Vec::new();
    out.push(s.to_owned());
    proof {
        assert(texts(out@) =~= seq![s@]);
    }
    out
}

/// A list of two names.
pub fn two_names(s: &str, t: &str) -> (r: Vec<String>)
    ensures
        texts(r@) == seq![s@, t@],
{
    let mut out: Vec<String> = Vec::new();
    out.push(s.to_owned());
    out.push(t.to_owned());
    proof {
        assert(texts(out@) =~= seq![s@, t@]);
    }
    out
}

} // verus!
