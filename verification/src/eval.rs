//! The evaluator: its state, its questions, and its scopes.

use std::rc::Rc;
use vstd::prelude::*;
use crate::ast::Callable;
use crate::diag::{DiagFrame, Trace, traces};
use crate::env::{
    Block, Chain, Closure, ContentBlock, Mod, Module, Scopes, Used, UserCallable, Uses, blocks,
    closures, loose_entry, loose_get, loose_id, mods, opt_texts,
};
use crate::error::{Error, Fault, Note, Notice, Pos, fault, fault_at, notes};
use crate::host::{Answer, Ask, Halt, Request, Stop, Task, ask_value, named_vals, request_value};
use crate::kept::kept;
use crate::names::{dashed, normalize_arg_name};
use crate::state::{
    Ids, Vars, find_var, get, get_after_put, get_id, get_text, get_var, ids, opt_val,
    pairs_of_text, put, put_id, put_var,
};
use crate::text::{clone_strings, text_of, texts};
use crate::value::{Cal, CalcNode, Num, Number, Val, Value, cal, copy_calc, copy_value, num, val};

verus! {

broadcast use crate::kept::group_kept;

// ---- state ---------------------------------------------------------------

/// The configuration of the module under evaluation: values for its `!default` variables by
/// canonical name, each with whether it is a default itself, and the names used so far.
#[derive(Debug)]
pub struct Config {
    pub pending: Vec<(String, (Value, bool))>,
    pub consumed: Vec<String>,
    pub implicit: bool,
    pub id: usize,
}

/// What a [`Config`] holds.
pub ghost struct Conf {
    pub pending: Seq<(Seq<char>, (Val, bool))>,
    pub consumed: Seq<Seq<char>>,
    pub implicit: bool,
    pub id: usize,
}

pub open spec fn settings(s: Seq<(String, (Value, bool))>) -> Seq<(Seq<char>, (Val, bool))> {
    Seq::new(s.len(), |i: int| (s[i].0@, (val((s[i].1).0), (s[i].1).1)))
}

impl View for Config {
    type V = Conf;

    open spec fn view(&self) -> Conf {
        Conf {
            pending: settings(self.pending@),
            consumed: texts(self.consumed@),
            implicit: self.implicit,
            id: self.id,
        }
    }
}

/// What diagnostics need: whether they show sources, the member and file under evaluation, the
/// calls that led there, the sources seen, and what has been reported.
#[derive(Debug)]
pub struct Report {
    pub enabled: bool,
    pub member: String,
    pub calls: Vec<DiagFrame>,
    pub url: String,
    pub source: String,
    pub sources: Vec<(String, String)>,
    pub log: Vec<Notice>,
}

/// What a [`Report`] holds.
pub ghost struct Rep {
    pub enabled: bool,
    pub member: Seq<char>,
    pub calls: Seq<Trace>,
    pub url: Seq<char>,
    pub source: Seq<char>,
    pub sources: Seq<(Seq<char>, Seq<char>)>,
    pub log: Seq<Note>,
}

impl View for Report {
    type V = Rep;

    open spec fn view(&self) -> Rep {
        Rep {
            enabled: self.enabled,
            member: self.member@,
            calls: traces(self.calls@),
            url: self.url@,
            source: self.source@,
            sources: pairs_of_text(self.sources@),
            log: notes(self.log@),
        }
    }
}

/// An evaluation under way.
#[derive(Debug)]
pub struct Evaluator {
    pub frames: Vec<Vec<(String, Value)>>,
    pub tables: Vec<Vec<(String, usize)>>,
    pub callables: Vec<UserCallable>,
    pub modules: Vec<Module>,
    pub chain: Chain,
    pub uses: Uses,
    pub contents: Vec<Option<ContentBlock>>,
    pub in_mixin: Vec<bool>,
    pub selector: Option<Vec<String>>,
    pub supports: bool,
    pub plain: bool,
    pub compressed: bool,
    pub config: Config,
    pub report: Report,
    pub asked: usize,
    pub page: crate::page::Page,
}

/// What an [`Evaluator`] holds.
pub ghost struct Ev {
    pub frames: Seq<Vars>,
    pub tables: Seq<Ids>,
    pub callables: Seq<Closure>,
    pub modules: Seq<Mod>,
    pub chain: Scopes,
    pub uses: Used,
    pub contents: Seq<Option<Block>>,
    pub in_mixin: Seq<bool>,
    pub selector: Option<Seq<Seq<char>>>,
    pub supports: bool,
    pub plain: bool,
    pub compressed: bool,
    pub config: Conf,
    pub report: Rep,
    pub asked: usize,
    pub page: crate::page::Leaf,
}

pub open spec fn frames_of(v: Seq<Vec<(String, Value)>>) -> Seq<Vars> {
    Seq::new(v.len(), |i: int| named_vals(v[i]@))
}

pub open spec fn tables_of(v: Seq<Vec<(String, usize)>>) -> Seq<Ids> {
    Seq::new(v.len(), |i: int| ids(v[i]@))
}

/// What an evaluation holds. It is revealed where a field of it is read or set.
#[verifier::opaque]
pub open spec fn ev_of(e: Evaluator) -> Ev {
    Ev {
        frames: frames_of(e.frames@),
        tables: tables_of(e.tables@),
        callables: closures(e.callables@),
        modules: mods(e.modules@),
        chain: e.chain@,
        uses: e.uses@,
        contents: blocks(e.contents@),
        in_mixin: e.in_mixin@,
        selector: opt_texts(e.selector),
        supports: e.supports,
        plain: e.plain,
        compressed: e.compressed,
        config: e.config@,
        report: e.report@,
        asked: e.asked,
        page: e.page@,
    }
}

impl View for Evaluator {
    type V = Ev;

    open spec fn view(&self) -> Ev {
        ev_of(*self)
    }
}

/// What evaluating something gives: a result or a stop, and the state after it.
pub type Run<T> = (Result<T, Halt>, Ev);

pub open spec fn fail<T>(f: Fault, s: Ev) -> Run<T> {
    (Err(Halt::Error(f)), s)
}

/// The outcome that an executed step reports, as a value.
pub open spec fn out_val(r: Result<Value, Stop>) -> Result<Val, Halt> {
    match r {
        Ok(v) => Ok(val(v)),
        Err(e) => Err(e@),
    }
}

pub open spec fn out_text(r: Result<String, Stop>) -> Result<Seq<char>, Halt> {
    match r {
        Ok(v) => Ok(v@),
        Err(e) => Err(e@),
    }
}

pub open spec fn out_unit(r: Result<(), Stop>) -> Result<(), Halt> {
    match r {
        Ok(_) => Ok(()),
        Err(e) => Err(e@),
    }
}

pub open spec fn out_flag(r: Result<bool, Stop>) -> Result<bool, Halt> {
    match r {
        Ok(b) => Ok(b),
        Err(e) => Err(e@),
    }
}

/// An error without a position, as a stop.
pub fn stop(message: &str) -> (r: Stop)
    ensures
        r@ == Halt::Error(fault(message@)),
{
    Stop::Error(Error::unpositioned(message))
}

/// An error at a position, as a stop.
pub fn stop_at(message: &str, pos: Pos) -> (r: Stop)
    ensures
        r@ == Halt::Error(fault_at(message@, pos)),
{
    Stop::Error(Error::at(message, pos))
}

// ---- questions -----------------------------------------------------------

/// The next answer, or a stop that asks for it.
pub open spec fn next_answer(s: Ev, ans: Seq<Answer>, q: Ask) -> Run<Answer> {
    if s.asked < ans.len() {
        (Ok(ans[s.asked as int]), Ev { asked: (s.asked + 1) as usize, ..s })
    } else {
        (Err(Halt::Need(q)), s)
    }
}

/// The text that is asked for.
pub open spec fn asked_text(s: Ev, ans: Seq<Answer>, q: Ask) -> Run<Seq<char>> {
    match next_answer(s, ans, q) {
        (Err(h), s1) => (Err(h), s1),
        (Ok(a), s1) => match a {
            Answer::Text(t) => (Ok(t@), s1),
            Answer::Fail(e) => fail(e@, s1),
            _ => (Err(Halt::Mismatch), s1),
        },
    }
}

/// The value that is asked for.
pub open spec fn asked_value(s: Ev, ans: Seq<Answer>, q: Ask) -> Run<Val> {
    match next_answer(s, ans, q) {
        (Err(h), s1) => (Err(h), s1),
        (Ok(a), s1) => match a {
            Answer::Value(v) => (Ok(val(v)), s1),
            Answer::Fail(e) => fail(e@, s1),
            _ => (Err(Halt::Mismatch), s1),
        },
    }
}

/// The answer to a question of yes or no.
pub open spec fn asked_flag(s: Ev, ans: Seq<Answer>, q: Ask) -> Run<bool> {
    match next_answer(s, ans, q) {
        (Err(h), s1) => (Err(h), s1),
        (Ok(a), s1) => match a {
            Answer::Flag(b) => (Ok(b), s1),
            _ => (Err(Halt::Mismatch), s1),
        },
    }
}

/// The number that is asked for.
pub open spec fn asked_number(s: Ev, ans: Seq<Answer>, q: Ask) -> Run<Num> {
    match next_answer(s, ans, q) {
        (Err(h), s1) => (Err(h), s1),
        (Ok(a), s1) => match a {
            Answer::Number(n) => (Ok(num(n)), s1),
            _ => (Err(Halt::Mismatch), s1),
        },
    }
}

/// The bits of the number that is asked for, if there is one.
pub open spec fn asked_bits(s: Ev, ans: Seq<Answer>, q: Ask) -> Run<Option<u64>> {
    match next_answer(s, ans, q) {
        (Err(h), s1) => (Err(h), s1),
        (Ok(a), s1) => match a {
            Answer::Bits(b) => (Ok(Some(b)), s1),
            Answer::Nothing => (Ok(None), s1),
            _ => (Err(Halt::Mismatch), s1),
        },
    }
}

/// The integer that is asked for, if there is one.
pub open spec fn asked_int(s: Ev, ans: Seq<Answer>, q: Ask) -> Run<Option<i64>> {
    match next_answer(s, ans, q) {
        (Err(h), s1) => (Err(h), s1),
        (Ok(a), s1) => match a {
            Answer::Int(i) => (Ok(Some(i)), s1),
            Answer::Nothing => (Ok(None), s1),
            _ => (Err(Halt::Mismatch), s1),
        },
    }
}

/// The names that are asked for.
pub open spec fn asked_names(s: Ev, ans: Seq<Answer>, q: Ask) -> Run<Seq<Seq<char>>> {
    match next_answer(s, ans, q) {
        (Err(h), s1) => (Err(h), s1),
        (Ok(a), s1) => match a {
            Answer::Names(l) => (Ok(texts(l@)), s1),
            _ => (Err(Halt::Mismatch), s1),
        },
    }
}

impl Evaluator {
    /// The next answer, if one is left.
    pub fn next<'a>(&mut self, ans: &'a Vec<Answer>, q: Request) -> (r: Result<&'a Answer, Stop>)
        ensures
            match r {
                Ok(a) => next_answer(old(self)@, ans@, q@) == (Ok::<Answer, Halt>(*a), final(self)@),
                Err(e) => next_answer(old(self)@, ans@, q@) == (Err::<Answer, Halt>(e@), final(self)@),
            },
            same_place(old(self)@, final(self)@),
    {
        proof {
            reveal(ev_of);
        }
        if self.asked < ans.len() {
            let i: usize = self.asked;
            self.asked = i + 1;
            Ok(&ans[i])
        } else {
            Err(Stop::Need(q))
        }
    }

    pub fn ask_text(&mut self, ans: &Vec<Answer>, q: Request) -> (r: Result<String, Stop>)
        ensures
            (out_text(r), final(self)@) == asked_text(old(self)@, ans@, q@),
            same_place(old(self)@, final(self)@),
    {
        match self.next(ans, q) {
            Err(e) => Err(e),
            Ok(a) => match a {
                Answer::Text(t) => Ok(t.clone()),
                Answer::Fail(e) => Err(Stop::Error(e.copy())),
                _ => Err(Stop::Mismatch),
            },
        }
    }

    pub fn ask_value(&mut self, ans: &Vec<Answer>, q: Request) -> (r: Result<Value, Stop>)
        ensures
            (out_val(r), final(self)@) == asked_value(old(self)@, ans@, q@),
            same_place(old(self)@, final(self)@),
    {
        match self.next(ans, q) {
            Err(e) => Err(e),
            Ok(a) => match a {
                Answer::Value(v) => Ok(copy_value(v)),
                Answer::Fail(e) => Err(Stop::Error(e.copy())),
                _ => Err(Stop::Mismatch),
            },
        }
    }

    pub fn ask_flag(&mut self, ans: &Vec<Answer>, q: Request) -> (r: Result<bool, Stop>)
        ensures
            (out_flag(r), final(self)@) == asked_flag(old(self)@, ans@, q@),
            same_place(old(self)@, final(self)@),
    {
        match self.next(ans, q) {
            Err(e) => Err(e),
            Ok(a) => match a {
                Answer::Flag(b) => Ok(*b),
                _ => Err(Stop::Mismatch),
            },
        }
    }

    pub fn ask_number(&mut self, ans: &Vec<Answer>, q: Request) -> (r: Result<Number, Stop>)
        ensures
            (match r {
                Ok(n) => Ok(num(n)),
                Err(e) => Err(e@),
            }, final(self)@) == asked_number(old(self)@, ans@, q@),
            same_place(old(self)@, final(self)@),
    {
        match self.next(ans, q) {
            Err(e) => Err(e),
            Ok(a) => match a {
                Answer::Number(n) => Ok(n.copy()),
                _ => Err(Stop::Mismatch),
            },
        }
    }

    pub fn ask_bits(&mut self, ans: &Vec<Answer>, q: Request) -> (r: Result<Option<u64>, Stop>)
        ensures
            (match r {
                Ok(n) => Ok(n),
                Err(e) => Err(e@),
            }, final(self)@) == asked_bits(old(self)@, ans@, q@),
            same_place(old(self)@, final(self)@),
    {
        match self.next(ans, q) {
            Err(e) => Err(e),
            Ok(a) => match a {
                Answer::Bits(b) => Ok(Some(*b)),
                Answer::Nothing => Ok(None),
                _ => Err(Stop::Mismatch),
            },
        }
    }

    pub fn ask_int(&mut self, ans: &Vec<Answer>, q: Request) -> (r: Result<Option<i64>, Stop>)
        ensures
            (match r {
                Ok(n) => Ok(n),
                Err(e) => Err(e@),
            }, final(self)@) == asked_int(old(self)@, ans@, q@),
            same_place(old(self)@, final(self)@),
    {
        match self.next(ans, q) {
            Err(e) => Err(e),
            Ok(a) => match a {
                Answer::Int(b) => Ok(Some(*b)),
                Answer::Nothing => Ok(None),
                _ => Err(Stop::Mismatch),
            },
        }
    }

    pub fn ask_names(&mut self, ans: &Vec<Answer>, q: Request) -> (r: Result<Vec<String>, Stop>)
        ensures
            (match r {
                Ok(l) => Ok(texts(l@)),
                Err(e) => Err(e@),
            }, final(self)@) == asked_names(old(self)@, ans@, q@),
            same_place(old(self)@, final(self)@),
    {
        match self.next(ans, q) {
            Err(e) => Err(e),
            Ok(a) => match a {
                Answer::Names(l) => Ok(clone_strings(l)),
                _ => Err(Stop::Mismatch),
            },
        }
    }
}

// ---- texts of values -----------------------------------------------------

/// The text of a value in CSS, expanded.
#[verifier::opaque]
pub open spec fn plain_css(s: Ev, ans: Seq<Answer>, v: Val) -> Run<Seq<char>> {
    asked_text(s, ans, ask_value(Task::Css, v))
}

/// The text of a value in CSS, in the style of the output.
#[verifier::opaque]
pub open spec fn styled_css(s: Ev, ans: Seq<Answer>, v: Val) -> Run<Seq<char>> {
    asked_text(
        s,
        ans,
        ask_value(
            if s.compressed {
                Task::CssCompressed
            } else {
                Task::Css
            },
            v,
        ),
    )
}

/// The text of a calculation, in the style of the output.
#[verifier::opaque]
pub open spec fn styled_calc(s: Ev, ans: Seq<Answer>, c: Cal) -> Run<Seq<char>> {
    asked_text(
        s,
        ans,
        ask_value(
            if s.compressed {
                Task::CalcCssCompressed
            } else {
                Task::CalcCss
            },
            Val::Calc(c),
        ),
    )
}

/// The text of a calculation, expanded.
#[verifier::opaque]
pub open spec fn plain_calc(s: Ev, ans: Seq<Answer>, c: Cal) -> Run<Seq<char>> {
    asked_text(s, ans, ask_value(Task::CalcCss, Val::Calc(c)))
}

impl Evaluator {
    pub fn plain_css(&mut self, ans: &Vec<Answer>, v: &Value) -> (r: Result<String, Stop>)
        ensures
            (out_text(r), final(self)@) == plain_css(old(self)@, ans@, val(*v)),
            same_place(old(self)@, final(self)@),
    {
        proof {
            reveal(plain_css);
        }
        self.ask_text(ans, request_value(Task::Css, v))
    }

    pub fn styled_css(&mut self, ans: &Vec<Answer>, v: &Value) -> (r: Result<String, Stop>)
        ensures
            (out_text(r), final(self)@) == styled_css(old(self)@, ans@, val(*v)),
            same_place(old(self)@, final(self)@),
    {
        proof {
            reveal(styled_css);
        }
        proof {
            reveal(ev_of);
        }
        let task = if self.compressed {
            Task::CssCompressed
        } else {
            Task::Css
        };
        self.ask_text(ans, request_value(task, v))
    }

    pub fn styled_calc(&mut self, ans: &Vec<Answer>, c: &CalcNode) -> (r: Result<String, Stop>)
        ensures
            (out_text(r), final(self)@) == styled_calc(old(self)@, ans@, cal(*c)),
            same_place(old(self)@, final(self)@),
    {
        proof {
            reveal(styled_calc);
        }
        proof {
            reveal(ev_of);
        }
        let task = if self.compressed {
            Task::CalcCssCompressed
        } else {
            Task::CalcCss
        };
        let v = Value::Calc(copy_calc(c));
        self.ask_text(ans, request_value(task, &v))
    }

    pub fn plain_calc(&mut self, ans: &Vec<Answer>, c: &CalcNode) -> (r: Result<String, Stop>)
        ensures
            (out_text(r), final(self)@) == plain_calc(old(self)@, ans@, cal(*c)),
            same_place(old(self)@, final(self)@),
    {
        proof {
            reveal(plain_calc);
        }
        let v = Value::Calc(copy_calc(c));
        self.ask_text(ans, request_value(Task::CalcCss, &v))
    }
}

// ---- variables -----------------------------------------------------------

/// A frame of the store; one that does not exist holds nothing.
pub open spec fn frame(s: Ev, i: usize) -> Vars {
    if i < s.frames.len() {
        s.frames[i as int]
    } else {
        Seq::empty()
    }
}

/// A table of the store.
pub open spec fn table(s: Ev, i: usize) -> Ids {
    if i < s.tables.len() {
        s.tables[i as int]
    } else {
        Seq::empty()
    }
}

/// The value of a variable: that of the innermost scope which has it.
pub open spec fn lookup_in(s: Ev, scopes: Seq<usize>, name: Seq<char>) -> Option<Val>
    decreases scopes.len(),
{
    if scopes.len() == 0 {
        None
    } else {
        match get(frame(s, scopes.last()), name) {
            Some(v) => Some(v),
            None => lookup_in(s, scopes.drop_last(), name),
        }
    }
}

pub open spec fn lookup(s: Ev, name: Seq<char>) -> Option<Val> {
    lookup_in(s, s.chain.scopes, name)
}

/// The state with a variable of a frame set.
pub open spec fn with_var(s: Ev, i: usize, name: Seq<char>, v: Val) -> Ev {
    if i < s.frames.len() {
        Ev { frames: s.frames.update(i as int, put(s.frames[i as int], name, v)), ..s }
    } else {
        s
    }
}

/// The number of scopes up to and with the innermost that has the variable; 0 if none has.
pub open spec fn holder(s: Ev, scopes: Seq<usize>, name: Seq<char>) -> nat
    decreases scopes.len(),
{
    if scopes.len() == 0 {
        0
    } else if get(frame(s, scopes.last()), name) is Some {
        scopes.len()
    } else {
        holder(s, scopes.drop_last(), name)
    }
}

pub open spec fn in_semi(s: Ev) -> bool {
    s.chain.semi.len() > 0 && s.chain.semi.last()
}

/// The index in the chain of the scope that an assignment goes to: the innermost that has the
/// variable, but for the global one where the current scope is not semi-global; else the
/// innermost.
pub open spec fn target(s: Ev, name: Seq<char>) -> int {
    let n = s.chain.scopes.len();
    let h = holder(s, s.chain.scopes, name);
    if n == 1 {
        0
    } else if h == 0 || (h == 1 && !in_semi(s)) {
        n - 1
    } else {
        h - 1
    }
}

/// The state after an assignment that is not `!global`.
pub open spec fn assigned(s: Ev, name: Seq<char>, v: Val) -> Ev {
    if s.chain.scopes.len() == 0 {
        s
    } else {
        with_var(s, s.chain.scopes[target(s, name)], name, v)
    }
}

/// The state with a variable of the innermost scope set.
pub open spec fn local_set(s: Ev, name: Seq<char>, v: Val) -> Ev {
    if s.chain.scopes.len() == 0 {
        s
    } else {
        with_var(s, s.chain.scopes.last(), name, v)
    }
}

/// The state with a global variable set.
pub open spec fn global_set(s: Ev, name: Seq<char>, v: Val) -> Ev {
    if s.chain.scopes.len() == 0 {
        s
    } else {
        with_var(s, s.chain.scopes[0], name, v)
    }
}

/// The state with a new innermost scope that holds `vars`.
pub open spec fn with_scope(s: Ev, vars: Vars, semi: bool) -> Ev {
    Ev {
        frames: s.frames.push(vars),
        tables: s.tables.push(Seq::empty()).push(Seq::empty()),
        chain: Scopes {
            scopes: s.chain.scopes.push(s.frames.len() as usize),
            semi: s.chain.semi.push(semi),
            functions: s.chain.functions.push(s.tables.len() as usize),
            mixins: s.chain.mixins.push((s.tables.len() + 1) as usize),
        },
        ..s
    }
}

/// Whether all that had been loaded in `a` is still there in `b`.
pub open spec fn loads_kept(a: Ev, b: Ev) -> bool {
    kept(
        a.page.imports,
        a.page.cache,
        a.modules,
        b.page.imports,
        b.page.cache,
        b.modules,
    )
}

/// Whether evaluation is in the same context: the same calls are under way, in the same member,
/// inside the same at-rules, and what had been loaded is still there.
pub open spec fn same_context(a: Ev, b: Ev) -> bool {
    &&& a.report.calls == b.report.calls
    &&& a.report.member == b.report.member
    &&& a.page.at_root == b.page.at_root
    &&& a.page.media == b.page.media
    &&& a.page.keyframes == b.page.keyframes
    &&& a.page.layers == b.page.layers
    &&& loads_kept(a, b)
}

/// Whether evaluation is at the same place: in the same context, with the same scopes open.
pub open spec fn same_place(a: Ev, b: Ev) -> bool {
    a.chain == b.chain && same_context(a, b)
}

/// The state with a new innermost scope; it is semi-global only inside such a one.
pub open spec fn scope_pushed(s: Ev, semi: bool) -> Ev {
    with_scope(s, Seq::empty(), semi && in_semi(s))
}

pub open spec fn popped<T>(s: Seq<T>) -> Seq<T> {
    if s.len() > 0 {
        s.drop_last()
    } else {
        s
    }
}

/// The state without the innermost scope.
pub open spec fn scope_popped(s: Ev) -> Ev {
    Ev {
        chain: Scopes {
            scopes: popped(s.chain.scopes),
            semi: popped(s.chain.semi),
            functions: popped(s.chain.functions),
            mixins: popped(s.chain.mixins),
        },
        ..s
    }
}

/// The callable of a name in the innermost table that has it.
pub open spec fn callable_in(s: Ev, tables: Seq<usize>, name: Seq<char>) -> Option<usize>
    decreases tables.len(),
{
    if tables.len() == 0 {
        None
    } else {
        match get(table(s, tables.last()), dashed(name)) {
            Some(c) => Some(c),
            None => callable_in(s, tables.drop_last(), name),
        }
    }
}

pub open spec fn function_named(s: Ev, name: Seq<char>) -> Option<usize> {
    callable_in(s, s.chain.functions, name)
}

pub open spec fn mixin_named(s: Ev, name: Seq<char>) -> Option<usize> {
    callable_in(s, s.chain.mixins, name)
}

/// The callable of a name, in any spelling, in the innermost table that has it.
pub open spec fn callable_loose(s: Ev, tables: Seq<usize>, name: Seq<char>) -> Option<usize>
    decreases tables.len(),
{
    if tables.len() == 0 {
        None
    } else {
        match loose_get(table(s, tables.last()), name) {
            Some(c) => Some(c),
            None => callable_loose(s, tables.drop_last(), name),
        }
    }
}

/// The state with an entry of a table set.
pub open spec fn with_id(s: Ev, i: usize, name: Seq<char>, id: usize) -> Ev {
    if i < s.tables.len() {
        Ev { tables: s.tables.update(i as int, put(s.tables[i as int], name, id)), ..s }
    } else {
        s
    }
}

/// The state with a function of the current scopes, and its index.
pub open spec fn captured(s: Ev, def: Callable) -> (usize, Ev) {
    (
        s.callables.len() as usize,
        Ev { callables: s.callables.push(Closure { def, chain: s.chain }), ..s },
    )
}

pub open spec fn function_defined(s: Ev, name: Seq<char>, id: usize) -> Ev {
    if s.chain.functions.len() == 0 {
        s
    } else {
        with_id(s, s.chain.functions.last(), dashed(name), id)
    }
}

pub open spec fn mixin_defined(s: Ev, name: Seq<char>, id: usize) -> Ev {
    if s.chain.mixins.len() == 0 {
        s
    } else {
        with_id(s, s.chain.mixins.last(), dashed(name), id)
    }
}

impl Evaluator {
    /// The value of a variable.
    pub fn lookup(&self, name: &str) -> (r: Option<Value>)
        ensures
            opt_val(r) == lookup(self@, name@),
    {
        proof {
            reveal(ev_of);
        }
        let mut n: usize = self.chain.scopes.len();
        let ghost sc = self.chain.scopes@;
        proof {
            assert(sc.take(n as int) =~= sc);
        }
        while n > 0
            invariant
                n <= self.chain.scopes@.len(),
                sc == self.chain.scopes@,
                lookup_in(self@, sc.take(n as int), name@) == lookup(self@, name@),
            decreases n,
        {
            proof {
                reveal(ev_of);
            }
            proof {
                assert(sc.take(n as int).drop_last() =~= sc.take(n - 1));
            }
            let i: usize = self.chain.scopes[n - 1];
            if i < self.frames.len() {
                if let Some(v) = get_var(&self.frames[i], name) {
                    return Some(v);
                }
            }
            n -= 1;
        }
        None
    }

    /// Set a variable of a frame.
    pub fn set_var(&mut self, i: usize, name: &str, v: Value)
        ensures
            final(self)@ == with_var(old(self)@, i, name@, val(v)),
            same_place(old(self)@, final(self)@),
    {
        proof {
            reveal(ev_of);
        }
        if i < self.frames.len() {
            let ghost before = frames_of(self.frames@);
            put_var(&mut self.frames[i], name, v);
            proof {
                assert(frames_of(self.frames@) =~= before.update(
                    i as int,
                    put(before[i as int], name@, val(v)),
                ));
            }
        }
    }

    fn find_holder(&self, name: &str) -> (r: usize)
        ensures
            r == holder(self@, self.chain.scopes@, name@),
            r <= self.chain.scopes@.len(),
    {
        proof {
            reveal(ev_of);
        }
        let mut n: usize = self.chain.scopes.len();
        let ghost sc = self.chain.scopes@;
        proof {
            assert(sc.take(n as int) =~= sc);
        }
        while n > 0
            invariant
                n <= self.chain.scopes@.len(),
                sc == self.chain.scopes@,
                holder(self@, sc.take(n as int), name@) == holder(self@, sc, name@),
            decreases n,
        {
            proof {
                reveal(ev_of);
            }
            proof {
                assert(sc.take(n as int).drop_last() =~= sc.take(n - 1));
            }
            let i: usize = self.chain.scopes[n - 1];
            if i < self.frames.len() && find_var(&self.frames[i], name) < self.frames[i].len() {
                proof {
                    assert(frame(self@, i) == named_vals(self.frames@[i as int]@));
                }
                return n;
            }
            n -= 1;
        }
        0
    }

    /// Assign to a variable that is not declared `!global`.
    pub fn assign(&mut self, name: &str, v: Value)
        ensures
            final(self)@ == assigned(old(self)@, name@, val(v)),
            same_place(old(self)@, final(self)@),
    {
        proof {
            reveal(ev_of);
        }
        let n: usize = self.chain.scopes.len();
        if n == 0 {
            return;
        }
        let h: usize = self.find_holder(name);
        let semi = self.chain.semi.len() > 0 && self.chain.semi[self.chain.semi.len() - 1];
        let at: usize = if n == 1 {
            0
        } else if h == 0 || (h == 1 && !semi) {
            n - 1
        } else {
            h - 1
        };
        let i: usize = self.chain.scopes[at];
        self.set_var(i, name, v);
    }

    /// Set a variable of the innermost scope.
    pub fn set_local(&mut self, name: &str, v: Value)
        ensures
            final(self)@ == local_set(old(self)@, name@, val(v)),
            same_place(old(self)@, final(self)@),
    {
        proof {
            reveal(ev_of);
        }
        let n: usize = self.chain.scopes.len();
        if n > 0 {
            let i: usize = self.chain.scopes[n - 1];
            self.set_var(i, name, v);
        }
    }

    /// Set a global variable.
    pub fn set_global(&mut self, name: &str, v: Value)
        ensures
            final(self)@ == global_set(old(self)@, name@, val(v)),
            same_place(old(self)@, final(self)@),
    {
        proof {
            reveal(ev_of);
        }
        if self.chain.scopes.len() > 0 {
            let i: usize = self.chain.scopes[0];
            self.set_var(i, name, v);
        }
    }

    /// Enter a scope that holds the variables of a call.
    pub fn push_scope_frame(&mut self, vars: Vec<(String, Value)>, semi: bool)
        ensures
            final(self)@ == with_scope(old(self)@, named_vals(vars@), semi),
    {
        proof {
            reveal(ev_of);
        }
        let f: usize = self.frames.len();
        let t: usize = self.tables.len();
        self.frames.push(vars);
        self.tables.push(Vec::new());
        let m: usize = self.tables.len();
        self.tables.push(Vec::new());
        self.chain.scopes.push(f);
        self.chain.semi.push(semi);
        self.chain.functions.push(t);
        self.chain.mixins.push(m);
        proof {
            let s = old(self)@;
            assert(frames_of(self.frames@) =~= s.frames.push(named_vals(vars@)));
            assert(ids(Seq::<(String, usize)>::empty()) =~= Seq::empty());
            assert(tables_of(self.tables@) =~= s.tables.push(Seq::empty()).push(Seq::empty()));
        }
    }

    /// Enter a scope.
    pub fn push_scope(&mut self, semi: bool)
        ensures
            final(self)@ == scope_pushed(old(self)@, semi),
    {
        proof {
            reveal(ev_of);
        }
        let inner = semi && self.chain.semi.len() > 0 && self.chain.semi[self.chain.semi.len() - 1];
        let none: Vec<(String, Value)> = Vec::new();
        proof {
            assert(named_vals(none@) =~= Seq::empty());
        }
        self.push_scope_frame(none, inner);
    }

    /// Leave a scope.
    pub fn pop_scope(&mut self)
        ensures
            final(self)@ == scope_popped(old(self)@),
    {
        proof {
            reveal(ev_of);
        }
        self.chain.scopes.pop();
        self.chain.semi.pop();
        self.chain.functions.pop();
        self.chain.mixins.pop();
        proof {
            let s = old(self)@.chain;
            assert(self.chain.scopes@ =~= popped(s.scopes));
            assert(self.chain.semi@ =~= popped(s.semi));
            assert(self.chain.functions@ =~= popped(s.functions));
            assert(self.chain.mixins@ =~= popped(s.mixins));
        }
    }

    fn find_callable(&self, list: &Vec<usize>, name: &str) -> (r: Option<usize>)
        ensures
            r == callable_in(self@, list@, name@),
    {
        proof {
            reveal(ev_of);
        }
        let key = normalize_arg_name(name);
        let mut n: usize = list.len();
        let ghost sc = list@;
        proof {
            assert(sc.take(n as int) =~= sc);
        }
        while n > 0
            invariant
                n <= list@.len(),
                sc == list@,
                key@ == dashed(name@),
                callable_in(self@, sc.take(n as int), name@) == callable_in(self@, sc, name@),
            decreases n,
        {
            proof {
                reveal(ev_of);
            }
            proof {
                assert(sc.take(n as int).drop_last() =~= sc.take(n - 1));
            }
            let i: usize = list[n - 1];
            if i < self.tables.len() {
                if let Some(c) = get_id(&self.tables[i], key.as_str()) {
                    return Some(c);
                }
            }
            n -= 1;
        }
        None
    }

    /// The user-defined function of a name.
    pub fn lookup_function(&self, name: &str) -> (r: Option<usize>)
        ensures
            r == function_named(self@, name@),
    {
        proof {
            reveal(ev_of);
        }
        self.find_callable(&self.chain.functions, name)
    }

    /// The user-defined mixin of a name.
    pub fn lookup_mixin(&self, name: &str) -> (r: Option<usize>)
        ensures
            r == mixin_named(self@, name@),
    {
        proof {
            reveal(ev_of);
        }
        self.find_callable(&self.chain.mixins, name)
    }

    fn find_loose(&self, list: &Vec<usize>, name: &str) -> (r: Option<usize>)
        ensures
            r == callable_loose(self@, list@, name@),
    {
        proof {
            reveal(ev_of);
        }
        let mut n: usize = list.len();
        let ghost sc = list@;
        proof {
            assert(sc.take(n as int) =~= sc);
        }
        while n > 0
            invariant
                n <= list@.len(),
                sc == list@,
                callable_loose(self@, sc.take(n as int), name@) == callable_loose(self@, sc, name@),
            decreases n,
        {
            proof {
                reveal(ev_of);
            }
            proof {
                assert(sc.take(n as int).drop_last() =~= sc.take(n - 1));
            }
            let i: usize = list[n - 1];
            if i < self.tables.len() {
                if let Some(c) = loose_id(&self.tables[i], name) {
                    return Some(c);
                }
            } else {
                proof {
                    assert(loose_entry(table(self@, i), name@) == 0);
                }
            }
            n -= 1;
        }
        None
    }

    /// The user-defined function of a name in any spelling.
    pub fn lookup_function_norm(&self, name: &str) -> (r: Option<usize>)
        ensures
            r == callable_loose(self@, self@.chain.functions, name@),
    {
        proof {
            reveal(ev_of);
        }
        self.find_loose(&self.chain.functions, name)
    }

    /// The user-defined mixin of a name in any spelling.
    pub fn lookup_mixin_norm(&self, name: &str) -> (r: Option<usize>)
        ensures
            r == callable_loose(self@, self@.chain.mixins, name@),
    {
        proof {
            reveal(ev_of);
        }
        self.find_loose(&self.chain.mixins, name)
    }

    /// Set an entry of a table.
    pub fn set_id(&mut self, i: usize, name: &str, id: usize)
        ensures
            final(self)@ == with_id(old(self)@, i, name@, id),
            same_place(old(self)@, final(self)@),
    {
        proof {
            reveal(ev_of);
        }
        if i < self.tables.len() {
            let ghost before = tables_of(self.tables@);
            put_id(&mut self.tables[i], name, id);
            proof {
                assert(tables_of(self.tables@) =~= before.update(
                    i as int,
                    put(before[i as int], name@, id),
                ));
            }
        }
    }

    /// Make a callable of a definition and the current scopes.
    pub fn capture_callable(&mut self, def: &Rc<Callable>) -> (r: usize)
        ensures
            (r, final(self)@) == captured(old(self)@, **def),
            same_place(old(self)@, final(self)@),
    {
        proof {
            reveal(ev_of);
        }
        let id: usize = self.callables.len();
        let c = UserCallable { def: def.clone(), chain: self.chain.copy() };
        let ghost before = closures(self.callables@);
        self.callables.push(c);
        proof {
            assert(closures(self.callables@) =~= before.push(c@));
        }
        id
    }

    /// Define a function in the innermost scope.
    pub fn define_function(&mut self, name: &str, id: usize)
        ensures
            final(self)@ == function_defined(old(self)@, name@, id),
            same_place(old(self)@, final(self)@),
    {
        proof {
            reveal(ev_of);
        }
        let key = normalize_arg_name(name);
        let n: usize = self.chain.functions.len();
        if n > 0 {
            let i: usize = self.chain.functions[n - 1];
            self.set_id(i, key.as_str(), id);
        }
    }

    /// Define a mixin in the innermost scope.
    pub fn define_mixin(&mut self, name: &str, id: usize)
        ensures
            final(self)@ == mixin_defined(old(self)@, name@, id),
            same_place(old(self)@, final(self)@),
    {
        proof {
            reveal(ev_of);
        }
        let key = normalize_arg_name(name);
        let n: usize = self.chain.mixins.len();
        if n > 0 {
            let i: usize = self.chain.mixins[n - 1];
            self.set_id(i, key.as_str(), id);
        }
    }
}

// ---- parts of the state --------------------------------------------------

impl Evaluator {
    pub fn in_supports(&self) -> (r: bool)
        ensures
            r == self@.supports,
    {
        proof {
            reveal(ev_of);
        }
        self.supports
    }

    pub fn set_supports(&mut self, b: bool)
        ensures
            final(self)@ == (Ev { supports: b, ..old(self)@ }),
            same_place(old(self)@, final(self)@),
    {
        proof {
            reveal(ev_of);
        }
        self.supports = b;
    }

    pub fn in_plain(&self) -> (r: bool)
        ensures
            r == self@.plain,
    {
        proof {
            reveal(ev_of);
        }
        self.plain
    }

    pub fn set_plain(&mut self, b: bool)
        ensures
            final(self)@ == (Ev { plain: b, ..old(self)@ }),
            same_place(old(self)@, final(self)@),
    {
        proof {
            reveal(ev_of);
        }
        self.plain = b;
    }

    pub fn chain_copy(&self) -> (r: Chain)
        ensures
            r@ == self@.chain,
    {
        proof {
            reveal(ev_of);
        }
        self.chain.copy()
    }

    pub fn set_chain(&mut self, c: Chain)
        ensures
            final(self)@ == (Ev { chain: c@, ..old(self)@ }),
    {
        proof {
            reveal(ev_of);
        }
        self.chain = c;
    }

    pub fn scope_count(&self) -> (r: usize)
        ensures
            r == self@.chain.scopes.len(),
    {
        proof {
            reveal(ev_of);
        }
        self.chain.scopes.len()
    }

    pub fn uses_copy(&self) -> (r: Uses)
        ensures
            r@ == self@.uses,
    {
        proof {
            reveal(ev_of);
        }
        self.uses.copy()
    }

    pub fn set_uses(&mut self, u: Uses)
        ensures
            final(self)@ == (Ev { uses: u@, ..old(self)@ }),
            same_place(old(self)@, final(self)@),
    {
        proof {
            reveal(ev_of);
        }
        self.uses = u;
    }

    /// The module that a namespace stands for.
    pub fn used_module(&self, ns: &str) -> (r: Option<usize>)
        ensures
            r == get(self@.uses.user, ns@),
    {
        proof {
            reveal(ev_of);
        }
        get_id(&self.uses.user, ns)
    }

    /// The built-in module that a namespace stands for.
    pub fn used_builtin(&self, ns: &str) -> (r: Option<String>)
        ensures
            text_of(r) == get(self@.uses.builtin, ns@),
    {
        proof {
            reveal(ev_of);
        }
        get_text(&self.uses.builtin, ns)
    }

    pub fn push_mixin_flag(&mut self, b: bool)
        ensures
            final(self)@ == (Ev { in_mixin: old(self)@.in_mixin.push(b), ..old(self)@ }),
            same_place(old(self)@, final(self)@),
    {
        proof {
            reveal(ev_of);
        }
        self.in_mixin.push(b);
    }

    pub fn pop_mixin_flag(&mut self)
        ensures
            final(self)@ == (Ev { in_mixin: popped(old(self)@.in_mixin), ..old(self)@ }),
            same_place(old(self)@, final(self)@),
    {
        proof {
            reveal(ev_of);
        }
        let ghost before = self.in_mixin@;
        self.in_mixin.pop();
        proof {
            assert(self.in_mixin@ =~= popped(before));
        }
    }

    /// A function or mixin by its number.
    pub fn closure_at(&self, id: usize) -> (r: Option<(Rc<Callable>, Chain)>)
        ensures
            match r {
                Some((def, chain)) => id < self@.callables.len() && self@.callables[id as int] == (Closure {
                    def: *def,
                    chain: chain@,
                }),
                None => id >= self@.callables.len(),
            },
    {
        proof {
            reveal(ev_of);
        }
        if id >= self.callables.len() {
            return None;
        }
        proof {
            assert(self@.callables[id as int] == self.callables@[id as int]@);
        }
        Some((self.callables[id].def.clone(), self.callables[id].chain.copy()))
    }

    /// What a module uses.
    pub fn module_uses(&self, m: usize) -> (r: Option<Uses>)
        ensures
            match r {
                Some(u) => m < self@.modules.len() && u@ == self@.modules[m as int].uses,
                None => m >= self@.modules.len(),
            },
    {
        proof {
            reveal(ev_of);
        }
        if m >= self.modules.len() {
            return None;
        }
        proof {
            assert(self@.modules[m as int] == self.modules@[m as int]@);
        }
        Some(self.modules[m].uses.copy())
    }

    pub fn config_implicit(&self) -> (r: bool)
        ensures
            r == self@.config.implicit,
    {
        proof {
            reveal(ev_of);
        }
        self.config.implicit
    }

    pub fn set_implicit(&mut self, b: bool)
        ensures
            final(self)@ == (Ev {
                config: Conf { implicit: b, ..old(self)@.config },
                ..old(self)@
            }),
            same_place(old(self)@, final(self)@),
    {
        proof {
            reveal(ev_of);
        }
        self.config.implicit = b;
    }
}

// ---- laws ----------------------------------------------------------------

/// Closing a scope brings back the scopes from before it was opened.
pub proof fn closing_a_frame_restores(s: Ev, vars: Vars, semi: bool, inner: Ev)
    requires
        same_place(with_scope(s, vars, semi), inner),
    ensures
        same_place(s, scope_popped(inner)),
{
    let c = scope_popped(inner).chain;
    assert(c.scopes =~= s.chain.scopes);
    assert(c.semi =~= s.chain.semi);
    assert(c.functions =~= s.chain.functions);
    assert(c.mixins =~= s.chain.mixins);
}

/// The same for a scope without variables.
pub proof fn closing_a_scope_restores(s: Ev, semi: bool, inner: Ev)
    requires
        same_place(scope_pushed(s, semi), inner),
    ensures
        same_place(s, scope_popped(inner)),
{
    closing_a_frame_restores(s, Seq::empty(), semi && in_semi(s), inner);
}

/// Leaving a scope that was just entered gives the chain back.
pub proof fn pop_undoes_push(s: Ev, semi: bool)
    ensures
        scope_popped(scope_pushed(s, semi)).chain == s.chain,
        scope_popped(scope_pushed(s, semi)).uses == s.uses,
{
    let c = scope_popped(scope_pushed(s, semi)).chain;
    assert(c.scopes =~= s.chain.scopes);
    assert(c.semi =~= s.chain.semi);
    assert(c.functions =~= s.chain.functions);
    assert(c.mixins =~= s.chain.mixins);
}

/// A variable has, right after it is set in the innermost scope, the value it was given.
pub proof fn lookup_after_local_set(s: Ev, name: Seq<char>, v: Val)
    requires
        s.chain.scopes.len() > 0,
        s.chain.scopes.last() < s.frames.len(),
    ensures
        lookup(local_set(s, name, v), name) == Some(v),
{
    let i = s.chain.scopes.last();
    get_after_put(s.frames[i as int], name, v);
}

/// Setting a variable changes one frame and nothing else of the state.
pub proof fn assignment_changes_one_frame(s: Ev, name: Seq<char>, v: Val, k: int)
    requires
        s.chain.scopes.len() > 0,
        0 <= k < s.frames.len(),
        k != s.chain.scopes[target(s, name)],
    ensures
        assigned(s, name, v).frames[k] == s.frames[k],
        assigned(s, name, v).chain == s.chain,
        assigned(s, name, v).tables == s.tables,
{
}

/// Outside semi-global scopes an assignment leaves the global frame alone.
pub proof fn assignment_spares_globals(s: Ev, name: Seq<char>)
    requires
        s.chain.scopes.len() > 1,
        !in_semi(s),
    ensures
        target(s, name) > 0,
{
}

} // verus!
