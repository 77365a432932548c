//! The functions of `sass:meta` that look at the state of the evaluation.

use vstd::prelude::*;
use crate::analysis::{body_uses_content, uses_content};
use crate::diag::{decimal, to_decimal};
use crate::env::{loose_entry, opt_block};
use crate::error::{Pos, fault_at};
use crate::eval::{
    Ev, Evaluator, Run, asked_flag, asked_text, callable_loose, ev_of, fail, frame, next_answer,
    out_flag, out_val, plain_css, same_place, stop_at,
};
use crate::host::{
    Answer, Halt, Stop, Task, ask_names, named_vals, one_name, request_names, two_names,
};
use crate::members::{
    MemberKind, ask_module_var, has_member, module_function, module_mixin, no_namespace,
    no_namespace_message, request_module_var, star_hits,
};
use crate::names::{builtin_mixin, is_builtin_mixin, is_private_member, private_name};
use crate::state::{Vars, get, get_id, get_text, get_var, opt_val};
use crate::text::{append, append_str, chars_of, same_str, string_of, text_of};
use crate::value::{
    SassFunction, SassMap, SassMixin, Val, Value, copy_pairs, copy_value, truthy, val, vals,
};

verus! {

broadcast use crate::kept::group_kept;

// ---- arguments -----------------------------------------------------------

/// The argument at position `i`, or by name.
pub open spec fn argument(p: Seq<Val>, n: Vars, i: int, name: Seq<char>) -> Option<Val> {
    if 0 <= i < p.len() {
        Some(p[i])
    } else {
        get(n, name)
    }
}

pub fn pick_argument(p: &Vec<Value>, n: &Vec<(String, Value)>, i: usize, name: &str) -> (r: Option<Value>)
    ensures
        opt_val(r) == argument(vals(p@), named_vals(n@), i as int, name@),
{
    if i < p.len() {
        Some(copy_value(&p[i]))
    } else {
        get_var(n, name)
    }
}

/// The message for too many arguments.
pub open spec fn only_allowed(max: nat, count: nat) -> Seq<char> {
    "Only "@ + decimal(max) + (if max == 1 {
        " argument"@
    } else {
        " arguments"@
    }) + " allowed, but "@ + decimal(count) + " were passed."@
}

pub fn only_allowed_message(max: usize, count: usize) -> (r: String)
    ensures
        r@ == only_allowed(max as nat, count as nat),
{
    let mut m = chars_of("Only ");
    append(&mut m, to_decimal(max).as_slice());
    append_str(
        &mut m,
        if max == 1 {
            " argument"
        } else {
            " arguments"
        },
    );
    append_str(&mut m, " allowed, but ");
    append(&mut m, to_decimal(count).as_slice());
    append_str(&mut m, " were passed.");
    string_of(m.as_slice())
}

/// The error for an argument of the wrong type.
pub open spec fn wrong_type<T>(s: Ev, ans: Seq<Answer>, head: Seq<char>, v: Val, tail: Seq<char>, pos: Pos) -> Run<
    T,
> {
    match plain_css(s, ans, v) {
        (Err(h), s1) => (Err(h), s1),
        (Ok(t), s1) => fail(fault_at(head + t + tail, pos), s1),
    }
}

impl Evaluator {
    pub fn wrong_type(&mut self, ans: &Vec<Answer>, head: &str, v: &Value, tail: &str, pos: Pos) -> (e: Stop)
        ensures
            wrong_type::<()>(old(self)@, ans@, head@, val(*v), tail@, pos) == (
                Err::<(), Halt>(e@),
                final(self)@,
            ),
            same_place(old(self)@, final(self)@),
    {
        match self.plain_css(ans, v) {
            Err(e) => e,
            Ok(t) => {
                let mut m = chars_of(head);
                append_str(&mut m, t.as_str());
                append_str(&mut m, tail);
                stop_at(string_of(m.as_slice()).as_str(), pos)
            },
        }
    }
}

/// The name, and the namespace, that an existence test is given.
pub open spec fn name_and_module(
    s: Ev,
    ans: Seq<Answer>,
    p: Seq<Val>,
    n: Vars,
    fname: Seq<char>,
    pos: Pos,
    with_module: bool,
) -> Run<(Seq<char>, Option<Seq<char>>)> {
    let max: nat = if with_module {
        2
    } else {
        1
    };
    if p.len() > max {
        fail(fault_at(only_allowed(max, p.len()), pos), s)
    } else {
        match argument(p, n, 0, "name"@) {
            None => fail(fault_at("Missing argument $name for "@ + fname + "()."@, pos), s),
            Some(v) => match v {
                Val::Str(name, q) => if !with_module {
                    (Ok((name, None)), s)
                } else {
                    match argument(p, n, 1, "module"@) {
                        None => (Ok((name, None)), s),
                        Some(w) => match w {
                            Val::Null => (Ok((name, None)), s),
                            Val::Str(m, q2) => (Ok((name, Some(m))), s),
                            other => wrong_type(s, ans, "$module: "@, other, " is not a string."@, pos),
                        },
                    }
                },
                other => wrong_type(s, ans, "$name: "@, other, " is not a string."@, pos),
            },
        }
    }
}

pub open spec fn out_name_module(r: Result<(String, Option<String>), Stop>) -> Result<
    (Seq<char>, Option<Seq<char>>),
    Halt,
> {
    match r {
        Ok(t) => Ok((t.0@, text_of(t.1))),
        Err(e) => Err(e@),
    }
}

impl Evaluator {
    fn exists_name_module_args(
        &mut self,
        ans: &Vec<Answer>,
        p: &Vec<Value>,
        n: &Vec<(String, Value)>,
        fname: &str,
        pos: Pos,
        with_module: bool,
    ) -> (r: Result<(String, Option<String>), Stop>)
        ensures
            (out_name_module(r), final(self)@) == name_and_module(
                old(self)@,
                ans@,
                vals(p@),
                named_vals(n@),
                fname@,
                pos,
                with_module,
            ),
            same_place(old(self)@, final(self)@),
    {
        let max: usize = if with_module { 2 } else { 1 };
        if p.len() > max {
            return Err(stop_at(only_allowed_message(max, p.len()).as_str(), pos));
        }
        let v = match pick_argument(p, n, 0, "name") {
            Some(v) => v,
            None => {
                let mut m = chars_of("Missing argument $name for ");
                append_str(&mut m, fname);
                append_str(&mut m, "().");
                return Err(stop_at(string_of(m.as_slice()).as_str(), pos));
            },
        };
        let name = match v {
            Value::Str(t) => t.text,
            other => {
                return Err(self.wrong_type(ans, "$name: ", &other, " is not a string.", pos));
            },
        };
        if !with_module {
            return Ok((name, None));
        }
        match pick_argument(p, n, 1, "module") {
            None => Ok((name, None)),
            Some(w) => match w {
                Value::Null => Ok((name, None)),
                Value::Str(t) => Ok((name, Some(t.text))),
                other => Err(self.wrong_type(ans, "$module: ", &other, " is not a string.", pos)),
            },
        }
    }
}

// ---- existence -----------------------------------------------------------

/// Whether a built-in module has a variable of this name.
pub open spec fn has_builtin_var(s: Ev, ans: Seq<Answer>, module: Seq<char>, name: Seq<char>, pos: Pos) -> Run<
    bool,
> {
    match next_answer(s, ans, ask_module_var(module, name, pos)) {
        (Err(h), s1) => (Err(h), s1),
        (Ok(a), s1) => match a {
            Answer::Value(_) => (Ok(true), s1),
            Answer::Fail(_) => (Ok(false), s1),
            _ => (Err(Halt::Mismatch), s1),
        },
    }
}

/// Whether the module of a namespace has a member.
pub open spec fn member_exists(
    s: Ev,
    ans: Seq<Answer>,
    ns: Seq<char>,
    name: Seq<char>,
    kind: MemberKind,
    pos: Pos,
) -> Run<bool> {
    match get(s.uses.user, ns) {
        Some(m) => (Ok(has_member(s, m, name, kind)), s),
        None => match get(s.uses.builtin, ns) {
            Some(b) => match kind {
                MemberKind::Function => asked_flag(s, ans, ask_names(Task::HasMember, seq![b, name])),
                MemberKind::Mixin => (
                    Ok(b == "meta"@ && (name == "load-css"@ || name == "apply"@)),
                    s,
                ),
                MemberKind::Variable => has_builtin_var(s, ans, b, name, pos),
            },
            None => fail(fault_at(no_namespace(ns), pos), s),
        },
    }
}

/// Whether a variable of this name, in any spelling, is in one of the scopes.
pub open spec fn scope_has(s: Ev, scopes: Seq<usize>, name: Seq<char>) -> bool {
    exists|k: int|
        0 <= k < scopes.len() && loose_entry(frame(s, #[trigger] scopes[k]), name) < frame(
            s,
            scopes[k],
        ).len()
}

/// The truth value of a test for a member that is in scope, or in one module used without a
/// namespace.
pub open spec fn star_test(s: Ev, local: bool, name: Seq<char>, kind: MemberKind, message: Seq<char>, pos: Pos) -> Run<
    bool,
> {
    if local {
        (Ok(true), s)
    } else {
        let count = star_hits(s, name, kind).len();
        if count > 1 {
            fail(fault_at(message, pos), s)
        } else {
            (Ok(count == 1), s)
        }
    }
}

/// The scopes that a test for a variable looks at: all of them, or the global one.
pub open spec fn tested_scopes(s: Ev, global: bool) -> Seq<usize> {
    if global && s.chain.scopes.len() > 0 {
        s.chain.scopes.take(1)
    } else {
        s.chain.scopes
    }
}

/// `variable-exists()` and `global-variable-exists()`.
pub open spec fn variable_exists(s: Ev, ans: Seq<Answer>, p: Seq<Val>, n: Vars, pos: Pos, global: bool) -> Run<
    bool,
> {
    let fname = if global {
        "global-variable-exists"@
    } else {
        "variable-exists"@
    };
    match name_and_module(s, ans, p, n, fname, pos, global) {
        (Err(h), s1) => (Err(h), s1),
        (Ok((name, Some(ns))), s1) => member_exists(s1, ans, ns, name, MemberKind::Variable, pos),
        (Ok((name, None)), s1) => star_test(
            s1,
            scope_has(s1, tested_scopes(s1, global), name),
            name,
            MemberKind::Variable,
            "This variable is available from multiple global modules."@,
            pos,
        ),
    }
}

/// `mixin-exists()`.
pub open spec fn mixin_exists(s: Ev, ans: Seq<Answer>, p: Seq<Val>, n: Vars, pos: Pos) -> Run<bool> {
    match name_and_module(s, ans, p, n, "mixin-exists"@, pos, true) {
        (Err(h), s1) => (Err(h), s1),
        (Ok((name, Some(ns))), s1) => member_exists(s1, ans, ns, name, MemberKind::Mixin, pos),
        (Ok((name, None)), s1) => star_test(
            s1,
            callable_loose(s1, s1.chain.mixins, name) is Some,
            name,
            MemberKind::Mixin,
            "This mixin is available from multiple global modules."@,
            pos,
        ),
    }
}

/// `function-exists()`.
pub open spec fn function_exists(s: Ev, ans: Seq<Answer>, p: Seq<Val>, n: Vars, pos: Pos) -> Run<bool> {
    match name_and_module(s, ans, p, n, "function-exists"@, pos, true) {
        (Err(h), s1) => (Err(h), s1),
        (Ok((name, Some(ns))), s1) => member_exists(s1, ans, ns, name, MemberKind::Function, pos),
        (Ok((name, None)), s1) => match star_test(
            s1,
            callable_loose(s1, s1.chain.functions, name) is Some,
            name,
            MemberKind::Function,
            "This function is available from multiple global modules."@,
            pos,
        ) {
            (Err(h), s2) => (Err(h), s2),
            (Ok(true), s2) => (Ok(true), s2),
            (Ok(false), s2) => asked_flag(s2, ans, ask_names(Task::IsBuiltin, seq![name])),
        },
    }
}

/// `content-exists()`.
pub open spec fn content_exists(s: Ev, p: Seq<Val>, pos: Pos) -> Run<bool> {
    if p.len() > 0 {
        fail(fault_at(only_allowed(0, p.len()), pos), s)
    } else if !(s.in_mixin.len() > 0 && s.in_mixin.last()) {
        fail(fault_at("content-exists() may only be called within a mixin."@, pos), s)
    } else {
        (Ok(s.contents.len() > 0 && s.contents.last() is Some), s)
    }
}

fn frame_has(v: &Vec<(String, Value)>, name: &str) -> (r: bool)
    ensures
        r == (loose_entry(named_vals(v@), name@) < v@.len()),
{
    crate::args::has_named(v, name)
}

impl Evaluator {
    fn has_builtin_var(&mut self, ans: &Vec<Answer>, module: &str, name: &str, pos: Pos) -> (r: Result<
        bool,
        Stop,
    >)
        ensures
            (out_flag(r), final(self)@) == has_builtin_var(old(self)@, ans@, module@, name@, pos),
            same_place(old(self)@, final(self)@),
    {
        match self.next(ans, request_module_var(module, name, pos)) {
            Err(e) => Err(e),
            Ok(a) => match a {
                Answer::Value(_) => Ok(true),
                Answer::Fail(_) => Ok(false),
                _ => Err(Stop::Mismatch),
            },
        }
    }

    /// Whether the module of a namespace has a member.
    pub fn module_member_exists(
        &mut self,
        ans: &Vec<Answer>,
        ns: &str,
        name: &str,
        kind: MemberKind,
        pos: Pos,
    ) -> (r: Result<bool, Stop>)
        ensures
            (out_flag(r), final(self)@) == member_exists(old(self)@, ans@, ns@, name@, kind, pos),
            same_place(old(self)@, final(self)@),
    {
        proof {
            reveal(ev_of);
        }
        if let Some(m) = get_id(&self.uses.user, ns) {
            return Ok(self.has_member(m, name, kind));
        }
        match get_text(&self.uses.builtin, ns) {
            Some(b) => match kind {
                MemberKind::Function => self.ask_flag(
                    ans,
                    request_names(Task::HasMember, two_names(b.as_str(), name)),
                ),
                MemberKind::Mixin => Ok(
                    same_str(b.as_str(), "meta") && (same_str(name, "load-css") || same_str(name, "apply")),
                ),
                MemberKind::Variable => self.has_builtin_var(ans, b.as_str(), name, pos),
            },
            None => Err(stop_at(no_namespace_message(ns).as_str(), pos)),
        }
    }

    fn scope_has(&self, count: usize, name: &str) -> (r: bool)
        requires
            count <= self.chain.scopes@.len(),
        ensures
            r == scope_has(self@, self.chain.scopes@.take(count as int), name@),
    {
        proof {
            reveal(ev_of);
        }
        let ghost sc = self.chain.scopes@.take(count as int);
        let mut i: usize = 0;
        while i < count
            invariant
                i <= count <= self.chain.scopes@.len(),
                sc == self.chain.scopes@.take(count as int),
                forall|k: int|
                    0 <= k < i ==> loose_entry(frame(self@, #[trigger] sc[k]), name@) >= frame(
                        self@,
                        sc[k],
                    ).len(),
            decreases count - i,
        {
            proof {
                reveal(ev_of);
            }
            let f: usize = self.chain.scopes[i];
            proof {
                assert(sc[i as int] == f);
            }
            if f < self.frames.len() {
                if frame_has(&self.frames[f], name) {
                    proof {
                        assert(loose_entry(frame(self@, sc[i as int]), name@) < frame(
                            self@,
                            sc[i as int],
                        ).len());
                    }
                    return true;
                }
            }
            i += 1;
        }
        false
    }

    fn star_test(&mut self, local: bool, name: &str, kind: MemberKind, message: &str, pos: Pos) -> (r: Result<
        bool,
        Stop,
    >)
        ensures
            (out_flag(r), final(self)@) == star_test(old(self)@, local, name@, kind, message@, pos),
            same_place(old(self)@, final(self)@),
    {
        if local {
            return Ok(true);
        }
        let count: usize = self.star_member_count(name, kind);
        if count > 1 {
            return Err(stop_at(message, pos));
        }
        Ok(count == 1)
    }

    pub fn meta_variable_exists(
        &mut self,
        ans: &Vec<Answer>,
        p: &Vec<Value>,
        n: &Vec<(String, Value)>,
        pos: Pos,
        global: bool,
    ) -> (r: Result<bool, Stop>)
        ensures
            (out_flag(r), final(self)@) == variable_exists(
                old(self)@,
                ans@,
                vals(p@),
                named_vals(n@),
                pos,
                global,
            ),
            same_place(old(self)@, final(self)@),
    {
        proof {
            reveal(ev_of);
        }
        let fname = if global {
            "global-variable-exists"
        } else {
            "variable-exists"
        };
        match self.exists_name_module_args(ans, p, n, fname, pos, global) {
            Err(e) => Err(e),
            Ok((name, Some(ns))) => self.module_member_exists(
                ans,
                ns.as_str(),
                name.as_str(),
                MemberKind::Variable,
                pos,
            ),
            Ok((name, None)) => {
                let all: usize = self.chain.scopes.len();
                let count: usize = if global && all > 0 { 1 } else { all };
                proof {
                    assert(self.chain.scopes@.take(all as int) =~= self.chain.scopes@);
                }
                let local = self.scope_has(count, name.as_str());
                self.star_test(
                    local,
                    name.as_str(),
                    MemberKind::Variable,
                    "This variable is available from multiple global modules.",
                    pos,
                )
            },
        }
    }

    pub fn meta_mixin_exists(
        &mut self,
        ans: &Vec<Answer>,
        p: &Vec<Value>,
        n: &Vec<(String, Value)>,
        pos: Pos,
    ) -> (r: Result<bool, Stop>)
        ensures
            (out_flag(r), final(self)@) == mixin_exists(old(self)@, ans@, vals(p@), named_vals(n@), pos),
            same_place(old(self)@, final(self)@),
    {
        match self.exists_name_module_args(ans, p, n, "mixin-exists", pos, true) {
            Err(e) => Err(e),
            Ok((name, Some(ns))) => self.module_member_exists(
                ans,
                ns.as_str(),
                name.as_str(),
                MemberKind::Mixin,
                pos,
            ),
            Ok((name, None)) => {
                let local = self.lookup_mixin_norm(name.as_str()).is_some();
                self.star_test(
                    local,
                    name.as_str(),
                    MemberKind::Mixin,
                    "This mixin is available from multiple global modules.",
                    pos,
                )
            },
        }
    }

    pub fn meta_function_exists(
        &mut self,
        ans: &Vec<Answer>,
        p: &Vec<Value>,
        n: &Vec<(String, Value)>,
        pos: Pos,
    ) -> (r: Result<bool, Stop>)
        ensures
            (out_flag(r), final(self)@) == function_exists(
                old(self)@,
                ans@,
                vals(p@),
                named_vals(n@),
                pos,
            ),
            same_place(old(self)@, final(self)@),
    {
        match self.exists_name_module_args(ans, p, n, "function-exists", pos, true) {
            Err(e) => Err(e),
            Ok((name, Some(ns))) => self.module_member_exists(
                ans,
                ns.as_str(),
                name.as_str(),
                MemberKind::Function,
                pos,
            ),
            Ok((name, None)) => {
                let local = self.lookup_function_norm(name.as_str()).is_some();
                match self.star_test(
                    local,
                    name.as_str(),
                    MemberKind::Function,
                    "This function is available from multiple global modules.",
                    pos,
                ) {
                    Err(e) => Err(e),
                    Ok(true) => Ok(true),
                    Ok(false) => self.ask_flag(
                        ans,
                        request_names(Task::IsBuiltin, one_name(name.as_str())),
                    ),
                }
            },
        }
    }

    pub fn meta_content_exists(&mut self, p: &Vec<Value>, pos: Pos) -> (r: Result<bool, Stop>)
        ensures
            (out_flag(r), final(self)@) == content_exists(old(self)@, vals(p@), pos),
            same_place(old(self)@, final(self)@),
    {
        proof {
            reveal(ev_of);
        }
        if p.len() > 0 {
            return Err(stop_at(only_allowed_message(0, p.len()).as_str(), pos));
        }
        let k: usize = self.in_mixin.len();
        if !(k > 0 && self.in_mixin[k - 1]) {
            return Err(stop_at("content-exists() may only be called within a mixin.", pos));
        }
        let c: usize = self.contents.len();
        if c == 0 {
            return Ok(false);
        }
        proof {
            assert(self@.contents.last() == opt_block(self.contents@[c - 1]));
        }
        Ok(self.contents[c - 1].is_some())
    }
}

// ---- keywords and content ------------------------------------------------

/// `keywords()`: the keyword arguments of an argument list.
pub open spec fn keywords_value(s: Ev, ans: Seq<Answer>, p: Seq<Val>, n: Vars, pos: Pos) -> Run<Val> {
    match argument(p, n, 0, "args"@) {
        None => fail(fault_at("Missing argument $args."@, pos), s),
        Some(v) => match v {
            Val::List { items, sep, bracketed, keywords: Some(kw) } => (Ok(Val::Pairs(kw)), s),
            other => wrong_type(s, ans, "$args: "@, other, " is not an argument list."@, pos),
        },
    }
}

/// `accepts-content()`: whether a mixin uses a content block.
pub open spec fn accepts_content(s: Ev, ans: Seq<Answer>, p: Seq<Val>, n: Vars, pos: Pos) -> Run<Val> {
    match argument(p, n, 0, "mixin"@) {
        None => fail(fault_at("Missing argument $mixin."@, pos), s),
        Some(v) => match v {
            Val::Mixin { name, user, module } => (
                Ok(
                    Val::Bool(
                        match user {
                            Some(id) => id < s.callables.len() && uses_content(
                                s.callables[id as int].def.body@,
                                0,
                            ),
                            None => name == "apply"@,
                        },
                    ),
                ),
                s,
            ),
            other => wrong_type(s, ans, "$mixin: "@, other, " is not a mixin reference."@, pos),
        },
    }
}

impl Evaluator {
    pub fn meta_keywords(
        &mut self,
        ans: &Vec<Answer>,
        p: &Vec<Value>,
        n: &Vec<(String, Value)>,
        pos: Pos,
    ) -> (r: Result<Value, Stop>)
        ensures
            (out_val(r), final(self)@) == keywords_value(old(self)@, ans@, vals(p@), named_vals(n@), pos),
            same_place(old(self)@, final(self)@),
    {
        let v = match pick_argument(p, n, 0, "args") {
            Some(v) => v,
            None => {
                return Err(stop_at("Missing argument $args.", pos));
            },
        };
        if let Value::List(l) = &v {
            if let Some(kw) = &l.keywords {
                return Ok(Value::Pairs(SassMap { entries: copy_pairs(kw) }));
            }
        }
        Err(self.wrong_type(ans, "$args: ", &v, " is not an argument list.", pos))
    }

    pub fn meta_accepts_content(
        &mut self,
        ans: &Vec<Answer>,
        p: &Vec<Value>,
        n: &Vec<(String, Value)>,
        pos: Pos,
    ) -> (r: Result<Value, Stop>)
        ensures
            (out_val(r), final(self)@) == accepts_content(old(self)@, ans@, vals(p@), named_vals(n@), pos),
            same_place(old(self)@, final(self)@),
    {
        proof {
            reveal(ev_of);
        }
        let v = match pick_argument(p, n, 0, "mixin") {
            Some(v) => v,
            None => {
                return Err(stop_at("Missing argument $mixin.", pos));
            },
        };
        match &v {
            Value::Mixin(m) => {
                let yes = match m.user {
                    Some(id) => {
                        if id < self.callables.len() {
                            proof {
                                assert(self@.callables[id as int] == self.callables@[id as int]@);
                            }
                            body_uses_content(&self.callables[id].def.body)
                        } else {
                            false
                        }
                    },
                    None => same_str(m.name.as_str(), "apply"),
                };
                Ok(Value::Bool(yes))
            },
            other => Err(self.wrong_type(ans, "$mixin: ", other, " is not a mixin reference.", pos)),
        }
    }
}

// ---- references ----------------------------------------------------------

pub open spec fn not_found(kind: Seq<char>, name: Seq<char>) -> Seq<char> {
    kind + " not found: "@ + name
}

fn not_found_message(kind: &str, name: &str) -> (r: String)
    ensures
        r@ == not_found(kind@, name@),
{
    let mut m = chars_of(kind);
    append_str(&mut m, " not found: ");
    append_str(&mut m, name);
    string_of(m.as_slice())
}

pub open spec fn function_ref(name: Seq<char>, css: bool, user: Option<usize>) -> Val {
    Val::Function { name, css, user }
}

/// A reference to a function of the module of a namespace.
pub open spec fn function_from_module(
    s: Ev,
    ans: Seq<Answer>,
    name: Seq<char>,
    ns: Seq<char>,
    pos: Pos,
) -> Run<Val> {
    match get(s.uses.user, ns) {
        Some(m) => if private_name(name) {
            fail(
                fault_at("Private members can't be accessed from outside their modules."@, pos),
                s,
            )
        } else {
            match module_function(s, m, name) {
                Some(f) => (Ok(function_ref(name, false, Some(f))), s),
                None => fail(fault_at(not_found("Function"@, name), pos), s),
            }
        },
        None => match get(s.uses.builtin, ns) {
            Some(b) => match asked_flag(s, ans, ask_names(Task::HasMember, seq![b, name])) {
                (Err(h), s1) => (Err(h), s1),
                (Ok(false), s1) => fail(fault_at(not_found("Function"@, name), pos), s1),
                (Ok(true), s1) => match asked_text(
                    s1,
                    ans,
                    ask_names(Task::GlobalName, seq![b, name]),
                ) {
                    (Err(h), s2) => (Err(h), s2),
                    (Ok(g), s2) => (Ok(function_ref(g, false, None)), s2),
                },
            },
            None => fail(fault_at(no_namespace(ns), pos), s),
        },
    }
}

/// The first module of a list, from `i` on, that has the function.
pub open spec fn first_function(s: Ev, list: Seq<usize>, name: Seq<char>, i: int) -> Option<usize>
    decreases list.len() - i,
{
    if i < 0 || i >= list.len() {
        None
    } else {
        match module_function(s, list[i], name) {
            Some(f) => Some(f),
            None => first_function(s, list, name, i + 1),
        }
    }
}

/// A reference to the function of a name: a user-defined one first, then that of a module used
/// without a namespace, then a built-in one.
pub open spec fn function_by_name(s: Ev, ans: Seq<Answer>, name: Seq<char>, pos: Pos) -> Run<Val> {
    match callable_loose(s, s.chain.functions, name) {
        Some(f) => (Ok(function_ref(name, false, Some(f))), s),
        None => {
            let star = if private_name(name) {
                None
            } else {
                first_function(s, s.uses.star_user, name, 0)
            };
            match star {
                Some(f) => (Ok(function_ref(name, false, Some(f))), s),
                None => match asked_flag(s, ans, ask_names(Task::IsBuiltin, seq![name])) {
                    (Err(h), s1) => (Err(h), s1),
                    (Ok(true), s1) => (Ok(function_ref(name, false, None)), s1),
                    (Ok(false), s1) => fail(fault_at(not_found("Function"@, name), pos), s1),
                },
            }
        },
    }
}

/// `get-function()`.
pub open spec fn get_function(s: Ev, ans: Seq<Answer>, p: Seq<Val>, n: Vars, pos: Pos) -> Run<Val> {
    if p.len() > 3 {
        fail(fault_at(only_allowed(3, p.len()), pos), s)
    } else {
        match argument(p, n, 0, "name"@) {
            None => fail(fault_at("Missing argument $name."@, pos), s),
            Some(v) => match v {
                Val::Str(name, q) => {
                    let css = match argument(p, n, 1, "css"@) {
                        Some(c) => truthy(c),
                        None => false,
                    };
                    let rest = if css {
                        (Ok(function_ref(name, true, None)), s)
                    } else {
                        function_by_name(s, ans, name, pos)
                    };
                    match argument(p, n, 2, "module"@) {
                        None => rest,
                        Some(w) => match w {
                            Val::Null => rest,
                            Val::Str(ns, q2) => function_from_module(s, ans, name, ns, pos),
                            other => wrong_type(s, ans, "$module: "@, other, " is not a string."@, pos),
                        },
                    }
                },
                other => wrong_type(s, ans, "$name: "@, other, " is not a string."@, pos),
            },
        }
    }
}

/// A reference to a mixin of the module of a namespace.
pub open spec fn mixin_from_module(s: Ev, name: Seq<char>, ns: Seq<char>, pos: Pos) -> Run<Val> {
    match get(s.uses.user, ns) {
        Some(m) => if private_name(name) {
            fail(
                fault_at("Private members can't be accessed from outside their modules."@, pos),
                s,
            )
        } else {
            match module_mixin(s, m, name) {
                Some(f) => (Ok(Val::Mixin { name, user: Some(f), module: Some(m) }), s),
                None => fail(fault_at(not_found("Mixin"@, name), pos), s),
            }
        },
        None => match get(s.uses.builtin, ns) {
            Some(module) => if builtin_mixin(module, name) {
                (Ok(Val::Mixin { name, user: None, module: None }), s)
            } else {
                fail(fault_at(not_found("Mixin"@, name), pos), s)
            },
            None => fail(fault_at(no_namespace(ns), pos), s),
        },
    }
}

/// A reference to the mixin of a name.
pub open spec fn mixin_by_name(s: Ev, name: Seq<char>, pos: Pos) -> Run<Val> {
    match callable_loose(s, s.chain.mixins, name) {
        Some(f) => (Ok(Val::Mixin { name, user: Some(f), module: None }), s),
        None => {
            let hits = star_hits(s, name, MemberKind::Mixin);
            if hits.len() > 1 {
                fail(fault_at("This mixin is available from multiple global modules."@, pos), s)
            } else if hits.len() == 1 {
                match module_mixin(s, hits[0], name) {
                    Some(f) => (Ok(Val::Mixin { name, user: Some(f), module: Some(hits[0]) }), s),
                    None => fail(fault_at(not_found("Mixin"@, name), pos), s),
                }
            } else {
                fail(fault_at(not_found("Mixin"@, name), pos), s)
            }
        },
    }
}

/// `get-mixin()`.
pub open spec fn get_mixin(s: Ev, ans: Seq<Answer>, p: Seq<Val>, n: Vars, pos: Pos) -> Run<Val> {
    if p.len() > 2 {
        fail(fault_at(only_allowed(2, p.len()), pos), s)
    } else {
        match argument(p, n, 0, "name"@) {
            None => fail(fault_at("Missing argument $name."@, pos), s),
            Some(v) => match v {
                Val::Str(name, q) => match argument(p, n, 1, "module"@) {
                    None => mixin_by_name(s, name, pos),
                    Some(w) => match w {
                        Val::Null => mixin_by_name(s, name, pos),
                        Val::Str(ns, q2) => mixin_from_module(s, name, ns, pos),
                        other => wrong_type(s, ans, "$module: "@, other, " is not a string."@, pos),
                    },
                },
                other => wrong_type(s, ans, "$name: "@, other, " is not a string."@, pos),
            },
        }
    }
}

fn make_function(name: &str, css: bool, user: Option<usize>) -> (r: Value)
    ensures
        val(r) == function_ref(name@, css, user),
{
    Value::Function(SassFunction { name: name.to_owned(), css, user })
}

impl Evaluator {
    fn get_function_from_module(&mut self, ans: &Vec<Answer>, name: &str, ns: &str, pos: Pos) -> (r: Result<
        Value,
        Stop,
    >)
        ensures
            (out_val(r), final(self)@) == function_from_module(old(self)@, ans@, name@, ns@, pos),
            same_place(old(self)@, final(self)@),
    {
        proof {
            reveal(ev_of);
        }
        if let Some(m) = get_id(&self.uses.user, ns) {
            if is_private_member(name) {
                return Err(
                    stop_at("Private members can't be accessed from outside their modules.", pos),
                );
            }
            return match self.module_function(m, name) {
                Some(f) => Ok(make_function(name, false, Some(f))),
                None => Err(stop_at(not_found_message("Function", name).as_str(), pos)),
            };
        }
        match get_text(&self.uses.builtin, ns) {
            Some(b) => {
                match self.ask_flag(ans, request_names(Task::HasMember, two_names(b.as_str(), name))) {
                    Err(e) => Err(e),
                    Ok(false) => Err(stop_at(not_found_message("Function", name).as_str(), pos)),
                    Ok(true) => {
                        let q = request_names(Task::GlobalName, two_names(b.as_str(), name));
                        match self.ask_text(ans, q) {
                            Err(e) => Err(e),
                            Ok(g) => Ok(make_function(g.as_str(), false, None)),
                        }
                    },
                }
            },
            None => Err(stop_at(no_namespace_message(ns).as_str(), pos)),
        }
    }

    fn first_star_function(&self, name: &str) -> (r: Option<usize>)
        ensures
            r == first_function(self@, self@.uses.star_user, name@, 0),
    {
        proof {
            reveal(ev_of);
        }
        let ghost list = self.uses.star_user@;
        let mut i: usize = 0;
        while i < self.uses.star_user.len()
            invariant
                i <= self.uses.star_user@.len(),
                list == self.uses.star_user@,
                first_function(self@, list, name@, i as int) == first_function(self@, list, name@, 0),
            decreases self.uses.star_user@.len() - i,
        {
            proof {
                reveal(ev_of);
            }
            if let Some(f) = self.module_function(self.uses.star_user[i], name) {
                return Some(f);
            }
            i += 1;
        }
        None
    }

    fn function_by_name(&mut self, ans: &Vec<Answer>, name: &str, pos: Pos) -> (r: Result<Value, Stop>)
        ensures
            (out_val(r), final(self)@) == function_by_name(old(self)@, ans@, name@, pos),
            same_place(old(self)@, final(self)@),
    {
        if let Some(f) = self.lookup_function_norm(name) {
            return Ok(make_function(name, false, Some(f)));
        }
        if !is_private_member(name) {
            if let Some(f) = self.first_star_function(name) {
                return Ok(make_function(name, false, Some(f)));
            }
        }
        match self.ask_flag(ans, request_names(Task::IsBuiltin, one_name(name))) {
            Err(e) => Err(e),
            Ok(true) => Ok(make_function(name, false, None)),
            Ok(false) => Err(stop_at(not_found_message("Function", name).as_str(), pos)),
        }
    }

    pub fn meta_get_function(
        &mut self,
        ans: &Vec<Answer>,
        p: &Vec<Value>,
        n: &Vec<(String, Value)>,
        pos: Pos,
    ) -> (r: Result<Value, Stop>)
        ensures
            (out_val(r), final(self)@) == get_function(old(self)@, ans@, vals(p@), named_vals(n@), pos),
            same_place(old(self)@, final(self)@),
    {
        if p.len() > 3 {
            return Err(stop_at(only_allowed_message(3, p.len()).as_str(), pos));
        }
        let name = match pick_argument(p, n, 0, "name") {
            None => {
                return Err(stop_at("Missing argument $name.", pos));
            },
            Some(v) => match v {
                Value::Str(t) => t.text,
                other => {
                    return Err(self.wrong_type(ans, "$name: ", &other, " is not a string.", pos));
                },
            },
        };
        let css = match pick_argument(p, n, 1, "css") {
            Some(c) => c.is_truthy(),
            None => false,
        };
        match pick_argument(p, n, 2, "module") {
            None => {},
            Some(w) => match w {
                Value::Null => {},
                Value::Str(t) => {
                    return self.get_function_from_module(ans, name.as_str(), t.text.as_str(), pos);
                },
                other => {
                    return Err(self.wrong_type(ans, "$module: ", &other, " is not a string.", pos));
                },
            },
        }
        if css {
            return Ok(make_function(name.as_str(), true, None));
        }
        self.function_by_name(ans, name.as_str(), pos)
    }

    pub fn get_mixin_from_module(&mut self, name: &str, ns: &str, pos: Pos) -> (r: Result<Value, Stop>)
        ensures
            (out_val(r), final(self)@) == mixin_from_module(old(self)@, name@, ns@, pos),
            same_place(old(self)@, final(self)@),
    {
        proof {
            reveal(ev_of);
        }
        if let Some(m) = get_id(&self.uses.user, ns) {
            if is_private_member(name) {
                return Err(
                    stop_at("Private members can't be accessed from outside their modules.", pos),
                );
            }
            return match self.module_mixin(m, name) {
                Some(f) => Ok(
                    Value::Mixin(SassMixin { name: name.to_owned(), user: Some(f), module: Some(m) }),
                ),
                None => Err(stop_at(not_found_message("Mixin", name).as_str(), pos)),
            };
        }
        if let Some(module) = get_text(&self.uses.builtin, ns) {
            if is_builtin_mixin(module.as_str(), name) {
                return Ok(
                    Value::Mixin(SassMixin { name: name.to_owned(), user: None, module: None }),
                );
            }
            return Err(stop_at(not_found_message("Mixin", name).as_str(), pos));
        }
        Err(stop_at(no_namespace_message(ns).as_str(), pos))
    }

    fn mixin_by_name(&mut self, name: &str, pos: Pos) -> (r: Result<Value, Stop>)
        ensures
            (out_val(r), final(self)@) == mixin_by_name(old(self)@, name@, pos),
            same_place(old(self)@, final(self)@),
    {
        if let Some(f) = self.lookup_mixin_norm(name) {
            return Ok(Value::Mixin(SassMixin { name: name.to_owned(), user: Some(f), module: None }));
        }
        let hits = self.star_hits(name, MemberKind::Mixin);
        if hits.len() > 1 {
            return Err(stop_at("This mixin is available from multiple global modules.", pos));
        }
        if hits.len() == 1 {
            return match self.module_mixin(hits[0], name) {
                Some(f) => Ok(
                    Value::Mixin(
                        SassMixin { name: name.to_owned(), user: Some(f), module: Some(hits[0]) },
                    ),
                ),
                None => Err(stop_at(not_found_message("Mixin", name).as_str(), pos)),
            };
        }
        Err(stop_at(not_found_message("Mixin", name).as_str(), pos))
    }

    pub fn meta_get_mixin(
        &mut self,
        ans: &Vec<Answer>,
        p: &Vec<Value>,
        n: &Vec<(String, Value)>,
        pos: Pos,
    ) -> (r: Result<Value, Stop>)
        ensures
            (out_val(r), final(self)@) == get_mixin(old(self)@, ans@, vals(p@), named_vals(n@), pos),
            same_place(old(self)@, final(self)@),
    {
        if p.len() > 2 {
            return Err(stop_at(only_allowed_message(2, p.len()).as_str(), pos));
        }
        let name = match pick_argument(p, n, 0, "name") {
            None => {
                return Err(stop_at("Missing argument $name.", pos));
            },
            Some(v) => match v {
                Value::Str(t) => t.text,
                other => {
                    return Err(self.wrong_type(ans, "$name: ", &other, " is not a string.", pos));
                },
            },
        };
        match pick_argument(p, n, 1, "module") {
            None => {},
            Some(w) => match w {
                Value::Null => {},
                Value::Str(t) => {
                    return self.get_mixin_from_module(name.as_str(), t.text.as_str(), pos);
                },
                other => {
                    return Err(self.wrong_type(ans, "$module: ", &other, " is not a string.", pos));
                },
            },
        }
        self.mixin_by_name(name.as_str(), pos)
    }
}

} // verus!
