//! The members of modules.

use vstd::prelude::*;
use crate::diag::{caret_length, caret_width};
use crate::env::{loose_entry, seek, seek_id, seek_origin, seek_var};
use crate::error::{Error, Fault, Pos, fault_at};
use crate::eval::{
    Ev, Evaluator, Run, asked_value, ev_of, fail, frame, lookup, next_answer, out_val,
    same_place, stop_at, table,
};
use crate::host::{Answer, Ask, Halt, Request, Stop, Task, ask_names, request_names, two_names};
use crate::names::{is_private_member, private_name};
use crate::state::{entry, get, get_id, get_text, opt_val};
use crate::text::{append_str, chars_of, clone_strings, string_of, texts};
use crate::value::{Val, Value, copy_value, slashless, val};

verus! {

broadcast use crate::kept::group_kept;

/// Which kind of member is meant.
#[derive(Clone, Copy, Debug, PartialEq, Eq, Structural)]
pub enum MemberKind {
    Function,
    Mixin,
    Variable,
}

/// A variable of a module. One that is forwarded is read in the module that defines it, over at
/// most `hops` forwards.
pub open spec fn var_in(s: Ev, m: usize, name: Seq<char>, hops: nat) -> Option<Val>
    decreases hops,
{
    if m >= s.modules.len() {
        None
    } else {
        match seek(s.modules[m as int].var_origins, name) {
            Some(o) => if hops == 0 {
                None
            } else {
                var_in(s, o.0, o.1, (hops - 1) as nat)
            },
            None => seek(frame(s, s.modules[m as int].vars), name),
        }
    }
}

pub open spec fn module_var(s: Ev, m: usize, name: Seq<char>) -> Option<Val> {
    var_in(s, m, name, s.modules.len())
}

/// A function of a module.
pub open spec fn module_function(s: Ev, m: usize, name: Seq<char>) -> Option<usize> {
    if m < s.modules.len() {
        seek(table(s, s.modules[m as int].functions), name)
    } else {
        None
    }
}

/// A mixin of a module.
pub open spec fn module_mixin(s: Ev, m: usize, name: Seq<char>) -> Option<usize> {
    if m < s.modules.len() {
        seek(table(s, s.modules[m as int].mixins), name)
    } else {
        None
    }
}

/// The module that a function of `m` runs in: the one that defines it.
pub open spec fn function_home(s: Ev, m: usize, name: Seq<char>) -> usize {
    if m < s.modules.len() {
        match seek(s.modules[m as int].fn_origins, name) {
            Some(o) => o,
            None => m,
        }
    } else {
        m
    }
}

/// The module that a mixin of `m` runs in.
pub open spec fn mixin_home(s: Ev, m: usize, name: Seq<char>) -> usize {
    if m < s.modules.len() {
        match seek(s.modules[m as int].mixin_origins, name) {
            Some(o) => o,
            None => m,
        }
    } else {
        m
    }
}

/// The module and name that an assignment to a variable of `m` goes to.
pub open spec fn write_target(s: Ev, m: usize, name: Seq<char>) -> (usize, Seq<char>) {
    if m < s.modules.len() {
        match seek(s.modules[m as int].var_write_origins, name) {
            Some(o) => o,
            None => (m, name),
        }
    } else {
        (m, name)
    }
}

/// Whether a module has a member of this kind and name.
pub open spec fn has_member(s: Ev, m: usize, name: Seq<char>, kind: MemberKind) -> bool {
    match kind {
        MemberKind::Function => module_function(s, m, name) is Some,
        MemberKind::Mixin => module_mixin(s, m, name) is Some,
        MemberKind::Variable => module_var(s, m, name) is Some,
    }
}

/// The modules among the first `n` of a list that have the member.
pub open spec fn having(s: Ev, list: Seq<usize>, name: Seq<char>, kind: MemberKind) -> Seq<usize>
    decreases list.len(),
{
    if list.len() == 0 {
        Seq::empty()
    } else {
        let before = having(s, list.drop_last(), name, kind);
        if has_member(s, list.last(), name, kind) {
            before.push(list.last())
        } else {
            before
        }
    }
}

/// The modules used without a namespace that have the member. A private member is in none.
pub open spec fn star_hits(s: Ev, name: Seq<char>, kind: MemberKind) -> Seq<usize> {
    if private_name(name) {
        Seq::empty()
    } else {
        having(s, s.uses.star_user, name, kind)
    }
}

pub open spec fn no_namespace(ns: Seq<char>) -> Seq<char> {
    "There is no module with the namespace \""@ + ns + "\"."@
}

pub fn no_namespace_message(ns: &str) -> (r: String)
    ensures
        r@ == no_namespace(ns@),
{
    let mut m = chars_of("There is no module with the namespace \"");
    append_str(&mut m, ns);
    append_str(&mut m, "\".");
    string_of(m.as_slice())
}

/// The question for a variable of a built-in module.
pub open spec fn ask_module_var(module: Seq<char>, name: Seq<char>, pos: Pos) -> Ask {
    Ask { pos: Some(pos), ..ask_names(Task::ModuleVar, seq![module, name]) }
}

pub fn request_module_var(module: &str, name: &str, pos: Pos) -> (r: Request)
    ensures
        r@ == ask_module_var(module@, name@, pos),
{
    let mut r = request_names(Task::ModuleVar, two_names(module, name));
    r.pos = Some(pos);
    r
}

/// The variable of a module by its namespace.
#[verifier::opaque]
pub open spec fn namespaced_var(s: Ev, ans: Seq<Answer>, ns: Seq<char>, name: Seq<char>, pos: Pos) -> Run<
    Val,
> {
    match get(s.uses.user, ns) {
        Some(m) => if private_name(name) {
            fail(
                fault_at("Private members can't be accessed from outside their modules."@, pos),
                s,
            )
        } else {
            match module_var(s, m, name) {
                Some(v) => (Ok(slashless(v)), s),
                None => fail(fault_at("Undefined variable."@, pos), s),
            }
        },
        None => match get(s.uses.builtin, ns) {
            Some(b) => asked_value(s, ans, ask_module_var(b, name, pos)),
            None => fail(fault_at(no_namespace(ns), pos), s),
        },
    }
}

/// The variable that the first of the built-in modules from `i` on that has it gives.
pub open spec fn star_builtin_var(s: Ev, ans: Seq<Answer>, name: Seq<char>, pos: Pos, i: int) -> Run<
    Option<Val>,
>
    decreases s.uses.star_builtin.len() - i,
{
    if i < 0 || i >= s.uses.star_builtin.len() {
        (Ok(None), s)
    } else {
        match next_answer(s, ans, ask_module_var(s.uses.star_builtin[i], name, pos)) {
            (Err(h), s1) => (Err(h), s1),
            (Ok(a), s1) => match a {
                Answer::Value(v) => (Ok(Some(val(v))), s1),
                Answer::Fail(e) => star_builtin_var(s1, ans, name, pos, i + 1),
                _ => (Err(Halt::Mismatch), s1),
            },
        }
    }
}

/// The value of a variable: that of the innermost scope that has it, else that of the one module
/// used without a namespace that has it, else that of a built-in one.
#[verifier::opaque]
pub open spec fn variable(s: Ev, ans: Seq<Answer>, name: Seq<char>, pos: Pos) -> Run<Val> {
    match lookup(s, name) {
        Some(v) => (Ok(slashless(v)), s),
        None => {
            let hits = star_hits(s, name, MemberKind::Variable);
            if hits.len() > 1 {
                fail(
                    fault_at("This variable is available from multiple global modules."@, pos),
                    s,
                )
            } else if hits.len() == 1 {
                match module_var(s, hits[0], name) {
                    Some(v) => (Ok(slashless(v)), s),
                    None => (Err(Halt::Mismatch), s),
                }
            } else {
                match star_builtin_var(s, ans, name, pos, 0) {
                    (Err(h), s1) => (Err(h), s1),
                    (Ok(Some(v)), s1) => (Ok(v), s1),
                    (Ok(None), s1) => fail(
                        Fault {
                            length: caret_width(name),
                            ..fault_at("Undefined variable."@, pos)
                        },
                        s1,
                    ),
                }
            }
        },
    }
}

impl Evaluator {
    fn var_over(&self, m: usize, name: &str, hops: usize) -> (r: Option<Value>)
        ensures
            opt_val(r) == var_in(self@, m, name@, hops as nat),
        decreases hops,
    {
        proof {
            reveal(ev_of);
        }
        if m >= self.modules.len() {
            return None;
        }
        let module = &self.modules[m];
        proof {
            assert(self@.modules[m as int] == module@);
        }
        match seek_origin(&module.var_origins, name) {
            Some((m2, other)) => {
                if hops == 0 {
                    None
                } else {
                    self.var_over(m2, other.as_str(), hops - 1)
                }
            },
            None => {
                let i: usize = module.vars;
                if i < self.frames.len() {
                    seek_var(&self.frames[i], name)
                } else {
                    proof {
                        assert(entry(frame(self@, i), name@) == 0);
                        assert(loose_entry(frame(self@, i), name@) == 0);
                    }
                    None
                }
            },
        }
    }

    /// A variable of a module.
    pub fn module_var(&self, m: usize, name: &str) -> (r: Option<Value>)
        ensures
            opt_val(r) == module_var(self@, m, name@),
    {
        proof {
            reveal(ev_of);
        }
        self.var_over(m, name, self.modules.len())
    }

    fn table_seek(&self, i: usize, name: &str) -> (r: Option<usize>)
        ensures
            r == seek(table(self@, i), name@),
    {
        proof {
            reveal(ev_of);
        }
        if i < self.tables.len() {
            seek_id(&self.tables[i], name)
        } else {
            proof {
                assert(entry(table(self@, i), name@) == 0);
                assert(loose_entry(table(self@, i), name@) == 0);
            }
            None
        }
    }

    /// A function of a module.
    pub fn module_function(&self, m: usize, name: &str) -> (r: Option<usize>)
        ensures
            r == module_function(self@, m, name@),
    {
        proof {
            reveal(ev_of);
        }
        if m < self.modules.len() {
            self.table_seek(self.modules[m].functions, name)
        } else {
            None
        }
    }

    /// A mixin of a module.
    pub fn module_mixin(&self, m: usize, name: &str) -> (r: Option<usize>)
        ensures
            r == module_mixin(self@, m, name@),
    {
        proof {
            reveal(ev_of);
        }
        if m < self.modules.len() {
            self.table_seek(self.modules[m].mixins, name)
        } else {
            None
        }
    }

    /// The module that a function runs in.
    pub fn fn_origin(&self, m: usize, name: &str) -> (r: usize)
        ensures
            r == function_home(self@, m, name@),
    {
        proof {
            reveal(ev_of);
        }
        if m < self.modules.len() {
            match seek_id(&self.modules[m].fn_origins, name) {
                Some(o) => o,
                None => m,
            }
        } else {
            m
        }
    }

    /// The module that a mixin runs in.
    pub fn mixin_origin(&self, m: usize, name: &str) -> (r: usize)
        ensures
            r == mixin_home(self@, m, name@),
    {
        proof {
            reveal(ev_of);
        }
        if m < self.modules.len() {
            match seek_id(&self.modules[m].mixin_origins, name) {
                Some(o) => o,
                None => m,
            }
        } else {
            m
        }
    }

    /// The module and name that an assignment to a variable goes to.
    pub fn var_write_origin(&self, m: usize, name: &str) -> (r: (usize, String))
        ensures
            (r.0, r.1@) == write_target(self@, m, name@),
    {
        proof {
            reveal(ev_of);
        }
        if m < self.modules.len() {
            match seek_origin(&self.modules[m].var_write_origins, name) {
                Some(o) => o,
                None => (m, name.to_owned()),
            }
        } else {
            (m, name.to_owned())
        }
    }

    pub fn has_member(&self, m: usize, name: &str, kind: MemberKind) -> (r: bool)
        ensures
            r == has_member(self@, m, name@, kind),
    {
        match kind {
            MemberKind::Function => self.module_function(m, name).is_some(),
            MemberKind::Mixin => self.module_mixin(m, name).is_some(),
            MemberKind::Variable => self.module_var(m, name).is_some(),
        }
    }

    /// The modules used without a namespace that have the member.
    pub fn star_hits(&self, name: &str, kind: MemberKind) -> (r: Vec<usize>)
        ensures
            r@ == star_hits(self@, name@, kind),
    {
        proof {
            reveal(ev_of);
        }
        let mut out: Vec<usize> = Vec::new();
        if is_private_member(name) {
            return out;
        }
        let ghost all = self.uses.star_user@;
        let mut i: usize = 0;
        proof {
            assert(all.take(0) =~= Seq::empty());
        }
        while i < self.uses.star_user.len()
            invariant
                i <= self.uses.star_user@.len(),
                all == self.uses.star_user@,
                out@ == having(self@, all.take(i as int), name@, kind),
            decreases self.uses.star_user@.len() - i,
        {
            proof {
                reveal(ev_of);
            }
            let m: usize = self.uses.star_user[i];
            proof {
                assert(all.take(i + 1).drop_last() =~= all.take(i as int));
            }
            if self.has_member(m, name, kind) {
                out.push(m);
            }
            i += 1;
        }
        proof {
            assert(all.take(i as int) =~= all);
        }
        out
    }

    /// How many modules used without a namespace have the member.
    pub fn star_member_count(&self, name: &str, kind: MemberKind) -> (r: usize)
        ensures
            r == star_hits(self@, name@, kind).len(),
    {
        self.star_hits(name, kind).len()
    }

    /// The variable of a module by its namespace.
    pub fn eval_module_var(&mut self, ans: &Vec<Answer>, ns: &str, name: &str, pos: Pos) -> (r: Result<
        Value,
        Stop,
    >)
        ensures
            (out_val(r), final(self)@) == namespaced_var(old(self)@, ans@, ns@, name@, pos),
            same_place(old(self)@, final(self)@),
    {
        proof {
            reveal(namespaced_var);
        }
        proof {
            reveal(ev_of);
        }
        if let Some(m) = get_id(&self.uses.user, ns) {
            if is_private_member(name) {
                return Err(
                    stop_at("Private members can't be accessed from outside their modules.", pos),
                );
            }
            return match self.module_var(m, name) {
                Some(v) => Ok(v.without_slash()),
                None => Err(stop_at("Undefined variable.", pos)),
            };
        }
        match get_text(&self.uses.builtin, ns) {
            Some(b) => self.ask_value(ans, request_module_var(b.as_str(), name, pos)),
            None => Err(stop_at(no_namespace_message(ns).as_str(), pos)),
        }
    }

    fn star_builtin(&mut self, ans: &Vec<Answer>, name: &str, pos: Pos) -> (r: Result<Option<Value>, Stop>)
        ensures
            (match r {
                Ok(v) => Ok(opt_val(v)),
                Err(e) => Err(e@),
            }, final(self)@) == star_builtin_var(old(self)@, ans@, name@, pos, 0),
            same_place(old(self)@, final(self)@),
    {
        proof {
            reveal(ev_of);
        }
        let list = clone_strings(&self.uses.star_builtin);
        let ghost goal = star_builtin_var(old(self)@, ans@, name@, pos, 0);
        let mut i: usize = 0;
        while i < list.len()
            invariant
                same_place(old(self)@, self@),
                i <= list@.len(),
                self@.uses.star_builtin == texts(list@),
                goal == star_builtin_var(old(self)@, ans@, name@, pos, 0),
                star_builtin_var(self@, ans@, name@, pos, i as int) == goal,
            decreases list@.len() - i,
        {
            proof {
                reveal(ev_of);
            }
            match self.next(ans, request_module_var(list[i].as_str(), name, pos)) {
                Err(e) => {
                    return Err(e);
                },
                Ok(a) => match a {
                    Answer::Value(v) => {
                        return Ok(Some(copy_value(v)));
                    },
                    Answer::Fail(_) => {},
                    _ => {
                        return Err(Stop::Mismatch);
                    },
                },
            }
            i += 1;
        }
        Ok(None)
    }

    /// The value of a variable.
    pub fn eval_variable(&mut self, ans: &Vec<Answer>, name: &str, pos: Pos) -> (r: Result<Value, Stop>)
        ensures
            (out_val(r), final(self)@) == variable(old(self)@, ans@, name@, pos),
            same_place(old(self)@, final(self)@),
    {
        proof {
            reveal(variable);
        }
        if let Some(v) = self.lookup(name) {
            return Ok(v.without_slash());
        }
        let hits = self.star_hits(name, MemberKind::Variable);
        if hits.len() > 1 {
            return Err(
                stop_at("This variable is available from multiple global modules.", pos),
            );
        }
        if hits.len() == 1 {
            return match self.module_var(hits[0], name) {
                Some(v) => Ok(v.without_slash()),
                None => Err(Stop::Mismatch),
            };
        }
        match self.star_builtin(ans, name, pos) {
            Err(e) => Err(e),
            Ok(Some(v)) => Ok(v),
            Ok(None) => {
                let length: usize = caret_length(name);
                Err(Stop::Error(Error::at("Undefined variable.", pos).with_length(length)))
            },
        }
    }
}

} // verus!
