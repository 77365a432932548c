//! Where files come from.

use std::rc::Rc;
use vstd::prelude::*;
use crate::ast::Stylesheet;
use crate::calls::strip_prefix;
use crate::eval::{Ev, Evaluator, Run, fail, next_answer, same_place};
use crate::host::{
    Answer, Ask, Halt, Request, Source, Stop, Task, ask_names, one_name, request_names, two_names,
};
use crate::options::Syntax;
use crate::sem::unprefixed;
use crate::text::text_of;

verus! {

broadcast use crate::kept::group_kept;

/// The question for a file, from the directory of the file that asks.
pub open spec fn ask_file(task: Task, url: Seq<char>, dir: Option<Seq<char>>) -> Ask {
    ask_names(
        task,
        match dir {
            Some(d) => seq![url, d],
            None => seq![url],
        },
    )
}

/// The file that is asked for, if there is one.
pub open spec fn asked_source(s: Ev, ans: Seq<Answer>, q: Ask) -> Run<Option<Source>> {
    match next_answer(s, ans, q) {
        (Err(h), s1) => (Err(h), s1),
        (Ok(a), s1) => match a {
            Answer::Source(x) => (Ok(Some(x)), s1),
            Answer::Nothing => (Ok(None), s1),
            _ => (Err(Halt::Mismatch), s1),
        },
    }
}

/// The number that stands for a syntax.
pub open spec fn syntax_code(x: Syntax) -> u64 {
    match x {
        Syntax::Scss => 0,
        Syntax::Css => 1,
        Syntax::Sass => 2,
    }
}

/// The question for the syntax tree of a text.
pub open spec fn ask_parse(text: Seq<char>, x: Syntax) -> Ask {
    Ask { numbers: seq![syntax_code(x)], ..ask_names(Task::Parse, seq![text]) }
}

/// The syntax tree that is asked for.
pub open spec fn asked_sheet(s: Ev, ans: Seq<Answer>, q: Ask) -> Run<Stylesheet> {
    match next_answer(s, ans, q) {
        (Err(h), s1) => (Err(h), s1),
        (Ok(a), s1) => match a {
            Answer::Sheet(x) => (Ok(*x), s1),
            Answer::Fail(e) => fail(e@, s1),
            _ => (Err(Halt::Mismatch), s1),
        },
    }
}

/// The name of a built-in module that a URL asks for.
pub open spec fn builtin_url(url: Seq<char>) -> Option<Seq<char>> {
    unprefixed(url, Some("sass:"@))
}

pub fn request_file(task: Task, url: &str, dir: &Option<String>) -> (r: Request)
    ensures
        r@ == ask_file(task, url@, text_of(*dir)),
{
    match dir {
        Some(d) => request_names(task, two_names(url, d.as_str())),
        None => request_names(task, one_name(url)),
    }
}

pub fn request_parse(text: &str, x: Syntax) -> (r: Request)
    ensures
        r@ == ask_parse(text@, x),
{
    let mut q = request_names(Task::Parse, one_name(text));
    let code: u64 = match x {
        Syntax::Scss => 0,
        Syntax::Css => 1,
        Syntax::Sass => 2,
    };
    q.numbers.push(code);
    proof {
        assert(q@.numbers =~= seq![syntax_code(x)]);
    }
    q
}

pub fn builtin_name(url: &str) -> (r: Option<String>)
    ensures
        text_of(r) == builtin_url(url@),
{
    let prefix = Some("sass:".to_owned());
    strip_prefix(url, &prefix)
}

impl Evaluator {
    pub fn ask_source<'a>(&mut self, ans: &'a Vec<Answer>, q: Request) -> (r: Result<
        Option<&'a Source>,
        Stop,
    >)
        ensures
            (match r {
                Ok(Some(x)) => Ok(Some(*x)),
                Ok(None) => Ok(None),
                Err(e) => Err(e@),
            }, final(self)@) == asked_source(old(self)@, ans@, q@),
            same_place(old(self)@, final(self)@),
    {
        match self.next(ans, q) {
            Err(x) => Err(x),
            Ok(Answer::Source(x)) => Ok(Some(x)),
            Ok(Answer::Nothing) => Ok(None),
            Ok(_) => Err(Stop::Mismatch),
        }
    }

    pub fn ask_sheet(&mut self, ans: &Vec<Answer>, q: Request) -> (r: Result<Rc<Stylesheet>, Stop>)
        ensures
            (match r {
                Ok(x) => Ok(*x),
                Err(e) => Err(e@),
            }, final(self)@) == asked_sheet(old(self)@, ans@, q@),
            same_place(old(self)@, final(self)@),
    {
        match self.next(ans, q) {
            Err(x) => Err(x),
            Ok(Answer::Sheet(x)) => Ok(x.clone()),
            Ok(Answer::Fail(e)) => Err(Stop::Error(e.copy())),
            Ok(_) => Err(Stop::Mismatch),
        }
    }
}

} // verus!
