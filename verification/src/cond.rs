//! What is left of the conditions of a CSS `if()` once the parts that Sass decides are folded away.

use vstd::prelude::*;
use crate::text::{append_str, chars_of, is_ws, join, joined, string_of, texts, whitespace};

verus! {

/// A condition that only the browser can decide.
#[derive(Debug)]
pub enum RCond {
    Css(String),
    Not(Box<RCond>),
    And(Vec<RCond>),
    Or(Vec<RCond>),
    Paren(Box<RCond>),
}

/// What a [`RCond`] is.
pub ghost enum Rest {
    Css(Seq<char>),
    Not(Box<Rest>),
    And(Seq<Rest>),
    Or(Seq<Rest>),
    Paren(Box<Rest>),
}

pub open spec fn rest(c: RCond) -> Rest
    decreases c,
{
    match c {
        RCond::Css(s) => Rest::Css(s@),
        RCond::Not(i) => Rest::Not(Box::new(rest(*i))),
        RCond::And(v) => Rest::And(rests(v@)),
        RCond::Or(v) => Rest::Or(rests(v@)),
        RCond::Paren(i) => Rest::Paren(Box::new(rest(*i))),
    }
}

pub open spec fn rests(s: Seq<RCond>) -> Seq<Rest>
    decreases s,
{
    Seq::new(
        s.len(),
        |i: int|
            if 0 <= i < s.len() {
                rest(s[i])
            } else {
                arbitrary()
            },
    )
}

/// The outcome of a condition: decided, or left over.
#[derive(Debug)]
pub enum CondEval {
    Bool(bool),
    Css(RCond),
}

/// What a [`CondEval`] is.
pub ghost enum Outcome {
    Bool(bool),
    Css(Rest),
}

pub open spec fn outcome(c: CondEval) -> Outcome {
    match c {
        CondEval::Bool(b) => Outcome::Bool(b),
        CondEval::Css(r) => Outcome::Css(rest(r)),
    }
}

/// The text of a condition.
pub open spec fn rest_text(c: Rest) -> Seq<char>
    decreases c,
{
    match c {
        Rest::Css(s) => s,
        Rest::Not(i) => "not "@ + rest_text(*i),
        Rest::And(v) => joined(rest_texts(v), " and "@),
        Rest::Or(v) => joined(rest_texts(v), " or "@),
        Rest::Paren(i) => seq!['('] + rest_text(*i) + seq![')'],
    }
}

pub open spec fn rest_texts(s: Seq<Rest>) -> Seq<Seq<char>>
    decreases s,
{
    Seq::new(
        s.len(),
        |i: int|
            if 0 <= i < s.len() {
                rest_text(s[i])
            } else {
                arbitrary()
            },
    )
}

impl RCond {
    /// The text of this condition.
    pub fn to_css(&self) -> (r: String)
        ensures
            r@ == rest_text(rest(*self)),
        decreases self,
    {
        match self {
            RCond::Css(s) => s.clone(),
            RCond::Not(i) => {
                let mut t = chars_of("not ");
                append_str(&mut t, i.to_css().as_str());
                string_of(t.as_slice())
            },
            RCond::And(v) => {
                let parts = RCond::texts_of(v);
                string_of(join(&parts, " and ").as_slice())
            },
            RCond::Or(v) => {
                let parts = RCond::texts_of(v);
                string_of(join(&parts, " or ").as_slice())
            },
            RCond::Paren(i) => {
                let inner = i.to_css();
                let mut t: Vec<char> = Vec::new();
                t.push('(');
                append_str(&mut t, inner.as_str());
                t.push(')');
                proof {
                    assert(t@ =~= seq!['('] + inner@ + seq![')']);
                }
                string_of(t.as_slice())
            },
        }
    }

    fn texts_of(v: &Vec<RCond>) -> (r: Vec<String>)
        ensures
            texts(r@) == rest_texts(rests(v@)),
        decreases v@,
    {
        let ghost all = rest_texts(rests(v@));
        let mut out: Vec<String> = Vec::new();
        let mut i: usize = 0;
        while i < v.len()
            invariant
                i <= v@.len(),
                all == rest_texts(rests(v@)),
                texts(out@) =~= all.take(i as int),
            decreases v@.len() - i,
        {
            let ghost before = texts(out@);
            let t = v[i].to_css();
            out.push(t);
            i += 1;
            proof {
                assert(rests(v@)[i - 1] == rest(v@[i - 1]));
                assert(texts(out@) =~= before.push(all[i - 1]));
                assert(all.take(i as int) =~= all.take(i - 1).push(all[i - 1]));
            }
        }
        proof {
            assert(all.take(i as int) =~= all);
        }
        out
    }
}

/// What an `and`, or an `or`, comes to when the operands that were decided are gone: decided if
/// none is left, the one that is left without parentheses round it, or the operation.
pub open spec fn combined(left: Seq<Rest>, and: bool) -> Outcome {
    if left.len() == 0 {
        Outcome::Bool(and)
    } else if left.len() == 1 {
        Outcome::Css(
            match left[0] {
                Rest::Paren(i) => *i,
                other => other,
            },
        )
    } else if and {
        Outcome::Css(Rest::And(left))
    } else {
        Outcome::Css(Rest::Or(left))
    }
}

pub fn combine_residuals(residuals: Vec<RCond>, is_and: bool) -> (r: CondEval)
    ensures
        outcome(r) == combined(rests(residuals@), is_and),
{
    let mut residuals = residuals;
    if residuals.len() == 0 {
        return CondEval::Bool(is_and);
    }
    if residuals.len() == 1 {
        proof {
            assert(rests(residuals@)[0] == rest(residuals@[0]));
        }
        return match residuals.pop() {
            Some(RCond::Paren(inner)) => CondEval::Css(*inner),
            Some(other) => CondEval::Css(other),
            None => CondEval::Bool(is_and),
        };
    }
    if is_and {
        CondEval::Css(RCond::And(residuals))
    } else {
        CondEval::Css(RCond::Or(residuals))
    }
}

// ---- raw conditions ------------------------------------------------------

/// `out`, and then `s` from `i` on with each run of white space made one space, but none at the
/// start, at the end or before `)`. `gap` says that white space was just passed.
pub open spec fn squeezed(s: Seq<char>, i: int, out: Seq<char>, gap: bool) -> Seq<char>
    decreases s.len() - i,
{
    if i < 0 || i >= s.len() {
        out
    } else if is_ws(s[i]) {
        squeezed(s, i + 1, out, true)
    } else if gap && out.len() > 0 && s[i] != ')' {
        squeezed(s, i + 1, out.push(' ').push(s[i]), false)
    } else {
        squeezed(s, i + 1, out.push(s[i]), false)
    }
}

/// `s` without the space after each `(`.
pub open spec fn hugged(s: Seq<char>, i: int) -> Seq<char>
    decreases s.len() - i,
{
    if i < 0 || i >= s.len() {
        Seq::empty()
    } else if s[i] == '(' && i + 1 < s.len() && s[i + 1] == ' ' {
        seq!['('] + hugged(s, i + 2)
    } else {
        seq![s[i]] + hugged(s, i + 1)
    }
}

/// The text of a condition that is written as it is.
pub open spec fn raw_condition(s: Seq<char>) -> Seq<char> {
    hugged(squeezed(s, 0, Seq::empty(), false), 0)
}

pub fn collapse_condition(text: &str) -> (r: String)
    ensures
        r@ == raw_condition(text@),
{
    let s = chars_of(text);
    let mut tidy: Vec<char> = Vec::new();
    let mut gap: bool = false;
    let mut i: usize = 0;
    while i < s.len()
        invariant
            i <= s@.len(),
            squeezed(s@, i as int, tidy@, gap) == squeezed(s@, 0, Seq::empty(), false),
        decreases s@.len() - i,
    {
        let c = s[i];
        if whitespace(c) {
            gap = true;
        } else {
            if gap && tidy.len() > 0 && c != ')' {
                tidy.push(' ');
            }
            gap = false;
            tidy.push(c);
        }
        i += 1;
    }
    let mut out: Vec<char> = Vec::new();
    let mut k: usize = 0;
    let n: usize = tidy.len();
    proof {
        assert(out@ + hugged(tidy@, 0) =~= hugged(tidy@, 0));
    }
    while k < n
        invariant
            n == tidy@.len(),
            k <= n,
            out@ + hugged(tidy@, k as int) == hugged(tidy@, 0),
        decreases n - k,
    {
        let ghost before = out@;
        let c = tidy[k];
        out.push(c);
        let j: usize = if c == '(' && k < n - 1 && tidy[k + 1] == ' ' { k + 2 } else { k + 1 };
        proof {
            assert(before.push(c) + hugged(tidy@, j as int) =~= before + (seq![c] + hugged(
                tidy@,
                j as int,
            )));
        }
        k = j;
    }
    proof {
        assert(out@ + Seq::<char>::empty() =~= out@);
    }
    string_of(out.as_slice())
}

// ---- laws ----------------------------------------------------------------

/// An `and` of decided operands that are all true is true, an `or` of such that are all false is
/// false; and one operand that is left stands for the whole.
pub proof fn decided_operands_vanish(c: Rest)
    requires
        !(c is Paren),
    ensures
        combined(Seq::empty(), true) == Outcome::Bool(true),
        combined(Seq::empty(), false) == Outcome::Bool(false),
        combined(seq![c], true) == Outcome::Css(c),
        combined(seq![c], false) == Outcome::Css(c),
{
}

} // verus!
