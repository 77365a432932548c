//! The texts of `@media` queries, `@supports` conditions and CSS imports.

use vstd::prelude::*;
use crate::analysis::{media_query_has_interp, query_interpolated};
use crate::ast::{
    Conjunction, Expr, ImportModifier, MediaFeature, MediaInParens, MediaQuery, MediaQueryList,
    SupportsCondition, SupportsValue, TplPiece,
};
use crate::error::fault;
use crate::eval::{
    Ev, Evaluator, Run, asked_text, ev_of, fail, out_text, plain_css, same_place, styled_css,
};
use crate::expr::{empty_strings, out_texts, push_string};
use crate::host::{Answer, Halt, Stop, Task, ask_value, request_value};
use crate::media::{
    Query, ResolvedQuery, all_rendered, css_media_parse_list, parsed_queries, queries,
    serialize_media_queries,
};
use crate::names::{unfolded, unquoted_string_css};
use crate::semantics::{eval, template};
use crate::text::{
    append_str, cat2, cat3, cat5, chars_of, join, joined, string_of, texts, trim, trimmed,
};

verus! {

broadcast use crate::kept::group_kept;

// ---- expressions as text -------------------------------------------------

/// The text of an expression in interpolation.
pub open spec fn interp_text(s: Ev, ans: Seq<Answer>, e: Expr, fuel: nat) -> Run<Seq<char>> {
    match eval(s, ans, e, fuel) {
        (Err(h), s1) => (Err(h), s1),
        (Ok(v), s1) => asked_text(s1, ans, ask_value(Task::Interp, v)),
    }
}

/// The text of an expression in the style of the output.
pub open spec fn css_text(s: Ev, ans: Seq<Answer>, e: Expr, fuel: nat) -> Run<Seq<char>> {
    match eval(s, ans, e, fuel) {
        (Err(h), s1) => (Err(h), s1),
        (Ok(v), s1) => styled_css(s1, ans, v),
    }
}

/// The text of an expression, never compressed.
pub open spec fn wide_text(s: Ev, ans: Seq<Answer>, e: Expr, fuel: nat) -> Run<Seq<char>> {
    match eval(s, ans, e, fuel) {
        (Err(h), s1) => (Err(h), s1),
        (Ok(v), s1) => plain_css(s1, ans, v),
    }
}

/// The text of a whole template.
pub open spec fn whole_template(s: Ev, ans: Seq<Answer>, pieces: Seq<TplPiece>, fuel: nat) -> Run<Seq<char>> {
    template(s, ans, pieces, 0, Seq::empty(), fuel)
}

/// The text of a template without white space round it.
pub open spec fn trimmed_template(s: Ev, ans: Seq<Answer>, pieces: Seq<TplPiece>, fuel: nat) -> Run<Seq<char>> {
    match whole_template(s, ans, pieces, fuel) {
        (Err(h), s1) => (Err(h), s1),
        (Ok(t), s1) => (Ok(trimmed(t)), s1),
    }
}

impl Evaluator {
    pub fn interp_text(&mut self, ans: &Vec<Answer>, e: &Expr, fuel: usize) -> (r: Result<String, Stop>)
        ensures
            (out_text(r), final(self)@) == interp_text(old(self)@, ans@, *e, fuel as nat),
            same_place(old(self)@, final(self)@),
    {
        match self.eval_expr(ans, e, fuel) {
            Err(x) => Err(x),
            Ok(v) => self.ask_text(ans, request_value(Task::Interp, &v)),
        }
    }

    pub fn css_text(&mut self, ans: &Vec<Answer>, e: &Expr, fuel: usize) -> (r: Result<String, Stop>)
        ensures
            (out_text(r), final(self)@) == css_text(old(self)@, ans@, *e, fuel as nat),
            same_place(old(self)@, final(self)@),
    {
        match self.eval_expr(ans, e, fuel) {
            Err(x) => Err(x),
            Ok(v) => self.styled_css(ans, &v),
        }
    }

    pub fn wide_text(&mut self, ans: &Vec<Answer>, e: &Expr, fuel: usize) -> (r: Result<String, Stop>)
        ensures
            (out_text(r), final(self)@) == wide_text(old(self)@, ans@, *e, fuel as nat),
            same_place(old(self)@, final(self)@),
    {
        match self.eval_expr(ans, e, fuel) {
            Err(x) => Err(x),
            Ok(v) => self.plain_css(ans, &v),
        }
    }

    pub fn trimmed_template(&mut self, ans: &Vec<Answer>, pieces: &Vec<TplPiece>, fuel: usize) -> (r: Result<
        String,
        Stop,
    >)
        ensures
            (out_text(r), final(self)@) == trimmed_template(old(self)@, ans@, pieces@, fuel as nat),
            same_place(old(self)@, final(self)@),
    {
        match self.eval_template(ans, pieces, fuel) {
            Err(x) => Err(x),
            Ok(t) => {
                let chars = chars_of(t.as_str());
                Ok(string_of(trim(chars.as_slice())))
            },
        }
    }
}

// ---- media queries -------------------------------------------------------

/// The text of a media feature.
#[verifier::opaque]
pub open spec fn feature_text(s: Ev, ans: Seq<Answer>, f: MediaFeature, fuel: nat) -> Run<Seq<char>> {
    match f {
        MediaFeature::Decl { name, value } => match interp_text(s, ans, name, fuel) {
            (Err(h), s1) => (Err(h), s1),
            (Ok(n), s1) => match value {
                None => (Ok(n), s1),
                Some(v) => match interp_text(s1, ans, v, fuel) {
                    (Err(h), s2) => (Err(h), s2),
                    (Ok(t), s2) => (Ok(n + ": "@ + t), s2),
                },
            },
        },
        MediaFeature::Range { first, op1, second, rest } => match css_text(s, ans, first, fuel) {
            (Err(h), s1) => (Err(h), s1),
            (Ok(a), s1) => match css_text(s1, ans, second, fuel) {
                (Err(h), s2) => (Err(h), s2),
                (Ok(b), s2) => {
                    let ab = a + " "@ + op1@ + " "@ + b;
                    match rest {
                        None => (Ok(ab), s2),
                        Some(r) => match css_text(s2, ans, r.1, fuel) {
                            (Err(h), s3) => (Err(h), s3),
                            (Ok(c), s3) => (Ok(ab + " "@ + r.0@ + " "@ + c), s3),
                        },
                    }
                },
            },
        },
    }
}

/// The text of a condition.
pub open spec fn condition_text(s: Ev, ans: Seq<Answer>, c: MediaInParens, fuel: nat) -> Run<Seq<char>>
    decreases c, 0int,
{
    match c {
        MediaInParens::Feature(f) => match feature_text(s, ans, *f, fuel) {
            (Err(h), s1) => (Err(h), s1),
            (Ok(t), s1) => (Ok("("@ + t + ")"@), s1),
        },
        MediaInParens::Not(inner) => match condition_text(s, ans, *inner, fuel) {
            (Err(h), s1) => (Err(h), s1),
            (Ok(t), s1) => (Ok("not "@ + t), s1),
        },
        MediaInParens::Group { conditions, conjunction } => match condition_texts(
            s,
            ans,
            conditions@,
            0,
            Seq::empty(),
            fuel,
        ) {
            (Err(h), s1) => (Err(h), s1),
            (Ok(parts), s1) => (
                Ok(
                    "("@ + joined(
                        parts,
                        if conjunction == Conjunction::And {
                            " and "@
                        } else {
                            " or "@
                        },
                    ) + ")"@,
                ),
                s1,
            ),
        },
        MediaInParens::Interp(e) => interp_text(s, ans, e, fuel),
    }
}

/// The texts of conditions, from `i` on, after `acc`.
pub open spec fn condition_texts(
    s: Ev,
    ans: Seq<Answer>,
    cs: Seq<MediaInParens>,
    i: int,
    acc: Seq<Seq<char>>,
    fuel: nat,
) -> Run<Seq<Seq<char>>>
    decreases cs, cs.len() - i,
{
    if i < 0 || i >= cs.len() {
        (Ok(acc), s)
    } else {
        match condition_text(s, ans, cs[i], fuel) {
            (Err(h), s1) => (Err(h), s1),
            (Ok(t), s1) => condition_texts(s1, ans, cs, i + 1, acc.push(t), fuel),
        }
    }
}

/// A query with its expressions evaluated.
#[verifier::opaque]
pub open spec fn query_of(s: Ev, ans: Seq<Answer>, q: MediaQuery, fuel: nat) -> Run<Query> {
    match q {
        MediaQuery::Type { modifier, mtype, conditions } => match whole_template(s, ans, mtype@, fuel) {
            (Err(h), s1) => (Err(h), s1),
            (Ok(t), s1) => {
                let m: Run<Option<Seq<char>>> = match modifier {
                    None => (Ok(None), s1),
                    Some(p) => match whole_template(s1, ans, p@, fuel) {
                        (Err(h), s2) => (Err(h), s2),
                        (Ok(x), s2) => (Ok(Some(x)), s2),
                    },
                };
                match m {
                    (Err(h), s2) => (Err(h), s2),
                    (Ok(m), s2) => match condition_texts(s2, ans, conditions@, 0, Seq::empty(), fuel) {
                        (Err(h), s3) => (Err(h), s3),
                        (Ok(cs), s3) => (
                            Ok(
                                Query {
                                    modifier: m,
                                    mtype: Some(t),
                                    conditions: cs,
                                    conjunction_and: true,
                                },
                            ),
                            s3,
                        ),
                    },
                }
            },
        },
        MediaQuery::Condition { conditions, conjunction } => match condition_texts(
            s,
            ans,
            conditions@,
            0,
            Seq::empty(),
            fuel,
        ) {
            (Err(h), s1) => (Err(h), s1),
            (Ok(cs), s1) => (
                Ok(
                    Query {
                        modifier: None,
                        mtype: None,
                        conditions: cs,
                        conjunction_and: conjunction == Conjunction::And,
                    },
                ),
                s1,
            ),
        },
    }
}

/// Queries with their expressions evaluated, from `i` on, after `acc`.
pub open spec fn queries_of(
    s: Ev,
    ans: Seq<Answer>,
    qs: Seq<MediaQuery>,
    i: int,
    acc: Seq<Query>,
    fuel: nat,
) -> Run<Seq<Query>>
    decreases qs.len() - i,
{
    if i < 0 || i >= qs.len() {
        (Ok(acc), s)
    } else {
        match query_of(s, ans, qs[i], fuel) {
            (Err(h), s1) => (Err(h), s1),
            (Ok(q), s1) => queries_of(s1, ans, qs, i + 1, acc.push(q), fuel),
        }
    }
}

pub open spec fn any_interpolated(qs: Seq<MediaQuery>) -> bool {
    exists|k: int| 0 <= k < qs.len() && query_interpolated(#[trigger] qs[k])
}

/// The queries that a list comes to. Where it holds interpolation, its text is read again: the
/// interpolation may hold several queries.
#[verifier::opaque]
pub open spec fn resolved_queries(s: Ev, ans: Seq<Answer>, list: MediaQueryList, fuel: nat) -> Run<Seq<Query>> {
    match queries_of(s, ans, list.queries@, 0, Seq::empty(), fuel) {
        (Err(h), s1) => (Err(h), s1),
        (Ok(qs), s1) => if any_interpolated(list.queries@) {
            match parsed_queries(joined(all_rendered(qs), ", "@)) {
                Ok(l) => (Ok(l), s1),
                Err(m) => fail(fault(m), s1),
            }
        } else {
            (Ok(qs), s1)
        },
    }
}

pub open spec fn out_query(r: Result<ResolvedQuery, Stop>) -> Result<Query, Halt> {
    match r {
        Ok(q) => Ok(q@),
        Err(e) => Err(e@),
    }
}

pub open spec fn out_queries(r: Result<Vec<ResolvedQuery>, Stop>) -> Result<Seq<Query>, Halt> {
    match r {
        Ok(q) => Ok(queries(q@)),
        Err(e) => Err(e@),
    }
}

fn holds_interpolated(qs: &Vec<MediaQuery>) -> (r: bool)
    ensures
        r == any_interpolated(qs@),
{
    let mut i: usize = 0;
    while i < qs.len()
        invariant
            i <= qs@.len(),
            forall|k: int| 0 <= k < i ==> !query_interpolated(#[trigger] qs@[k]),
        decreases qs@.len() - i,
    {
        if media_query_has_interp(&qs[i]) {
            return true;
        }
        i += 1;
    }
    false
}

impl Evaluator {
    fn serialize_media_feature(&mut self, ans: &Vec<Answer>, f: &MediaFeature, fuel: usize) -> (r: Result<
        String,
        Stop,
    >)
        ensures
            (out_text(r), final(self)@) == feature_text(old(self)@, ans@, *f, fuel as nat),
            same_place(old(self)@, final(self)@),
    {
        proof {
            reveal(feature_text);
        }
        match f {
            MediaFeature::Decl { name, value } => match self.interp_text(ans, name, fuel) {
                Err(x) => Err(x),
                Ok(n) => match value {
                    None => Ok(n),
                    Some(v) => match self.interp_text(ans, v, fuel) {
                        Err(x) => Err(x),
                        Ok(t) => Ok(cat3(n.as_str(), ": ", t.as_str())),
                    },
                },
            },
            MediaFeature::Range { first, op1, second, rest } => {
                let a = match self.css_text(ans, first, fuel) {
                    Ok(t) => t,
                    Err(x) => {
                        return Err(x);
                    },
                };
                let b = match self.css_text(ans, second, fuel) {
                    Ok(t) => t,
                    Err(x) => {
                        return Err(x);
                    },
                };
                let ab = cat5(a.as_str(), " ", op1.as_str(), " ", b.as_str());
                match rest {
                    None => Ok(ab),
                    Some(r) => match self.css_text(ans, &r.1, fuel) {
                        Err(x) => Err(x),
                        Ok(c) => Ok(cat5(ab.as_str(), " ", r.0.as_str(), " ", c.as_str())),
                    },
                }
            },
        }
    }

    fn serialize_media_in_parens(&mut self, ans: &Vec<Answer>, c: &MediaInParens, fuel: usize) -> (r: Result<
        String,
        Stop,
    >)
        ensures
            (out_text(r), final(self)@) == condition_text(old(self)@, ans@, *c, fuel as nat),
            same_place(old(self)@, final(self)@),
        decreases c, 0int,
    {
        match c {
            MediaInParens::Feature(f) => match self.serialize_media_feature(ans, f, fuel) {
                Err(x) => Err(x),
                Ok(t) => Ok(cat3("(", t.as_str(), ")")),
            },
            MediaInParens::Not(inner) => match self.serialize_media_in_parens(ans, inner, fuel) {
                Err(x) => Err(x),
                Ok(t) => Ok(cat2("not ", t.as_str())),
            },
            MediaInParens::Group { conditions, conjunction } => match self.resolve_conditions(
                ans,
                conditions,
                fuel,
            ) {
                Err(x) => Err(x),
                Ok(parts) => {
                    let sep = if *conjunction == Conjunction::And {
                        " and "
                    } else {
                        " or "
                    };
                    let mid = string_of(join(&parts, sep).as_slice());
                    Ok(cat3("(", mid.as_str(), ")"))
                },
            },
            MediaInParens::Interp(e) => self.interp_text(ans, e, fuel),
        }
    }

    fn resolve_conditions(&mut self, ans: &Vec<Answer>, cs: &Vec<MediaInParens>, fuel: usize) -> (r: Result<
        Vec<String>,
        Stop,
    >)
        ensures
            (out_texts(r), final(self)@) == condition_texts(
                old(self)@,
                ans@,
                cs@,
                0,
                Seq::empty(),
                fuel as nat,
            ),
            same_place(old(self)@, final(self)@),
        decreases cs@, cs@.len(),
    {
        let ghost goal = condition_texts(old(self)@, ans@, cs@, 0, Seq::empty(), fuel as nat);
        let mut acc = empty_strings();
        let mut i: usize = 0;
        while i < cs.len()
            invariant
                same_place(old(self)@, self@),
                i <= cs@.len(),
                goal == condition_texts(old(self)@, ans@, cs@, 0, Seq::empty(), fuel as nat),
                condition_texts(self@, ans@, cs@, i as int, texts(acc@), fuel as nat) == goal,
            decreases cs@.len() - i,
        {
            match self.serialize_media_in_parens(ans, &cs[i], fuel) {
                Ok(t) => {
                    push_string(&mut acc, t);
                },
                Err(x) => {
                    return Err(x);
                },
            }
            i += 1;
        }
        Ok(acc)
    }

    fn resolve_media_query(&mut self, ans: &Vec<Answer>, q: &MediaQuery, fuel: usize) -> (r: Result<
        ResolvedQuery,
        Stop,
    >)
        ensures
            (out_query(r), final(self)@) == query_of(old(self)@, ans@, *q, fuel as nat),
            same_place(old(self)@, final(self)@),
    {
        proof {
            reveal(query_of);
        }
        match q {
            MediaQuery::Type { modifier, mtype, conditions } => {
                let t = match self.eval_template(ans, mtype, fuel) {
                    Ok(t) => t,
                    Err(x) => {
                        return Err(x);
                    },
                };
                let m = match modifier {
                    None => None,
                    Some(p) => match self.eval_template(ans, p, fuel) {
                        Ok(x) => Some(x),
                        Err(x) => {
                            return Err(x);
                        },
                    },
                };
                match self.resolve_conditions(ans, conditions, fuel) {
                    Err(x) => Err(x),
                    Ok(conditions) => Ok(
                        ResolvedQuery { modifier: m, mtype: Some(t), conditions, conjunction_and: true },
                    ),
                }
            },
            MediaQuery::Condition { conditions, conjunction } => match self.resolve_conditions(
                ans,
                conditions,
                fuel,
            ) {
                Err(x) => Err(x),
                Ok(conditions) => Ok(
                    ResolvedQuery {
                        modifier: None,
                        mtype: None,
                        conditions,
                        conjunction_and: *conjunction == Conjunction::And,
                    },
                ),
            },
        }
    }

    /// The queries of a `@media` rule.
    pub fn resolve_media_queries(&mut self, ans: &Vec<Answer>, list: &MediaQueryList, fuel: usize) -> (r: Result<
        Vec<ResolvedQuery>,
        Stop,
    >)
        ensures
            (out_queries(r), final(self)@) == resolved_queries(old(self)@, ans@, *list, fuel as nat),
            same_place(old(self)@, final(self)@),
    {
        proof {
            reveal(resolved_queries);
        }
        let ghost goal = queries_of(old(self)@, ans@, list.queries@, 0, Seq::empty(), fuel as nat);
        let mut acc: Vec<ResolvedQuery> = Vec::new();
        let mut i: usize = 0;
        proof {
            assert(queries(acc@) =~= Seq::empty());
        }
        while i < list.queries.len()
            invariant
                same_place(old(self)@, self@),
                i <= list.queries@.len(),
                goal == queries_of(old(self)@, ans@, list.queries@, 0, Seq::empty(), fuel as nat),
                queries_of(self@, ans@, list.queries@, i as int, queries(acc@), fuel as nat) == goal,
            decreases list.queries@.len() - i,
        {
            proof {
                reveal(resolved_queries);
            }
            match self.resolve_media_query(ans, &list.queries[i], fuel) {
                Ok(q) => {
                    let ghost before = queries(acc@);
                    let ghost qv = q@;
                    acc.push(q);
                    proof {
                        assert(queries(acc@) =~= before.push(qv));
                    }
                },
                Err(x) => {
                    return Err(x);
                },
            }
            i += 1;
        }
        if holds_interpolated(&list.queries) {
            let text = serialize_media_queries(&acc);
            return match css_media_parse_list(text.as_str()) {
                Ok(l) => Ok(l),
                Err(e) => Err(Stop::Error(e)),
            };
        }
        Ok(acc)
    }
}

// ---- supports conditions -------------------------------------------------

/// Whether a condition inside another is put in parentheses.
pub open spec fn condition_parens(c: SupportsCondition, outer: Option<Conjunction>) -> bool {
    match c {
        SupportsCondition::Negation(_) => true,
        SupportsCondition::Operation { left, right, op } => outer != Some(op),
        _ => false,
    }
}

pub open spec fn parened(t: Seq<char>, yes: bool) -> Seq<char> {
    if yes {
        "("@ + t + ")"@
    } else {
        t
    }
}

/// The two sides of a declaration in a condition.
#[verifier::opaque]
pub open spec fn supports_sides(s: Ev, ans: Seq<Answer>, name: Expr, value: SupportsValue, fuel: nat) -> Run<
    (Seq<char>, Seq<char>),
> {
    match css_text(s, ans, name, fuel) {
        (Err(h), s1) => (Err(h), s1),
        (Ok(n), s1) => match value {
            SupportsValue::Expr(e) => match css_text(s1, ans, e, fuel) {
                (Err(h), s2) => (Err(h), s2),
                (Ok(v), s2) => (Ok((n, v)), s2),
            },
            SupportsValue::Raw(t) => match whole_template(s1, ans, t@, fuel) {
                (Err(h), s2) => (Err(h), s2),
                (Ok(v), s2) => (Ok((n, unfolded(v, 0, false))), s2),
            },
        },
    }
}

/// The text of a `@supports` condition.
pub open spec fn supports_text(s: Ev, ans: Seq<Answer>, c: SupportsCondition, fuel: nat) -> Run<Seq<char>>
    decreases c,
{
    match c {
        SupportsCondition::Operation { left, right, op } => match supports_text(s, ans, *left, fuel) {
            (Err(h), s1) => (Err(h), s1),
            (Ok(l), s1) => match supports_text(s1, ans, *right, fuel) {
                (Err(h), s2) => (Err(h), s2),
                (Ok(r), s2) => (
                    Ok(
                        parened(l, condition_parens(*left, Some(op))) + (if op == Conjunction::And {
                            " and "@
                        } else {
                            " or "@
                        }) + parened(r, condition_parens(*right, Some(op))),
                    ),
                    s2,
                ),
            },
        },
        SupportsCondition::Negation(inner) => match supports_text(s, ans, *inner, fuel) {
            (Err(h), s1) => (Err(h), s1),
            (Ok(t), s1) => (Ok("not "@ + parened(t, condition_parens(*inner, None))), s1),
        },
        SupportsCondition::Interpolation(e) => interp_text(s, ans, e, fuel),
        SupportsCondition::Declaration { name, value, custom } => {
            let r = supports_sides(Ev { supports: true, ..s }, ans, name, *value, fuel);
            let s1 = Ev { supports: s.supports, ..r.1 };
            match r.0 {
                Err(h) => (Err(h), s1),
                Ok((n, v)) => (
                    Ok(
                        "("@ + n + (if custom {
                            ":"@
                        } else {
                            ": "@
                        }) + v + ")"@,
                    ),
                    s1,
                ),
            }
        },
        SupportsCondition::Function { name, arguments } => match whole_template(s, ans, name@, fuel) {
            (Err(h), s1) => (Err(h), s1),
            (Ok(n), s1) => match whole_template(s1, ans, arguments@, fuel) {
                (Err(h), s2) => (Err(h), s2),
                (Ok(a), s2) => (Ok(n + "("@ + a + ")"@), s2),
            },
        },
        SupportsCondition::Anything(contents) => match whole_template(s, ans, contents@, fuel) {
            (Err(h), s1) => (Err(h), s1),
            (Ok(t), s1) => (Ok("("@ + t + ")"@), s1),
        },
    }
}

fn needs_condition_parens(c: &SupportsCondition, outer: Option<Conjunction>) -> (r: bool)
    ensures
        r == condition_parens(*c, outer),
{
    match c {
        SupportsCondition::Negation(_) => true,
        SupportsCondition::Operation { op, .. } => match outer {
            None => true,
            Some(o) => o != *op,
        },
        _ => false,
    }
}

fn put_parens(t: String, yes: bool) -> (r: String)
    ensures
        r@ == parened(t@, yes),
{
    if yes {
        cat3("(", t.as_str(), ")")
    } else {
        t
    }
}

impl Evaluator {
    fn supports_sides(&mut self, ans: &Vec<Answer>, name: &Expr, value: &SupportsValue, fuel: usize) -> (r: Result<
        (String, String),
        Stop,
    >)
        ensures
            (match r {
                Ok(t) => Ok((t.0@, t.1@)),
                Err(e) => Err(e@),
            }, final(self)@) == supports_sides(old(self)@, ans@, *name, *value, fuel as nat),
            same_place(old(self)@, final(self)@),
    {
        proof {
            reveal(supports_sides);
        }
        let n = match self.css_text(ans, name, fuel) {
            Ok(t) => t,
            Err(x) => {
                return Err(x);
            },
        };
        match value {
            SupportsValue::Expr(e) => match self.css_text(ans, e, fuel) {
                Err(x) => Err(x),
                Ok(v) => Ok((n, v)),
            },
            SupportsValue::Raw(t) => match self.eval_template(ans, t, fuel) {
                Err(x) => Err(x),
                Ok(v) => Ok((n, unquoted_string_css(v.as_str()))),
            },
        }
    }

    /// The text of a `@supports` condition.
    pub fn serialize_supports_condition(&mut self, ans: &Vec<Answer>, c: &SupportsCondition, fuel: usize) -> (r: Result<
        String,
        Stop,
    >)
        ensures
            (out_text(r), final(self)@) == supports_text(old(self)@, ans@, *c, fuel as nat),
            same_place(old(self)@, final(self)@),
        decreases c,
    {
        proof {
            reveal(ev_of);
        }
        match c {
            SupportsCondition::Operation { left, right, op } => {
                let l = match self.serialize_supports_condition(ans, left, fuel) {
                    Ok(t) => t,
                    Err(x) => {
                        return Err(x);
                    },
                };
                let r = match self.serialize_supports_condition(ans, right, fuel) {
                    Ok(t) => t,
                    Err(x) => {
                        return Err(x);
                    },
                };
                let l = put_parens(l, needs_condition_parens(left, Some(*op)));
                let r = put_parens(r, needs_condition_parens(right, Some(*op)));
                let mid = if *op == Conjunction::And {
                    " and "
                } else {
                    " or "
                };
                Ok(cat3(l.as_str(), mid, r.as_str()))
            },
            SupportsCondition::Negation(inner) => match self.serialize_supports_condition(
                ans,
                inner,
                fuel,
            ) {
                Err(x) => Err(x),
                Ok(t) => {
                    let t = put_parens(t, needs_condition_parens(inner, None));
                    Ok(cat2("not ", t.as_str()))
                },
            },
            SupportsCondition::Interpolation(e) => self.interp_text(ans, e, fuel),
            SupportsCondition::Declaration { name, value, custom } => {
                let saved = self.supports;
                self.supports = true;
                let r = self.supports_sides(ans, name, value, fuel);
                self.supports = saved;
                match r {
                    Err(x) => Err(x),
                    Ok((n, v)) => {
                        let sep = if *custom {
                            ":"
                        } else {
                            ": "
                        };
                        Ok(cat5("(", n.as_str(), sep, v.as_str(), ")"))
                    },
                }
            },
            SupportsCondition::Function { name, arguments } => {
                let n = match self.eval_template(ans, name, fuel) {
                    Ok(t) => t,
                    Err(x) => {
                        return Err(x);
                    },
                };
                match self.eval_template(ans, arguments, fuel) {
                    Err(x) => Err(x),
                    Ok(a) => Ok(cat2(cat3(n.as_str(), "(", a.as_str()).as_str(), ")")),
                }
            },
            SupportsCondition::Anything(contents) => match self.eval_template(ans, contents, fuel) {
                Err(x) => Err(x),
                Ok(t) => Ok(cat3("(", t.as_str(), ")")),
            },
        }
    }
}

// ---- CSS imports ---------------------------------------------------------

/// The text that a modifier of a CSS import adds.
#[verifier::opaque]
pub open spec fn modifier_text(s: Ev, ans: Seq<Answer>, m: ImportModifier, fuel: nat) -> Run<Seq<char>> {
    match m {
        ImportModifier::Raw(t) => match whole_template(s, ans, t@, fuel) {
            (Err(h), s1) => (Err(h), s1),
            (Ok(t), s1) => (Ok(" "@ + t), s1),
        },
        ImportModifier::Supports { condition, declaration } => match supports_text(s, ans, condition, fuel) {
            (Err(h), s1) => (Err(h), s1),
            (Ok(t), s1) => {
                let inner = unfolded(t, 0, false);
                if declaration {
                    (Ok(" supports"@ + inner), s1)
                } else {
                    (Ok(" supports("@ + inner + ")"@), s1)
                }
            },
        },
        ImportModifier::Media { list, comma_before } => match resolved_queries(s, ans, list, fuel) {
            (Err(h), s1) => (Err(h), s1),
            (Ok(qs), s1) => (
                Ok(
                    (if comma_before {
                        ", "@
                    } else {
                        " "@
                    }) + joined(all_rendered(qs), ", "@),
                ),
                s1,
            ),
        },
    }
}

/// The text of a CSS import with its modifiers from `i` on, after `acc`.
pub open spec fn modified_import(
    s: Ev,
    ans: Seq<Answer>,
    ms: Seq<ImportModifier>,
    i: int,
    acc: Seq<char>,
    fuel: nat,
) -> Run<Seq<char>>
    decreases ms.len() - i,
{
    if i < 0 || i >= ms.len() {
        (Ok(acc), s)
    } else {
        match modifier_text(s, ans, ms[i], fuel) {
            (Err(h), s1) => (Err(h), s1),
            (Ok(t), s1) => modified_import(s1, ans, ms, i + 1, acc + t, fuel),
        }
    }
}

/// The text of a CSS import.
#[verifier::opaque]
pub open spec fn css_import_text(
    s: Ev,
    ans: Seq<Answer>,
    url: Seq<TplPiece>,
    ms: Seq<ImportModifier>,
    fuel: nat,
) -> Run<Seq<char>> {
    match whole_template(s, ans, url, fuel) {
        (Err(h), s1) => (Err(h), s1),
        (Ok(t), s1) => modified_import(s1, ans, ms, 0, t, fuel),
    }
}

impl Evaluator {
    fn serialize_modifier(&mut self, ans: &Vec<Answer>, m: &ImportModifier, fuel: usize) -> (r: Result<
        String,
        Stop,
    >)
        ensures
            (out_text(r), final(self)@) == modifier_text(old(self)@, ans@, *m, fuel as nat),
            same_place(old(self)@, final(self)@),
    {
        proof {
            reveal(modifier_text);
        }
        match m {
            ImportModifier::Raw(t) => match self.eval_template(ans, t, fuel) {
                Err(x) => Err(x),
                Ok(t) => Ok(cat2(" ", t.as_str())),
            },
            ImportModifier::Supports { condition, declaration } => match self.serialize_supports_condition(
                ans,
                condition,
                fuel,
            ) {
                Err(x) => Err(x),
                Ok(t) => {
                    let inner = unquoted_string_css(t.as_str());
                    if *declaration {
                        Ok(cat2(" supports", inner.as_str()))
                    } else {
                        Ok(cat3(" supports(", inner.as_str(), ")"))
                    }
                },
            },
            ImportModifier::Media { list, comma_before } => match self.resolve_media_queries(
                ans,
                list,
                fuel,
            ) {
                Err(x) => Err(x),
                Ok(qs) => {
                    let head = if *comma_before {
                        ", "
                    } else {
                        " "
                    };
                    let text = serialize_media_queries(&qs);
                    Ok(cat2(head, text.as_str()))
                },
            },
        }
    }

    /// The text of a CSS import.
    pub fn serialize_css_import(
        &mut self,
        ans: &Vec<Answer>,
        url: &Vec<TplPiece>,
        ms: &Vec<ImportModifier>,
        fuel: usize,
    ) -> (r: Result<String, Stop>)
        ensures
            (out_text(r), final(self)@) == css_import_text(old(self)@, ans@, url@, ms@, fuel as nat),
            same_place(old(self)@, final(self)@),
    {
        proof {
            reveal(css_import_text);
        }
        let ghost goal = css_import_text(old(self)@, ans@, url@, ms@, fuel as nat);
        let mut acc = match self.eval_template(ans, url, fuel) {
            Ok(t) => chars_of(t.as_str()),
            Err(x) => {
                return Err(x);
            },
        };
        let mut i: usize = 0;
        while i < ms.len()
            invariant
                same_place(old(self)@, self@),
                i <= ms@.len(),
                goal == css_import_text(old(self)@, ans@, url@, ms@, fuel as nat),
                modified_import(self@, ans@, ms@, i as int, acc@, fuel as nat) == goal,
            decreases ms@.len() - i,
        {
            proof {
                reveal(css_import_text);
            }
            match self.serialize_modifier(ans, &ms[i], fuel) {
                Ok(t) => {
                    append_str(&mut acc, t.as_str());
                },
                Err(x) => {
                    return Err(x);
                },
            }
            i += 1;
        }
        Ok(string_of(acc.as_slice()))
    }
}

} // verus!
