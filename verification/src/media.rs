//! Media queries: parsing of a resolved query list, serialization, and merging of nested lists.

use vstd::prelude::*;
use crate::error::{Error, fault};
use crate::nesting::depth_after;
use crate::scan::{at, skip_ws, surplus, ws_end};
use crate::text::{
    append, append_str, chars_of, clone_strings, holds_text, is_ws, join, joined, lower, rows,
    same, spells, starts, starts_with, string_of, text_of, texts, to_lower, trim, trimmed,
    whitespace,
};

verus! {

/// A media query with every expression in it resolved to text.
#[derive(Debug)]
pub struct ResolvedQuery {
    pub modifier: Option<String>,
    pub mtype: Option<String>,
    pub conditions: Vec<String>,
    pub conjunction_and: bool,
}

/// What a [`ResolvedQuery`] holds.
pub ghost struct Query {
    pub modifier: Option<Seq<char>>,
    pub mtype: Option<Seq<char>>,
    pub conditions: Seq<Seq<char>>,
    pub conjunction_and: bool,
}

impl View for ResolvedQuery {
    type V = Query;

    open spec fn view(&self) -> Query {
        Query {
            modifier: text_of(self.modifier),
            mtype: text_of(self.mtype),
            conditions: texts(self.conditions@),
            conjunction_and: self.conjunction_and,
        }
    }
}

pub open spec fn queries(v: Seq<ResolvedQuery>) -> Seq<Query> {
    Seq::new(v.len(), |i: int| v[i]@)
}

fn copy_text(s: &Option<String>) -> (r: Option<String>)
    ensures
        text_of(r) == text_of(*s),
{
    match s {
        Some(t) => Some(t.clone()),
        None => None,
    }
}

impl ResolvedQuery {
    pub fn copy(&self) -> (r: ResolvedQuery)
        ensures
            r@ == self@,
    {
        ResolvedQuery {
            modifier: copy_text(&self.modifier),
            mtype: copy_text(&self.mtype),
            conditions: clone_strings(&self.conditions),
            conjunction_and: self.conjunction_and,
        }
    }
}

// ---- serialization -------------------------------------------------------

/// The text of a query.
pub open spec fn rendered(q: Query) -> Seq<char> {
    let modifier = match q.modifier {
        Some(m) => m.push(' '),
        None => Seq::empty(),
    };
    let mtype = match q.mtype {
        Some(t) => if q.conditions.len() > 0 {
            t + " and "@
        } else {
            t
        },
        None => Seq::empty(),
    };
    modifier + mtype + joined(
        q.conditions,
        if q.conjunction_and {
            " and "@
        } else {
            " or "@
        },
    )
}

impl ResolvedQuery {
    /// The text of this query.
    pub fn render(&self) -> (r: String)
        ensures
            r@ == rendered(self@),
    {
        let mut s: Vec<char> = Vec::new();
        let ghost m = match self@.modifier {
            Some(m) => m.push(' '),
            None => Seq::empty(),
        };
        if let Some(m) = &self.modifier {
            append_str(&mut s, m.as_str());
            s.push(' ');
        }
        proof {
            assert(s@ =~= m);
        }
        if let Some(t) = &self.mtype {
            append_str(&mut s, t.as_str());
            if self.conditions.len() > 0 {
                append_str(&mut s, " and ");
            }
        }
        let conditions = join(
            &self.conditions,
            if self.conjunction_and {
                " and "
            } else {
                " or "
            },
        );
        append(&mut s, conditions.as_slice());
        proof {
            assert(s@ =~= rendered(self@));
        }
        string_of(s.as_slice())
    }
}

/// The texts of a list of queries.
pub open spec fn all_rendered(qs: Seq<Query>) -> Seq<Seq<char>> {
    Seq::new(qs.len(), |i: int| rendered(qs[i]))
}

/// The text of a query list.
pub fn serialize_media_queries(list: &Vec<ResolvedQuery>) -> (r: String)
    ensures
        r@ == joined(all_rendered(queries(list@)), ", "@),
{
    let ghost all = all_rendered(queries(list@));
    let mut parts: Vec<String> = Vec::new();
    let mut i: usize = 0;
    while i < list.len()
        invariant
            i <= list@.len(),
            all == all_rendered(queries(list@)),
            parts@.len() == i,
            forall|k: int| 0 <= k < i ==> (#[trigger] parts@[k])@ == all[k],
        decreases list@.len() - i,
    {
        parts.push(list[i].render());
        i += 1;
    }
    proof {
        assert(texts(parts@) =~= all);
    }
    string_of(join(&parts, ", ").as_slice())
}

// ---- parsing -------------------------------------------------------------

/// The parts of a query list between its top-level commas.
pub open spec fn media_parts(s: Seq<char>) -> Seq<Seq<char>>
    decreases s.len(),
{
    if s.len() == 0 {
        seq![Seq::empty()]
    } else {
        let before = media_parts(s.drop_last());
        if s.last() == ',' && depth_after(s.drop_last()) == 0 {
            before.push(Seq::empty())
        } else {
            before.drop_last().push(before.last().push(s.last()))
        }
    }
}

pub fn split_top_level_media_commas(s: &[char]) -> (r: Vec<Vec<char>>)
    ensures
        rows(r@) == media_parts(s@),
{
    let mut out: Vec<Vec<char>> = Vec::new();
    let mut cur: Vec<char> = Vec::new();
    let mut depth: i128 = 0;
    let mut i: usize = 0;
    proof {
        assert(s@.take(0) =~= Seq::empty());
        assert(rows(out@).push(cur@) =~= media_parts(s@.take(0)));
    }
    while i < s.len()
        invariant
            i <= s@.len(),
            rows(out@).push(cur@) == media_parts(s@.take(i as int)),
            depth == depth_after(s@.take(i as int)),
            -i <= depth <= i,
        decreases s@.len() - i,
    {
        let c = s[i];
        proof {
            assert(s@.take(i + 1).drop_last() =~= s@.take(i as int));
        }
        let ghost prev_out = rows(out@);
        let ghost prev_cur = cur@;
        if c == ',' && depth == 0 {
            out.push(cur);
            cur = Vec::new();
            proof {
                assert(rows(out@) =~= prev_out.push(prev_cur));
                assert(rows(out@).push(cur@) =~= prev_out.push(prev_cur).push(Seq::empty()));
            }
        } else {
            if c == '(' || c == '[' {
                depth += 1;
            } else if c == ')' || c == ']' {
                depth -= 1;
            }
            cur.push(c);
            proof {
                assert(prev_out.push(prev_cur).drop_last() =~= prev_out);
            }
        }
        i += 1;
    }
    let ghost last = cur@;
    let ghost before = rows(out@);
    out.push(cur);
    proof {
        assert(s@.take(i as int) =~= s@);
        assert(rows(out@) =~= before.push(last));
    }
    out
}

/// The index past the `)` that brings the nesting, `depth` before `i`, down to zero.
pub open spec fn group_end(s: Seq<char>, i: int, depth: int) -> Option<int>
    decreases s.len() - i,
{
    if i < 0 || i >= s.len() {
        None
    } else if s[i] == '(' {
        group_end(s, i + 1, depth + 1)
    } else if s[i] == ')' {
        if depth == 1 {
            Some(i + 1)
        } else {
            group_end(s, i + 1, depth - 1)
        }
    } else {
        group_end(s, i + 1, depth)
    }
}

pub proof fn lemma_group_end_range(s: Seq<char>, i: int, depth: int)
    requires
        0 <= i,
    ensures
        group_end(s, i, depth) is Some ==> i < group_end(s, i, depth)->0 <= s.len(),
    decreases s.len() - i,
{
    if i < s.len() {
        if s[i] == '(' {
            lemma_group_end_range(s, i + 1, depth + 1);
        } else if s[i] == ')' {
            if depth != 1 {
                lemma_group_end_range(s, i + 1, depth - 1);
            }
        } else {
            lemma_group_end_range(s, i + 1, depth);
        }
    }
}

/// Take a balanced group from `start` on.
fn take_paren(s: &[char], start: usize) -> (r: Result<usize, Error>)
    requires
        start <= s@.len(),
    ensures
        match group_end(s@, start as int, 0) {
            Some(e) => r is Ok && r->Ok_0 == e && start < e <= s@.len(),
            None => r is Err && r->Err_0@ == fault("expected \")\"."@),
        },
{
    let n: usize = s.len();
    let mut depth: i128 = 0;
    let mut i: usize = start;
    while i < n
        invariant
            n == s@.len(),
            start <= i <= n,
            -i <= depth <= i,
            group_end(s@, i as int, depth as int) == group_end(s@, start as int, 0),
        decreases n - i,
    {
        if s[i] == '(' {
            depth += 1;
        } else if s[i] == ')' {
            if depth == 1 {
                return Ok(i + 1);
            }
            depth -= 1;
        }
        i += 1;
    }
    Err(Error::unpositioned("expected \")\"."))
}

/// The index past the word that starts at `i`: the next white space or `(`.
pub open spec fn word_end(s: Seq<char>, i: int) -> int
    decreases s.len() - i,
{
    if 0 <= i < s.len() && !is_ws(s[i]) && s[i] != '(' {
        word_end(s, i + 1)
    } else {
        i
    }
}

fn take_word(s: &[char], start: usize) -> (r: usize)
    requires
        start <= s@.len(),
    ensures
        r == word_end(s@, start as int),
        start <= r <= s@.len(),
{
    let mut i: usize = start;
    while i < s.len() && !whitespace(s[i]) && s[i] != '('
        invariant
            start <= i <= s@.len(),
            word_end(s@, i as int) == word_end(s@, start as int),
        decreases s@.len() - i,
    {
        i += 1;
    }
    i
}

pub proof fn lemma_ws_end_range(s: Seq<char>, i: int)
    requires
        0 <= i <= s.len(),
    ensures
        i <= ws_end(s, i) <= s.len(),
    decreases s.len() - i,
{
    if i < s.len() && is_ws(s[i]) {
        lemma_ws_end_range(s, i + 1);
    }
}

pub proof fn lemma_word_end_range(s: Seq<char>, i: int)
    requires
        0 <= i <= s.len(),
    ensures
        i <= word_end(s, i) <= s.len(),
    decreases s.len() - i,
{
    if i < s.len() && !is_ws(s[i]) && s[i] != '(' {
        lemma_word_end_range(s, i + 1);
    }
}

/// The word that joins the next condition, at `i` past white space; the condition starts past it.
pub open spec fn joint_word(s: Seq<char>, i: int) -> Seq<char> {
    lower(s.subrange(i, word_end(s, i)))
}

pub open spec fn joint_end(s: Seq<char>, i: int) -> int {
    ws_end(s, word_end(s, i))
}

/// The conditions from `i` on, after `conds`, each joined by `and` or `or`; the flag is whether no
/// `or` was among them.
pub open spec fn condition_list(s: Seq<char>, i: int, conds: Seq<Seq<char>>, and: bool) -> Result<
    (Seq<Seq<char>>, bool),
    Seq<char>,
>
    decreases s.len() - i via condition_list_terminates
{
    let a = ws_end(s, i);
    if i < 0 || a >= s.len() {
        Ok((conds, and))
    } else {
        let word = joint_word(s, a);
        let k = joint_end(s, a);
        if word == "and"@ || word == "or"@ {
            match group_end(s, k, 0) {
                Some(e) => condition_list(
                    s,
                    e,
                    conds.push(s.subrange(k, e)),
                    and && word != "or"@,
                ),
                None => Err("expected \")\"."@),
            }
        } else {
            Err("expected \"and\" or \"or\"."@)
        }
    }
}

proof fn lemma_joint_advances(s: Seq<char>, i: int)
    requires
        0 <= i,
        ws_end(s, i) < s.len(),
    ensures
        i <= joint_end(s, ws_end(s, i)) <= s.len(),
        group_end(s, joint_end(s, ws_end(s, i)), 0) is Some ==> i < group_end(
            s,
            joint_end(s, ws_end(s, i)),
            0,
        )->0 <= s.len(),
{
    if i < s.len() {
        lemma_ws_end_range(s, i);
    }
    let a = ws_end(s, i);
    lemma_word_end_range(s, a);
    lemma_ws_end_range(s, word_end(s, a));
    lemma_group_end_range(s, joint_end(s, a), 0);
}

#[via_fn]
proof fn condition_list_terminates(s: Seq<char>, i: int, conds: Seq<Seq<char>>, and: bool) {
    if 0 <= i && ws_end(s, i) < s.len() {
        lemma_joint_advances(s, i);
    }
}

/// The conditions from `i` on, after `conds`, each joined by `and`.
pub open spec fn and_list(s: Seq<char>, i: int, conds: Seq<Seq<char>>) -> Result<
    Seq<Seq<char>>,
    Seq<char>,
>
    decreases s.len() - i via and_list_terminates
{
    let a = ws_end(s, i);
    if i < 0 || a >= s.len() {
        Ok(conds)
    } else if joint_word(s, a) == "and"@ {
        let k = joint_end(s, a);
        match group_end(s, k, 0) {
            Some(e) => and_list(s, e, conds.push(s.subrange(k, e))),
            None => Err("expected \")\"."@),
        }
    } else {
        Err("expected \"and\"."@)
    }
}

#[via_fn]
proof fn and_list_terminates(s: Seq<char>, i: int, conds: Seq<Seq<char>>) {
    if 0 <= i && ws_end(s, i) < s.len() {
        lemma_joint_advances(s, i);
    }
}

/// The query that `s` spells: conditions alone, `not` and one condition, or a type with an
/// optional modifier before it and conditions after it.
pub open spec fn parsed_query(s: Seq<char>) -> Result<Query, Seq<char>> {
    let i = ws_end(s, 0);
    let j = word_end(s, i);
    let k = ws_end(s, j);
    let first = s.subrange(i, j);
    let m = word_end(s, k);
    let second = s.subrange(k, m);
    if at(s, i) == Some('(') {
        match group_end(s, i, 0) {
            None => Err("expected \")\"."@),
            Some(e) => match condition_list(s, e, seq![s.subrange(i, e)], true) {
                Err(x) => Err(x),
                Ok(r) => Ok(
                    Query { modifier: None, mtype: None, conditions: r.0, conjunction_and: r.1 },
                ),
            },
        }
    } else if lower(first) == "not"@ && at(s, k) == Some('(') {
        match group_end(s, k, 0) {
            None => Err("expected \")\"."@),
            Some(e) => Ok(
                Query {
                    modifier: None,
                    mtype: None,
                    conditions: seq!["not "@ + s.subrange(k, e)],
                    conjunction_and: true,
                },
            ),
        }
    } else {
        let two = at(s, k) is Some && at(s, k) != Some('(') && second.len() > 0 && lower(second)
            != "and"@;
        match and_list(
            s,
            if two {
                m
            } else {
                k
            },
            Seq::empty(),
        ) {
            Err(x) => Err(x),
            Ok(conditions) => Ok(
                Query {
                    modifier: if two {
                        Some(first)
                    } else {
                        None
                    },
                    mtype: Some(
                        if two {
                            second
                        } else {
                            first
                        },
                    ),
                    conditions,
                    conjunction_and: true,
                },
            ),
        }
    }
}

/// Whether `r` is the query, or fails with the message, that `m` says.
pub open spec fn query_or_fault(
    r: Result<ResolvedQuery, Error>,
    m: Result<Query, Seq<char>>,
) -> bool {
    match m {
        Ok(q) => r is Ok && r->Ok_0@ == q,
        Err(e) => r is Err && r->Err_0@ == fault(e),
    }
}

fn spells_lower(s: &[char], word: &str) -> (r: bool)
    ensures
        r == (lower(s@) == word@),
{
    let low = to_lower(s);
    spells(low.as_slice(), word)
}

fn push_text(out: &mut Vec<String>, s: &[char])
    ensures
        texts(final(out)@) == texts(old(out)@).push(s@),
{
    out.push(string_of(s));
    proof {
        assert(texts(final(out)@) =~= texts(old(out)@).push(s@));
    }
}

/// Parse one resolved media query.
pub fn css_media_parse_one(s: &[char]) -> (r: Result<ResolvedQuery, Error>)
    ensures
        query_or_fault(r, parsed_query(s@)),
{
    let n: usize = s.len();
    let i: usize = skip_ws(s, 0);
    if i < n && s[i] == '(' {
        let e: usize = match take_paren(s, i) {
            Ok(e) => e,
            Err(x) => {
                return Err(x);
            },
        };
        return parse_conditions(s, i, e);
    }
    let j: usize = take_word(s, i);
    let first = vstd::slice::slice_subrange(s, i, j);
    let k: usize = skip_ws(s, j);
    if spells_lower(first, "not") && k < n && s[k] == '(' {
        let e: usize = match take_paren(s, k) {
            Ok(e) => e,
            Err(x) => {
                return Err(x);
            },
        };
        let mut c = chars_of("not ");
        append(&mut c, vstd::slice::slice_subrange(s, k, e));
        let mut conditions: Vec<String> = Vec::new();
        push_text(&mut conditions, c.as_slice());
        proof {
            assert(texts(conditions@) =~= seq!["not "@ + s@.subrange(k as int, e as int)]);
        }
        return Ok(
            ResolvedQuery { modifier: None, mtype: None, conditions, conjunction_and: true },
        );
    }
    let m: usize = take_word(s, k);
    let second = vstd::slice::slice_subrange(s, k, m);
    let two = k < n && s[k] != '(' && second.len() > 0 && !spells_lower(second, "and");
    let (modifier, mtype) = if two {
        (Some(string_of(first)), string_of(second))
    } else {
        (None, string_of(first))
    };
    let start: usize = if two { m } else { k };
    let mut conditions: Vec<String> = Vec::new();
    let ghost goal = and_list(s@, start as int, Seq::empty());
    let mut p: usize = start;
    proof {
        assert(texts(conditions@) =~= Seq::empty());
    }
    loop
        invariant_except_break
            n == s@.len(),
            p <= n,
            and_list(s@, p as int, texts(conditions@)) == goal,
            parsed_query(s@) is Err <==> goal is Err,
            goal is Err ==> parsed_query(s@) == Err::<Query, Seq<char>>(goal->Err_0),
        ensures
            goal == Ok::<Seq<Seq<char>>, Seq<char>>(texts(conditions@)),
        decreases n - p,
    {
        let a: usize = skip_ws(s, p);
        if a >= n {
            break;
        }
        let b: usize = take_word(s, a);
        if !spells_lower(vstd::slice::slice_subrange(s, a, b), "and") {
            return Err(Error::unpositioned("expected \"and\"."));
        }
        let g: usize = skip_ws(s, b);
        let e: usize = match take_paren(s, g) {
            Ok(e) => e,
            Err(x) => {
                return Err(x);
            },
        };
        push_text(&mut conditions, vstd::slice::slice_subrange(s, g, e));
        p = e;
    }
    Ok(ResolvedQuery { modifier, mtype: Some(mtype), conditions, conjunction_and: true })
}

/// Parse a query of conditions alone, whose first condition lies between `from` and `to`.
fn parse_conditions(s: &[char], from: usize, to: usize) -> (r: Result<ResolvedQuery, Error>)
    requires
        from <= to <= s@.len(),
    ensures
        match condition_list(s@, to as int, seq![s@.subrange(from as int, to as int)], true) {
            Ok(c) => r is Ok && r->Ok_0@ == (Query {
                modifier: None,
                mtype: None,
                conditions: c.0,
                conjunction_and: c.1,
            }),
            Err(x) => r is Err && r->Err_0@ == fault(x),
        },
{
    let n: usize = s.len();
    let mut conditions: Vec<String> = Vec::new();
    push_text(&mut conditions, vstd::slice::slice_subrange(s, from, to));
    let mut and: bool = true;
    let mut p: usize = to;
    let ghost goal = condition_list(
        s@,
        to as int,
        seq![s@.subrange(from as int, to as int)],
        true,
    );
    proof {
        assert(texts(conditions@) =~= seq![s@.subrange(from as int, to as int)]);
    }
    loop
        invariant_except_break
            n == s@.len(),
            p <= n,
            condition_list(s@, p as int, texts(conditions@), and) == goal,
            goal == condition_list(
                s@,
                to as int,
                seq![s@.subrange(from as int, to as int)],
                true,
            ),
        ensures
            goal == Ok::<(Seq<Seq<char>>, bool), Seq<char>>((texts(conditions@), and)),
        decreases n - p,
    {
        let a: usize = skip_ws(s, p);
        if a >= n {
            break;
        }
        let b: usize = take_word(s, a);
        let word = vstd::slice::slice_subrange(s, a, b);
        let is_or = spells_lower(word, "or");
        if !is_or && !spells_lower(word, "and") {
            return Err(Error::unpositioned("expected \"and\" or \"or\"."));
        }
        let g: usize = skip_ws(s, b);
        let e: usize = match take_paren(s, g) {
            Ok(e) => e,
            Err(x) => {
                return Err(x);
            },
        };
        push_text(&mut conditions, vstd::slice::slice_subrange(s, g, e));
        if is_or {
            and = false;
        }
        p = e;
    }
    Ok(ResolvedQuery { modifier: None, mtype: None, conditions, conjunction_and: and })
}

/// Whether the parentheses of `s` match up.
pub open spec fn balanced(s: Seq<char>) -> bool {
    &&& surplus(s, '(', ')') == 0
    &&& forall|k: int| 0 <= k <= s.len() ==> surplus(#[trigger] s.take(k), '(', ')') >= 0
}

fn is_balanced(s: &[char]) -> (r: bool)
    ensures
        r == balanced(s@),
{
    let n: usize = s.len();
    let mut depth: usize = 0;
    let mut i: usize = 0;
    while i < n
        invariant
            n == s@.len(),
            i <= n,
            depth <= i,
            depth == surplus(s@.take(i as int), '(', ')'),
            forall|k: int| 0 <= k <= i ==> surplus(#[trigger] s@.take(k), '(', ')') >= 0,
        decreases n - i,
    {
        proof {
            assert(s@.take(i + 1).drop_last() =~= s@.take(i as int));
        }
        if s[i] == '(' {
            depth += 1;
        } else if s[i] == ')' {
            if depth == 0 {
                proof {
                    assert(surplus(s@.take(i + 1), '(', ')') == -1);
                }
                return false;
            }
            depth -= 1;
        }
        i += 1;
    }
    proof {
        assert(s@.take(n as int) =~= s@);
    }
    depth == 0
}

/// What a query's only condition becomes when it is a negation in parentheses: the parentheses
/// are dropped.
pub open spec fn bare_negation(c: Seq<char>) -> Option<Seq<char>> {
    let t = trimmed(c.subrange(1, c.len() - 1));
    if c.len() >= 2 && c[0] == '(' && c.last() == ')' && balanced(t) && (starts(t, "not "@) || starts(
        t,
        "not("@,
    )) {
        Some(t)
    } else {
        None
    }
}

/// A query as it is read back: a lone negation in parentheses loses them.
pub open spec fn unwrapped(q: Query) -> Query {
    if q.mtype is None && q.modifier is None && q.conditions.len() == 1 && bare_negation(
        q.conditions[0],
    ) is Some {
        Query { conditions: seq![bare_negation(q.conditions[0])->0], ..q }
    } else {
        q
    }
}

fn unwrap_negation(q: ResolvedQuery) -> (r: ResolvedQuery)
    ensures
        r@ == unwrapped(q@),
{
    if q.mtype.is_none() && q.modifier.is_none() && q.conditions.len() == 1 {
        let c = chars_of(q.conditions[0].as_str());
        let n: usize = c.len();
        proof {
            assert(q@.conditions[0] == c@);
        }
        if n >= 2 && c[0] == '(' && c[n - 1] == ')' {
            let t = trim(vstd::slice::slice_subrange(c.as_slice(), 1, n - 1));
            if is_balanced(t) && (starts_with(t, "not ") || starts_with(t, "not(")) {
                let mut conditions: Vec<String> = Vec::new();
                push_text(&mut conditions, t);
                proof {
                    assert(texts(conditions@) =~= seq![t@]);
                }
                return ResolvedQuery {
                    modifier: q.modifier,
                    mtype: q.mtype,
                    conditions,
                    conjunction_and: q.conjunction_and,
                };
            }
        }
    }
    q
}

/// The queries of the parts from `k` on, after `out`; parts that hold nothing are skipped.
pub open spec fn parsed_parts(parts: Seq<Seq<char>>, k: int, out: Seq<Query>) -> Result<
    Seq<Query>,
    Seq<char>,
>
    decreases parts.len() - k,
{
    if k < 0 || k >= parts.len() {
        Ok(out)
    } else {
        let t = trimmed(parts[k]);
        if t.len() == 0 {
            parsed_parts(parts, k + 1, out)
        } else {
            match parsed_query(t) {
                Err(x) => Err(x),
                Ok(q) => parsed_parts(parts, k + 1, out.push(unwrapped(q))),
            }
        }
    }
}

/// The query list that `s` spells.
pub open spec fn parsed_queries(s: Seq<char>) -> Result<Seq<Query>, Seq<char>> {
    parsed_parts(media_parts(s), 0, Seq::empty())
}

/// Parse a media query list whose interpolation is resolved.
pub fn css_media_parse_list(text: &str) -> (r: Result<Vec<ResolvedQuery>, Error>)
    ensures
        match parsed_queries(text@) {
            Ok(l) => r is Ok && queries(r->Ok_0@) == l,
            Err(x) => r is Err && r->Err_0@ == fault(x),
        },
{
    let chars = chars_of(text);
    let parts = split_top_level_media_commas(chars.as_slice());
    let ghost all = media_parts(text@);
    let mut out: Vec<ResolvedQuery> = Vec::new();
    let mut k: usize = 0;
    proof {
        assert(queries(out@) =~= Seq::empty());
    }
    while k < parts.len()
        invariant
            k <= parts@.len(),
            rows(parts@) == all,
            parsed_parts(all, k as int, queries(out@)) == parsed_queries(text@),
        decreases parts@.len() - k,
    {
        proof {
            assert(all[k as int] == parts@[k as int]@);
        }
        let t = trim(parts[k].as_slice());
        if t.len() > 0 {
            let ghost before = queries(out@);
            match css_media_parse_one(t) {
                Ok(q) => {
                    let u = unwrap_negation(q);
                    let ghost uv = u@;
                    out.push(u);
                    proof {
                        assert(queries(out@) =~= before.push(uv));
                    }
                },
                Err(x) => {
                    return Err(x);
                },
            }
        }
        k += 1;
    }
    Ok(out)
}

// ---- merging -------------------------------------------------------------

/// How two queries combine: they exclude each other, no query says both, or this query does.
#[derive(Debug)]
pub enum MergeResult {
    Empty,
    Unrepresentable,
    Query(ResolvedQuery),
}

/// What a [`MergeResult`] says.
pub ghost enum Merge {
    Empty,
    Unrepresentable,
    Query(Query),
}

impl View for MergeResult {
    type V = Merge;

    open spec fn view(&self) -> Merge {
        match *self {
            MergeResult::Empty => Merge::Empty,
            MergeResult::Unrepresentable => Merge::Unrepresentable,
            MergeResult::Query(q) => Merge::Query(q@),
        }
    }
}

pub open spec fn lower_opt(s: Option<Seq<char>>) -> Option<Seq<char>> {
    match s {
        Some(t) => Some(lower(t)),
        None => None,
    }
}

pub open spec fn negated(q: Query) -> bool {
    lower_opt(q.modifier) == Some("not"@)
}

/// Whether a query has no media type, or the type `all`.
pub open spec fn any_type(q: Query) -> bool {
    q.mtype is None || lower_opt(q.mtype) == Some("all"@)
}

pub open spec fn same_type(a: Query, b: Query) -> bool {
    lower_opt(a.mtype) == lower_opt(b.mtype)
}

/// Whether every condition of `a` is one of `b`.
pub open spec fn within(a: Seq<Seq<char>>, b: Seq<Seq<char>>) -> bool {
    forall|i: int| 0 <= i < a.len() ==> b.contains(#[trigger] a[i])
}

/// A query for what `a` and `b` both match.
pub open spec fn both(
    a: Query,
    b: Query,
    modifier: Option<Seq<char>>,
    mtype: Option<Seq<char>>,
) -> Merge {
    Merge::Query(
        Query { modifier, mtype, conditions: a.conditions + b.conditions, conjunction_and: true },
    )
}

/// The query `q` with its modifier in lower case.
pub open spec fn lowered(q: Query) -> Query {
    Query { modifier: lower_opt(q.modifier), conjunction_and: true, ..q }
}

/// The merge of an enclosing query `a` and a nested query `b`. A media type keeps the spelling of
/// the query that gave it, `a` where both did.
pub open spec fn merged(a: Query, b: Query) -> Merge {
    if !a.conjunction_and || !b.conjunction_and {
        Merge::Unrepresentable
    } else if a.mtype is None && b.mtype is None {
        both(a, b, None, None)
    } else if negated(a) != negated(b) {
        let neg = if negated(a) {
            a
        } else {
            b
        };
        let pos = if negated(a) {
            b
        } else {
            a
        };
        if same_type(a, b) {
            if within(neg.conditions, pos.conditions) {
                Merge::Empty
            } else {
                Merge::Unrepresentable
            }
        } else if any_type(a) || any_type(b) {
            Merge::Unrepresentable
        } else {
            Merge::Query(lowered(pos))
        }
    } else if negated(a) {
        let more = if a.conditions.len() > b.conditions.len() {
            a
        } else {
            b
        };
        let fewer = if a.conditions.len() > b.conditions.len() {
            b
        } else {
            a
        };
        if same_type(a, b) && within(fewer.conditions, more.conditions) {
            Merge::Query(
                Query {
                    modifier: lower_opt(a.modifier),
                    mtype: a.mtype,
                    conditions: more.conditions,
                    conjunction_and: true,
                },
            )
        } else {
            Merge::Unrepresentable
        }
    } else if any_type(a) {
        let mtype = if any_type(b) && a.mtype is None {
            None
        } else if same_type(a, b) {
            a.mtype
        } else {
            b.mtype
        };
        both(a, b, lower_opt(b.modifier), mtype)
    } else if any_type(b) {
        both(a, b, lower_opt(a.modifier), a.mtype)
    } else if !same_type(a, b) {
        Merge::Empty
    } else {
        let modifier = if a.modifier is Some {
            a.modifier
        } else {
            b.modifier
        };
        both(a, b, lower_opt(modifier), a.mtype)
    }
}

fn lower_text(s: &Option<String>) -> (r: Option<Vec<char>>)
    ensures
        match r {
            Some(t) => lower_opt(text_of(*s)) == Some(t@),
            None => *s is None,
        },
{
    match s {
        Some(t) => {
            let c = chars_of(t.as_str());
            Some(to_lower(c.as_slice()))
        },
        None => None,
    }
}

fn lower_string(s: &Option<String>) -> (r: Option<String>)
    ensures
        text_of(r) == lower_opt(text_of(*s)),
{
    match lower_text(s) {
        Some(t) => Some(string_of(t.as_slice())),
        None => None,
    }
}

fn lower_is(s: &Option<String>, word: &str) -> (r: bool)
    ensures
        r == (lower_opt(text_of(*s)) == Some(word@)),
{
    match lower_text(s) {
        Some(t) => spells(t.as_slice(), word),
        None => false,
    }
}

fn same_mtype(a: &ResolvedQuery, b: &ResolvedQuery) -> (r: bool)
    ensures
        r == same_type(a@, b@),
{
    match (lower_text(&a.mtype), lower_text(&b.mtype)) {
        (Some(x), Some(y)) => same(x.as_slice(), y.as_slice()),
        (None, None) => true,
        _ => false,
    }
}

fn all_within(a: &Vec<String>, b: &Vec<String>) -> (r: bool)
    ensures
        r == within(texts(a@), texts(b@)),
{
    let mut i: usize = 0;
    while i < a.len()
        invariant
            i <= a@.len(),
            forall|k: int| 0 <= k < i ==> texts(b@).contains(#[trigger] texts(a@)[k]),
        decreases a@.len() - i,
    {
        if !holds_text(b, a[i].as_str()) {
            proof {
                assert(!texts(b@).contains(texts(a@)[i as int]));
            }
            return false;
        }
        i += 1;
    }
    true
}

fn concat_strings(a: &Vec<String>, b: &Vec<String>) -> (r: Vec<String>)
    ensures
        texts(r@) == texts(a@) + texts(b@),
{
    let mut out = clone_strings(a);
    let mut i: usize = 0;
    proof {
        assert(out@ =~= a@ + b@.take(0));
    }
    while i < b.len()
        invariant
            i <= b@.len(),
            out@ == a@ + b@.take(i as int),
        decreases b@.len() - i,
    {
        out.push(b[i].clone());
        i += 1;
        proof {
            assert(a@ + b@.take(i as int) =~= (a@ + b@.take(i - 1)).push(b@[i - 1]));
        }
    }
    proof {
        assert(b@.take(i as int) =~= b@);
        assert(texts(out@) =~= texts(a@) + texts(b@));
    }
    out
}

/// Merge an enclosing query and a nested one.
pub fn merge_media_query(this: &ResolvedQuery, other: &ResolvedQuery) -> (r: MergeResult)
    ensures
        r@ == merged(this@, other@),
{
    if !this.conjunction_and || !other.conjunction_and {
        return MergeResult::Unrepresentable;
    }
    if this.mtype.is_none() && other.mtype.is_none() {
        return MergeResult::Query(
            ResolvedQuery {
                modifier: None,
                mtype: None,
                conditions: concat_strings(&this.conditions, &other.conditions),
                conjunction_and: true,
            },
        );
    }
    let our_not = lower_is(&this.modifier, "not");
    let their_not = lower_is(&other.modifier, "not");
    let our_any = this.mtype.is_none() || lower_is(&this.mtype, "all");
    let their_any = other.mtype.is_none() || lower_is(&other.mtype, "all");
    let one_type = same_mtype(this, other);
    if our_not != their_not {
        let (neg, pos) = if our_not {
            (this, other)
        } else {
            (other, this)
        };
        if one_type {
            if all_within(&neg.conditions, &pos.conditions) {
                return MergeResult::Empty;
            }
            return MergeResult::Unrepresentable;
        }
        if our_any || their_any {
            return MergeResult::Unrepresentable;
        }
        return MergeResult::Query(
            ResolvedQuery {
                modifier: lower_string(&pos.modifier),
                mtype: copy_text(&pos.mtype),
                conditions: clone_strings(&pos.conditions),
                conjunction_and: true,
            },
        );
    }
    if our_not {
        let (more, fewer) = if this.conditions.len() > other.conditions.len() {
            (this, other)
        } else {
            (other, this)
        };
        if one_type && all_within(&fewer.conditions, &more.conditions) {
            return MergeResult::Query(
                ResolvedQuery {
                    modifier: lower_string(&this.modifier),
                    mtype: copy_text(&this.mtype),
                    conditions: clone_strings(&more.conditions),
                    conjunction_and: true,
                },
            );
        }
        return MergeResult::Unrepresentable;
    }
    let (modifier, mtype) = if our_any {
        let mtype = if their_any && this.mtype.is_none() {
            None
        } else if one_type {
            copy_text(&this.mtype)
        } else {
            copy_text(&other.mtype)
        };
        (lower_string(&other.modifier), mtype)
    } else if their_any {
        (lower_string(&this.modifier), copy_text(&this.mtype))
    } else if !one_type {
        return MergeResult::Empty;
    } else {
        let modifier = if this.modifier.is_some() {
            lower_string(&this.modifier)
        } else {
            lower_string(&other.modifier)
        };
        (modifier, copy_text(&this.mtype))
    };
    MergeResult::Query(
        ResolvedQuery {
            modifier,
            mtype,
            conditions: concat_strings(&this.conditions, &other.conditions),
            conjunction_and: true,
        },
    )
}

/// The merges of the pairs from `i`, `j` on, after `out`: pairs that exclude each other give
/// nothing, and a pair that no query says makes the whole unrepresentable.
pub open spec fn merged_from(
    outer: Seq<Query>,
    inner: Seq<Query>,
    i: int,
    j: int,
    out: Seq<Query>,
) -> Option<Seq<Query>>
    decreases outer.len() - i, inner.len() - j,
{
    if i < 0 || i >= outer.len() {
        Some(out)
    } else if j < 0 || j >= inner.len() {
        merged_from(outer, inner, i + 1, 0, out)
    } else {
        match merged(outer[i], inner[j]) {
            Merge::Empty => merged_from(outer, inner, i, j + 1, out),
            Merge::Unrepresentable => None,
            Merge::Query(q) => merged_from(outer, inner, i, j + 1, out.push(q)),
        }
    }
}

pub open spec fn merged_lists(outer: Seq<Query>, inner: Seq<Query>) -> Option<Seq<Query>> {
    merged_from(outer, inner, 0, 0, Seq::empty())
}

/// Merge an enclosing query list with a nested one. `None` if some pair cannot be represented; an
/// empty list if every pair excludes each other.
pub fn merge_media_query_lists(
    outer: &Vec<ResolvedQuery>,
    inner: &Vec<ResolvedQuery>,
) -> (r: Option<Vec<ResolvedQuery>>)
    ensures
        match r {
            Some(l) => merged_lists(queries(outer@), queries(inner@)) == Some(queries(l@)),
            None => merged_lists(queries(outer@), queries(inner@)) is None,
        },
{
    let ghost goal = merged_lists(queries(outer@), queries(inner@));
    let mut out: Vec<ResolvedQuery> = Vec::new();
    let mut i: usize = 0;
    proof {
        assert(queries(out@) =~= Seq::empty());
    }
    while i < outer.len()
        invariant
            i <= outer@.len(),
            merged_from(queries(outer@), queries(inner@), i as int, 0, queries(out@)) == goal,
            goal == merged_lists(queries(outer@), queries(inner@)),
        decreases outer@.len() - i,
    {
        let mut j: usize = 0;
        while j < inner.len()
            invariant
                i < outer@.len(),
                j <= inner@.len(),
                merged_from(queries(outer@), queries(inner@), i as int, j as int, queries(out@)) == goal,
                goal == merged_lists(queries(outer@), queries(inner@)),
            decreases inner@.len() - j,
        {
            let ghost before = queries(out@);
            match merge_media_query(&outer[i], &inner[j]) {
                MergeResult::Empty => {},
                MergeResult::Unrepresentable => {
                    return None;
                },
                MergeResult::Query(q) => {
                    let ghost qv = q@;
                    out.push(q);
                    proof {
                        assert(queries(out@) =~= before.push(qv));
                    }
                },
            }
            j += 1;
        }
        i += 1;
    }
    Some(out)
}

// ---- laws ----------------------------------------------------------------

/// Two queries that name different media types, neither negated, exclude each other; and then so
/// they do in either order.
pub proof fn different_types_exclude(a: Query, b: Query)
    requires
        a.conjunction_and,
        b.conjunction_and,
        !negated(a),
        !negated(b),
        !any_type(a),
        !any_type(b),
        !same_type(a, b),
    ensures
        merged(a, b) == Merge::Empty,
        merged(b, a) == Merge::Empty,
{
}

/// A query that `or` joins merges with none.
pub proof fn or_never_merges(a: Query, b: Query)
    requires
        !a.conjunction_and || !b.conjunction_and,
    ensures
        merged(a, b) == Merge::Unrepresentable,
        merged(b, a) == Merge::Unrepresentable,
{
}

/// Whatever a merge gives, `and` joins its conditions, and each of them comes from one of the two
/// queries.
pub proof fn merge_adds_no_condition(a: Query, b: Query)
    ensures
        merged(a, b) is Query ==> {
            let q = merged(a, b)->Query_0;
            &&& q.conjunction_and
            &&& forall|i: int|
                0 <= i < q.conditions.len() ==> a.conditions.contains(#[trigger] q.conditions[i])
                    || b.conditions.contains(q.conditions[i])
        },
{
    if merged(a, b) is Query {
        let q = merged(a, b)->Query_0;
        let sum = a.conditions + b.conditions;
        assert forall|i: int| 0 <= i < q.conditions.len() implies a.conditions.contains(
            #[trigger] q.conditions[i],
        ) || b.conditions.contains(q.conditions[i]) by {
            if q.conditions == sum {
                if i < a.conditions.len() {
                    assert(sum[i] == a.conditions[i]);
                } else {
                    assert(sum[i] == b.conditions[i - a.conditions.len()]);
                }
            }
        }
    }
}

/// Merging lists of which one is empty gives nothing to match.
pub proof fn empty_list_merges_to_nothing(qs: Seq<Query>, i: int)
    requires
        0 <= i <= qs.len(),
    ensures
        merged_from(qs, Seq::empty(), i, 0, Seq::empty()) == Some(Seq::<Query>::empty()),
        merged_lists(Seq::empty(), qs) == Some(Seq::<Query>::empty()),
    decreases qs.len() - i,
{
    if i < qs.len() {
        empty_list_merges_to_nothing(qs, i + 1);
        assert(merged_from(qs, Seq::empty(), i, 0, Seq::empty()) == merged_from(
            qs,
            Seq::empty(),
            i + 1,
            0,
            Seq::empty(),
        ));
    }
}

// ---- parsing and serialization -------------------------------------------

/// A word of a query: a type or a modifier.
pub open spec fn plain_word(w: Seq<char>) -> bool {
    w.len() > 0 && forall|k: int| 0 <= k < w.len() ==> !is_ws(#[trigger] w[k]) && w[k] != '('
}

/// A condition: text up to the end of a balanced group.
pub open spec fn plain_condition(c: Seq<char>) -> bool {
    c.len() > 0 && !is_ws(c[0]) && group_end(c, 0, 0) == Some(c.len() as int)
}

/// The conditions from `i` on, each after `and`.
pub open spec fn condition_tail(conds: Seq<Seq<char>>, i: int) -> Seq<char>
    decreases conds.len() - i,
{
    if i < 0 || i >= conds.len() {
        Seq::empty()
    } else {
        " and "@ + conds[i] + condition_tail(conds, i + 1)
    }
}

proof fn lemma_tail_of_more(conds: Seq<Seq<char>>, c: Seq<char>, i: int)
    requires
        0 <= i <= conds.len(),
    ensures
        condition_tail(conds.push(c), i) == condition_tail(conds, i) + " and "@ + c,
    decreases conds.len() - i,
{
    let more = conds.push(c);
    if i < conds.len() {
        lemma_tail_of_more(conds, c, i + 1);
        assert(more[i] == conds[i]);
        assert(condition_tail(more, i) =~= condition_tail(conds, i) + " and "@ + c);
    } else {
        assert(condition_tail(more, i + 1) =~= Seq::empty());
        assert(condition_tail(conds, i) =~= Seq::empty());
        assert(condition_tail(more, i) =~= condition_tail(conds, i) + " and "@ + c);
    }
}

proof fn lemma_tail_is_joined(conds: Seq<Seq<char>>)
    requires
        conds.len() > 0,
    ensures
        condition_tail(conds, 0) == " and "@ + joined(conds, " and "@),
    decreases conds.len(),
{
    let before = conds.drop_last();
    assert(before.push(conds.last()) =~= conds);
    lemma_tail_of_more(before, conds.last(), 0);
    if before.len() > 0 {
        lemma_tail_is_joined(before);
        assert(condition_tail(conds, 0) =~= " and "@ + joined(conds, " and "@));
    } else {
        assert(condition_tail(before, 0) =~= Seq::empty());
        assert(condition_tail(conds, 0) =~= " and "@ + joined(conds, " and "@));
    }
}

proof fn lemma_group_inside(s: Seq<char>, k: int, c: Seq<char>, j: int, depth: int)
    requires
        0 <= k,
        0 <= j <= c.len(),
        k + c.len() <= s.len(),
        s.subrange(k, k + c.len()) == c,
        group_end(c, j, depth) is Some,
    ensures
        group_end(s, k + j, depth) == Some(k + group_end(c, j, depth)->0),
    decreases c.len() - j,
{
    if j < c.len() {
        assert(s[k + j] == s.subrange(k, k + c.len())[j]);
        if c[j] == '(' {
            lemma_group_inside(s, k, c, j + 1, depth + 1);
        } else if c[j] == ')' {
            if depth != 1 {
                lemma_group_inside(s, k, c, j + 1, depth - 1);
            }
        } else {
            lemma_group_inside(s, k, c, j + 1, depth);
        }
    }
}

proof fn lemma_word_inside(s: Seq<char>, k: int, w: Seq<char>, j: int)
    requires
        0 <= k,
        0 <= j <= w.len(),
        k + w.len() <= s.len(),
        s.subrange(k, k + w.len()) == w,
        plain_word(w),
        k + w.len() < s.len() ==> is_ws(s[k + w.len()]),
    ensures
        word_end(s, k + j) == k + w.len(),
    decreases w.len() - j,
{
    if j < w.len() {
        assert(s[k + j] == s.subrange(k, k + w.len())[j]);
        lemma_word_inside(s, k, w, j + 1);
    }
}

proof fn lemma_and_list(s: Seq<char>, p: int, conds: Seq<Seq<char>>, i: int, acc: Seq<Seq<char>>)
    requires
        0 <= p <= s.len(),
        0 <= i <= conds.len(),
        s.skip(p) == condition_tail(conds, i),
        forall|k: int| 0 <= k < conds.len() ==> plain_condition(#[trigger] conds[k]),
    ensures
        and_list(s, p, acc) == Ok::<Seq<Seq<char>>, Seq<char>>(acc + conds.skip(i)),
    decreases conds.len() - i,
{
    let t = s.skip(p);
    if i == conds.len() {
        assert(t =~= Seq::empty());
        assert(p == s.len());
        assert(acc + conds.skip(i) =~= acc);
    } else {
        reveal_strlit(" and ");
        reveal_strlit("and");
        let c = conds[i];
        let rest = condition_tail(conds, i + 1);
        assert(plain_condition(c));
        assert(t =~= " and "@ + c + rest);
        assert(s[p] == t[0] && s[p + 1] == t[1] && s[p + 2] == t[2] && s[p + 3] == t[3]);
        assert(s[p + 4] == t[4] && s[p + 5] == t[5]);
        assert(t[5] == c[0]);
        reveal_with_fuel(ws_end, 3);
        assert(ws_end(s, p) == p + 1);
        let w = s.subrange(p + 1, p + 4);
        assert(w =~= "and"@);
        assert(plain_word(w));
        lemma_word_inside(s, p + 1, w, 0);
        assert(lower(w) =~= "and"@);
        assert(joint_end(s, p + 1) == p + 5);
        assert(s.subrange(p + 5, p + 5 + c.len()) =~= c) by {
            assert forall|j: int| 0 <= j < c.len() implies s[p + 5 + j] == #[trigger] c[j] by {
                assert(s[p + 5 + j] == t[5 + j]);
            }
        }
        lemma_group_inside(s, p + 5, c, 0, 0);
        let e = p + 5 + c.len();
        assert(s.skip(e) =~= rest) by {
            assert forall|j: int| 0 <= j < rest.len() implies s[e + j] == #[trigger] rest[j] by {
                assert(s[e + j] == t[5 + c.len() + j]);
            }
        }
        lemma_and_list(s, e, conds, i + 1, acc.push(c));
        assert(acc.push(c) + conds.skip(i + 1) =~= acc + conds.skip(i));
    }
}

proof fn lemma_and_list_from_word(s: Seq<char>, p: int, conds: Seq<Seq<char>>)
    requires
        0 <= p,
        p + 1 < s.len(),
        s[p] == ' ',
        !is_ws(s[p + 1]),
        s.skip(p) == condition_tail(conds, 0),
        forall|k: int| 0 <= k < conds.len() ==> plain_condition(#[trigger] conds[k]),
    ensures
        and_list(s, p + 1, Seq::empty()) == Ok::<Seq<Seq<char>>, Seq<char>>(conds),
{
    lemma_and_list(s, p, conds, 0, Seq::empty());
    assert(Seq::<Seq<char>>::empty() + conds.skip(0) =~= conds);
    reveal_with_fuel(ws_end, 3);
    assert(ws_end(s, p) == p + 1);
    assert(ws_end(s, p + 1) == p + 1);
    assert(and_list(s, p + 1, Seq::empty()) == and_list(s, p, Seq::empty()));
}

proof fn lemma_query_with_modifier(s: Seq<char>, m: Seq<char>, t: Seq<char>, conds: Seq<Seq<char>>)
    requires
        s == m.push(' ') + t + condition_tail(conds, 0),
        plain_word(m),
        plain_word(t),
        lower(t) != "and"@,
        forall|k: int| 0 <= k < conds.len() ==> plain_condition(#[trigger] conds[k]),
    ensures
        parsed_query(s) == Ok::<Query, Seq<char>>(
            Query {
                modifier: Some(m),
                mtype: Some(t),
                conditions: conds,
                conjunction_and: true,
            },
        ),
{
    let tail = condition_tail(conds, 0);
    let j = m.len() as int;
    let k = j + 1;
    let p = k + t.len();
    assert(s.subrange(0, j) =~= m);
    assert(s.subrange(k, p) =~= t);
    assert(s.skip(p) =~= tail);
    assert(s[j] == ' ');
    assert(s[0] == m[0]);
    assert(s[k] == t[0]);
    assert(p < s.len() ==> is_ws(s[p])) by {
        if p < s.len() {
            reveal_strlit(" and ");
            assert(s[p] == tail[0]);
        }
    }
    assert(ws_end(s, 0) == 0);
    lemma_word_inside(s, 0, m, 0);
    assert(ws_end(s, j) == k) by {
        assert(ws_end(s, k) == k);
    }
    lemma_word_inside(s, k, t, 0);
    lemma_and_list(s, p, conds, 0, Seq::empty());
    assert(Seq::<Seq<char>>::empty() + conds.skip(0) =~= conds);
}

proof fn lemma_query_without_modifier(s: Seq<char>, t: Seq<char>, conds: Seq<Seq<char>>)
    requires
        s == t + condition_tail(conds, 0),
        plain_word(t),
        forall|k: int| 0 <= k < conds.len() ==> plain_condition(#[trigger] conds[k]),
    ensures
        parsed_query(s) == Ok::<Query, Seq<char>>(
            Query { modifier: None, mtype: Some(t), conditions: conds, conjunction_and: true },
        ),
{
    let tail = condition_tail(conds, 0);
    let p = t.len() as int;
    assert(s.subrange(0, p) =~= t);
    assert(s.skip(p) =~= tail);
    assert(s[0] == t[0]);
    assert(ws_end(s, 0) == 0);
    if conds.len() > 0 {
        reveal_strlit(" and ");
        reveal_strlit("and");
        assert(s[p] == tail[0] && s[p + 1] == tail[1] && s[p + 2] == tail[2]);
        assert(s[p + 3] == tail[3] && s[p + 4] == tail[4]);
        lemma_word_inside(s, 0, t, 0);
        assert(ws_end(s, p) == p + 1) by {
            assert(ws_end(s, p + 1) == p + 1);
        }
        let w = s.subrange(p + 1, p + 4);
        assert(w =~= "and"@);
        assert(plain_word(w));
        lemma_word_inside(s, p + 1, w, 0);
        assert(lower(w) =~= "and"@);
        lemma_and_list_from_word(s, p, conds);
    } else {
        assert(tail =~= Seq::empty());
        assert(p == s.len());
        lemma_word_inside(s, 0, t, 0);
        lemma_and_list(s, p, conds, 0, Seq::empty());
        assert(Seq::<Seq<char>>::empty() + conds.skip(0) =~= conds);
    }
}

/// Parsing undoes serialization: a query with a type, whose parts can stand in a query, is read back
/// from its text as it was.
pub proof fn parsing_undoes_rendering(q: Query)
    requires
        q.mtype is Some,
        plain_word(q.mtype->0),
        q.modifier is Some ==> plain_word(q.modifier->0) && lower(q.mtype->0) != "and"@,
        q.conjunction_and,
        forall|k: int| 0 <= k < q.conditions.len() ==> plain_condition(#[trigger] q.conditions[k]),
    ensures
        parsed_query(rendered(q)) == Ok::<Query, Seq<char>>(q),
{
    let s = rendered(q);
    let t = q.mtype->0;
    let tail = condition_tail(q.conditions, 0);
    if q.conditions.len() > 0 {
        lemma_tail_is_joined(q.conditions);
    }
    match q.modifier {
        Some(m) => {
            assert(s =~= m.push(' ') + t + tail);
            lemma_query_with_modifier(s, m, t, q.conditions);
        },
        None => {
            assert(s =~= t + tail);
            lemma_query_without_modifier(s, t, q.conditions);
        },
    }
}

} // verus!
