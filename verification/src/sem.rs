//! What expressions, calls and function bodies evaluate to.
//!
//! Every function here gives a result, or a stop, and the state after it. `fuel` bounds how deep
//! expressions and calls may nest.

use vstd::prelude::*;
use crate::analysis::{has_non_calc, substitutes};
use crate::ast::{BinOp, CallArg, Expr};
use crate::at_root::words;
use crate::env::{Passed, Scopes, listed};
use crate::error::{Pos, fault, fault_at};
use crate::eval::{
    Conf, Ev, Rep, Run, asked_bits, asked_flag, asked_int, asked_text, asked_value, fail,
    local_set, plain_css, styled_calc, with_var,
};
use crate::host::{Answer, Ask, Halt, Task, ask_names, ask_numbers, ask_value, ask_values};
use crate::members::MemberKind;
use crate::meta::{
    accepts_content, content_exists, function_exists, get_function, get_mixin, keywords_value,
    mixin_exists, variable_exists, wrong_type,
};
use crate::names::{complete_calculation, dashed};
use crate::ops::{folded, kept};
use crate::report::{finalized, source_of};
use crate::roster::module_members;
use crate::state::{Vars, get};
use crate::text::{joined, lower, starts};
use crate::value::{
    Cal, CalcOp, ListSep, Num, Val, all_slashless, slashless, unit_of, unitless, with_unit,
};

verus! {

// ---- without recursion ---------------------------------------------------

/// The value of `&`: the selectors of the enclosing rule, each a list of its words.
pub open spec fn word_vals(ws: Seq<Seq<char>>) -> Seq<Val> {
    Seq::new(ws.len(), |i: int| Val::Str(ws[i], false))
}

pub open spec fn space_list(items: Seq<Val>) -> Val {
    Val::List { items, sep: ListSep::Space, bracketed: false, keywords: None }
}

pub open spec fn selector_vals(sels: Seq<Seq<char>>) -> Seq<Val> {
    Seq::new(sels.len(), |i: int| space_list(word_vals(words(sels[i]))))
}

#[verifier::opaque]
pub open spec fn parent_value(s: Ev) -> Val {
    match s.selector {
        None => Val::Null,
        Some(sels) => if sels.len() == 0 {
            Val::Null
        } else {
            Val::List {
                items: selector_vals(sels),
                sep: ListSep::Comma,
                bracketed: false,
                keywords: None,
            }
        },
    }
}

/// A call as text.
pub open spec fn call_text(name: Seq<char>, parts: Seq<Seq<char>>) -> Seq<char> {
    name.push('(') + joined(parts, ", "@) + ")"@
}

/// An error on its way out of an expression is rendered.
pub open spec fn settle<T>(r: Run<T>) -> Run<T> {
    match r {
        (Err(Halt::Error(f)), s) => (Err(Halt::Error(finalized(s, f))), s),
        other => other,
    }
}

/// The text of a value in interpolation, as a string.
#[verifier::opaque]
pub open spec fn interpolated_string(s: Ev, ans: Seq<Answer>, v: Val) -> Run<Val> {
    match asked_text(s, ans, ask_value(Task::Interp, v)) {
        (Err(h), s1) => (Err(h), s1),
        (Ok(t), s1) => (Ok(Val::Str(t, false)), s1),
    }
}

pub open spec fn text_value(r: Run<Seq<char>>, quoted: bool) -> Run<Val> {
    match r {
        (Err(h), s) => (Err(h), s),
        (Ok(t), s) => (Ok(Val::Str(t, quoted)), s),
    }
}

/// Whether a key is among those of a map, from `i` on.
pub open spec fn holds_key(s: Ev, ans: Seq<Answer>, m: Seq<(Val, Val)>, key: Val, i: int) -> Run<bool>
    decreases m.len() - i,
{
    if i < 0 || i >= m.len() {
        (Ok(false), s)
    } else {
        match asked_flag(s, ans, ask_values(Task::SameValue, m[i].0, key)) {
            (Err(h), s1) => (Err(h), s1),
            (Ok(true), s1) => (Ok(true), s1),
            (Ok(false), s1) => holds_key(s1, ans, m, key, i + 1),
        }
    }
}

/// What a calculation is as a value: a number, or a complete calculation as text, without the
/// `calc()` round it; in a `@supports` declaration always as it is.
#[verifier::opaque]
pub open spec fn calc_value(s: Ev, c: Cal) -> Val {
    if s.supports {
        Val::Calc(c)
    } else {
        match c {
            Cal::Number(n) => Val::Number(n),
            Cal::Str(t) => if complete_calculation(t) {
                Val::Str(t, false)
            } else {
                Val::Calc(c)
            },
            other => Val::Calc(other),
        }
    }
}

/// Whether an argument is named or spread.
pub open spec fn special_arg(a: CallArg) -> bool {
    a.splat || a.name is Some
}

pub open spec fn any_special(args: Seq<CallArg>) -> bool {
    exists|k: int| 0 <= k < args.len() && special_arg(#[trigger] args[k])
}

pub open spec fn any_splat(args: Seq<CallArg>) -> bool {
    exists|k: int| 0 <= k < args.len() && (#[trigger] args[k]).splat
}

pub open spec fn any_named(args: Seq<CallArg>) -> bool {
    exists|k: int| 0 <= k < args.len() && (#[trigger] args[k]).name is Some
}

pub open spec fn any_non_calc(args: Seq<CallArg>) -> bool {
    exists|k: int| 0 <= k < args.len() && has_non_calc((#[trigger] args[k]).value)
}

/// A keyword that says how `round()` rounds.
pub open spec fn rounding_strategy(t: Seq<char>) -> bool {
    let n = lower(t);
    n == "nearest"@ || n == "up"@ || n == "down"@ || n == "to-zero"@
}

/// Whether an argument of `round()` is a number, or the strategy at its start.
pub open spec fn round_settled(nodes: Seq<Cal>, i: int) -> bool {
    match nodes[i] {
        Cal::Number(_) => true,
        Cal::Str(t) => i == 0 && nodes.len() >= 2 && rounding_strategy(t),
        _ => false,
    }
}

pub open spec fn all_round_settled(nodes: Seq<Cal>) -> bool {
    forall|i: int| 0 <= i < nodes.len() ==> #[trigger] round_settled(nodes, i)
}

/// A string without quotes that holds `=`.
pub open spec fn filter_word(v: Val) -> bool {
    match v {
        Val::Str(t, q) => !q && t.contains('='),
        _ => false,
    }
}

pub open spec fn all_filter_words(p: Seq<Val>) -> bool {
    forall|k: int| 0 <= k < p.len() ==> filter_word(#[trigger] p[k])
}

/// The CSS texts of values, from `i` on, after `acc`.
pub open spec fn css_texts(s: Ev, ans: Seq<Answer>, p: Seq<Val>, i: int, acc: Seq<Seq<char>>) -> Run<
    Seq<Seq<char>>,
>
    decreases p.len() - i,
{
    if i < 0 || i >= p.len() {
        (Ok(acc), s)
    } else {
        match plain_css(s, ans, p[i]) {
            (Err(h), s1) => (Err(h), s1),
            (Ok(t), s1) => css_texts(s1, ans, p, i + 1, acc.push(t)),
        }
    }
}

/// The CSS texts of named values, from `i` on, after `acc`.
pub open spec fn named_texts(s: Ev, ans: Seq<Answer>, n: Vars, i: int, acc: Seq<Seq<char>>) -> Run<
    Seq<Seq<char>>,
>
    decreases n.len() - i,
{
    if i < 0 || i >= n.len() {
        (Ok(acc), s)
    } else {
        match plain_css(s, ans, n[i].1) {
            (Err(h), s1) => (Err(h), s1),
            (Ok(t), s1) => named_texts(s1, ans, n, i + 1, acc.push(seq!['$'] + n[i].0 + ": "@ + t)),
        }
    }
}

/// The texts of calculations in the style of the output, from `i` on, after `acc`.
pub open spec fn calc_texts(s: Ev, ans: Seq<Answer>, nodes: Seq<Cal>, i: int, acc: Seq<Seq<char>>) -> Run<
    Seq<Seq<char>>,
>
    decreases nodes.len() - i,
{
    if i < 0 || i >= nodes.len() {
        (Ok(acc), s)
    } else {
        match styled_calc(s, ans, nodes[i]) {
            (Err(h), s1) => (Err(h), s1),
            (Ok(t), s1) => calc_texts(s1, ans, nodes, i + 1, acc.push(t)),
        }
    }
}

/// A call kept as text.
#[verifier::opaque]
pub open spec fn kept_call(s: Ev, ans: Seq<Answer>, name: Seq<char>, nodes: Seq<Cal>) -> Run<Val> {
    match calc_texts(s, ans, nodes, 0, Seq::empty()) {
        (Err(h), s1) => (Err(h), s1),
        (Ok(parts), s1) => (Ok(Val::Str(call_text(name, parts), false)), s1),
    }
}

pub open spec fn named_slashless(n: Vars) -> Vars {
    Seq::new(n.len(), |i: int| (n[i].0, slashless(n[i].1)))
}

/// The question that calls a function.
pub open spec fn ask_call(task: Task, names: Seq<Seq<char>>, p: Seq<Val>, n: Vars, pos: Pos) -> Ask {
    Ask { task, values: p, names, named: n, numbers: Seq::empty(), pos: Some(pos) }
}

/// What a built-in function gives.
pub open spec fn builtin_call(
    s: Ev,
    ans: Seq<Answer>,
    task: Task,
    names: Seq<Seq<char>>,
    p: Seq<Val>,
    n: Vars,
    pos: Pos,
) -> Run<Val> {
    match asked_value(s, ans, ask_call(task, names, p, n, pos)) {
        (Err(h), s1) => (Err(h), s1),
        (Ok(v), s1) => (Ok(slashless(v)), s1),
    }
}

/// The first built-in module used without a namespace, from `i` on, that has the function.
pub open spec fn star_builtin_owner(s: Ev, ans: Seq<Answer>, name: Seq<char>, i: int) -> Run<Option<Seq<char>>>
    decreases s.uses.star_builtin.len() - i,
{
    if i < 0 || i >= s.uses.star_builtin.len() {
        (Ok(None), s)
    } else {
        let m = s.uses.star_builtin[i];
        match asked_flag(s, ans, ask_names(Task::HasMember, seq![m, name])) {
            (Err(h), s1) => (Err(h), s1),
            (Ok(true), s1) => (Ok(Some(m)), s1),
            (Ok(false), s1) => star_builtin_owner(s1, ans, name, i + 1),
        }
    }
}

/// A global function called with evaluated arguments: that of a built-in module used without a
/// namespace where the global one does not exist.
#[verifier::opaque]
pub open spec fn global_call(
    s: Ev,
    ans: Seq<Answer>,
    name: Seq<char>,
    p: Seq<Val>,
    n: Vars,
    pos: Pos,
) -> Run<Val> {
    match asked_flag(s, ans, ask_names(Task::IsBuiltin, seq![name])) {
        (Err(h), s1) => (Err(h), s1),
        (Ok(true), s1) => builtin_call(
            s1,
            ans,
            Task::Call,
            seq![name],
            all_slashless(p),
            named_slashless(n),
            pos,
        ),
        (Ok(false), s1) => match star_builtin_owner(s1, ans, name, 0) {
            (Err(h), s2) => (Err(h), s2),
            (Ok(Some(m)), s2) => builtin_call(
                s2,
                ans,
                Task::CallModule,
                seq![m, name],
                all_slashless(p),
                named_slashless(n),
                pos,
            ),
            (Ok(None), s2) => builtin_call(s2, ans, Task::Call, seq![name], p, n, pos),
        },
    }
}

/// A name without a prefix, if it has it.
pub open spec fn unprefixed(name: Seq<char>, prefix: Option<Seq<char>>) -> Option<Seq<char>> {
    match prefix {
        None => Some(name),
        Some(p) => if starts(name, p) {
            Some(name.skip(p.len() as int))
        } else {
            None
        },
    }
}

/// The built-in module, and the name in it, that a forwarded member is, from `i` on.
pub open spec fn forwarded_owner(s: Ev, ans: Seq<Answer>, list: Seq<Passed>, member: Seq<char>, i: int) -> Run<
    Option<(Seq<char>, Seq<char>)>,
>
    decreases list.len() - i,
{
    if i < 0 || i >= list.len() {
        (Ok(None), s)
    } else {
        match unprefixed(member, list[i].prefix) {
            None => forwarded_owner(s, ans, list, member, i + 1),
            Some(bare) => if !listed(list[i].show, list[i].hide, bare) {
                forwarded_owner(s, ans, list, member, i + 1)
            } else {
                match asked_flag(s, ans, ask_names(Task::HasMember, seq![list[i].module, bare])) {
                    (Err(h), s1) => (Err(h), s1),
                    (Ok(true), s1) => (Ok(Some((list[i].module, bare))), s1),
                    (Ok(false), s1) => forwarded_owner(s1, ans, list, member, i + 1),
                }
            },
        }
    }
}

/// The names of the meta functions that also have a global name.
#[verifier::opaque]
pub open spec fn global_meta(name: Seq<char>) -> bool {
    name == "variable-exists"@ || name == "global-variable-exists"@ || name == "mixin-exists"@ || name
        == "function-exists"@ || name == "content-exists"@ || name == "get-function"@ || name == "call"@
        || name == "keywords"@
}

/// A truth value as a value.
pub open spec fn flag_value(r: Run<bool>) -> Run<Val> {
    match r {
        (Err(h), s) => (Err(h), s),
        (Ok(b), s) => (Ok(Val::Bool(b)), s),
    }
}

/// A meta function other than `call`; nothing where there is none of this name.
#[verifier::opaque]
pub open spec fn meta_function(
    s: Ev,
    ans: Seq<Answer>,
    member: Seq<char>,
    p: Seq<Val>,
    n: Vars,
    pos: Pos,
) -> Option<Run<Val>> {
    if member == "variable-exists"@ {
        Some(flag_value(variable_exists(s, ans, p, n, pos, false)))
    } else if member == "global-variable-exists"@ {
        Some(flag_value(variable_exists(s, ans, p, n, pos, true)))
    } else if member == "mixin-exists"@ {
        Some(flag_value(mixin_exists(s, ans, p, n, pos)))
    } else if member == "function-exists"@ {
        Some(flag_value(function_exists(s, ans, p, n, pos)))
    } else if member == "content-exists"@ {
        Some(flag_value(content_exists(s, p, pos)))
    } else if member == "get-function"@ {
        Some(get_function(s, ans, p, n, pos))
    } else if member == "get-mixin"@ {
        Some(get_mixin(s, ans, p, n, pos))
    } else if member == "module-variables"@ {
        Some(module_members(s, ans, p, n, pos, MemberKind::Variable))
    } else if member == "module-functions"@ {
        Some(module_members(s, ans, p, n, pos, MemberKind::Function))
    } else if member == "module-mixins"@ {
        Some(module_members(s, ans, p, n, pos, MemberKind::Mixin))
    } else if member == "accepts-content"@ {
        Some(accepts_content(s, ans, p, n, pos))
    } else if member == "keywords"@ {
        Some(keywords_value(s, ans, p, n, pos))
    } else {
        None
    }
}

/// The function that `call()` is given, the arguments it passes on, or what is wrong.
pub open spec fn call_target(s: Ev, p: Seq<Val>, n: Vars, pos: Pos) -> Run<(Val, Seq<Val>)> {
    if p.len() > 0 {
        (Ok((p[0], p.skip(1))), s)
    } else {
        match get(n, "function"@) {
            Some(v) => (Ok((v, Seq::empty())), s),
            None => fail(fault_at("Missing argument $function."@, pos), s),
        }
    }
}

/// Named arguments but for `name`.
pub open spec fn without_name(n: Vars, name: Seq<char>) -> Vars
    decreases n.len(),
{
    if n.len() == 0 {
        Seq::empty()
    } else if n.last().0 == name {
        without_name(n.drop_last(), name)
    } else {
        without_name(n.drop_last(), name).push(n.last())
    }
}

/// The state inside a module: its scopes, what it uses, and its file.
#[verifier::opaque]
pub open spec fn module_entered(s: Ev, m: usize) -> Ev {
    if m >= s.modules.len() {
        s
    } else {
        let mo = s.modules[m as int];
        let s1 = Ev {
            chain: Scopes {
                scopes: seq![mo.vars],
                semi: seq![true],
                functions: seq![mo.functions],
                mixins: seq![mo.mixins],
            },
            uses: mo.uses,
            ..s
        };
        if mo.diag_url.len() == 0 {
            s1
        } else {
            Ev {
                report: Rep {
                    url: mo.diag_url,
                    source: source_of(s1, mo.diag_url),
                    ..s1.report
                },
                page: crate::page::Leaf {
                    file_dir: if mo.file_dir.len() == 0 {
                        None
                    } else {
                        Some(mo.file_dir)
                    },
                    ..s1.page
                },
                ..s1
            }
        }
    }
}

/// The state after what was done inside a module that was entered from `from`.
#[verifier::opaque]
pub open spec fn module_left(s: Ev, m: usize, from: Ev) -> Ev {
    if m >= from.modules.len() {
        s
    } else {
        let s1 = if from.modules[m as int].diag_url.len() == 0 {
            s
        } else {
            Ev {
                report: Rep { url: from.report.url, source: from.report.source, ..s.report },
                page: crate::page::Leaf { file_dir: from.page.file_dir, ..s.page },
                ..s
            }
        };
        Ev { chain: from.chain, uses: from.uses, ..s1 }
    }
}

/// What a function returned, or the error that it returned nothing.
pub open spec fn returned(r: Run<Option<Val>>, name: Seq<char>) -> Run<Val> {
    match r {
        (Err(h), s) => (Err(h), s),
        (Ok(Some(v)), s) => (Ok(slashless(v)), s),
        (Ok(None), s) => fail(fault("Function "@ + name + "() did not @return a value."@), s),
    }
}

/// The slot of `if()` that a name means.
pub open spec fn if_slot(name: Seq<char>) -> Option<int> {
    if name == "condition"@ {
        Some(0int)
    } else if name == "if-true"@ {
        Some(1int)
    } else if name == "if-false"@ {
        Some(2int)
    } else {
        None
    }
}

/// An argument of `if()`: an expression not evaluated yet, or a value out of a spread list.
pub ghost enum Branch {
    Lazy(Expr),
    Eager(Val),
}

/// The arguments of `if()`: by position, and by slot.
pub ghost struct Branches {
    pub by_pos: Seq<Branch>,
    pub slots: Seq<Option<Branch>>,
}

pub open spec fn no_branches() -> Branches {
    Branches { by_pos: Seq::empty(), slots: seq![None, None, None] }
}

pub open spec fn no_if_argument(name: Seq<char>) -> Seq<char> {
    "if() has no argument named $"@ + name + "."@
}

/// The arguments with a value by name.
pub open spec fn with_slot(s: Ev, b: Branches, name: Seq<char>, v: Branch, pos: Pos) -> Run<Branches> {
    match if_slot(name) {
        Some(i) => (Ok(Branches { slots: b.slots.update(i, Some(v)), ..b }), s),
        None => fail(fault_at(no_if_argument(name), pos), s),
    }
}

/// The arguments with the keywords of a spread list, from `i` on.
pub open spec fn with_if_keywords(s: Ev, b: Branches, kw: Seq<(Val, Val)>, i: int, pos: Pos) -> Run<Branches>
    decreases kw.len() - i,
{
    if i < 0 || i >= kw.len() {
        (Ok(b), s)
    } else {
        match kw[i].0 {
            Val::Str(t, q) => match with_slot(s, b, t, Branch::Eager(kw[i].1), pos) {
                (Err(h), s1) => (Err(h), s1),
                (Ok(b1), s1) => with_if_keywords(s1, b1, kw, i + 1, pos),
            },
            _ => with_if_keywords(s, b, kw, i + 1, pos),
        }
    }
}

/// The arguments with the entries of a spread map, from `i` on.
pub open spec fn with_if_map(s: Ev, ans: Seq<Answer>, b: Branches, m: Seq<(Val, Val)>, i: int, pos: Pos) -> Run<
    Branches,
>
    decreases m.len() - i,
{
    if i < 0 || i >= m.len() {
        (Ok(b), s)
    } else {
        match m[i].0 {
            Val::Str(t, q) => match with_slot(s, b, t, Branch::Eager(m[i].1), pos) {
                (Err(h), s1) => (Err(h), s1),
                (Ok(b1), s1) => with_if_map(s1, ans, b1, m, i + 1, pos),
            },
            k => wrong_type(
                s,
                ans,
                "Variable keyword argument map must have string keys.\n"@,
                k,
                " is not a string."@,
                pos,
            ),
        }
    }
}

pub open spec fn eager(vs: Seq<Val>) -> Seq<Branch> {
    Seq::new(vs.len(), |i: int| Branch::Eager(vs[i]))
}

/// The arguments with a spread value.
#[verifier::opaque]
pub open spec fn with_if_spread(s: Ev, ans: Seq<Answer>, b: Branches, v: Val, pos: Pos) -> Run<Branches> {
    match v {
        Val::List { items, sep, bracketed, keywords } => {
            let kw = match keywords {
                Some(k) => k,
                None => Seq::empty(),
            };
            match with_if_keywords(s, b, kw, 0, pos) {
                (Err(h), s1) => (Err(h), s1),
                (Ok(b1), s1) => (Ok(Branches { by_pos: b1.by_pos + eager(items), ..b1 }), s1),
            }
        },
        Val::Pairs(m) => with_if_map(s, ans, b, m, 0, pos),
        other => (Ok(Branches { by_pos: b.by_pos.push(Branch::Eager(other)), ..b }), s),
    }
}

/// The three arguments in the end: a slot without a name takes the next one by position.
#[verifier::opaque]
pub open spec fn filled(b: Branches) -> Option<(Branch, Branch, Branch)> {
    let c = b.slots[0];
    let k1: int = if c is Some {
        0
    } else {
        1
    };
    let t = b.slots[1];
    let k2: int = if t is Some {
        k1
    } else {
        k1 + 1
    };
    let f = b.slots[2];
    let k3: int = if f is Some {
        k2
    } else {
        k2 + 1
    };
    if k3 > b.by_pos.len() {
        None
    } else {
        Some((
            if c is Some {
                c->0
            } else {
                b.by_pos[0]
            },
            if t is Some {
                t->0
            } else {
                b.by_pos[k1]
            },
            if f is Some {
                f->0
            } else {
                b.by_pos[k2]
            },
        ))
    }
}

/// A value in a CSS `if()` that is kept: a list is put in parentheses.
#[verifier::opaque]
pub open spec fn if_value_text(s: Ev, ans: Seq<Answer>, v: Val) -> Run<Seq<char>> {
    match v {
        Val::Null => (Ok("null"@), s),
        Val::List { .. } => match plain_css(s, ans, v) {
            (Err(h), s1) => (Err(h), s1),
            (Ok(t), s1) => (Ok(seq!['('] + t + seq![')']), s1),
        },
        _ => plain_css(s, ans, v),
    }
}

/// The text of a value that no calculation can hold.
pub open spec fn calc_value_text(s: Ev, ans: Seq<Answer>, v: Val) -> Run<Seq<char>> {
    if_value_text(s, ans, v)
}

/// The bits of the number that a constant of a calculation is, whatever the case of its letters.
#[verifier::opaque]
pub open spec fn constant_bits(text: Seq<char>) -> Option<u64> {
    let t = lower(text);
    if t == "pi"@ {
        Some(0x4009_21FB_5444_2D18)
    } else if t == "e"@ {
        Some(0x4005_BF0A_8B14_5769)
    } else if t == "infinity"@ {
        Some(0x7FF0_0000_0000_0000)
    } else if t == "-infinity"@ {
        Some(0xFFF0_0000_0000_0000)
    } else if t == "nan"@ {
        Some(0x7FF8_0000_0000_0000)
    } else {
        None
    }
}

/// A leaf of a calculation.
#[verifier::opaque]
pub open spec fn calc_leaf(s: Ev, ans: Seq<Answer>, v: Val) -> Run<Cal> {
    match v {
        Val::Str(t, false) => match constant_bits(t) {
            Some(b) => (
                Ok(Cal::Number(Num { bits: b, numer: Seq::empty(), denom: Seq::empty() })),
                s,
            ),
            None => match plain_css(s, ans, v) {
                (Err(h), s1) => (Err(h), s1),
                (Ok(x), s1) => (Ok(Cal::Str(x)), s1),
            },
        },
        Val::Number(n) => (Ok(Cal::Number(n)), s),
        Val::Slash(n, t) => (Ok(Cal::Number(n)), s),
        Val::Calc(c) => (Ok(c), s),
        other => match calc_value_text(s, ans, other) {
            (Err(h), s1) => (Err(h), s1),
            (Ok(t), s1) => fail(fault("Value "@ + t + " can't be used in a calculation."@), s1),
        },
    }
}

pub open spec fn calc_op(op: BinOp) -> Option<CalcOp> {
    match op {
        BinOp::Add => Some(CalcOp::Add),
        BinOp::Sub => Some(CalcOp::Sub),
        BinOp::Mul => Some(CalcOp::Mul),
        _ => None,
    }
}

/// An operation of a calculation: folded, but in a `@supports` declaration.
pub open spec fn calc_operation(s: Ev, ans: Seq<Answer>, op: CalcOp, l: Cal, r: Cal, pos: Pos) -> Run<Cal> {
    if s.supports {
        (Ok(kept(op, l, r)), s)
    } else {
        folded(s, ans, op, l, r, pos)
    }
}

/// The negative of a calculation.
#[verifier::opaque]
pub open spec fn calc_negative(s: Ev, ans: Seq<Answer>, c: Cal) -> Run<Cal> {
    match c {
        Cal::Number(n) => match asked_bits(s, ans, ask_numbers(Task::Negative, seq![n.bits])) {
            (Err(h), s1) => (Err(h), s1),
            (Ok(None), s1) => (Err(Halt::Mismatch), s1),
            (Ok(Some(x)), s1) => (Ok(Cal::Number(Num { bits: x, ..n })), s1),
        },
        other => match asked_int_bits(s, ans, -1) {
            (Err(h), s1) => (Err(h), s1),
            (Ok(b), s1) => (
                Ok(
                    kept(
                        CalcOp::Mul,
                        Cal::Number(Num { bits: b, numer: Seq::empty(), denom: Seq::empty() }),
                        other,
                    ),
                ),
                s1,
            ),
        },
    }
}

/// The bits that an integer, by its magnitude and sign, has as a number.
pub open spec fn asked_int_bits(s: Ev, ans: Seq<Answer>, i: int) -> Run<u64> {
    match asked_bits(
        s,
        ans,
        ask_numbers(
            Task::FromInteger,
            if i < 0 {
                seq![1u64, (-i) as u64]
            } else {
                seq![0u64, i as u64]
            },
        ),
    ) {
        (Err(h), s1) => (Err(h), s1),
        (Ok(None), s1) => (Err(Halt::Mismatch), s1),
        (Ok(Some(b)), s1) => (Ok(b), s1),
    }
}

pub open spec fn in_parens(t: Seq<char>) -> Seq<char> {
    seq!['('] + t + seq![')']
}

/// Whether an item of a list in a calculation is a variable.
pub open spec fn is_variable(e: Expr) -> bool {
    e is Var || e is NsVar
}

pub open spec fn any_substitutes(items: Seq<Expr>) -> bool {
    exists|k: int| 0 <= k < items.len() && substitutes(#[trigger] items[k])
}

pub open spec fn any_variable(items: Seq<Expr>) -> bool {
    exists|k: int| 0 <= k < items.len() && is_variable(#[trigger] items[k])
}

/// The items that an `@each` runs through.
pub open spec fn each_items(v: Val) -> Seq<Val> {
    match v {
        Val::List { items, sep, bracketed, keywords } => items,
        Val::Pairs(m) => Seq::new(m.len(), |i: int| space_list(seq![m[i].0, m[i].1])),
        Val::Null => Seq::empty(),
        other => seq![other],
    }
}

/// The state with the variables of an `@each` set to the elements of an item, from `i` on.
pub open spec fn each_bound(s: Ev, vars: Seq<String>, elems: Seq<Val>, i: int) -> Ev
    decreases vars.len() - i,
{
    if i < 0 || i >= vars.len() {
        s
    } else {
        each_bound(
            local_set(
                s,
                vars[i]@,
                if i < elems.len() {
                    elems[i]
                } else {
                    Val::Null
                },
            ),
            vars,
            elems,
            i + 1,
        )
    }
}

/// The state with the variables of an `@each` set to an item: one variable takes all of it.
pub open spec fn each_set(s: Ev, vars: Seq<String>, v: Val) -> Ev {
    if vars.len() == 1 {
        local_set(s, vars[0]@, v)
    } else {
        each_bound(
            s,
            vars,
            match v {
                Val::List { items, sep, bracketed, keywords } => items,
                other => seq![other],
            },
            0,
        )
    }
}

/// The integer bounds of a `@for`, and the unit of its variable, from its two numbers.
#[verifier::opaque]
pub open spec fn loop_bounds(s: Ev, ans: Seq<Answer>, a: Num, b: Num) -> Run<(i64, i64, Seq<char>)> {
    let end = if unitless(a) || unitless(b) {
        (Ok(b.bits), s)
    } else {
        match asked_bits(s, ans, ask_names(Task::ConvertFactor, seq![unit_of(b), unit_of(a)])) {
            (Err(h), s1) => (Err(h), s1),
            (Ok(None), s1) => match plain_css(s1, ans, Val::Number(b)) {
                (Err(h), s2) => (Err(h), s2),
                (Ok(t), s2) => fail(fault("Expected "@ + t + " to have unit "@ + unit_of(a) + "."@), s2),
            },
            (Ok(Some(f)), s1) => match asked_bits(s1, ans, ask_numbers(Task::Scale, seq![b.bits, f])) {
                (Err(h), s2) => (Err(h), s2),
                (Ok(None), s2) => (Err(Halt::Mismatch), s2),
                (Ok(Some(x)), s2) => (Ok(x), s2),
            },
        }
    };
    match end {
        (Err(h), s1) => (Err(h), s1),
        (Ok(e), s1) => match whole(s1, ans, a) {
            (Err(h), s2) => (Err(h), s2),
            (Ok(i), s2) => match whole(s2, ans, with_unit(e, unit_of(a))) {
                (Err(h), s3) => (Err(h), s3),
                (Ok(j), s3) => (Ok((i, j, unit_of(a))), s3),
            },
        },
    }
}

/// The integer that a number is.
pub open spec fn whole(s: Ev, ans: Seq<Answer>, n: Num) -> Run<i64> {
    match asked_int(s, ans, ask_numbers(Task::Integer, seq![n.bits])) {
        (Err(h), s1) => (Err(h), s1),
        (Ok(Some(i)), s1) => (Ok(i), s1),
        (Ok(None), s1) => match plain_css(s1, ans, Val::Number(n)) {
            (Err(h), s2) => (Err(h), s2),
            (Ok(t), s2) => fail(fault(t + " is not an int."@), s2),
        },
    }
}

/// Whether a variable that may have a value already keeps it.
pub open spec fn has_value(v: Option<Val>) -> bool {
    v is Some && v->0 != Val::Null
}

/// The state with a variable of a module's own frame set.
pub open spec fn module_var_set(s: Ev, m: usize, name: Seq<char>, v: Val) -> Ev {
    if m < s.modules.len() {
        with_var(s, s.modules[m as int].vars, name, v)
    } else {
        s
    }
}

/// What the configuration gives a top-level `!default` variable.
#[verifier::opaque]
pub open spec fn configured(s: Ev, name: Seq<char>) -> Option<(Val, bool)> {
    get(s.config.pending, dashed(name))
}

/// The state with a configuration entry used.
#[verifier::opaque]
pub open spec fn config_used(s: Ev, name: Seq<char>) -> Ev {
    Ev {
        config: Conf { consumed: s.config.consumed.push(dashed(name)), ..s.config },
        ..s
    }
}

} // verus!
