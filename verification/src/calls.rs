//! Calls of functions.

use std::rc::Rc;
use vstd::prelude::*;
use crate::analysis::{
    expr_contains_calc_substitution, expr_has_non_calc_op, has_non_calc, is_word,
};
use crate::args::{
    Args, Gather, collect_keywords, empty_gather, find_keyword, finish_gather, keyword_list,
    keywords_of, leftover_error, make_rest_list, nothing_gathered, out_gather, take_keyword,
    values_beyond,
};
use crate::ast::{CallArg, Callable, ParamList};
use crate::calculations::{empty_calcs, holds_splat, push_calc, request_call};
use crate::env::{Chain, Closure, Scopes, Used, Uses};
use crate::error::Pos;
use crate::eval::{
    Ev, Evaluator, Run, ev_of, out_flag, out_unit, out_val, same_context, same_place, stop,
    stop_at,
};
use crate::expr::{empty_strings, empty_values, out_texts, push_string, write_call};
use crate::host::{Answer, Halt, Stop, Task, named_vals, one_name, request_names, two_names};
use crate::members::{MemberKind, no_namespace_message};
use crate::meta::only_allowed_message;
use crate::names::{
    is_calc_function, is_private_member, is_pure_calc_math_function, is_supports_calc_function,
    mixin_frame_name, normalize_arg_name,
};
use crate::page::leaf_of;
use crate::report::leaving_a_call_restores;
use crate::sem::{
    all_filter_words, all_round_settled, any_non_calc, any_special, builtin_call, css_texts,
    filter_word, flag_value, forwarded_owner, global_call, global_meta, meta_function,
    module_entered, module_left, named_slashless, named_texts, returned, round_settled,
    rounding_strategy, special_arg, star_builtin_owner, unprefixed, without_name,
};
use crate::semantics::{
    bind_scope, body_run, calculation_call, call_args, evaluated_call, function, meta_call,
    module_call, module_user_call, ref_call, round_call, user_call,
};
use crate::state::{get_var, opt_val};
use crate::text::{
    append_str, chars_of, clone_strings, has_char, same_str, starts_with, string_of, text_of,
    texts, to_lower,
};
use crate::value::{
    CalcNode, ListSep, Val, Value, are_numbers, cal, cals, copy_value, drop_slashes,
    is_any_opaque, val, vals, word,
};

verus! {

broadcast use crate::kept::group_kept;

// ---- questions about arguments -------------------------------------------

fn holds_special(args: &Vec<CallArg>) -> (r: bool)
    ensures
        r == any_special(args@),
{
    let mut i: usize = 0;
    while i < args.len()
        invariant
            i <= args@.len(),
            forall|k: int| 0 <= k < i ==> !special_arg(#[trigger] args@[k]),
        decreases args@.len() - i,
    {
        if args[i].splat || args[i].name.is_some() {
            proof {
                assert(special_arg(args@[i as int]));
            }
            return true;
        }
        i += 1;
    }
    false
}

fn holds_non_calc(args: &Vec<CallArg>) -> (r: bool)
    ensures
        r == any_non_calc(args@),
{
    let mut i: usize = 0;
    while i < args.len()
        invariant
            i <= args@.len(),
            forall|k: int| 0 <= k < i ==> !has_non_calc((#[trigger] args@[k]).value),
        decreases args@.len() - i,
    {
        if expr_has_non_calc_op(&args[i].value) {
            return true;
        }
        i += 1;
    }
    false
}

fn is_strategy(t: &str) -> (r: bool)
    ensures
        r == rounding_strategy(t@),
{
    is_word(t, "nearest") || is_word(t, "up") || is_word(t, "down") || is_word(t, "to-zero")
}

fn is_round_settled(nodes: &Vec<CalcNode>) -> (r: bool)
    ensures
        r == all_round_settled(cals(nodes@)),
{
    let ghost all = cals(nodes@);
    let mut i: usize = 0;
    while i < nodes.len()
        invariant
            i <= nodes@.len(),
            all == cals(nodes@),
            forall|k: int| 0 <= k < i ==> #[trigger] round_settled(all, k),
        decreases nodes@.len() - i,
    {
        let ok = match &nodes[i] {
            CalcNode::Number(_) => true,
            CalcNode::Str(t) => i == 0 && nodes.len() >= 2 && is_strategy(t.as_str()),
            _ => false,
        };
        proof {
            assert(all[i as int] == cal(nodes@[i as int]));
            assert(ok == round_settled(all, i as int));
        }
        if !ok {
            return false;
        }
        i += 1;
    }
    true
}

fn are_filter_words(p: &Vec<Value>) -> (r: bool)
    ensures
        r == all_filter_words(vals(p@)),
{
    let ghost all = vals(p@);
    let mut i: usize = 0;
    while i < p.len()
        invariant
            i <= p@.len(),
            all == vals(p@),
            forall|k: int| 0 <= k < i ==> filter_word(#[trigger] all[k]),
        decreases p@.len() - i,
    {
        let ok = match &p[i] {
            Value::Str(t) => {
                let chars = chars_of(t.text.as_str());
                !t.quoted && has_char(chars.as_slice(), '=')
            },
            _ => false,
        };
        proof {
            assert(ok == filter_word(all[i as int]));
        }
        if !ok {
            return false;
        }
        i += 1;
    }
    true
}

fn is_global_meta(name: &str) -> (r: bool)
    ensures
        r == global_meta(name@),
{
    proof {
        reveal(global_meta);
    }
    same_str(name, "variable-exists") || same_str(name, "global-variable-exists") || same_str(
        name,
        "mixin-exists",
    ) || same_str(name, "function-exists") || same_str(name, "content-exists") || same_str(
        name,
        "get-function",
    ) || same_str(name, "call") || same_str(name, "keywords")
}

pub fn drop_named_slashes(n: Vec<(String, Value)>) -> (r: Vec<(String, Value)>)
    ensures
        named_vals(r@) == named_slashless(named_vals(n@)),
{
    let ghost all = named_slashless(named_vals(n@));
    let mut out: Vec<(String, Value)> = Vec::new();
    let mut i: usize = 0;
    while i < n.len()
        invariant
            i <= n@.len(),
            all == named_slashless(named_vals(n@)),
            named_vals(out@) =~= all.take(i as int),
        decreases n@.len() - i,
    {
        let ghost before = named_vals(out@);
        let v = copy_value(&n[i].1).without_slash();
        let ghost vv = val(v);
        out.push((n[i].0.clone(), v));
        i += 1;
        proof {
            assert(named_vals(out@) =~= before.push((n@[i - 1].0@, vv)));
            assert(all.take(i as int) =~= all.take(i - 1).push(all[i - 1]));
        }
    }
    proof {
        assert(all.take(i as int) =~= all);
    }
    out
}

pub fn drop_name(n: &Vec<(String, Value)>, name: &str) -> (r: Vec<(String, Value)>)
    ensures
        named_vals(r@) == without_name(named_vals(n@), name@),
{
    let ghost all = named_vals(n@);
    let mut out: Vec<(String, Value)> = Vec::new();
    let mut i: usize = 0;
    proof {
        assert(named_vals(out@) =~= without_name(all.take(0), name@));
    }
    while i < n.len()
        invariant
            i <= n@.len(),
            all == named_vals(n@),
            named_vals(out@) == without_name(all.take(i as int), name@),
        decreases n@.len() - i,
    {
        let ghost before = named_vals(out@);
        proof {
            assert(all.take(i + 1).drop_last() =~= all.take(i as int));
            assert(all.take(i + 1).last() == all[i as int]);
        }
        if !same_str(n[i].0.as_str(), name) {
            let v = copy_value(&n[i].1);
            let ghost vv = val(v);
            out.push((n[i].0.clone(), v));
            proof {
                assert(named_vals(out@) =~= before.push((n@[i as int].0@, vv)));
            }
        }
        i += 1;
    }
    proof {
        assert(all.take(i as int) =~= all);
    }
    out
}

pub open spec fn opt_run(r: Option<Result<Value, Stop>>, s: Ev) -> Option<Run<Val>> {
    match r {
        Some(x) => Some((out_val(x), s)),
        None => None,
    }
}

pub open spec fn out_opt(r: Result<Option<Value>, Stop>) -> Result<Option<Val>, Halt> {
    match r {
        Ok(v) => Ok(opt_val(v)),
        Err(e) => Err(e@),
    }
}

fn flag_result(r: Result<bool, Stop>) -> (o: Result<Value, Stop>)
    ensures
        forall|s: Ev| (out_val(o), s) == flag_value((#[trigger] out_flag(r), s)),
{
    match r {
        Ok(b) => Ok(Value::Bool(b)),
        Err(e) => Err(e),
    }
}

impl Evaluator {
    fn write_css_texts(&mut self, ans: &Vec<Answer>, p: &Vec<Value>) -> (r: Result<Vec<String>, Stop>)
        ensures
            (out_texts(r), final(self)@) == css_texts(old(self)@, ans@, vals(p@), 0, Seq::empty()),
            same_place(old(self)@, final(self)@),
    {
        let ghost goal = css_texts(old(self)@, ans@, vals(p@), 0, Seq::empty());
        let mut acc = empty_strings();
        let mut i: usize = 0;
        while i < p.len()
            invariant
                same_place(old(self)@, self@),
                i <= p@.len(),
                goal == css_texts(old(self)@, ans@, vals(p@), 0, Seq::empty()),
                css_texts(self@, ans@, vals(p@), i as int, texts(acc@)) == goal,
            decreases p@.len() - i,
        {
            match self.plain_css(ans, &p[i]) {
                Ok(t) => {
                    push_string(&mut acc, t);
                },
                Err(x) => {
                    return Err(x);
                },
            }
            i += 1;
        }
        Ok(acc)
    }

    #[verifier::loop_isolation(false)]
    fn write_named_texts(&mut self, ans: &Vec<Answer>, n: &Vec<(String, Value)>, parts: Vec<String>) -> (r: Result<
        Vec<String>,
        Stop,
    >)
        ensures
            (out_texts(r), final(self)@) == named_texts(
                old(self)@,
                ans@,
                named_vals(n@),
                0,
                texts(parts@),
            ),
            same_place(old(self)@, final(self)@),
    {
        let ghost goal = named_texts(old(self)@, ans@, named_vals(n@), 0, texts(parts@));
        let mut acc = parts;
        let mut i: usize = 0;
        while i < n.len()
            invariant
                same_place(old(self)@, self@),
                i <= n@.len(),
                named_texts(self@, ans@, named_vals(n@), i as int, texts(acc@)) == goal,
            decreases n@.len() - i,
        {
            match self.plain_css(ans, &n[i].1) {
                Ok(t) => {
                    let mut m: Vec<char> = Vec::new();
                    m.push('$');
                    append_str(&mut m, n[i].0.as_str());
                    append_str(&mut m, ": ");
                    append_str(&mut m, t.as_str());
                    proof {
                        assert(m@ =~= seq!['$'] + n@[i as int].0@ + ": "@ + t@);
                    }
                    push_string(&mut acc, string_of(m.as_slice()));
                },
                Err(x) => {
                    return Err(x);
                },
            }
            i += 1;
        }
        Ok(acc)
    }

    /// Call a built-in function.
    pub fn call_builtin(
        &mut self,
        ans: &Vec<Answer>,
        task: Task,
        names: Vec<String>,
        p: Vec<Value>,
        n: Vec<(String, Value)>,
        pos: Pos,
    ) -> (r: Result<Value, Stop>)
        ensures
            (out_val(r), final(self)@) == builtin_call(
                old(self)@,
                ans@,
                task,
                texts(names@),
                vals(p@),
                named_vals(n@),
                pos,
            ),
            same_place(old(self)@, final(self)@),
    {
        match self.ask_value(ans, request_call(task, names, p, n, pos)) {
            Err(x) => Err(x),
            Ok(v) => Ok(v.without_slash()),
        }
    }

    fn star_builtin_owner(&mut self, ans: &Vec<Answer>, name: &str) -> (r: Result<Option<String>, Stop>)
        ensures
            (match r {
                Ok(o) => Ok(text_of(o)),
                Err(e) => Err(e@),
            }, final(self)@) == star_builtin_owner(old(self)@, ans@, name@, 0),
            same_place(old(self)@, final(self)@),
    {
        proof {
            reveal(ev_of);
        }
        let list = clone_strings(&self.uses.star_builtin);
        let ghost goal = star_builtin_owner(old(self)@, ans@, name@, 0);
        let mut i: usize = 0;
        while i < list.len()
            invariant
                same_place(old(self)@, self@),
                i <= list@.len(),
                self@.uses.star_builtin == texts(list@),
                goal == star_builtin_owner(old(self)@, ans@, name@, 0),
                star_builtin_owner(self@, ans@, name@, i as int) == goal,
            decreases list@.len() - i,
        {
            proof {
                reveal(ev_of);
            }
            let q = request_names(Task::HasMember, two_names(list[i].as_str(), name));
            match self.ask_flag(ans, q) {
                Err(x) => {
                    return Err(x);
                },
                Ok(true) => {
                    return Ok(Some(list[i].clone()));
                },
                Ok(false) => {},
            }
            i += 1;
        }
        Ok(None)
    }

    fn call_global(
        &mut self,
        ans: &Vec<Answer>,
        name: &str,
        p: Vec<Value>,
        n: Vec<(String, Value)>,
        pos: Pos,
    ) -> (r: Result<Value, Stop>)
        ensures
            (out_val(r), final(self)@) == global_call(
                old(self)@,
                ans@,
                name@,
                vals(p@),
                named_vals(n@),
                pos,
            ),
            same_place(old(self)@, final(self)@),
    {
        proof {
            reveal(global_call);
        }
        match self.ask_flag(ans, request_names(Task::IsBuiltin, one_name(name))) {
            Err(x) => Err(x),
            Ok(true) => self.call_builtin(
                ans,
                Task::Call,
                one_name(name),
                drop_slashes(p),
                drop_named_slashes(n),
                pos,
            ),
            Ok(false) => match self.star_builtin_owner(ans, name) {
                Err(x) => Err(x),
                Ok(Some(m)) => self.call_builtin(
                    ans,
                    Task::CallModule,
                    two_names(m.as_str(), name),
                    drop_slashes(p),
                    drop_named_slashes(n),
                    pos,
                ),
                Ok(None) => self.call_builtin(ans, Task::Call, one_name(name), p, n, pos),
            },
        }
    }

    fn meta_function(
        &mut self,
        ans: &Vec<Answer>,
        member: &str,
        p: &Vec<Value>,
        n: &Vec<(String, Value)>,
        pos: Pos,
    ) -> (r: Option<Result<Value, Stop>>)
        ensures
            opt_run(r, final(self)@) == meta_function(
                old(self)@,
                ans@,
                member@,
                vals(p@),
                named_vals(n@),
                pos,
            ),
            r is None ==> final(self)@ == old(self)@,
            same_place(old(self)@, final(self)@),
    {
        proof {
            reveal(meta_function);
        }
        if same_str(member, "variable-exists") {
            Some(flag_result(self.meta_variable_exists(ans, p, n, pos, false)))
        } else if same_str(member, "global-variable-exists") {
            Some(flag_result(self.meta_variable_exists(ans, p, n, pos, true)))
        } else if same_str(member, "mixin-exists") {
            Some(flag_result(self.meta_mixin_exists(ans, p, n, pos)))
        } else if same_str(member, "function-exists") {
            Some(flag_result(self.meta_function_exists(ans, p, n, pos)))
        } else if same_str(member, "content-exists") {
            Some(flag_result(self.meta_content_exists(p, pos)))
        } else if same_str(member, "get-function") {
            Some(self.meta_get_function(ans, p, n, pos))
        } else if same_str(member, "get-mixin") {
            Some(self.meta_get_mixin(ans, p, n, pos))
        } else if same_str(member, "module-variables") {
            Some(self.meta_module_members(ans, p, n, pos, MemberKind::Variable))
        } else if same_str(member, "module-functions") {
            Some(self.meta_module_members(ans, p, n, pos, MemberKind::Function))
        } else if same_str(member, "module-mixins") {
            Some(self.meta_module_members(ans, p, n, pos, MemberKind::Mixin))
        } else if same_str(member, "accepts-content") {
            Some(self.meta_accepts_content(ans, p, n, pos))
        } else if same_str(member, "keywords") {
            Some(self.meta_keywords(ans, p, n, pos))
        } else {
            None
        }
    }
}

// ---- calls by name -------------------------------------------------------

impl Evaluator {
    /// A call without a namespace.
    pub fn eval_function(
        &mut self,
        ans: &Vec<Answer>,
        name: &str,
        args: &Vec<CallArg>,
        pos: Pos,
        length: usize,
        fuel: usize,
    ) -> (r: Result<Value, Stop>)
        ensures
            (out_val(r), final(self)@) == function(
                old(self)@,
                ans@,
                name@,
                args@,
                pos,
                length,
                fuel as nat,
            ),
            same_place(old(self)@, final(self)@),
        decreases fuel, 38nat, 0int,
    {
        if self.in_plain() && !is_supports_calc_function(name) && !is_word(name, "calc") && !holds_special(args) {
            return self.eval_css_call(ans, name, args, fuel);
        }
        let user = self.lookup_function(name);
        if self.in_supports() && is_supports_calc_function(name) && user.is_none() {
            return self.eval_supports_calc_func(ans, name, args, pos, fuel);
        }
        if same_str(name, "if") {
            return self.eval_if_function(ans, args, pos, fuel);
        }
        let chars = chars_of(name);
        if !starts_with(chars.as_slice(), "--") {
            if let Some(id) = user {
                return self.call_function(ans, id, args, Some((pos, length)), fuel);
            }
        }
        let hits = self.star_hits(name, MemberKind::Function);
        if hits.len() > 1 {
            return Err(
                stop_at("This function is available from multiple global modules.", pos),
            );
        }
        if hits.len() == 1 {
            return match self.module_function(hits[0], name) {
                Some(f) => self.call_user_module_function(
                    ans,
                    hits[0],
                    f,
                    args,
                    Some((pos, length)),
                    fuel,
                ),
                None => Err(Stop::Mismatch),
            };
        }
        self.eval_calculation_call(ans, name, args, pos, fuel)
    }

    fn eval_calculation_call(
        &mut self,
        ans: &Vec<Answer>,
        name: &str,
        args: &Vec<CallArg>,
        pos: Pos,
        fuel: usize,
    ) -> (r: Result<Value, Stop>)
        ensures
            (out_val(r), final(self)@) == calculation_call(
                old(self)@,
                ans@,
                name@,
                args@,
                pos,
                fuel as nat,
            ),
            same_place(old(self)@, final(self)@),
        decreases fuel, 37nat, 0int,
    {
        let free = self.lookup_function(name).is_none();
        let plain = !holds_special(args);
        let chars = chars_of(name);
        let low = string_of(to_lower(chars.as_slice()).as_slice());
        let n = low.as_str();
        if same_str(n, "calc") && args.len() == 0 {
            return Err(stop_at("Missing argument.", pos));
        }
        if is_calc_function(name) && holds_splat(args) {
            return Err(stop_at("Rest arguments can't be used with calculations.", pos));
        }
        if is_pure_calc_math_function(name) && free && plain {
            let nodes = match self.eval_calc_args(ans, args, fuel) {
                Ok(l) => l,
                Err(x) => {
                    return Err(x);
                },
            };
            if are_numbers(&nodes) || !is_any_opaque(&nodes) {
                return self.eval_evaluated_call(ans, name, args, pos, fuel);
            }
            return self.keep_call(ans, n, &nodes);
        }
        if same_str(n, "calc-size") && free && plain {
            return self.eval_calc_size(ans, args, pos, fuel);
        }
        if same_str(n, "clamp") && free && args.len() == 3 && plain {
            return self.try_eval_clamp(ans, args, pos, fuel);
        }
        if same_str(n, "abs") && free && args.len() == 1 && plain && expr_contains_calc_substitution(
            &args[0].value,
        ) {
            return match self.eval_calc(ans, &args[0].value, fuel) {
                Err(x) => Err(x),
                Ok(c) => {
                    let mut one = empty_calcs();
                    let ghost cv = cal(c);
                    push_calc(&mut one, c);
                    proof {
                        assert(cals(one@) =~= seq![cv]);
                    }
                    self.keep_call(ans, "abs", &one)
                },
            };
        }
        if same_str(n, "round") && free && 1 <= args.len() && args.len() <= 3 && plain {
            return self.eval_round_call(ans, name, args, pos, fuel);
        }
        if (same_str(n, "min") || same_str(n, "max")) && free && args.len() > 0 && plain && !holds_non_calc(
            args,
        ) {
            return match self.eval_calc_args(ans, args, fuel) {
                Err(Stop::Error(_)) => self.eval_evaluated_call(ans, name, args, pos, fuel),
                Err(x) => Err(x),
                Ok(nodes) => {
                    if are_numbers(&nodes) {
                        self.eval_evaluated_call(ans, name, args, pos, fuel)
                    } else {
                        Ok(Value::Calc(CalcNode::Func { name: low, args: nodes }))
                    }
                },
            };
        }
        self.eval_evaluated_call(ans, name, args, pos, fuel)
    }

    fn eval_round_call(
        &mut self,
        ans: &Vec<Answer>,
        name: &str,
        args: &Vec<CallArg>,
        pos: Pos,
        fuel: usize,
    ) -> (r: Result<Value, Stop>)
        ensures
            (out_val(r), final(self)@) == round_call(old(self)@, ans@, name@, args@, pos, fuel as nat),
            same_place(old(self)@, final(self)@),
        decreases fuel, 36nat, 0int,
    {
        if holds_non_calc(args) {
            if args.len() > 1 {
                return Err(stop_at(only_allowed_message(1, args.len()).as_str(), pos));
            }
            return self.eval_evaluated_call(ans, name, args, pos, fuel);
        }
        match self.eval_calc_args(ans, args, fuel) {
            Err(Stop::Error(_)) => self.eval_evaluated_call(ans, name, args, pos, fuel),
            Err(x) => Err(x),
            Ok(nodes) => {
                if is_round_settled(&nodes) {
                    self.eval_evaluated_call(ans, name, args, pos, fuel)
                } else {
                    Ok(Value::Calc(CalcNode::Func { name: "round".to_owned(), args: nodes }))
                }
            },
        }
    }

    fn eval_evaluated_call(
        &mut self,
        ans: &Vec<Answer>,
        name: &str,
        args: &Vec<CallArg>,
        pos: Pos,
        fuel: usize,
    ) -> (r: Result<Value, Stop>)
        ensures
            (out_val(r), final(self)@) == evaluated_call(
                old(self)@,
                ans@,
                name@,
                args@,
                pos,
                fuel as nat,
            ),
            same_place(old(self)@, final(self)@),
        decreases fuel, 35nat, 0int,
    {
        let a = match self.eval_call_args(ans, args, fuel) {
            Ok(g) => finish_gather(g),
            Err(x) => {
                return Err(x);
            },
        };
        if is_global_meta(name) {
            let p = drop_slashes(a.positional);
            let n = drop_named_slashes(a.named);
            return match self.try_meta_eval_call(ans, name, &p, &n, pos, fuel) {
                Some(r) => r,
                None => self.call_global(ans, name, p, n, pos),
            };
        }
        if same_str(name, "alpha") && a.named.len() == 0 && a.positional.len() > 0 && are_filter_words(
            &a.positional,
        ) {
            return match self.write_css_texts(ans, &a.positional) {
                Err(x) => Err(x),
                Ok(parts) => Ok(word(write_call("alpha", &parts))),
            };
        }
        self.call_global(ans, name, a.positional, a.named, pos)
    }

    fn forwarded_owner(&mut self, ans: &Vec<Answer>, m: usize, member: &str) -> (r: Result<
        Option<(String, String)>,
        Stop,
    >)
        ensures
            (match r {
                Ok(Some(t)) => Ok(Some((t.0@, t.1@))),
                Ok(None) => Ok(None),
                Err(e) => Err(e@),
            }, final(self)@) == forwarded_owner(
                old(self)@,
                ans@,
                if m < old(self)@.modules.len() {
                    old(self)@.modules[m as int].forwarded_builtins
                } else {
                    Seq::empty()
                },
                member@,
                0,
            ),
            same_place(old(self)@, final(self)@),
    {
        proof {
            reveal(ev_of);
        }
        if m >= self.modules.len() {
            return Ok(None);
        }
        let count: usize = self.modules[m].forwarded_builtins.len();
        let ghost list = old(self)@.modules[m as int].forwarded_builtins;
        let ghost goal = forwarded_owner(old(self)@, ans@, list, member@, 0);
        let mut i: usize = 0;
        while i < count
            invariant
                same_place(old(self)@, self@),
                i <= count,
                m < self.modules@.len(),
                self@.modules == old(self)@.modules,
                count == self.modules@[m as int].forwarded_builtins@.len(),
                list == self@.modules[m as int].forwarded_builtins,
                goal == forwarded_owner(old(self)@, ans@, list, member@, 0),
                m < old(self)@.modules.len(),
                list == old(self)@.modules[m as int].forwarded_builtins,
                forwarded_owner(self@, ans@, list, member@, i as int) == goal,
            decreases count - i,
        {
            proof {
                reveal(ev_of);
            }
            proof {
                assert(self@.modules[m as int] == self.modules@[m as int]@);
                assert(list[i as int] == self.modules@[m as int].forwarded_builtins@[i as int]@);
            }
            let fb = &self.modules[m].forwarded_builtins[i];
            let bare = strip_prefix(member, &fb.prefix);
            if let Some(b) = bare {
                if fb.visible(b.as_str()) {
                    let module = fb.module.clone();
                    let q = request_names(Task::HasMember, two_names(module.as_str(), b.as_str()));
                    match self.ask_flag(ans, q) {
                        Err(x) => {
                            return Err(x);
                        },
                        Ok(true) => {
                            return Ok(Some((module, b)));
                        },
                        Ok(false) => {},
                    }
                }
            }
            i += 1;
        }
        Ok(None)
    }

    /// A call with a namespace.
    pub fn eval_module_call(
        &mut self,
        ans: &Vec<Answer>,
        ns: &str,
        member: &str,
        args: &Vec<CallArg>,
        pos: Pos,
        length: usize,
        fuel: usize,
    ) -> (r: Result<Value, Stop>)
        ensures
            (out_val(r), final(self)@) == module_call(
                old(self)@,
                ans@,
                ns@,
                member@,
                args@,
                pos,
                length,
                fuel as nat,
            ),
            same_place(old(self)@, final(self)@),
        decreases fuel, 34nat, 0int,
    {
        if let Some(m) = self.used_module(ns) {
            if is_private_member(member) {
                return Err(
                    stop_at("Private members can't be accessed from outside their modules.", pos),
                );
            }
            if let Some(f) = self.module_function(m, member) {
                let home: usize = self.fn_origin(m, member);
                return self.call_user_module_function(ans, home, f, args, Some((pos, length)), fuel);
            }
            let (b, bare) = match self.forwarded_owner(ans, m, member) {
                Err(x) => {
                    return Err(x);
                },
                Ok(None) => {
                    return Err(stop_at("Undefined function.", pos));
                },
                Ok(Some(t)) => t,
            };
            return match self.eval_call_args(ans, args, fuel) {
                Err(x) => Err(x),
                Ok(g) => {
                    let a = finish_gather(g);
                    self.call_builtin(
                        ans,
                        Task::CallModule,
                        two_names(b.as_str(), bare.as_str()),
                        drop_slashes(a.positional),
                        drop_named_slashes(a.named),
                        pos,
                    )
                },
            };
        }
        let b = match self.used_builtin(ns) {
            Some(b) => b,
            None => {
                return Err(stop_at(no_namespace_message(ns).as_str(), pos));
            },
        };
        let a = match self.eval_call_args(ans, args, fuel) {
            Ok(g) => finish_gather(g),
            Err(x) => {
                return Err(x);
            },
        };
        let p = drop_slashes(a.positional);
        let n = drop_named_slashes(a.named);
        if same_str(b.as_str(), "meta") {
            if let Some(r) = self.try_meta_eval_call(ans, member, &p, &n, pos, fuel) {
                return r;
            }
        }
        self.call_builtin(ans, Task::CallModule, two_names(b.as_str(), member), p, n, pos)
    }

    /// A meta function; nothing where there is none of this name.
    pub fn try_meta_eval_call(
        &mut self,
        ans: &Vec<Answer>,
        member: &str,
        p: &Vec<Value>,
        n: &Vec<(String, Value)>,
        pos: Pos,
        fuel: usize,
    ) -> (r: Option<Result<Value, Stop>>)
        ensures
            opt_run(r, final(self)@) == meta_call(
                old(self)@,
                ans@,
                member@,
                vals(p@),
                named_vals(n@),
                pos,
                fuel as nat,
            ),
            r is None ==> final(self)@ == old(self)@,
            same_place(old(self)@, final(self)@),
        decreases fuel, 30nat, 0int,
    {
        if !same_str(member, "call") {
            return self.meta_function(ans, member, p, n, pos);
        }
        let kw = drop_name(n, "function");
        let (f, rest) = if p.len() > 0 {
            let rest = values_beyond(p, 1);
            proof {
                assert(vals(rest@) =~= vals(p@).skip(1));
            }
            (copy_value(&p[0]), rest)
        } else {
            match get_var(n, "function") {
                Some(v) => (v, empty_values()),
                None => {
                    return Some(Err(stop_at("Missing argument $function.", pos)));
                },
            }
        };
        match f {
            Value::Function(f) => Some(
                self.invoke_function_ref(ans, f.name.as_str(), f.css, f.user, rest, kw, pos, fuel),
            ),
            Value::Str(t) => {
                let user = self.lookup_function_norm(t.text.as_str());
                Some(
                    self.invoke_function_ref(ans, t.text.as_str(), false, user, rest, kw, pos, fuel),
                )
            },
            other => Some(
                Err(
                    self.wrong_type(ans, "$function: ", &other, " is not a function reference.", pos),
                ),
            ),
        }
    }

    /// A call of a function by reference.
    pub fn invoke_function_ref(
        &mut self,
        ans: &Vec<Answer>,
        name: &str,
        css: bool,
        user: Option<usize>,
        p: Vec<Value>,
        n: Vec<(String, Value)>,
        pos: Pos,
        fuel: usize,
    ) -> (r: Result<Value, Stop>)
        ensures
            (out_val(r), final(self)@) == ref_call(
                old(self)@,
                ans@,
                name@,
                css,
                user,
                vals(p@),
                named_vals(n@),
                pos,
                fuel as nat,
            ),
            same_place(old(self)@, final(self)@),
        decreases fuel, 3nat, 0int,
    {
        if fuel == 0 {
            return Err(Stop::Depth);
        }
        if let Some(id) = user {
            if let Some((def, chain)) = self.closure_at(id) {
                let a = Args { positional: p, named: n, sep: ListSep::Comma };
                let r = self.run_body(ans, &def, chain, a, true, fuel - 1);
                return returned_value(r, def.name.as_str());
            }
        }
        if css {
            let parts = match self.write_css_texts(ans, &p) {
                Ok(l) => l,
                Err(x) => {
                    return Err(x);
                },
            };
            return match self.write_named_texts(ans, &n, parts) {
                Err(x) => Err(x),
                Ok(all) => Ok(word(write_call(name, &all))),
            };
        }
        match self.try_meta_eval_call(ans, name, &p, &n, pos, fuel - 1) {
            Some(r) => r,
            None => self.call_builtin(ans, Task::Call, one_name(name), p, n, pos),
        }
    }
}

/// A name without a prefix, if it has it.
pub fn strip_prefix(name: &str, prefix: &Option<String>) -> (r: Option<String>)
    ensures
        text_of(r) == unprefixed(name@, text_of(*prefix)),
{
    match prefix {
        None => Some(name.to_owned()),
        Some(p) => {
            let chars = chars_of(name);
            if !starts_with(chars.as_slice(), p.as_str()) {
                return None;
            }
            let k: usize = chars_of(p.as_str()).len();
            let rest = vstd::slice::slice_subrange(chars.as_slice(), k, chars.len());
            proof {
                assert(rest@ =~= name@.skip(p@.len() as int));
            }
            Some(string_of(rest))
        },
    }
}

/// What a function returned, or the error that it returned nothing.
fn returned_value(r: Result<Option<Value>, Stop>, name: &str) -> (o: Result<Value, Stop>)
    ensures
        forall|s: Ev| (out_val(o), s) == returned((#[trigger] out_opt(r), s), name@),
{
    match r {
        Err(x) => Err(x),
        Ok(Some(v)) => Ok(v.without_slash()),
        Ok(None) => {
            let mut m = chars_of("Function ");
            append_str(&mut m, name);
            append_str(&mut m, "() did not @return a value.");
            Err(stop(string_of(m.as_slice()).as_str()))
        },
    }
}

// ---- user-defined functions ----------------------------------------------

impl Evaluator {
    /// The arguments of a call.
    pub fn eval_call_args(&mut self, ans: &Vec<Answer>, args: &Vec<CallArg>, fuel: usize) -> (r: Result<
        Gather,
        Stop,
    >)
        ensures
            (out_gather(r), final(self)@) == call_args(
                old(self)@,
                ans@,
                args@,
                0,
                nothing_gathered(),
                fuel as nat,
            ),
            same_place(old(self)@, final(self)@),
        decreases fuel, 1nat, args@.len(),
    {
        let ghost goal = call_args(old(self)@, ans@, args@, 0, nothing_gathered(), fuel as nat);
        let mut g = empty_gather();
        let mut i: usize = 0;
        while i < args.len()
            invariant
                same_place(old(self)@, self@),
                i <= args@.len(),
                goal == call_args(old(self)@, ans@, args@, 0, nothing_gathered(), fuel as nat),
                call_args(self@, ans@, args@, i as int, g@, fuel as nat) == goal,
            decreases args@.len() - i,
        {
            let v = match self.eval_expr(ans, &args[i].value, fuel) {
                Ok(v) => v,
                Err(x) => {
                    return Err(x);
                },
            };
            let r = if args[i].splat {
                self.gather_spread(ans, g, v)
            } else {
                self.gather_written(g, &args[i].name, v)
            };
            match r {
                Ok(g2) => {
                    g = g2;
                },
                Err(x) => {
                    return Err(x);
                },
            }
            i += 1;
        }
        Ok(g)
    }

    /// Bind the parameters of a call in the innermost scope.
    pub fn bind_evaled_into_scope(
        &mut self,
        ans: &Vec<Answer>,
        params: &ParamList,
        a: Args,
        name: &str,
        fuel: usize,
    ) -> (r: Result<(), Stop>)
        ensures
            (out_unit(r), final(self)@) == bind_scope(
                old(self)@,
                ans@,
                *params,
                0,
                a@,
                keywords_of(a@.named),
                name@,
                fuel as nat,
            ),
            same_place(old(self)@, final(self)@),
        decreases fuel, 1nat, params.params@.len(),
    {
        let mut kw = collect_keywords(&a.named);
        let ghost goal = bind_scope(
            old(self)@,
            ans@,
            *params,
            0,
            a@,
            keywords_of(a@.named),
            name@,
            fuel as nat,
        );
        let count: usize = params.params.len();
        let mut i: usize = 0;
        while i < count
            invariant
                same_place(old(self)@, self@),
                i <= count,
                count == params.params@.len(),
                goal == bind_scope(
                    old(self)@,
                    ans@,
                    *params,
                    0,
                    a@,
                    keywords_of(a@.named),
                    name@,
                    fuel as nat,
                ),
                bind_scope(
                    self@,
                    ans@,
                    *params,
                    i as int,
                    a@,
                    keyword_list(kw@),
                    name@,
                    fuel as nat,
                ) == goal,
            decreases count - i,
        {
            let p = &params.params[i];
            let v = if i < a.positional.len() {
                copy_value(&a.positional[i])
            } else {
                let key = normalize_arg_name(p.name.as_str());
                let k: usize = find_keyword(&kw, key.as_str());
                if k < kw.len() {
                    take_keyword(&mut kw, k)
                } else {
                    match &p.default {
                        None => {
                            let mut m = chars_of("Missing argument $");
                            append_str(&mut m, p.name.as_str());
                            append_str(&mut m, ".");
                            return Err(stop(string_of(m.as_slice()).as_str()));
                        },
                        Some(d) => match self.eval_expr(ans, d, fuel) {
                            Ok(v) => v,
                            Err(x) => {
                                return Err(x);
                            },
                        },
                    }
                }
            };
            self.set_local(p.name.as_str(), v);
            i += 1;
        }
        match &params.rest {
            Some(r) => {
                let rest = values_beyond(&a.positional, count);
                let v = make_rest_list(rest, a.sep, &kw);
                self.set_local(r.as_str(), v);
                Ok(())
            },
            None => match leftover_error(a.positional.len(), count, &kw, name) {
                Some(x) => Err(x),
                None => Ok(()),
            },
        }
    }

    /// Run the body of a function in the scopes of its definition.
    pub fn run_body(
        &mut self,
        ans: &Vec<Answer>,
        def: &Rc<Callable>,
        chain: Chain,
        a: Args,
        note: bool,
        fuel: usize,
    ) -> (r: Result<Option<Value>, Stop>)
        ensures
            (out_opt(r), final(self)@) == body_run(
                old(self)@,
                ans@,
                (Closure { def: **def, chain: chain@ }),
                a@,
                note,
                fuel as nat,
            ),
            same_place(old(self)@, final(self)@),
        decreases fuel, 15nat, 0int,
    {
        let saved = self.chain_copy();
        self.set_chain(chain);
        self.push_scope(false);
        match self.bind_evaled_into_scope(ans, &def.params, a, def.name.as_str(), fuel) {
            Err(x) => {
                self.set_chain(saved);
                Err(x)
            },
            Ok(()) => {
                if note {
                    self.push_mixin_flag(false);
                    let r = self.run_fn_block(ans, &def.body, fuel);
                    self.pop_mixin_flag();
                    self.set_chain(saved);
                    r
                } else {
                    let r = self.run_fn_block(ans, &def.body, fuel);
                    self.set_chain(saved);
                    r
                }
            },
        }
    }

    /// A call of a user-defined function.
    pub fn call_function(
        &mut self,
        ans: &Vec<Answer>,
        id: usize,
        args: &Vec<CallArg>,
        at: Option<(Pos, usize)>,
        fuel: usize,
    ) -> (r: Result<Value, Stop>)
        ensures
            (out_val(r), final(self)@) == user_call(old(self)@, ans@, id, args@, at, fuel as nat),
            same_place(old(self)@, final(self)@),
        decreases fuel, 20nat, 0int,
    {
        let (def, chain) = match self.closure_at(id) {
            Some(t) => t,
            None => {
                return Err(Stop::Mismatch);
            },
        };
        let a = match self.eval_call_args(ans, args, fuel) {
            Ok(g) => finish_gather(g),
            Err(x) => {
                return Err(x);
            },
        };
        match at {
            None => {
                let r = self.run_body(ans, &def, chain, a, true, fuel);
                returned_value(r, def.name.as_str())
            },
            Some((pos, length)) => {
                let member = mixin_frame_name(def.name.as_str());
                let ghost outer = self@;
                let from = self.enter_call(pos, length, member.as_str());
                let r = self.run_body(ans, &def, chain, a, true, fuel);
                proof {
                    leaving_a_call_restores(outer, pos, length, member@, self@);
                }
                self.leave_call(from);
                returned_value(r, def.name.as_str())
            },
        }
    }

    /// Enter a module. Gives what is to be put back when it is left.
    pub fn enter_module(&mut self, m: usize) -> (r: Option<SavedModule>)
        ensures
            final(self)@ == module_entered(old(self)@, m),
            same_context(old(self)@, final(self)@),
            match r {
                None => m >= old(self)@.modules.len(),
                Some(v) => m < old(self)@.modules.len() && v@ == saved_module(old(self)@, m),
            },
    {
        proof {
            reveal(module_entered);
        }
        proof {
            reveal(ev_of);
        }
        proof {
            reveal(leaf_of);
        }
        if m >= self.modules.len() {
            return None;
        }
        proof {
            assert(self@.modules[m as int] == self.modules@[m as int]@);
        }
        let mut scopes: Vec<usize> = Vec::new();
        scopes.push(self.modules[m].vars);
        let mut semi: Vec<bool> = Vec::new();
        semi.push(true);
        let mut functions: Vec<usize> = Vec::new();
        functions.push(self.modules[m].functions);
        let mut mixins: Vec<usize> = Vec::new();
        mixins.push(self.modules[m].mixins);
        let uses = self.modules[m].uses.copy();
        let chain = Chain { scopes, semi, functions, mixins };
        proof {
            assert(chain.scopes@ =~= seq![self.modules@[m as int].vars]);
            assert(chain.semi@ =~= seq![true]);
            assert(chain.functions@ =~= seq![self.modules@[m as int].functions]);
            assert(chain.mixins@ =~= seq![self.modules@[m as int].mixins]);
        }
        let saved_chain = self.chain.copy();
        let saved_uses = self.uses.copy();
        let saved_url = self.report.url.clone();
        let saved_source = self.report.source.clone();
        let saved_dir = match &self.page.file_dir {
            Some(d) => Some(d.clone()),
            None => None,
        };
        self.chain = chain;
        self.uses = uses;
        let url = self.modules[m].diag_url.clone();
        let file = !url.as_str().is_empty();
        if file {
            let source = self.source_for(url.as_str());
            let dir = self.modules[m].file_dir.clone();
            self.report.url = url;
            self.report.source = source;
            self.page.file_dir = if dir.as_str().is_empty() {
                None
            } else {
                Some(dir)
            };
        }
        Some(
            SavedModule {
                chain: saved_chain,
                uses: saved_uses,
                file,
                url: saved_url,
                source: saved_source,
                dir: saved_dir,
            },
        )
    }

    /// Leave a module that was entered from the state `from`.
    pub(crate) fn leave_module(&mut self, saved: Option<SavedModule>, m: Ghost<usize>, from: Ghost<Ev>)
        requires
            match saved {
                None => m@ >= from@.modules.len(),
                Some(v) => m@ < from@.modules.len() && v@ == saved_module(from@, m@),
            },
        ensures
            final(self)@ == module_left(old(self)@, m@, from@),
            same_place(module_entered(from@, m@), old(self)@) ==> same_place(from@, final(self)@),
    {
        proof {
            reveal(ev_of);
            reveal(leaf_of);
            reveal(module_left);
            reveal(module_entered);
        }
        if let Some(v) = saved {
            if v.file {
                self.report.url = v.url;
                self.report.source = v.source;
                self.page.file_dir = v.dir;
            }
            self.chain = v.chain;
            self.uses = v.uses;
        }
    }

    /// A call of a function of a module.
    pub fn call_user_module_function(
        &mut self,
        ans: &Vec<Answer>,
        m: usize,
        id: usize,
        args: &Vec<CallArg>,
        at: Option<(Pos, usize)>,
        fuel: usize,
    ) -> (r: Result<Value, Stop>)
        ensures
            (out_val(r), final(self)@) == module_user_call(
                old(self)@,
                ans@,
                m,
                id,
                args@,
                at,
                fuel as nat,
            ),
            same_place(old(self)@, final(self)@),
        decreases fuel, 20nat, 0int,
    {
        let (def, chain) = match self.closure_at(id) {
            Some(t) => t,
            None => {
                return Err(Stop::Mismatch);
            },
        };
        let a = match self.eval_call_args(ans, args, fuel) {
            Ok(g) => finish_gather(g),
            Err(x) => {
                return Err(x);
            },
        };
        let ghost s1 = self@;
        let mut from = String::new();
        if let Some((pos, length)) = at {
            let member = mixin_frame_name(def.name.as_str());
            from = self.enter_call(pos, length, member.as_str());
        }
        let ghost s2 = self@;
        let saved = self.enter_module(m);
        let r = self.run_body(ans, &def, chain, a, false, fuel);
        self.leave_module(saved, Ghost(m), Ghost(s2));
        if let Some((pos, length)) = at {
            proof {
                leaving_a_call_restores(s1, pos, length, def.name@ + "()"@, self@);
            }
            self.leave_call(from);
        }
        returned_value(r, def.name.as_str())
    }
}

/// What is put back when a module is left.
#[derive(Debug)]
pub struct SavedModule {
    pub chain: Chain,
    pub uses: Uses,
    pub file: bool,
    pub url: String,
    pub source: String,
    pub dir: Option<String>,
}

/// What a [`SavedModule`] holds.
pub ghost struct Left {
    pub chain: Scopes,
    pub uses: Used,
    pub file: bool,
    pub url: Seq<char>,
    pub source: Seq<char>,
    pub dir: Option<Seq<char>>,
}

impl View for SavedModule {
    type V = Left;

    open spec fn view(&self) -> Left {
        Left {
            chain: self.chain@,
            uses: self.uses@,
            file: self.file,
            url: self.url@,
            source: self.source@,
            dir: text_of(self.dir),
        }
    }
}

pub open spec fn saved_module(s: Ev, m: usize) -> Left {
    Left {
        chain: s.chain,
        uses: s.uses,
        file: s.modules[m as int].diag_url.len() > 0,
        url: s.report.url,
        source: s.report.source,
        dir: s.page.file_dir,
    }
}

} // verus!
