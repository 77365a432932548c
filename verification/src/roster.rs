//! The lists of a module's members.

use vstd::prelude::*;
use crate::error::{Pos, fault_at};
use crate::eval::{
    Ev, Evaluator, Run, asked_names, ev_of, fail, frame, out_val, same_place, stop_at, table,
};
use crate::host::{Answer, Stop, Task, ask_names, named_vals, one_name, request_names};
use crate::members::{
    MemberKind, module_function, module_mixin, module_var, no_namespace, no_namespace_message,
};
use crate::meta::{
    argument, function_ref, only_allowed, only_allowed_message, pick_argument, wrong_type,
};
use crate::names::{dash, dashed, is_private_member, private_name};
use crate::state::{Vars, get, get_id, get_text, ids};
use crate::text::{append_str, chars_of, same_str, string_of, texts};
use crate::value::{
    SassFunction, SassMap, SassMixin, SassStr, Val, Value, push_pair, val, val_pairs, vals,
};

verus! {

broadcast use crate::kept::group_kept;

// ---- order ---------------------------------------------------------------

/// Whether `a` comes before `b` in the order of characters, from index `i` on.
pub open spec fn text_before(a: Seq<char>, b: Seq<char>, i: int) -> bool
    decreases a.len() - i,
{
    if i < 0 || i >= b.len() {
        false
    } else if i >= a.len() {
        true
    } else if a[i] == b[i] {
        text_before(a, b, i + 1)
    } else {
        a[i] < b[i]
    }
}

fn is_before(a: &str, b: &str) -> (r: bool)
    ensures
        r == text_before(a@, b@, 0),
{
    let x = chars_of(a);
    let y = chars_of(b);
    let mut i: usize = 0;
    while i < x.len() && i < y.len() && x[i] == y[i]
        invariant
            i <= x@.len(),
            i <= y@.len(),
            text_before(x@, y@, i as int) == text_before(x@, y@, 0),
        decreases x@.len() - i,
    {
        i += 1;
    }
    if i >= y.len() {
        false
    } else if i >= x.len() {
        true
    } else {
        x[i] < y[i]
    }
}

/// How many of the first `n` texts do not come after `t`.
pub open spec fn rank_of(list: Seq<Seq<char>>, t: Seq<char>, n: nat) -> nat
    decreases n,
{
    if n == 0 || n > list.len() {
        0
    } else if text_before(t, list[n - 1], 0) {
        rank_of(list, t, (n - 1) as nat)
    } else {
        n
    }
}

/// A sorted list with `t` at its place: before the texts at its end that come after it.
pub open spec fn placed(list: Seq<Seq<char>>, t: Seq<char>) -> Seq<Seq<char>> {
    list.insert(rank_of(list, t, list.len()) as int, t)
}

/// The texts in order.
pub open spec fn in_order(list: Seq<Seq<char>>) -> Seq<Seq<char>>
    decreases list.len(),
{
    if list.len() == 0 {
        Seq::empty()
    } else {
        placed(in_order(list.drop_last()), list.last())
    }
}

proof fn lemma_rank(list: Seq<Seq<char>>, t: Seq<char>, n: nat)
    requires
        n <= list.len(),
    ensures
        rank_of(list, t, n) <= n,
        rank_of(list, t, n) > 0 ==> !text_before(t, list[rank_of(list, t, n) - 1], 0),
        forall|k: int| rank_of(list, t, n) <= k < n ==> text_before(t, #[trigger] list[k], 0),
    decreases n,
{
    if n > 0 && text_before(t, list[n - 1], 0) {
        lemma_rank(list, t, (n - 1) as nat);
    }
}

fn place(list: &mut Vec<String>, t: String)
    ensures
        texts(final(list)@) == placed(texts(old(list)@), t@),
{
    let ghost all = texts(list@);
    let mut n: usize = list.len();
    while n > 0 && is_before(t.as_str(), list[n - 1].as_str())
        invariant
            n <= list@.len(),
            all == texts(list@),
            rank_of(all, t@, n as nat) == rank_of(all, t@, all.len()),
        decreases n,
    {
        n -= 1;
    }
    list.insert(n, t);
    proof {
        assert(texts(list@) =~= all.insert(n as int, t@));
    }
}

/// The names of a table that are not private.
pub open spec fn public_names<T>(s: Seq<(Seq<char>, T)>) -> Seq<Seq<char>>
    decreases s.len(),
{
    if s.len() == 0 {
        Seq::empty()
    } else {
        let before = public_names(s.drop_last());
        if private_name(s.last().0) {
            before
        } else {
            before.push(s.last().0)
        }
    }
}

/// Sort the public names of a variable frame.
fn sort_vars(v: &Vec<(String, Value)>) -> (r: Vec<String>)
    ensures
        texts(r@) == in_order(public_names(named_vals(v@))),
{
    let ghost all = named_vals(v@);
    let mut out: Vec<String> = Vec::new();
    let mut i: usize = 0;
    proof {
        assert(texts(out@) =~= in_order(public_names(all.take(0))));
    }
    while i < v.len()
        invariant
            i <= v@.len(),
            all == named_vals(v@),
            texts(out@) == in_order(public_names(all.take(i as int))),
        decreases v@.len() - i,
    {
        proof {
            assert(all.take(i + 1).drop_last() =~= all.take(i as int));
            assert(all.take(i + 1).last() == all[i as int]);
            let before = public_names(all.take(i as int));
            assert(before.push(all[i as int].0).drop_last() =~= before);
        }
        if !is_private_member(v[i].0.as_str()) {
            place(&mut out, v[i].0.clone());
        }
        i += 1;
    }
    proof {
        assert(all.take(i as int) =~= all);
    }
    out
}

/// Sort the public names of a table of functions or mixins.
fn sort_ids(v: &Vec<(String, usize)>) -> (r: Vec<String>)
    ensures
        texts(r@) == in_order(public_names(ids(v@))),
{
    let ghost all = ids(v@);
    let mut out: Vec<String> = Vec::new();
    let mut i: usize = 0;
    proof {
        assert(texts(out@) =~= in_order(public_names(all.take(0))));
    }
    while i < v.len()
        invariant
            i <= v@.len(),
            all == ids(v@),
            texts(out@) == in_order(public_names(all.take(i as int))),
        decreases v@.len() - i,
    {
        proof {
            assert(all.take(i + 1).drop_last() =~= all.take(i as int));
            assert(all.take(i + 1).last() == all[i as int]);
            let before = public_names(all.take(i as int));
            assert(before.push(all[i as int].0).drop_last() =~= before);
        }
        if !is_private_member(v[i].0.as_str()) {
            place(&mut out, v[i].0.clone());
        }
        i += 1;
    }
    proof {
        assert(all.take(i as int) =~= all);
    }
    out
}

// ---- members -------------------------------------------------------------

/// The public members of a module, by name.
pub open spec fn member_names(s: Ev, m: usize, kind: MemberKind) -> Seq<Seq<char>> {
    if m >= s.modules.len() {
        Seq::empty()
    } else {
        let mo = s.modules[m as int];
        match kind {
            MemberKind::Variable => in_order(public_names(frame(s, mo.vars))),
            MemberKind::Function => in_order(public_names(table(s, mo.functions))),
            MemberKind::Mixin => in_order(public_names(table(s, mo.mixins))),
        }
    }
}

/// What stands for a member of a module: the value of a variable, a reference to anything else.
pub open spec fn member_value(s: Ev, m: usize, name: Seq<char>, kind: MemberKind) -> Val {
    match kind {
        MemberKind::Variable => match module_var(s, m, name) {
            Some(v) => v,
            None => Val::Null,
        },
        MemberKind::Function => function_ref(name, false, module_function(s, m, name)),
        MemberKind::Mixin => Val::Mixin { name, user: module_mixin(s, m, name), module: Some(m) },
    }
}

pub open spec fn member_entries(s: Ev, m: usize, names: Seq<Seq<char>>, kind: MemberKind) -> Seq<(Val, Val)> {
    Seq::new(
        names.len(),
        |i: int| (Val::Str(dashed(names[i]), true), member_value(s, m, names[i], kind)),
    )
}

/// What stands for a member of a built-in module.
pub open spec fn builtin_value(name: Seq<char>, kind: MemberKind) -> Val {
    match kind {
        MemberKind::Variable => Val::Null,
        MemberKind::Function => function_ref(name, false, None),
        MemberKind::Mixin => Val::Mixin { name, user: None, module: None },
    }
}

pub open spec fn builtin_entries(names: Seq<Seq<char>>, kind: MemberKind) -> Seq<(Val, Val)> {
    Seq::new(names.len(), |i: int| (Val::Str(names[i], true), builtin_value(names[i], kind)))
}

/// The members of a built-in module: those of `meta` are told, others are not.
pub open spec fn builtin_members(s: Ev, ans: Seq<Answer>, module: Seq<char>, kind: MemberKind) -> Run<Val> {
    if module == "meta"@ && kind != MemberKind::Variable {
        let task = if kind == MemberKind::Function {
            Task::FunctionNames
        } else {
            Task::MixinNames
        };
        match asked_names(s, ans, ask_names(task, seq![module])) {
            (Err(h), s1) => (Err(h), s1),
            (Ok(names), s1) => (Ok(Val::Pairs(builtin_entries(names, kind))), s1),
        }
    } else {
        (Ok(Val::Pairs(Seq::empty())), s)
    }
}

pub open spec fn members_function(kind: MemberKind) -> Seq<char> {
    match kind {
        MemberKind::Function => "module-functions"@,
        MemberKind::Mixin => "module-mixins"@,
        MemberKind::Variable => "module-variables"@,
    }
}

/// `module-variables()`, `module-functions()` and `module-mixins()`.
pub open spec fn module_members(s: Ev, ans: Seq<Answer>, p: Seq<Val>, n: Vars, pos: Pos, kind: MemberKind) -> Run<
    Val,
> {
    if p.len() > 1 {
        fail(fault_at(only_allowed(1, p.len()), pos), s)
    } else {
        match argument(p, n, 0, "module"@) {
            None => fail(
                fault_at("Missing argument $module for "@ + members_function(kind) + "()."@, pos),
                s,
            ),
            Some(v) => match v {
                Val::Str(ns, q) => match get(s.uses.user, ns) {
                    Some(m) => (
                        Ok(Val::Pairs(member_entries(s, m, member_names(s, m, kind), kind))),
                        s,
                    ),
                    None => match get(s.uses.builtin, ns) {
                        Some(b) => builtin_members(s, ans, b, kind),
                        None => fail(fault_at(no_namespace(ns), pos), s),
                    },
                },
                other => wrong_type(s, ans, "$module: "@, other, " is not a string."@, pos),
            },
        }
    }
}

fn quoted_key(text: String) -> (r: Value)
    ensures
        val(r) == Val::Str(text@, true),
{
    Value::Str(SassStr { text, quoted: true })
}

impl Evaluator {
    fn member_names(&self, m: usize, kind: MemberKind) -> (r: Vec<String>)
        ensures
            texts(r@) == member_names(self@, m, kind),
    {
        proof {
            reveal(ev_of);
        }
        let none: Vec<String> = Vec::new();
        proof {
            assert(texts(none@) =~= Seq::empty());
            assert(public_names(Seq::<(Seq<char>, Val)>::empty()) =~= Seq::empty());
            assert(public_names(Seq::<(Seq<char>, usize)>::empty()) =~= Seq::empty());
        }
        if m >= self.modules.len() {
            return none;
        }
        let mo = &self.modules[m];
        match kind {
            MemberKind::Variable => {
                if mo.vars < self.frames.len() {
                    sort_vars(&self.frames[mo.vars])
                } else {
                    none
                }
            },
            MemberKind::Function => {
                if mo.functions < self.tables.len() {
                    sort_ids(&self.tables[mo.functions])
                } else {
                    none
                }
            },
            MemberKind::Mixin => {
                if mo.mixins < self.tables.len() {
                    sort_ids(&self.tables[mo.mixins])
                } else {
                    none
                }
            },
        }
    }

    fn member_value(&self, m: usize, name: &str, kind: MemberKind) -> (r: Value)
        ensures
            val(r) == member_value(self@, m, name@, kind),
    {
        match kind {
            MemberKind::Variable => match self.module_var(m, name) {
                Some(v) => v,
                None => Value::Null,
            },
            MemberKind::Function => Value::Function(
                SassFunction {
                    name: name.to_owned(),
                    css: false,
                    user: self.module_function(m, name),
                },
            ),
            MemberKind::Mixin => Value::Mixin(
                SassMixin {
                    name: name.to_owned(),
                    user: self.module_mixin(m, name),
                    module: Some(m),
                },
            ),
        }
    }

    fn member_entries(&self, m: usize, names: &Vec<String>, kind: MemberKind) -> (r: Vec<(Value, Value)>)
        ensures
            val_pairs(r@) == member_entries(self@, m, texts(names@), kind),
    {
        let ghost all = member_entries(self@, m, texts(names@), kind);
        let mut out: Vec<(Value, Value)> = Vec::new();
        let mut i: usize = 0;
        while i < names.len()
            invariant
                i <= names@.len(),
                all == member_entries(self@, m, texts(names@), kind),
                val_pairs(out@) =~= all.take(i as int),
            decreases names@.len() - i,
        {
            let k = quoted_key(dash(names[i].as_str()));
            let v = self.member_value(m, names[i].as_str(), kind);
            push_pair(&mut out, k, v);
            i += 1;
            proof {
                assert(all.take(i as int) =~= all.take(i - 1).push(all[i - 1]));
            }
        }
        proof {
            assert(all.take(i as int) =~= all);
        }
        out
    }

    fn builtin_members(&mut self, ans: &Vec<Answer>, module: &str, kind: MemberKind) -> (r: Result<Value, Stop>)
        ensures
            (out_val(r), final(self)@) == builtin_members(old(self)@, ans@, module@, kind),
            same_place(old(self)@, final(self)@),
    {
        let mut out: Vec<(Value, Value)> = Vec::new();
        proof {
            assert(val_pairs(out@) =~= Seq::empty());
        }
        if same_str(module, "meta") && kind != MemberKind::Variable {
            let task = if kind == MemberKind::Function {
                Task::FunctionNames
            } else {
                Task::MixinNames
            };
            let names = match self.ask_names(ans, request_names(task, one_name(module))) {
                Ok(l) => l,
                Err(e) => {
                    return Err(e);
                },
            };
            let ghost all = builtin_entries(texts(names@), kind);
            let mut i: usize = 0;
            while i < names.len()
                invariant
                    same_place(old(self)@, self@),
                    i <= names@.len(),
                    kind != MemberKind::Variable,
                    all == builtin_entries(texts(names@), kind),
                    val_pairs(out@) =~= all.take(i as int),
                decreases names@.len() - i,
            {
                let k = quoted_key(names[i].clone());
                let v = if kind == MemberKind::Function {
                    Value::Function(SassFunction { name: names[i].clone(), css: false, user: None })
                } else {
                    Value::Mixin(SassMixin { name: names[i].clone(), user: None, module: None })
                };
                push_pair(&mut out, k, v);
                i += 1;
                proof {
                    assert(all.take(i as int) =~= all.take(i - 1).push(all[i - 1]));
                }
            }
            proof {
                assert(all.take(i as int) =~= all);
            }
        }
        Ok(Value::Pairs(SassMap { entries: out }))
    }

    pub fn meta_module_members(
        &mut self,
        ans: &Vec<Answer>,
        p: &Vec<Value>,
        n: &Vec<(String, Value)>,
        pos: Pos,
        kind: MemberKind,
    ) -> (r: Result<Value, Stop>)
        ensures
            (out_val(r), final(self)@) == module_members(
                old(self)@,
                ans@,
                vals(p@),
                named_vals(n@),
                pos,
                kind,
            ),
            same_place(old(self)@, final(self)@),
    {
        proof {
            reveal(ev_of);
        }
        if p.len() > 1 {
            return Err(stop_at(only_allowed_message(1, p.len()).as_str(), pos));
        }
        let v = match pick_argument(p, n, 0, "module") {
            Some(v) => v,
            None => {
                let mut m = chars_of("Missing argument $module for ");
                append_str(
                    &mut m,
                    match kind {
                        MemberKind::Function => "module-functions",
                        MemberKind::Mixin => "module-mixins",
                        MemberKind::Variable => "module-variables",
                    },
                );
                append_str(&mut m, "().");
                return Err(stop_at(string_of(m.as_slice()).as_str(), pos));
            },
        };
        let ns = match v {
            Value::Str(t) => t.text,
            other => {
                return Err(self.wrong_type(ans, "$module: ", &other, " is not a string.", pos));
            },
        };
        if let Some(m) = get_id(&self.uses.user, ns.as_str()) {
            let names = self.member_names(m, kind);
            let entries = self.member_entries(m, &names, kind);
            return Ok(Value::Pairs(SassMap { entries }));
        }
        match get_text(&self.uses.builtin, ns.as_str()) {
            Some(b) => self.builtin_members(ans, b.as_str(), kind),
            None => Err(stop_at(no_namespace_message(ns.as_str()).as_str(), pos)),
        }
    }
}

// ---- laws ----------------------------------------------------------------

proof fn lemma_before_is_one_way(x: Seq<char>, y: Seq<char>, i: int)
    requires
        text_before(x, y, i),
    ensures
        !text_before(y, x, i),
    decreases x.len() - i,
{
    if i < x.len() && x[i] == y[i] {
        lemma_before_is_one_way(x, y, i + 1);
    }
}

proof fn lemma_order_is_transitive(x: Seq<char>, y: Seq<char>, z: Seq<char>, i: int)
    requires
        !text_before(y, x, i),
        !text_before(z, y, i),
    ensures
        !text_before(z, x, i),
    decreases x.len() - i,
{
    if 0 <= i < x.len() && i < y.len() && i < z.len() && x[i] == y[i] && y[i] == z[i] {
        lemma_order_is_transitive(x, y, z, i + 1);
    }
}

/// Sorting gives the same names, each as often as before, and none before one that comes first.
pub proof fn sorting_orders_the_same_names(list: Seq<Seq<char>>)
    ensures
        in_order(list).to_multiset() == list.to_multiset(),
        forall|i: int, j: int|
            0 <= i < j < in_order(list).len() ==> !text_before(
                #[trigger] in_order(list)[j],
                #[trigger] in_order(list)[i],
                0,
            ),
    decreases list.len(),
{
    if list.len() > 0 {
        let before = in_order(list.drop_last());
        let t = list.last();
        sorting_orders_the_same_names(list.drop_last());
        lemma_rank(before, t, before.len());
        let p = rank_of(before, t, before.len()) as int;
        let o = in_order(list);
        assert(o == before.insert(p, t));
        vstd::seq_lib::to_multiset_insert(before, p, t);
        vstd::seq_lib::to_multiset_build(list.drop_last(), t);
        assert(list.drop_last().push(t) =~= list);
        assert forall|i: int, j: int| 0 <= i < j < o.len() implies !text_before(
            #[trigger] o[j],
            #[trigger] o[i],
            0,
        ) by {
            if i == p {
                assert(o[j] == before[j - 1]);
                lemma_before_is_one_way(t, before[j - 1], 0);
            } else if j == p {
                assert(o[i] == before[i]);
                if i < p - 1 {
                    lemma_order_is_transitive(before[i], before[p - 1], t, 0);
                }
            } else {
                let bi = if i < p {
                    i
                } else {
                    i - 1
                };
                let bj = if j < p {
                    j
                } else {
                    j - 1
                };
                assert(o[i] == before[bi]);
                assert(o[j] == before[bj]);
            }
        }
    } else {
        assert(list =~= Seq::empty());
    }
}

} // verus!
