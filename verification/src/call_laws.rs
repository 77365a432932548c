//! What the parameters of a call are bound to.

use vstd::prelude::*;
use crate::args::{
    Given, Gathered, Keywords, beyond, given, keywords_of, nothing_gathered, spread_keywords,
    spread_map, with_spread, with_written,
};
use crate::ast::{CallArg, Expr, Param, ParamList, Stmt};
use crate::env::Closure;
use crate::eval::{Ev, frame, local_set, scope_pushed};
use crate::host::{Answer, Halt};
use crate::names::dashed;
use crate::semantics::{bind_scope, body_run, call_args, eval, fn_block, fn_body, fn_stmt};
use crate::state::{Vars, entry, get, get_after_put, lemma_entry, lemma_entry_is, put, put_keeps_others};
use crate::statements::bound_frame;
use crate::value::Val;

verus! {

// ---- parameters ----------------------------------------------------------

/// The variables of the innermost scope.
pub open spec fn innermost(s: Ev) -> Vars {
    frame(s, s.chain.scopes.last())
}

/// Whether there is an innermost scope.
pub open spec fn has_innermost(s: Ev) -> bool {
    s.chain.scopes.len() > 0 && s.chain.scopes.last() < s.frames.len()
}

/// Whether each keyword is there once.
pub open spec fn keys_once(kw: Keywords) -> bool {
    forall|i: int, j: int| 0 <= i < j < kw.len() ==> (#[trigger] kw[i]).0 != (#[trigger] kw[j]).0
}

/// Whether no two parameters have the same name, in any spelling.
pub open spec fn names_once(params: Seq<Param>) -> bool {
    forall|i: int, j: int|
        0 <= i < j < params.len() ==> dashed((#[trigger] params[i]).name@) != dashed(
            (#[trigger] params[j]).name@,
        )
}

/// The value of the keyword argument for a parameter, if one is given.
pub open spec fn keyword_value(kw: Keywords, p: Param) -> Option<Val> {
    match get(kw, dashed(p.name@)) {
        Some(k) => Some(k.1),
        None => None,
    }
}

/// Whether a parameter has, in the innermost scope of `after`, the value that is owed to it: that of
/// the argument at its position; without one, that of the keyword argument of its name; without
/// either, the value that its default has in the state `before`. All other variables of the scope are
/// what they were.
pub open spec fn owed(before: Ev, after: Ev, ans: Seq<Answer>, p: Param, j: int, a: Given, kw: Keywords, fuel: nat) -> bool {
    let v = get(innermost(after), p.name@);
    if j < a.positional.len() {
        has_innermost(after) ==> v == Some(a.positional[j]) && others_kept(before, after, p.name@)
    } else if keyword_value(kw, p) is Some {
        has_innermost(after) ==> v == keyword_value(kw, p) && others_kept(before, after, p.name@)
    } else {
        &&& p.default is Some
        &&& eval(before, ans, p.default->0, fuel).0 is Ok
        &&& has_innermost(after) ==> v == Some(eval(before, ans, p.default->0, fuel).0->Ok_0)
            && others_kept(eval(before, ans, p.default->0, fuel).1, after, p.name@)
    }
}

/// Whether all variables of the innermost scope but one are the same.
pub open spec fn others_kept(before: Ev, after: Ev, name: Seq<char>) -> bool {
    forall|x: Seq<char>| x != name ==> #[trigger] get(innermost(after), x) == get(innermost(before), x)
}

/// The parameters of a call, one after the other, get what is owed to them: the states that the
/// binding goes through are `mid`, the first of them the one it starts in. In the end no argument is
/// left over, or a rest parameter holds those by position beyond the parameters, in order.
pub proof fn parameters_get_their_values(
    s: Ev,
    ans: Seq<Answer>,
    params: ParamList,
    i: int,
    a: Given,
    kw: Keywords,
    name: Seq<char>,
    fuel: nat,
) -> (mid: Seq<Ev>)
    requires
        0 <= i <= params.params@.len(),
        keys_once(kw),
        names_once(params.params@),
        bind_scope(s, ans, params, i, a, kw, name, fuel).0 is Ok,
    ensures
        mid.len() == params.params@.len() - i + 1,
        mid[0] == s,
        forall|j: int|
            i <= j < params.params@.len() ==> owed(
                #[trigger] mid[j - i],
                mid[j - i + 1],
                ans,
                params.params@[j],
                j,
                a,
                kw,
                fuel,
            ),
        ({
            let end = bind_scope(s, ans, params, i, a, kw, name, fuel).1;
            let n = params.params@.len();
            match params.rest {
                None => end == mid.last() && a.positional.len() <= n && forall|k: int|
                    0 <= k < kw.len() ==> taken_by_name(params.params@, a, (#[trigger] kw[k]).0, i),
                Some(r) => has_innermost(mid.last()) ==> {
                    let v = get(innermost(end), r@);
                    &&& v is Some && v->0 is List
                    &&& v->0->items == (if a.positional.len() > n {
                        a.positional.skip(n as int)
                    } else {
                        Seq::empty()
                    })
                    &&& v->0->sep == a.sep
                    &&& !v->0->bracketed
                    &&& v->0->keywords is Some
                    &&& forall|k: int|
                        0 <= k < kw.len() && !taken_by_name(params.params@, a, (#[trigger] kw[k]).0, i)
                            ==> v->0->keywords->0.contains((Val::Str(kw[k].0, false), (kw[k].1).1))
                },
            }
        }),
    decreases params.params@.len() - i,
{
    let n = params.params@.len();
    if i >= n {
        match params.rest {
            Some(r) => {
                let end = bind_scope(s, ans, params, i, a, kw, name, fuel).1;
                if has_innermost(s) {
                    let v = crate::args::rest_list(beyond(a.positional, n as int), a.sep, kw);
                    get_after_put(innermost(s), r@, v);
                    assert(get(innermost(end), r@) == Some(v));
                    let pairs = crate::args::keyword_pairs(kw);
                    assert forall|k: int| 0 <= k < kw.len() implies pairs.contains(
                        (Val::Str((#[trigger] kw[k]).0, false), (kw[k].1).1),
                    ) by {
                        assert(pairs[k] == (Val::Str(kw[k].0, false), (kw[k].1).1));
                    }
                }
            },
            None => {
                assert(kw.len() == 0);
            },
        }
        seq![s]
    } else {
        let p = params.params@[i];
        let key = dashed(p.name@);
        let k = entry(kw, key);
        lemma_entry(kw, key);
        if i < a.positional.len() {
            let s1 = local_set(s, p.name@, a.positional[i]);
            lemma_local_set(s, p.name@, a.positional[i]);
            let rest = parameters_get_their_values(s1, ans, params, i + 1, a, kw, name, fuel);
            lemma_taken_later(params.params@, a, kw, i);
            lemma_steps(s, s1, rest, ans, params, i, a, kw, kw, fuel);
            seq![s] + rest
        } else if k < kw.len() {
            let s1 = local_set(s, p.name@, (kw[k].1).1);
            lemma_local_set(s, p.name@, (kw[k].1).1);
            let less = kw.remove(k);
            assert(keys_once(less)) by {
                assert forall|x: int, y: int| 0 <= x < y < less.len() implies (#[trigger] less[x]).0 != (
                #[trigger] less[y]).0 by {
                    let x0 = if x < k {
                        x
                    } else {
                        x + 1
                    };
                    let y0 = if y < k {
                        y
                    } else {
                        y + 1
                    };
                    assert(less[x] == kw[x0] && less[y] == kw[y0]);
                }
            }
            let rest = parameters_get_their_values(s1, ans, params, i + 1, a, less, name, fuel);
            lemma_steps(s, s1, rest, ans, params, i, a, kw, less, fuel);
            assert forall|q: int| 0 <= q < kw.len() && !taken_by_name(params.params@, a, (#[trigger] kw[q]).0, i)
                implies exists|x: int| 0 <= x < less.len() && #[trigger] less[x] == kw[q]
                && !taken_by_name(params.params@, a, less[x].0, i + 1) by {
                assert(q != k) by {
                    if q == k {
                        assert(taken_by_name(params.params@, a, kw[q].0, i)) by {
                            assert(dashed(params.params@[i].name@) == kw[q].0);
                        }
                    }
                }
                let x = if q < k {
                    q
                } else {
                    q - 1
                };
                assert(less[x] == kw[q]);
                lemma_taken_one(params.params@, a, kw[q].0, i);
            }
            assert(params.rest is None ==> forall|q: int|
                0 <= q < kw.len() ==> taken_by_name(params.params@, a, (#[trigger] kw[q]).0, i)) by {
                if params.rest is None {
                    assert forall|q: int| 0 <= q < kw.len() implies taken_by_name(
                        params.params@,
                        a,
                        (#[trigger] kw[q]).0,
                        i,
                    ) by {
                        if q == k {
                            assert(dashed(params.params@[i].name@) == kw[q].0);
                        } else {
                            let x = if q < k {
                                q
                            } else {
                                q - 1
                            };
                            assert(less[x] == kw[q]);
                            lemma_taken_one(params.params@, a, kw[q].0, i);
                        }
                    }
                }
            }
            seq![s] + rest
        } else {
            let r = eval(s, ans, p.default->0, fuel);
            let v = r.0->Ok_0;
            let s1 = local_set(r.1, p.name@, v);
            lemma_local_set(r.1, p.name@, v);
            let rest = parameters_get_their_values(s1, ans, params, i + 1, a, kw, name, fuel);
            lemma_taken_later(params.params@, a, kw, i);
            lemma_steps(s, s1, rest, ans, params, i, a, kw, kw, fuel);
            seq![s] + rest
        }
    }
}

/// Whether a keyword goes to a parameter from `i` on that no argument by position fills.
pub open spec fn taken_by_name(params: Seq<Param>, a: Given, key: Seq<char>, i: int) -> bool {
    exists|j: int|
        i <= j < params.len() && j >= a.positional.len() && dashed((#[trigger] params[j]).name@) == key
}

proof fn lemma_taken_one(params: Seq<Param>, a: Given, key: Seq<char>, i: int)
    ensures
        taken_by_name(params, a, key, i + 1) ==> taken_by_name(params, a, key, i),
{
    if taken_by_name(params, a, key, i + 1) {
        let j = choose|j: int|
            i + 1 <= j < params.len() && j >= a.positional.len() && dashed(
                (#[trigger] params[j]).name@,
            ) == key;
        assert(dashed(params[j].name@) == key);
    }
}

proof fn lemma_taken_later(params: Seq<Param>, a: Given, kw: Keywords, i: int)
    ensures
        forall|k: int|
            0 <= k < kw.len() && taken_by_name(params, a, (#[trigger] kw[k]).0, i + 1) ==> taken_by_name(
                params,
                a,
                kw[k].0,
                i,
            ),
{
    assert forall|k: int|
        0 <= k < kw.len() && taken_by_name(params, a, (#[trigger] kw[k]).0, i + 1) implies taken_by_name(
        params,
        a,
        kw[k].0,
        i,
    ) by {
        lemma_taken_one(params, a, kw[k].0, i);
    }
}

proof fn lemma_local_set(s: Ev, name: Seq<char>, v: Val)
    ensures
        local_set(s, name, v).chain == s.chain,
        has_innermost(local_set(s, name, v)) ==> get(innermost(local_set(s, name, v)), name) == Some(v),
        forall|x: Seq<char>|
            x != name ==> #[trigger] get(innermost(local_set(s, name, v)), x) == get(innermost(s), x),
{
    let s1 = local_set(s, name, v);
    if has_innermost(s) {
        get_after_put(innermost(s), name, v);
        assert forall|x: Seq<char>| x != name implies #[trigger] get(innermost(s1), x) == get(
            innermost(s),
            x,
        ) by {
            put_keeps_others(innermost(s), name, v, x);
        }
    }
}

proof fn lemma_steps(
    s: Ev,
    s1: Ev,
    rest: Seq<Ev>,
    ans: Seq<Answer>,
    params: ParamList,
    i: int,
    a: Given,
    kw: Keywords,
    less: Keywords,
    fuel: nat,
)
    requires
        0 <= i < params.params@.len(),
        names_once(params.params@),
        rest.len() == params.params@.len() - i,
        rest[0] == s1,
        less == kw || (0 <= entry(kw, dashed(params.params@[i].name@)) < kw.len() && less == kw.remove(
            entry(kw, dashed(params.params@[i].name@)),
        )),
        owed(s, s1, ans, params.params@[i], i, a, kw, fuel),
        forall|j: int|
            i + 1 <= j < params.params@.len() ==> owed(
                #[trigger] rest[j - (i + 1)],
                rest[j - (i + 1) + 1],
                ans,
                params.params@[j],
                j,
                a,
                less,
                fuel,
            ),
    ensures
        forall|j: int|
            i <= j < params.params@.len() ==> owed(
                #[trigger] (seq![s] + rest)[j - i],
                (seq![s] + rest)[j - i + 1],
                ans,
                params.params@[j],
                j,
                a,
                kw,
                fuel,
            ),
{
    let all = seq![s] + rest;
    assert forall|j: int|
        i <= j < params.params@.len() implies owed(
        #[trigger] all[j - i],
        all[j - i + 1],
        ans,
        params.params@[j],
        j,
        a,
        kw,
        fuel,
    ) by {
        assert(all[j - i + 1] == rest[j - i]);
        if j > i {
            assert(all[j - i] == rest[j - (i + 1)]);
            if less != kw {
                assert(dashed(params.params@[i].name@) != dashed(params.params@[j].name@));
                lemma_removed(kw, dashed(params.params@[i].name@), dashed(params.params@[j].name@));
            }
        }
    }
}

proof fn lemma_removed(kw: Keywords, key: Seq<char>, other: Seq<char>)
    requires
        key != other,
        entry(kw, key) < kw.len(),
    ensures
        get(kw.remove(entry(kw, key)), other) == get(kw, other),
{
    let k = entry(kw, key);
    let less = kw.remove(k);
    lemma_entry(kw, key);
    lemma_entry(kw, other);
    let o = entry(kw, other);
    if o < kw.len() {
        let x = if o < k {
            o
        } else {
            o - 1
        };
        assert(o != k);
        assert(less[x] == kw[o]);
        assert forall|j: int| 0 <= j < x implies (#[trigger] less[j]).0 != other by {
            let j0 = if j < k {
                j
            } else {
                j + 1
            };
            assert(less[j] == kw[j0]);
        }
        lemma_entry_is(less, other, x);
    } else {
        assert forall|j: int| 0 <= j < less.len() implies (#[trigger] less[j]).0 != other by {
            let j0 = if j < k {
                j
            } else {
                j + 1
            };
            assert(less[j] == kw[j0]);
        }
        lemma_entry_is(less, other, less.len() as int);
    }
}

/// A parameter without a default that no argument fills is an error, and so is an argument by position
/// beyond the parameters, or a keyword that no parameter has, where there is no rest parameter.
pub proof fn unfilled_parameter_is_an_error(
    s: Ev,
    ans: Seq<Answer>,
    params: ParamList,
    a: Given,
    kw: Keywords,
    name: Seq<char>,
    fuel: nat,
    j: int,
)
    requires
        keys_once(kw),
        names_once(params.params@),
        ({
            let n = params.params@.len();
            ||| 0 <= j < n && j >= a.positional.len() && params.params@[j].default is None
                && keyword_value(kw, params.params@[j]) is None
            ||| params.rest is None && a.positional.len() > n
            ||| params.rest is None && 0 <= j < kw.len() && !taken_by_name(params.params@, a, kw[j].0, 0)
        }),
    ensures
        bind_scope(s, ans, params, 0, a, kw, name, fuel).0 is Err,
{
    if bind_scope(s, ans, params, 0, a, kw, name, fuel).0 is Ok {
        let mid = parameters_get_their_values(s, ans, params, 0, a, kw, name, fuel);
        if 0 <= j < params.params@.len() {
            assert(owed(mid[j - 0], mid[j - 0 + 1], ans, params.params@[j], j, a, kw, fuel));
        }
    }
}

/// The keywords of a call are its named arguments: each under its canonical name, with its value.
pub proof fn keywords_are_the_named_arguments(named: Vars)
    ensures
        keys_once(keywords_of(named)),
        forall|k: int|
            0 <= k < keywords_of(named).len() ==> exists|j: int|
                0 <= j < named.len() && dashed((#[trigger] named[j]).0) == (#[trigger] keywords_of(
                    named,
                )[k]).0 && named[j].1 == (keywords_of(named)[k].1).1,
        forall|j: int|
            0 <= j < named.len() && named_once(named, j) ==> get(
                keywords_of(named),
                dashed((#[trigger] named[j]).0),
            ) is Some && (get(keywords_of(named), dashed(named[j].0))->0).1 == named[j].1,
    decreases named.len(),
{
    let kw = keywords_of(named);
    if named.len() > 0 {
        let less = named.drop_last();
        let before = keywords_of(less);
        keywords_are_the_named_arguments(less);
        let key = dashed(named.last().0);
        let k = entry(before, key);
        lemma_entry(before, key);
        assert forall|x: int, y: int| 0 <= x < y < kw.len() implies (#[trigger] kw[x]).0 != (
        #[trigger] kw[y]).0 by {
            if k >= before.len() {
                assert(kw == before.push((key, (named.last().0, named.last().1))));
                if y == before.len() {
                    assert(before[x].0 != key);
                } else {
                    assert(kw[x] == before[x] && kw[y] == before[y]);
                }
            } else {
                assert(kw[x].0 == before[x].0 && kw[y].0 == before[y].0);
                assert(before[x].0 != before[y].0);
            }
        }
        assert forall|x: int| 0 <= x < kw.len() implies exists|j: int|
            0 <= j < named.len() && dashed((#[trigger] named[j]).0) == (#[trigger] kw[x]).0 && named[j].1
                == (kw[x].1).1 by {
            if (k < before.len() && x == k) || x == before.len() {
                assert(dashed(named[named.len() - 1].0) == kw[x].0);
            } else {
                assert(kw[x] == before[x]);
                let j = choose|j: int|
                    0 <= j < less.len() && dashed((#[trigger] less[j]).0) == before[x].0 && less[j].1
                        == (before[x].1).1;
                assert(named[j] == less[j]);
            }
        }
        assert forall|j: int| 0 <= j < named.len() && named_once(named, j) implies get(
            kw,
            dashed((#[trigger] named[j]).0),
        ) is Some && (get(kw, dashed(named[j].0))->0).1 == named[j].1 by {
            let d = dashed(named[j].0);
            if j == named.len() - 1 {
                if k < before.len() {
                    lemma_entry_is(kw, key, k);
                } else {
                    lemma_entry_is(kw, key, before.len() as int);
                }
            } else {
                assert(less[j] == named[j]);
                assert(named_once(less, j)) by {
                    assert forall|i: int| 0 <= i < less.len() && i != j implies dashed(
                        (#[trigger] less[i]).0,
                    ) != d by {
                        assert(less[i] == named[i]);
                    }
                }
                assert(dashed(named[named.len() - 1].0) != d);
                lemma_entry(before, d);
                let e = entry(before, d);
                assert(before[e].0 == d);
                assert(kw[e] == before[e]);
                assert forall|i: int| 0 <= i < e implies (#[trigger] kw[i]).0 != d by {
                    if i != k {
                        assert(kw[i] == before[i]);
                    }
                }
                lemma_entry_is(kw, d, e);
            }
        }
    }
}

/// Whether no other argument has the name of this one, in any spelling.
pub open spec fn named_once(named: Vars, j: int) -> bool {
    forall|i: int| 0 <= i < named.len() && i != j ==> dashed((#[trigger] named[i]).0) != dashed(named[j].0)
}

/// The parameters of a `@content` block get their values in the same way: each has, in the frame that
/// the block runs in, the argument at its position, where there is one for every parameter.
pub proof fn content_parameters_get_their_values(
    s: Ev,
    ans: Seq<Answer>,
    params: ParamList,
    i: int,
    a: Given,
    kw: Keywords,
    name: Seq<char>,
    acc: Vars,
    fuel: nat,
    j: int,
)
    requires
        0 <= i <= params.params@.len(),
        names_once(params.params@),
        params.rest is None,
        a.positional.len() >= params.params@.len(),
        bound_frame(s, ans, params, i, a, kw, name, acc, fuel).0 is Ok,
        0 <= j < params.params@.len(),
        j < i ==> get(acc, params.params@[j].name@) == Some(a.positional[j]),
    ensures
        get(
            bound_frame(s, ans, params, i, a, kw, name, acc, fuel).0->Ok_0,
            params.params@[j].name@,
        ) == Some(a.positional[j]),
        bound_frame(s, ans, params, i, a, kw, name, acc, fuel).1 == s,
    decreases params.params@.len() - i,
{
    reveal_with_fuel(bound_frame, 2);
    if i < params.params@.len() {
        let p = params.params@[i];
        get_after_put(acc, p.name@, a.positional[i]);
        if j < i {
            assert(dashed(params.params@[j].name@) != dashed(p.name@));
            put_keeps_others(acc, p.name@, a.positional[i], params.params@[j].name@);
        }
        content_parameters_get_their_values(
            s,
            ans,
            params,
            i + 1,
            a,
            kw,
            name,
            put(acc, p.name@, a.positional[i]),
            fuel,
            j,
        );
    }
}

/// A parameter of a `@content` block that no argument fills, the last one, has the value of its
/// default.
pub proof fn content_default_is_taken(
    s: Ev,
    ans: Seq<Answer>,
    params: ParamList,
    i: int,
    a: Given,
    kw: Keywords,
    name: Seq<char>,
    acc: Vars,
    fuel: nat,
)
    requires
        i == params.params@.len() - 1,
        i >= 0,
        params.rest is None,
        a.positional.len() <= i,
        keyword_value(kw, params.params@[i]) is None,
        bound_frame(s, ans, params, i, a, kw, name, acc, fuel).0 is Ok,
    ensures
        params.params@[i].default is Some,
        eval(s, ans, params.params@[i].default->0, fuel).0 is Ok,
        get(
            bound_frame(s, ans, params, i, a, kw, name, acc, fuel).0->Ok_0,
            params.params@[i].name@,
        ) == Some(eval(s, ans, params.params@[i].default->0, fuel).0->Ok_0),
{
    reveal_with_fuel(bound_frame, 3);
    let p = params.params@[i];
    lemma_entry(kw, dashed(p.name@));
    let v = eval(s, ans, p.default->0, fuel).0->Ok_0;
    get_after_put(acc, p.name@, v);
}

// ---- arguments -----------------------------------------------------------

/// The arguments of a call that are written by position come in the order they are written in, each
/// with its value; `mid` are the states that they are evaluated in.
pub proof fn arguments_keep_their_order(
    s: Ev,
    ans: Seq<Answer>,
    args: Seq<CallArg>,
    i: int,
    g: Gathered,
    fuel: nat,
) -> (mid: Seq<Ev>)
    requires
        0 <= i <= args.len(),
        forall|k: int| 0 <= k < args.len() ==> !(#[trigger] args[k]).splat && args[k].name is None,
        call_args(s, ans, args, i, g, fuel).0 is Ok,
    ensures
        mid.len() == args.len() - i + 1,
        mid[0] == s,
        mid.last() == call_args(s, ans, args, i, g, fuel).1,
        ({
            let r = call_args(s, ans, args, i, g, fuel).0->Ok_0;
            &&& r.explicit.len() == g.explicit.len() + args.len() - i
            &&& forall|k: int| 0 <= k < g.explicit.len() ==> #[trigger] r.explicit[k] == g.explicit[k]
            &&& forall|k: int|
                i <= k < args.len() ==> eval(#[trigger] mid[k - i], ans, args[k].value, fuel) == (
                    Ok::<Val, Halt>(r.explicit[g.explicit.len() + k - i]),
                    mid[k - i + 1],
                )
            &&& r.spread == g.spread
            &&& r.named == g.named
            &&& r.sep == g.sep
        }),
    decreases args.len() - i,
{
    if i >= args.len() {
        seq![s]
    } else {
        let e = eval(s, ans, args[i].value, fuel);
        assert(!args[i].splat && args[i].name is None);
        let v = e.0->Ok_0;
        let g1 = Gathered { explicit: g.explicit.push(v), ..g };
        let rest = arguments_keep_their_order(e.1, ans, args, i + 1, g1, fuel);
        let all = seq![s] + rest;
        let r = call_args(s, ans, args, i, g, fuel).0->Ok_0;
        assert forall|k: int| 0 <= k < g.explicit.len() implies #[trigger] r.explicit[k]
            == g.explicit[k] by {
            assert(g1.explicit[k] == g.explicit[k]);
        }
        assert forall|k: int| i <= k < args.len() implies eval(
            #[trigger] all[k - i],
            ans,
            args[k].value,
            fuel,
        ) == (Ok::<Val, Halt>(r.explicit[g.explicit.len() + k - i]), all[k - i + 1]) by {
            if k == i {
                assert(r.explicit[g.explicit.len() as int] == g1.explicit[g.explicit.len() as int]);
                assert(all[1] == rest[0]);
            } else {
                assert(all[k - i] == rest[k - (i + 1)]);
                assert(all[k - i + 1] == rest[k - (i + 1) + 1]);
            }
        }
        all
    }
}

/// A named argument goes by its name, with its value; a list that is spread gives its items by
/// position, after those that are written so.
pub proof fn written_and_spread_arguments(s: Ev, ans: Seq<Answer>, arg: CallArg, fuel: nat)
    requires
        call_args(s, ans, seq![arg], 0, nothing_gathered(), fuel).0 is Ok,
    ensures
        ({
            let v = eval(s, ans, arg.value, fuel).0;
            let r = given(call_args(s, ans, seq![arg], 0, nothing_gathered(), fuel).0->Ok_0);
            &&& v is Ok
            &&& !arg.splat && arg.name is Some ==> r.positional.len() == 0 && r.named == seq![
                (arg.name->0@, v->Ok_0),
            ]
            &&& arg.splat && v->Ok_0 is List ==> r.positional == v->Ok_0->items
            &&& arg.splat && v->Ok_0 is Null ==> r.positional.len() == 0 && r.named.len() == 0
            &&& arg.splat && v->Ok_0 is Number ==> r.positional == seq![v->Ok_0]
        }),
{
    reveal_with_fuel(call_args, 2);
    reveal_with_fuel(crate::env::loose_entry, 1);
    let v = eval(s, ans, arg.value, fuel).0;
    let r = given(call_args(s, ans, seq![arg], 0, nothing_gathered(), fuel).0->Ok_0);
    if !arg.splat && arg.name is Some {
        assert(r.named =~= seq![(arg.name->0@, v->Ok_0)]);
    }
    if arg.splat && v->Ok_0 is List {
        assert(r.positional =~= v->Ok_0->items);
    }
    if arg.splat && v->Ok_0 is Number {
        assert(r.positional =~= seq![v->Ok_0]);
    }
}

/// The values of the arguments that are written by position, in their order.
pub open spec fn by_position(args: Seq<CallArg>, values: Seq<Val>) -> Seq<Val>
    decreases args.len(),
{
    if args.len() == 0 {
        Seq::empty()
    } else {
        (if !args[0].splat && args[0].name is None {
            seq![values[0]]
        } else {
            Seq::empty()
        }) + by_position(args.skip(1), values.skip(1))
    }
}

/// The values that a spread value gives by position.
pub open spec fn spread_values(v: Val) -> Seq<Val> {
    match v {
        Val::List { items, sep, bracketed, keywords } => items,
        Val::Pairs(m) => Seq::empty(),
        Val::Null => Seq::empty(),
        other => seq![other],
    }
}

/// The values of the arguments that are spread, one after the other.
pub open spec fn by_spread(args: Seq<CallArg>, values: Seq<Val>) -> Seq<Val>
    decreases args.len(),
{
    if args.len() == 0 {
        Seq::empty()
    } else {
        (if args[0].splat {
            spread_values(values[0])
        } else {
            Seq::empty()
        }) + by_spread(args.skip(1), values.skip(1))
    }
}

/// The entries of a map whose keys are strings, each with its key's text.
pub open spec fn string_entries(m: Seq<(Val, Val)>, i: int) -> Vars
    decreases m.len() - i,
{
    if i < 0 || i >= m.len() {
        Seq::empty()
    } else {
        (match m[i].0 {
            Val::Str(t, q) => seq![(t, m[i].1)],
            _ => Seq::empty(),
        }) + string_entries(m, i + 1)
    }
}

/// The values that a spread value gives by name: those of a map, or the keywords of an argument list.
pub open spec fn spread_names(v: Val) -> Vars {
    match v {
        Val::Pairs(m) => string_entries(m, 0),
        Val::List { items, sep, bracketed, keywords: Some(kw) } => string_entries(kw, 0),
        _ => Seq::empty(),
    }
}

/// The values that go by name, in their order.
pub open spec fn by_name(args: Seq<CallArg>, values: Seq<Val>) -> Vars
    decreases args.len(),
{
    if args.len() == 0 {
        Seq::empty()
    } else {
        (if args[0].splat {
            spread_names(values[0])
        } else if args[0].name is Some {
            seq![(args[0].name->0@, values[0])]
        } else {
            Seq::empty()
        }) + by_name(args.skip(1), values.skip(1))
    }
}

proof fn lemma_spread_map(s: Ev, ans: Seq<Answer>, m: Seq<(Val, Val)>, i: int, named: Vars)
    requires
        0 <= i <= m.len(),
    ensures
        spread_map(s, ans, m, i, named).0 is Ok ==> spread_map(s, ans, m, i, named).0->Ok_0 == named
            + string_entries(m, i),
        spread_keywords(s, m, i, named).0 is Ok ==> spread_keywords(s, m, i, named).0->Ok_0 == named
            + string_entries(m, i),
    decreases m.len() - i,
{
    if i < m.len() {
        match m[i].0 {
            Val::Str(t, q) => {
                let n = named.push((t, m[i].1));
                lemma_spread_map(s, ans, m, i + 1, n);
                assert(n + string_entries(m, i + 1) =~= named + string_entries(m, i));
            },
            _ => {
                lemma_spread_map(s, ans, m, i + 1, named);
                assert(named + string_entries(m, i + 1) =~= named + string_entries(m, i));
            },
        }
    } else {
        assert(named + string_entries(m, i) =~= named);
    }
}

proof fn lemma_spread(s: Ev, ans: Seq<Answer>, g: Gathered, v: Val)
    requires
        with_spread(s, ans, g, v).0 is Ok,
    ensures
        ({
            let r = with_spread(s, ans, g, v).0->Ok_0;
            &&& r.explicit == g.explicit
            &&& r.spread == g.spread + spread_values(v)
            &&& r.named == g.named + spread_names(v)
        }),
{
    let r = with_spread(s, ans, g, v).0->Ok_0;
    match v {
        Val::Pairs(m) => {
            lemma_spread_map(s, ans, m, 0, g.named);
        },
        Val::List { items, sep, bracketed, keywords } => {
            if keywords is Some {
                lemma_spread_map(s, ans, keywords->0, 0, g.named);
            }
        },
        _ => {},
    }
    assert(r.spread =~= g.spread + spread_values(v));
    assert(r.named =~= g.named + spread_names(v));
}

/// A call gathers its arguments, evaluated one after the other: by position those that are written so,
/// in their order, and behind them the items of those that are spread; by name those that have a name,
/// and the entries of the maps and the keywords of the argument lists that are spread.
pub proof fn call_gathers_its_arguments(
    s: Ev,
    ans: Seq<Answer>,
    args: Seq<CallArg>,
    i: int,
    g: Gathered,
    fuel: nat,
) -> (r: (Seq<Val>, Seq<Ev>))
    requires
        0 <= i <= args.len(),
        call_args(s, ans, args, i, g, fuel).0 is Ok,
    ensures
        r.0.len() == args.len() - i,
        r.1.len() == args.len() - i + 1,
        r.1[0] == s,
        forall|k: int|
            i <= k < args.len() ==> ({
                let v = eval(#[trigger] r.1[k - i], ans, args[k].value, fuel);
                v.0 == Ok::<Val, Halt>(r.0[k - i])
            }),
        ({
            let all = call_args(s, ans, args, i, g, fuel).0->Ok_0;
            &&& all.explicit == g.explicit + by_position(args.skip(i), r.0)
            &&& all.spread == g.spread + by_spread(args.skip(i), r.0)
            &&& all.named == g.named + by_name(args.skip(i), r.0)
            &&& given(all).positional == all.explicit + all.spread
            &&& given(all).named == all.named
        }),
    decreases args.len() - i,
{
    let rest = args.skip(i);
    if i >= args.len() {
        let none = Seq::<Val>::empty();
        assert(g.explicit + by_position(rest, none) =~= g.explicit);
        assert(g.spread + by_spread(rest, none) =~= g.spread);
        assert(g.named + by_name(rest, none) =~= g.named);
        (none, seq![s])
    } else {
        let e = eval(s, ans, args[i].value, fuel);
        let v = e.0->Ok_0;
        let x = if args[i].splat {
            with_spread(e.1, ans, g, v)
        } else {
            with_written(e.1, g, crate::text::text_of(args[i].name), v)
        };
        let g1 = x.0->Ok_0;
        if args[i].splat {
            lemma_spread(e.1, ans, g, v);
        }
        assert(call_args(s, ans, args, i, g, fuel) == call_args(x.1, ans, args, i + 1, g1, fuel));
        let (values, mid) = call_gathers_its_arguments(x.1, ans, args, i + 1, g1, fuel);
        let all = seq![v] + values;
        let evs = seq![s] + mid;
        assert(rest[0] == args[i]);
        assert(rest.skip(1) =~= args.skip(i + 1));
        assert(all.skip(1) =~= values);
        let less = args.skip(i + 1);
        assert(g1.explicit + by_position(less, values) =~= g.explicit + by_position(rest, all));
        assert(g1.spread + by_spread(less, values) =~= g.spread + by_spread(rest, all));
        assert(g1.named + by_name(less, values) =~= g.named + by_name(rest, all));
        assert forall|k: int| i <= k < args.len() implies ({
            let w = eval(#[trigger] evs[k - i], ans, args[k].value, fuel);
            w.0 == Ok::<Val, Halt>(all[k - i])
        }) by {
            if k > i {
                assert(evs[k - i] == mid[k - (i + 1)]);
                assert(all[k - i] == values[k - (i + 1)]);
            }
        }
        (all, evs)
    }
}

// ---- what a function returns ---------------------------------------------

/// A function returns the value of the first `@return` that it comes to: what stands after it is not
/// run. A body without one returns nothing.
pub proof fn return_ends_the_body(s: Ev, ans: Seq<Answer>, e: Expr, rest: Seq<Stmt>, fuel: nat)
    ensures
        fn_body(s, ans, seq![Stmt::Return(e)] + rest, 0, fuel) == match eval(s, ans, e, fuel) {
            (Ok(v), s1) => (Ok::<Option<Val>, Halt>(Some(v)), s1),
            (Err(h), s1) => (Err(h), s1),
        },
        fn_body(s, ans, Seq::empty(), 0, fuel) == (Ok::<Option<Val>, Halt>(None), s),
{
    let all = seq![Stmt::Return(e)] + rest;
    assert(all[0] == Stmt::Return(e));
    reveal_with_fuel(fn_body, 2);
    reveal_with_fuel(fn_stmt, 2);
    assert(fn_stmt(s, ans, all[0], fuel) == match eval(s, ans, e, fuel) {
        (Ok(v), s1) => (Ok::<Option<Val>, Halt>(Some(v)), s1),
        (Err(h), s1) => (Err(h), s1),
    });
}

/// A function runs in the scopes of its definition, with a new one for its parameters: its body is
/// run where the binding of the parameters ends, and what it returns is what the call gives.
pub proof fn function_runs_where_it_was_defined(s: Ev, ans: Seq<Answer>, c: Closure, a: Given, fuel: nat)
    ensures
        ({
            let inside = scope_pushed(Ev { chain: c.chain, ..s }, false);
            let bound = bind_scope(
                inside,
                ans,
                c.def.params,
                0,
                a,
                keywords_of(a.named),
                c.def.name@,
                fuel,
            );
            &&& inside.chain.scopes.len() == c.chain.scopes.len() + 1
            &&& forall|k: int|
                0 <= k < c.chain.scopes.len() ==> #[trigger] inside.chain.scopes[k] == c.chain.scopes[k]
            &&& s.frames.len() < usize::MAX ==> innermost(inside).len() == 0
            &&& bound.0 is Err ==> body_run(s, ans, c, a, false, fuel).0 is Err
            &&& bound.0 is Ok ==> body_run(s, ans, c, a, false, fuel).0 == fn_block(
                bound.1,
                ans,
                c.def.body@,
                fuel,
            ).0
        }),
{
}

} // verus!
