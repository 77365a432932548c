//! How configuration reaches a module through others, and what an import brings in.

use vstd::prelude::*;
use crate::analysis::{global_names, top_decl};
use crate::ast::ForwardMember;
use crate::configs::{
    Plan, Settings, empty_plan, forward_plan, own_added, passed_on, passes, used_downstream,
};
use crate::edges::with_text;
use crate::eval::{Ev, frame, lookup, with_var};
use crate::host::Answer;
use crate::imports::{exports_taken, import_begun, import_ended, locals_taken, rebound};
use crate::install::slots_added;
use crate::member_laws::{each_once, let_through, show_and_hide_select};
use crate::page::{Exports, Imported};
use crate::sink::Drain;
use crate::state::{Ids, Vars, get, get_after_put, lemma_entry, put, put_keeps_others};
use crate::statements::{file_imported, run_block};
use crate::value::Val;

verus! {

// ---- configuration -------------------------------------------------------

/// Whether a name from downstream is the prefix and then another name.
pub open spec fn behind_prefix(prefix: Option<Seq<char>>, name: Seq<char>) -> Seq<char> {
    match prefix {
        Some(p) => p + name,
        None => name,
    }
}

/// Whether a name is configured from downstream and let through.
pub open spec fn reaches_through(
    down: Settings,
    i: int,
    prefix: Option<Seq<char>>,
    show: Option<Vec<ForwardMember>>,
    hide: Option<Vec<ForwardMember>>,
    name: Seq<char>,
) -> bool {
    let_through(show, hide, true, name) && exists|k: int|
        i <= k < down.len() && (#[trigger] down[k]).0 == behind_prefix(prefix, name)
}

proof fn lemma_unprefixed(prefix: Option<Seq<char>>, full: Seq<char>, name: Seq<char>)
    ensures
        (full == behind_prefix(prefix, name)) == (crate::sem::unprefixed(full, prefix) == Some(name)),
{
    match prefix {
        None => {},
        Some(p) => {
            if full == p + name {
                assert(full.take(p.len() as int) =~= p);
                assert(full.skip(p.len() as int) =~= name);
            }
            if crate::sem::unprefixed(full, prefix) == Some(name) {
                assert(full =~= p + name);
            }
        },
    }
}

proof fn lemma_passed_on(
    down: Settings,
    i: int,
    prefix: Option<Seq<char>>,
    show: Option<Vec<ForwardMember>>,
    hide: Option<Vec<ForwardMember>>,
    p: Plan,
    name: Seq<char>,
)
    requires
        0 <= i <= down.len(),
        each_once(down),
    ensures
        ({
            let r = passed_on(down, i, prefix, show, hide, p);
            &&& forall|k: int|
                i <= k < down.len() && (#[trigger] down[k]).0 == behind_prefix(prefix, name) && let_through(
                    show,
                    hide,
                    true,
                    name,
                ) ==> get(r.combined, name) == Some(down[k].1) && get(r.passed, name) == Some(down[k].1)
                    && get(r.names, name) == Some(down[k].0)
            &&& !reaches_through(down, i, prefix, show, hide, name) ==> get(r.combined, name) == get(
                p.combined,
                name,
            ) && get(r.passed, name) == get(p.passed, name)
            &&& r.own == p.own && r.claimed == p.claimed && r.shadowed == p.shadowed
        }),
    decreases down.len() - i,
{
    if i < down.len() {
        let full = down[i].0;
        lemma_unprefixed(prefix, full, name);
        show_and_hide_select(show, hide, true, name);
        let up = crate::sem::unprefixed(full, prefix);
        let next = if up is None || !passes(show, hide, up->0) {
            p
        } else {
            Plan {
                combined: put(p.combined, up->0, down[i].1),
                passed: put(p.passed, up->0, down[i].1),
                names: put(p.names, up->0, full),
                ..p
            }
        };
        if up is Some {
            get_after_put(p.combined, up->0, down[i].1);
            get_after_put(p.passed, up->0, down[i].1);
            get_after_put(p.names, up->0, full);
            if up->0 != name {
                put_keeps_others(p.combined, up->0, down[i].1, name);
                put_keeps_others(p.passed, up->0, down[i].1, name);
            }
        }
        lemma_passed_on(down, i + 1, prefix, show, hide, next, name);
        lemma_names_kept(down, i + 1, prefix, show, hide, next, name);
        let r = passed_on(down, i, prefix, show, hide, p);
        assert(r == passed_on(down, i + 1, prefix, show, hide, next));
        if full == behind_prefix(prefix, name) {
            assert(!reaches_through(down, i + 1, prefix, show, hide, name)) by {
                if exists|k: int|
                    i + 1 <= k < down.len() && (#[trigger] down[k]).0 == behind_prefix(prefix, name) {
                    let k = choose|k: int|
                        i + 1 <= k < down.len() && (#[trigger] down[k]).0 == behind_prefix(prefix, name);
                    assert(down[i].0 != down[k].0);
                }
            }
            assert(down[i].0 == behind_prefix(prefix, name));
        } else {
            assert(up != Some(name));
        }
        assert(reaches_through(down, i + 1, prefix, show, hide, name) ==> reaches_through(
            down,
            i,
            prefix,
            show,
            hide,
            name,
        )) by {
            if reaches_through(down, i + 1, prefix, show, hide, name) {
                let k = choose|k: int|
                    i + 1 <= k < down.len() && (#[trigger] down[k]).0 == behind_prefix(prefix, name);
                assert(down[k].0 == behind_prefix(prefix, name));
            }
        }
        assert forall|k: int|
            i <= k < down.len() && (#[trigger] down[k]).0 == behind_prefix(prefix, name) && let_through(
                show,
                hide,
                true,
                name,
            ) implies get(r.combined, name) == Some(down[k].1) && get(r.passed, name) == Some(down[k].1)
            && get(r.names, name) == Some(down[k].0) by {
            if k == i {
                assert(up == Some(name));
            }
        }
    }
}

proof fn lemma_names_kept(
    down: Settings,
    i: int,
    prefix: Option<Seq<char>>,
    show: Option<Vec<ForwardMember>>,
    hide: Option<Vec<ForwardMember>>,
    p: Plan,
    name: Seq<char>,
)
    requires
        0 <= i <= down.len(),
    ensures
        (forall|k: int| i <= k < down.len() ==> (#[trigger] down[k]).0 != behind_prefix(prefix, name))
            ==> get(passed_on(down, i, prefix, show, hide, p).names, name) == get(p.names, name),
    decreases down.len() - i,
{
    if i < down.len() {
        let full = down[i].0;
        lemma_unprefixed(prefix, full, name);
        let up = crate::sem::unprefixed(full, prefix);
        let next = if up is None || !passes(show, hide, up->0) {
            p
        } else {
            Plan {
                combined: put(p.combined, up->0, down[i].1),
                passed: put(p.passed, up->0, down[i].1),
                names: put(p.names, up->0, full),
                ..p
            }
        };
        lemma_names_kept(down, i + 1, prefix, show, hide, next, name);
        if up is Some && up->0 != name {
            put_keeps_others(p.names, up->0, full, name);
        }
    }
}

proof fn lemma_own_added(own: Settings, i: int, p: Plan, name: Seq<char>)
    requires
        0 <= i <= own.len(),
        each_once(own),
    ensures
        ({
            let r = own_added(own, i, p);
            let there = get(p.passed, name);
            &&& (forall|k: int| i <= k < own.len() ==> (#[trigger] own[k]).0 != name) ==> get(
                r.combined,
                name,
            ) == get(p.combined, name)
            &&& forall|k: int|
                i <= k < own.len() && (#[trigger] own[k]).0 == name ==> get(r.combined, name) == (
                if (own[k].1).1 && there is Some && (there->0).0 != Val::Null {
                    get(p.combined, name)
                } else {
                    Some(((own[k].1).0, false))
                })
        }),
    decreases own.len() - i,
{
    if i < own.len() {
        let (n, (v, guarded)) = own[i];
        let there = get(p.passed, n);
        let next = if guarded && there is Some && (there->0).0 != Val::Null {
            Plan { claimed: p.claimed.push(n), ..p }
        } else {
            Plan {
                combined: put(p.combined, n, (v, false)),
                own: p.own.push(n),
                shadowed: if !guarded && there is Some {
                    p.shadowed.push(n)
                } else {
                    p.shadowed
                },
                ..p
            }
        };
        lemma_own_added(own, i + 1, next, name);
        get_after_put(p.combined, n, (v, false));
        if n != name {
            put_keeps_others(p.combined, n, (v, false), name);
        } else {
            assert forall|k: int| i + 1 <= k < own.len() implies (#[trigger] own[k]).0 != name by {
                assert(own[i].0 != own[k].0);
            }
        }
        let r = own_added(own, i, p);
        assert(r == own_added(own, i + 1, next));
        assert forall|k: int| i <= k < own.len() && (#[trigger] own[k]).0 == name implies get(
            r.combined,
            name,
        ) == (if (own[k].1).1 && get(p.passed, name) is Some && (get(p.passed, name)->0).0 != Val::Null {
            get(p.combined, name)
        } else {
            Some(((own[k].1).0, false))
        }) by {
            if k > i {
                assert(own[i].0 != own[k].0);
            }
        }
    }
}

/// A variable configured downstream reaches the module behind a `@forward`, under its name without the
/// prefix and with its value, where the `@forward` lets it through and says nothing of its own.
pub proof fn configuration_reaches_through_a_forward(
    down: Settings,
    own: Settings,
    prefix: Option<Seq<char>>,
    show: Option<Vec<ForwardMember>>,
    hide: Option<Vec<ForwardMember>>,
    name: Seq<char>,
    k: int,
)
    requires
        each_once(down),
        each_once(own),
        0 <= k < down.len(),
        down[k].0 == behind_prefix(prefix, name),
        forall|j: int| 0 <= j < own.len() ==> (#[trigger] own[j]).0 != name,
    ensures
        let_through(show, hide, true, name) ==> get(
            forward_plan(down, own, prefix, show, hide).combined,
            name,
        ) == Some(down[k].1),
        !let_through(show, hide, true, name) ==> get(
            forward_plan(down, own, prefix, show, hide).combined,
            name,
        ) is None,
{
    let p = passed_on(down, 0, prefix, show, hide, empty_plan());
    lemma_passed_on(down, 0, prefix, show, hide, empty_plan(), name);
    lemma_own_added(own, 0, p, name);
    assert(down[k].0 == behind_prefix(prefix, name));
    lemma_entry(Seq::<(Seq<char>, (Val, bool))>::empty(), name);
}

/// What a `@forward` configures itself reaches the module instead of what comes from downstream; one
/// marked `!default` gives way to what comes from downstream and is not `null`.
pub proof fn forward_configures_by_itself(
    down: Settings,
    own: Settings,
    prefix: Option<Seq<char>>,
    show: Option<Vec<ForwardMember>>,
    hide: Option<Vec<ForwardMember>>,
    j: int,
)
    requires
        each_once(down),
        each_once(own),
        0 <= j < own.len(),
    ensures
        ({
            let name = own[j].0;
            let c = get(forward_plan(down, own, prefix, show, hide).combined, name);
            &&& !(own[j].1).1 || !reaches_through(down, 0, prefix, show, hide, name) ==> c == Some(
                ((own[j].1).0, false),
            )
            &&& forall|k: int|
                0 <= k < down.len() && (#[trigger] down[k]).0 == behind_prefix(prefix, name)
                    && let_through(show, hide, true, name) && (own[j].1).1 && (down[k].1).0 != Val::Null
                    ==> c == Some(down[k].1)
        }),
{
    let name = own[j].0;
    let p = passed_on(down, 0, prefix, show, hide, empty_plan());
    lemma_passed_on(down, 0, prefix, show, hide, empty_plan(), name);
    lemma_own_added(own, 0, p, name);
    assert(own[j].0 == name);
    lemma_entry(Seq::<(Seq<char>, (Val, bool))>::empty(), name);
}

/// What is used upstream of a `@forward` counts as used downstream, under the name it has there, unless
/// the `@forward` has put a value of its own in its place; and what counted before still does.
pub proof fn use_counts_downstream(p: Plan, ups: Seq<Seq<char>>, i: int, used: Seq<Seq<char>>, k: int)
    requires
        0 <= i <= ups.len(),
        i <= k < ups.len() ==> get(p.names, ups[k]) is Some && !p.shadowed.contains(ups[k]),
    ensures
        i <= k < ups.len() ==> used_downstream(p, ups, i, used).contains(get(p.names, ups[k])->0),
        forall|x: Seq<char>| #[trigger]
            used.contains(x) ==> used_downstream(p, ups, i, used).contains(x),
    decreases ups.len() - i,
{
    if i < ups.len() {
        let next = match get(p.names, ups[i]) {
            Some(d) => if p.shadowed.contains(ups[i]) {
                used
            } else {
                with_text(used, d)
            },
            None => used,
        };
        use_counts_downstream(p, ups, i + 1, next, k);
        assert forall|x: Seq<char>| #[trigger] used.contains(x) implies next.contains(x) by {
            let j = choose|j: int| 0 <= j < used.len() && used[j] == x;
            assert(next[j] == x);
        }
        if k == i {
            let d = get(p.names, ups[i])->0;
            assert(next.contains(d)) by {
                if !used.contains(d) {
                    assert(next[used.len() as int] == d);
                }
            }
        }
    }
}

// ---- imports -------------------------------------------------------------

proof fn lemma_slots(s: Ev, names: Seq<Seq<char>>, i: int)
    ensures
        slots_added(s, names, i).chain == s.chain,
        slots_added(s, names, i).page == s.page,
        slots_added(s, names, i).frames.len() == s.frames.len(),
        slots_added(s, names, i).selector == s.selector,
        slots_added(s, names, i).contents == s.contents,
    decreases names.len() - i,
{
    if 0 <= i < names.len() {
        let s1 = if s.chain.scopes.len() > 0 && get(crate::exports::global_vars(s), names[i]) is None {
            with_var(s, s.chain.scopes[0], names[i], Val::Null)
        } else {
            s
        };
        lemma_slots(s1, names, i + 1);
    }
}

/// An imported file is run in the place of its `@import`: in the scopes that are there, under the
/// selectors that are there, and its output goes where that of the `@import` does.
pub proof fn imported_file_runs_in_place(
    s: Ev,
    ans: Seq<Answer>,
    e: Imported,
    parents: Seq<Seq<char>>,
    d: Drain,
    fuel: nat,
) -> (inside: Ev)
    requires
        !e.css,
        !top_decl(e.sheet.stmts@, 0),
    ensures
        inside.chain == s.chain,
        inside.selector == s.selector,
        inside.contents == s.contents,
        inside.page.loading == s.page.loading.push(e.path),
        file_imported(s, ans, e, parents, d, fuel).0 == run_block(
            inside,
            ans,
            e.sheet.stmts@,
            parents,
            d,
            fuel,
        ).0,
{
    reveal(import_begun);
    reveal(import_ended);
    let stmts = e.sheet.stmts@;
    let dir = if e.key.len() == 0 {
        None
    } else {
        Some(crate::paths::directory(e.key))
    };
    let s0 = Ev {
        uses: crate::install::no_uses(),
        page: crate::page::Leaf {
            loading: s.page.loading.push(e.path),
            forwarded: crate::page::no_exports(),
            file_dir: match dir {
                Some(x) => x,
                None => s.page.file_dir,
            },
            ..s.page
        },
        ..s
    };
    lemma_slots(s0, global_names(stmts, 0), 0);
    import_begun(s, e.path, stmts, dir)
}

/// A file imported within a rule or a block brings the variables that it re-exports into the innermost
/// scope there.
pub proof fn import_brings_variables_in(s: Ev, f: Exports, k: int)
    requires
        s.chain.scopes.len() > 1,
        s.chain.scopes.last() < s.frames.len(),
        each_once(f.vars),
        0 <= k < f.vars.len(),
    ensures
        lookup(exports_taken(s, f), f.vars[k].0) == Some(f.vars[k].1),
{
    reveal(exports_taken);
    let s1 = locals_taken(s, f.vars, 0);
    lemma_locals_taken(s, f.vars, 0, f.vars[k].0);
    let s2 = rebound(s1, f.functions, 0, false);
    lemma_rebound(s1, f.functions, 0, false);
    lemma_rebound(s2, f.mixins, 0, true);
    assert(f.vars[k].0 == f.vars[k].0);
    let s3 = rebound(s2, f.mixins, 0, true);
    assert(get(frame(s3, s.chain.scopes.last()), f.vars[k].0) == Some(f.vars[k].1));
}

proof fn lemma_locals_taken(s: Ev, list: Vars, i: int, name: Seq<char>)
    requires
        0 <= i <= list.len(),
        s.chain.scopes.len() > 0,
        s.chain.scopes.last() < s.frames.len(),
        each_once(list),
    ensures
        ({
            let r = locals_taken(s, list, i);
            let f = s.chain.scopes.last();
            &&& r.chain == s.chain
            &&& r.frames.len() == s.frames.len()
            &&& forall|k: int|
                i <= k < list.len() && (#[trigger] list[k]).0 == name ==> get(frame(r, f), name) == Some(
                    list[k].1,
                )
            &&& (forall|k: int| i <= k < list.len() ==> (#[trigger] list[k]).0 != name) ==> get(
                frame(r, f),
                name,
            ) == get(frame(s, f), name)
        }),
    decreases list.len() - i,
{
    if i < list.len() {
        let f = s.chain.scopes.last();
        let s1 = with_var(s, f, list[i].0, list[i].1);
        lemma_locals_taken(s1, list, i + 1, name);
        get_after_put(frame(s, f), list[i].0, list[i].1);
        if list[i].0 != name {
            put_keeps_others(frame(s, f), list[i].0, list[i].1, name);
        } else {
            assert forall|k: int| i + 1 <= k < list.len() implies (#[trigger] list[k]).0 != name by {
                assert(list[i].0 != list[k].0);
            }
        }
    }
}

proof fn lemma_rebound(s: Ev, list: Ids, i: int, mixin: bool)
    ensures
        rebound(s, list, i, mixin).frames == s.frames,
        rebound(s, list, i, mixin).chain == s.chain,
    decreases list.len() - i,
{
    if 0 <= i < list.len() {
        if list[i].1 < s.callables.len() {
            let (id, s1) = crate::eval::captured(s, s.callables[list[i].1 as int].def);
            let s2 = if mixin {
                crate::eval::mixin_defined(s1, list[i].0, id)
            } else {
                crate::eval::function_defined(s1, list[i].0, id)
            };
            lemma_rebound(s2, list, i + 1, mixin);
        } else {
            lemma_rebound(s, list, i + 1, mixin);
        }
    }
}

} // verus!
