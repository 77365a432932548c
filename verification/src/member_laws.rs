//! Which members of a module can be seen, and where from.

use vstd::prelude::*;
use crate::ast::{ConfigEntry, ForwardMember, VarDecl};
use crate::configs::{Settings, config_of, passes, unused_message};
use crate::env::{listed, members, opt_members};
use crate::error::{Pos, fault_at};
use crate::eval::{Ev, frame, global_set, lookup, with_var};
use crate::exports::{
    Origins, exported, module_table, module_vars, name_passes, names_exported, vars_exported,
};
use crate::host::{Answer, Halt};
use crate::install::{first_of, module_added, vars_merged, ids_merged};
use crate::members::{MemberKind, having, module_var, namespaced_var, star_hits, variable};
use crate::names::{after_last, dashed, namespace_stem};
use crate::out::Node;
use crate::sem::{config_used, configured};
use crate::semantics::{declare, eval};
use crate::state::{Ids, Vars, get, get_after_put, lemma_entry, put, put_keeps_others};
use crate::statements::{module_bound, module_loaded, module_used};
use crate::text::first_from;
use crate::value::{Val, slashless};

verus! {

// ---- names ---------------------------------------------------------------

/// Whether two names are the same but for dashes and underscores.
pub open spec fn same_spelling(a: Seq<char>, b: Seq<char>) -> bool {
    &&& a.len() == b.len()
    &&& forall|i: int|
        0 <= i < a.len() ==> #[trigger] a[i] == b[i] || ((a[i] == '-' || a[i] == '_') && (b[i] == '-'
            || b[i] == '_'))
}

/// Two names mean the same member exactly where they are the same but for dashes and underscores.
pub proof fn spelling_is_dashes_and_underscores(a: Seq<char>, b: Seq<char>)
    ensures
        (dashed(a) == dashed(b)) == same_spelling(a, b),
{
    if dashed(a) == dashed(b) {
        assert(dashed(a).len() == dashed(b).len());
        assert forall|i: int| 0 <= i < a.len() implies #[trigger] a[i] == b[i] || ((a[i] == '-' || a[i]
            == '_') && (b[i] == '-' || b[i] == '_')) by {
            assert(dashed(a)[i] == dashed(b)[i]);
        }
    }
    if same_spelling(a, b) {
        assert forall|i: int| 0 <= i < a.len() implies dashed(a)[i] == dashed(b)[i] by {
            assert(a[i] == b[i] || ((a[i] == '-' || a[i] == '_') && (b[i] == '-' || b[i] == '_')));
        }
        assert(dashed(a) =~= dashed(b));
    }
}

/// Whether an entry of a `show` or `hide` list names a variable, or another member.
pub open spec fn entry_names(m: ForwardMember, vars: bool, key: Seq<char>) -> bool {
    match m {
        ForwardMember::Var(n) => vars && same_spelling(n@, key),
        ForwardMember::Name(n) => !vars && same_spelling(n@, key),
    }
}

/// Whether a `show` or `hide` list names a variable, or another member.
pub open spec fn names_member(list: Seq<ForwardMember>, vars: bool, key: Seq<char>) -> bool {
    exists|i: int| 0 <= i < list.len() && entry_names(#[trigger] list[i], vars, key)
}

proof fn lemma_members(list: Seq<ForwardMember>, vars: bool, key: Seq<char>)
    ensures
        members(list, vars).contains(dashed(key)) == names_member(list, vars, key),
    decreases list.len(),
{
    let out = members(list, vars);
    if list.len() > 0 {
        let less = list.drop_last();
        lemma_members(less, vars, key);
        let before = members(less, vars);
        let n = match list.last() {
            ForwardMember::Var(n) => n@,
            ForwardMember::Name(n) => n@,
        };
        spelling_is_dashes_and_underscores(n, key);
        let own = match list.last() {
            ForwardMember::Var(_) => vars,
            ForwardMember::Name(_) => !vars,
        };
        assert(out == if own {
            before.push(dashed(n))
        } else {
            before
        });
        if before.contains(dashed(key)) {
            let i = choose|i: int| 0 <= i < before.len() && before[i] == dashed(key);
            assert(out[i] == dashed(key));
            let j = choose|j: int| 0 <= j < less.len() && entry_names(#[trigger] less[j], vars, key);
            assert(list[j] == less[j]);
            assert(entry_names(list[j], vars, key));
        }
        if own && dashed(n) == dashed(key) {
            assert(out[before.len() as int] == dashed(key));
            assert(entry_names(list[list.len() - 1], vars, key));
        }
        if out.contains(dashed(key)) && !before.contains(dashed(key)) {
            let i = choose|i: int| 0 <= i < out.len() && out[i] == dashed(key);
            if i < before.len() {
                assert(before[i] == dashed(key));
            }
        }
        if names_member(list, vars, key) {
            let j = choose|j: int| 0 <= j < list.len() && entry_names(#[trigger] list[j], vars, key);
            if j < less.len() {
                assert(less[j] == list[j]);
                assert(entry_names(less[j], vars, key));
            }
        }
    }
}

/// A `@forward` with a `hide` list lets through every member but those it names; with a `show` list
/// those alone that it names; without either, every member. Variables and other members are named
/// apart, and in any spelling. A `show` list decides where there are both.
pub proof fn show_and_hide_select(
    show: Option<Vec<ForwardMember>>,
    hide: Option<Vec<ForwardMember>>,
    vars: bool,
    key: Seq<char>,
)
    ensures
        show is None && hide is Some ==> (listed(
            opt_members(show, vars),
            opt_members(hide, vars),
            dashed(key),
        ) <==> !names_member(hide->0@, vars, key)),
        show is Some ==> (listed(opt_members(show, vars), opt_members(hide, vars), dashed(key))
            <==> names_member(show->0@, vars, key)),
        show is None && hide is None ==> listed(
            opt_members(show, vars),
            opt_members(hide, vars),
            dashed(key),
        ),
{
    if show is Some {
        lemma_members(show->0@, vars, key);
    }
    if hide is Some {
        lemma_members(hide->0@, vars, key);
    }
}

// ---- what is re-exported -------------------------------------------------

/// Whether a name begins with a dash or an underscore, which keeps it inside its module.
pub open spec fn kept_inside(name: Seq<char>) -> bool {
    name.len() > 0 && (name[0] == '-' || name[0] == '_')
}

/// Whether a `@forward` lets a member through under the name it has downstream.
pub open spec fn let_through(
    show: Option<Vec<ForwardMember>>,
    hide: Option<Vec<ForwardMember>>,
    vars: bool,
    key: Seq<char>,
) -> bool {
    &&& !kept_inside(key)
    &&& show is Some ==> names_member(show->0@, vars, key)
    &&& show is None && hide is Some ==> !names_member(hide->0@, vars, key)
}

/// Whether each name of a table is there once.
pub open spec fn each_once<T>(list: Seq<(Seq<char>, T)>) -> bool {
    forall|i: int, j: int| 0 <= i < j < list.len() ==> (#[trigger] list[i]).0 != (#[trigger] list[j]).0
}

/// Whether a table is another one with the members of a module added, each under its name behind the
/// prefix, as far as they are let through and not kept inside; all else of it is what it was.
pub open spec fn joined_by<T>(
    before: Seq<(Seq<char>, T)>,
    after: Seq<(Seq<char>, T)>,
    list: Seq<(Seq<char>, T)>,
    prefix: Seq<char>,
    show: Option<Vec<ForwardMember>>,
    hide: Option<Vec<ForwardMember>>,
    vars: bool,
) -> bool {
    &&& forall|i: int|
        0 <= i < list.len() && !kept_inside((#[trigger] list[i]).0) && let_through(
            show,
            hide,
            vars,
            prefix + list[i].0,
        ) ==> get(after, prefix + list[i].0) == Some(list[i].1)
    &&& forall|key: Seq<char>|
        !comes_through(list, prefix, show, hide, vars, key) ==> #[trigger] get(after, key) == get(
            before,
            key,
        )
}

/// Whether a name is that of a member which comes through.
pub open spec fn comes_through<T>(
    list: Seq<(Seq<char>, T)>,
    prefix: Seq<char>,
    show: Option<Vec<ForwardMember>>,
    hide: Option<Vec<ForwardMember>>,
    vars: bool,
    key: Seq<char>,
) -> bool {
    exists|i: int|
        0 <= i < list.len() && !kept_inside((#[trigger] list[i]).0) && prefix + list[i].0 == key
            && let_through(show, hide, vars, key)
}

proof fn lemma_through(show: Option<Vec<ForwardMember>>, hide: Option<Vec<ForwardMember>>, key: Seq<char>)
    ensures
        passes(show, hide, key) == let_through(show, hide, true, key),
        name_passes(show, hide, key) == let_through(show, hide, false, key),
{
    show_and_hide_select(show, hide, true, key);
    show_and_hide_select(show, hide, false, key);
}

proof fn lemma_prefixed(prefix: Seq<char>, a: Seq<char>, b: Seq<char>)
    requires
        prefix + a == prefix + b,
    ensures
        a == b,
{
    assert((prefix + a).skip(prefix.len() as int) =~= a);
    assert((prefix + b).skip(prefix.len() as int) =~= b);
}

/// A step of joining: what is joined from `i` on, after one entry has been put or passed over.
proof fn lemma_joined_step<T>(
    before: Seq<(Seq<char>, T)>,
    next: Seq<(Seq<char>, T)>,
    after: Seq<(Seq<char>, T)>,
    list: Seq<(Seq<char>, T)>,
    i: int,
    prefix: Seq<char>,
    show: Option<Vec<ForwardMember>>,
    hide: Option<Vec<ForwardMember>>,
    vars: bool,
)
    requires
        0 <= i < list.len(),
        each_once(list),
        joined_by(next, after, list.skip(i + 1), prefix, show, hide, vars),
        ({
            let key = prefix + list[i].0;
            if kept_inside(list[i].0) || !let_through(show, hide, vars, key) {
                next == before
            } else {
                next == put(before, key, list[i].1)
            }
        }),
    ensures
        joined_by(before, after, list.skip(i), prefix, show, hide, vars),
{
    let rest = list.skip(i + 1);
    let all = list.skip(i);
    let key = prefix + list[i].0;
    let own = !kept_inside(list[i].0) && let_through(show, hide, vars, key);
    assert(all[0] == list[i]);
    assert forall|k: int| 0 <= k < rest.len() implies #[trigger] rest[k] == all[k + 1] by {}
    if own {
        get_after_put(before, key, list[i].1);
        assert(!comes_through(rest, prefix, show, hide, vars, key)) by {
            if comes_through(rest, prefix, show, hide, vars, key) {
                let k = choose|k: int|
                    0 <= k < rest.len() && !kept_inside((#[trigger] rest[k]).0) && prefix + rest[k].0
                        == key && let_through(show, hide, vars, key);
                lemma_prefixed(prefix, rest[k].0, list[i].0);
                assert(rest[k] == list[i + 1 + k]);
                assert(list[i].0 != list[i + 1 + k].0);
            }
        }
        assert(get(after, key) == get(next, key));
    }
    assert forall|k: int|
        0 <= k < all.len() && !kept_inside((#[trigger] all[k]).0) && let_through(
            show,
            hide,
            vars,
            prefix + all[k].0,
        ) implies get(after, prefix + all[k].0) == Some(all[k].1) by {
        if k > 0 {
            assert(rest[k - 1] == all[k]);
        }
    }
    assert forall|x: Seq<char>| !comes_through(all, prefix, show, hide, vars, x) implies #[trigger] get(
        after,
        x,
    ) == get(before, x) by {
        if comes_through(rest, prefix, show, hide, vars, x) {
            let k = choose|k: int|
                0 <= k < rest.len() && !kept_inside((#[trigger] rest[k]).0) && prefix + rest[k].0 == x
                    && let_through(show, hide, vars, x);
            assert(all[k + 1] == rest[k]);
        }
        if own {
            if x == key {
                assert(comes_through(all, prefix, show, hide, vars, x)) by {
                    assert(!kept_inside(all[0].0));
                }
            } else {
                put_keeps_others(before, key, list[i].1, x);
            }
        }
    }
}

proof fn lemma_vars_exported(
    s: Ev,
    m: usize,
    list: Vars,
    i: int,
    prefix: Seq<char>,
    show: Option<Vec<ForwardMember>>,
    hide: Option<Vec<ForwardMember>>,
    vars: Vars,
    homes: Origins,
)
    requires
        0 <= i <= list.len(),
        each_once(list),
        vars_exported(s, m, list, i, prefix, show, hide, vars, homes) is Ok,
    ensures
        joined_by(
            vars,
            vars_exported(s, m, list, i, prefix, show, hide, vars, homes)->Ok_0.0,
            list.skip(i),
            prefix,
            show,
            hide,
            true,
        ),
    decreases list.len() - i,
{
    let after = vars_exported(s, m, list, i, prefix, show, hide, vars, homes)->Ok_0.0;
    if i < list.len() {
        let key = prefix + list[i].0;
        lemma_through(show, hide, key);
        if kept_inside(list[i].0) || !let_through(show, hide, true, key) {
            lemma_vars_exported(s, m, list, i + 1, prefix, show, hide, vars, homes);
            lemma_joined_step(vars, vars, after, list, i, prefix, show, hide, true);
        } else {
            let next = put(vars, key, list[i].1);
            let home = crate::exports::variable_home(s, m, list[i].0);
            lemma_vars_exported(s, m, list, i + 1, prefix, show, hide, next, put(homes, key, home));
            lemma_joined_step(vars, next, after, list, i, prefix, show, hide, true);
        }
    } else {
        assert(list.skip(i).len() == 0);
    }
}

proof fn lemma_names_exported(
    s: Ev,
    m: usize,
    mixin: bool,
    list: Ids,
    i: int,
    prefix: Seq<char>,
    show: Option<Vec<ForwardMember>>,
    hide: Option<Vec<ForwardMember>>,
    defs: Ids,
    homes: Ids,
)
    requires
        0 <= i <= list.len(),
        each_once(list),
        names_exported(s, m, mixin, list, i, prefix, show, hide, defs, homes) is Ok,
    ensures
        joined_by(
            defs,
            names_exported(s, m, mixin, list, i, prefix, show, hide, defs, homes)->Ok_0.0,
            list.skip(i),
            prefix,
            show,
            hide,
            false,
        ),
    decreases list.len() - i,
{
    let after = names_exported(s, m, mixin, list, i, prefix, show, hide, defs, homes)->Ok_0.0;
    if i < list.len() {
        let key = prefix + list[i].0;
        lemma_through(show, hide, key);
        if kept_inside(list[i].0) || !let_through(show, hide, false, key) {
            lemma_names_exported(s, m, mixin, list, i + 1, prefix, show, hide, defs, homes);
            lemma_joined_step(defs, defs, after, list, i, prefix, show, hide, false);
        } else {
            let next = put(defs, key, list[i].1);
            let home = if mixin {
                crate::members::mixin_home(s, m, list[i].0)
            } else {
                crate::members::function_home(s, m, list[i].0)
            };
            lemma_names_exported(
                s,
                m,
                mixin,
                list,
                i + 1,
                prefix,
                show,
                hide,
                next,
                put(homes, key, home),
            );
            lemma_joined_step(defs, next, after, list, i, prefix, show, hide, false);
        }
    } else {
        assert(list.skip(i).len() == 0);
    }
}

/// A `@forward` re-exports the members of the module: with a `hide` list every public one that it does
/// not name, with a `show` list every public one that it names, each under its name behind the prefix
/// and with the value, or the callable, that it has in the module; and nothing else that is
/// re-exported changes.
pub proof fn forward_passes_members_on(
    s: Ev,
    m: usize,
    prefix: Seq<char>,
    show: Option<Vec<ForwardMember>>,
    hide: Option<Vec<ForwardMember>>,
    pos: Pos,
)
    requires
        each_once(module_vars(s, m)),
        each_once(module_table(s, m, false)),
        each_once(module_table(s, m, true)),
        exported(s, m, prefix, show, hide, pos).0 is Ok,
    ensures
        ({
            let f = s.page.forwarded;
            let g = exported(s, m, prefix, show, hide, pos).1.page.forwarded;
            &&& joined_by(f.vars, g.vars, module_vars(s, m), prefix, show, hide, true)
            &&& joined_by(f.functions, g.functions, module_table(s, m, false), prefix, show, hide, false)
            &&& joined_by(f.mixins, g.mixins, module_table(s, m, true), prefix, show, hide, false)
            &&& g.builtins == f.builtins
        }),
{
    reveal(exported);
    let f = s.page.forwarded;
    let vs = module_vars(s, m);
    let fs = module_table(s, m, false);
    let ms = module_table(s, m, true);
    assert(vs.skip(0) =~= vs);
    assert(fs.skip(0) =~= fs);
    assert(ms.skip(0) =~= ms);
    lemma_vars_exported(s, m, vs, 0, prefix, show, hide, f.vars, f.var_origins);
    lemma_names_exported(s, m, false, fs, 0, prefix, show, hide, f.functions, f.fn_origins);
    lemma_names_exported(s, m, true, ms, 0, prefix, show, hide, f.mixins, f.mixin_origins);
}

/// Where nothing has been re-exported yet, a `@forward` never finds two modules that define the same
/// name.
pub proof fn first_forward_clashes_with_nothing(
    s: Ev,
    m: usize,
    prefix: Seq<char>,
    show: Option<Vec<ForwardMember>>,
    hide: Option<Vec<ForwardMember>>,
    pos: Pos,
)
    requires
        each_once(module_vars(s, m)),
        each_once(module_table(s, m, false)),
        each_once(module_table(s, m, true)),
        s.page.forwarded.var_origins.len() == 0,
        s.page.forwarded.fn_origins.len() == 0,
        s.page.forwarded.mixin_origins.len() == 0,
    ensures
        exported(s, m, prefix, show, hide, pos).0 is Ok,
{
    reveal(exported);
    let f = s.page.forwarded;
    lemma_no_var_clash(s, m, module_vars(s, m), 0, prefix, show, hide, f.vars, f.var_origins);
    lemma_no_name_clash(
        s,
        m,
        false,
        module_table(s, m, false),
        0,
        prefix,
        show,
        hide,
        f.functions,
        f.fn_origins,
    );
    lemma_no_name_clash(
        s,
        m,
        true,
        module_table(s, m, true),
        0,
        prefix,
        show,
        hide,
        f.mixins,
        f.mixin_origins,
    );
}

/// Whether every entry of a table is for one of the first `i` names, behind a prefix.
spec fn only_first<T, U>(homes: Seq<(Seq<char>, T)>, list: Seq<(Seq<char>, U)>, i: int, prefix: Seq<char>) -> bool {
    forall|key: Seq<char>|
        #[trigger] get(homes, key) is Some ==> exists|k: int|
            0 <= k < i && prefix + (#[trigger] list[k]).0 == key
}

proof fn lemma_only_first_step<T, U>(
    homes: Seq<(Seq<char>, T)>,
    list: Seq<(Seq<char>, U)>,
    i: int,
    prefix: Seq<char>,
    h: T,
)
    requires
        0 <= i < list.len(),
        each_once(list),
        only_first(homes, list, i, prefix),
    ensures
        get(homes, prefix + list[i].0) is None,
        only_first(put(homes, prefix + list[i].0, h), list, i + 1, prefix),
        only_first(homes, list, i + 1, prefix),
{
    let key = prefix + list[i].0;
    if get(homes, key) is Some {
        let k = choose|k: int| 0 <= k < i && prefix + (#[trigger] list[k]).0 == key;
        lemma_prefixed(prefix, list[k].0, list[i].0);
    }
    let next = put(homes, key, h);
    assert forall|x: Seq<char>| #[trigger] get(next, x) is Some implies exists|k: int|
        0 <= k < i + 1 && prefix + (#[trigger] list[k]).0 == x by {
        if x == key {
            assert(prefix + list[i].0 == x);
        } else {
            put_keeps_others(homes, key, h, x);
            let k = choose|k: int| 0 <= k < i && prefix + (#[trigger] list[k]).0 == x;
            assert(prefix + list[k].0 == x);
        }
    }
    assert forall|x: Seq<char>| #[trigger] get(homes, x) is Some implies exists|k: int|
        0 <= k < i + 1 && prefix + (#[trigger] list[k]).0 == x by {
        let k = choose|k: int| 0 <= k < i && prefix + (#[trigger] list[k]).0 == x;
        assert(prefix + list[k].0 == x);
    }
}

proof fn lemma_no_var_clash(
    s: Ev,
    m: usize,
    list: Vars,
    i: int,
    prefix: Seq<char>,
    show: Option<Vec<ForwardMember>>,
    hide: Option<Vec<ForwardMember>>,
    vars: Vars,
    homes: Origins,
)
    requires
        0 <= i <= list.len(),
        each_once(list),
        only_first(homes, list, i, prefix),
    ensures
        vars_exported(s, m, list, i, prefix, show, hide, vars, homes) is Ok,
    decreases list.len() - i,
{
    if i < list.len() {
        let key = prefix + list[i].0;
        let home = crate::exports::variable_home(s, m, list[i].0);
        lemma_only_first_step(homes, list, i, prefix, home);
        lemma_no_var_clash(s, m, list, i + 1, prefix, show, hide, vars, homes);
        lemma_no_var_clash(
            s,
            m,
            list,
            i + 1,
            prefix,
            show,
            hide,
            put(vars, key, list[i].1),
            put(homes, key, home),
        );
    }
}

proof fn lemma_no_name_clash(
    s: Ev,
    m: usize,
    mixin: bool,
    list: Ids,
    i: int,
    prefix: Seq<char>,
    show: Option<Vec<ForwardMember>>,
    hide: Option<Vec<ForwardMember>>,
    defs: Ids,
    homes: Ids,
)
    requires
        0 <= i <= list.len(),
        each_once(list),
        only_first(homes, list, i, prefix),
    ensures
        names_exported(s, m, mixin, list, i, prefix, show, hide, defs, homes) is Ok,
    decreases list.len() - i,
{
    if i < list.len() {
        let key = prefix + list[i].0;
        let home = if mixin {
            crate::members::mixin_home(s, m, list[i].0)
        } else {
            crate::members::function_home(s, m, list[i].0)
        };
        lemma_only_first_step(homes, list, i, prefix, home);
        lemma_no_name_clash(s, m, mixin, list, i + 1, prefix, show, hide, defs, homes);
        lemma_no_name_clash(
            s,
            m,
            mixin,
            list,
            i + 1,
            prefix,
            show,
            hide,
            put(defs, key, list[i].1),
            put(homes, key, home),
        );
    }
}

// ---- what a module holds -------------------------------------------------

/// A module has the variables of its file, and those it re-exports: one of its own stays what it is,
/// and one that is re-exported and not its own joins them with the value it has; the module is known
/// by its key and its number from then on.
pub proof fn module_has_its_own_and_what_it_forwards(
    s: Ev,
    inside: Ev,
    key: Seq<char>,
    url: Seq<char>,
    dir: Option<Seq<char>>,
    id: usize,
    css: Seq<Node>,
    name: Seq<char>,
)
    requires
        inside.chain.scopes.len() > 0,
        inside.chain.scopes[0] < s.frames.len(),
        s.modules.len() <= usize::MAX,
        each_once(inside.page.forwarded.vars),
    ensures
        ({
            let (m, s1) = module_added(s, inside, key, url, dir, id, css);
            let own = frame(s, inside.chain.scopes[0]);
            let all = frame(s1, s1.modules[m as int].vars);
            let f = inside.page.forwarded;
            &&& m == s.modules.len()
            &&& s1.modules.len() == m + 1
            &&& get(s1.page.cache, key) == Some(m)
            &&& s1.modules[m as int].css == css
            &&& s1.modules[m as int].uses == inside.uses
            &&& get(own, name) is Some ==> get(all, name) == get(own, name)
            &&& get(own, name) is None ==> get(all, name) == get(f.vars, name)
        }),
{
    reveal(module_added);
    let f = inside.page.forwarded;
    let vars = inside.chain.scopes[0];
    let r1 = vars_merged(s, vars, f.vars, f.var_origins, 0, Seq::empty());
    assert(f.vars.skip(0) =~= f.vars);
    lemma_vars_merged(s, vars, f.vars, f.var_origins, 0, Seq::empty(), name);
    let r2 = ids_merged(
        r1.0,
        first_of(inside.chain.functions),
        f.functions,
        f.fn_origins,
        0,
        Seq::empty(),
    );
    lemma_ids_merged(
        r1.0,
        first_of(inside.chain.functions),
        f.functions,
        f.fn_origins,
        0,
        Seq::empty(),
    );
    lemma_ids_merged(r2.0, first_of(inside.chain.mixins), f.mixins, f.mixin_origins, 0, Seq::empty());
    let r3 = ids_merged(
        r2.0,
        first_of(inside.chain.mixins),
        f.mixins,
        f.mixin_origins,
        0,
        Seq::empty(),
    );
    get_after_put(r3.0.page.cache, key, s.modules.len() as usize);
}

proof fn lemma_vars_merged(
    s: Ev,
    f: usize,
    list: Vars,
    homes: Origins,
    i: int,
    acc: Origins,
    name: Seq<char>,
)
    requires
        f < s.frames.len(),
        0 <= i <= list.len(),
        each_once(list),
    ensures
        ({
            let r = vars_merged(s, f, list, homes, i, acc).0;
            &&& r.modules == s.modules
            &&& r.page == s.page
            &&& r.frames.len() == s.frames.len()
            &&& get(frame(s, f), name) is Some ==> get(frame(r, f), name) == get(frame(s, f), name)
            &&& get(frame(s, f), name) is None ==> get(frame(r, f), name) == get(list.skip(i), name)
        }),
    decreases list.len() - i,
{
    if i < list.len() {
        let rest = list.skip(i);
        assert(rest[0] == list[i]);
        assert(rest.skip(1) =~= list.skip(i + 1));
        lemma_entry(rest, name);
        lemma_entry(list.skip(i + 1), name);
        assert(list[i].0 != name ==> get(rest, name) == get(list.skip(i + 1), name)) by {
            if list[i].0 != name {
                assert(crate::state::entry(rest, name) == 1 + crate::state::entry(
                    list.skip(i + 1),
                    name,
                ));
            }
        }
        if get(frame(s, f), list[i].0) is Some {
            lemma_vars_merged(s, f, list, homes, i + 1, acc, name);
        } else {
            let s1 = with_var(s, f, list[i].0, list[i].1);
            let acc1 = match get(homes, list[i].0) {
                Some(o) => put(acc, list[i].0, o),
                None => acc,
            };
            get_after_put(frame(s, f), list[i].0, list[i].1);
            if name != list[i].0 {
                put_keeps_others(frame(s, f), list[i].0, list[i].1, name);
            }
            lemma_vars_merged(s1, f, list, homes, i + 1, acc1, name);
        }
    } else {
        lemma_entry(list.skip(i), name);
    }
}

proof fn lemma_ids_merged(s: Ev, t: usize, list: Ids, homes: Ids, i: int, acc: Ids)
    requires
        0 <= i <= list.len(),
    ensures
        ({
            let r = ids_merged(s, t, list, homes, i, acc).0;
            &&& r.modules == s.modules
            &&& r.page == s.page
            &&& r.frames == s.frames
        }),
    decreases list.len() - i,
{
    if i < list.len() {
        lemma_ids_merged(s, t, list, homes, i + 1, acc);
        let acc1 = match get(homes, list[i].0) {
            Some(o) => put(acc, list[i].0, o),
            None => acc,
        };
        lemma_ids_merged(
            crate::eval::with_id(s, t, list[i].0, list[i].1),
            t,
            list,
            homes,
            i + 1,
            acc1,
        );
    }
}

// ---- what is used --------------------------------------------------------

/// A module that is used has its public variables under the namespace: the one that is written, or
/// the default; and that namespace was free before.
pub proof fn used_module_gives_its_variables(
    s: Ev,
    ans: Seq<Answer>,
    m: usize,
    url: Seq<char>,
    namespace: Option<Seq<char>>,
    pos: Pos,
    name: Seq<char>,
)
    requires
        module_bound(s, m, url, namespace, false, pos).0 is Ok,
    ensures
        ({
            let s1 = module_bound(s, m, url, namespace, false, pos).1;
            let ns = match namespace {
                Some(n) => n,
                None => namespace_stem(url),
            };
            &&& get(s.uses.user, ns) is None
            &&& get(s.uses.builtin, ns) is None
            &&& get(s1.uses.user, ns) == Some(m)
            &&& forall|other: Seq<char>|
                other != ns ==> #[trigger] get(s1.uses.user, other) == get(s.uses.user, other)
            &&& !kept_inside(name) && module_var(s1, m, name) is Some ==> namespaced_var(
                s1,
                ans,
                ns,
                name,
                pos,
            ) == (Ok::<Val, Halt>(slashless(module_var(s1, m, name)->0)), s1)
            &&& kept_inside(name) || module_var(s1, m, name) is None ==> namespaced_var(
                s1,
                ans,
                ns,
                name,
                pos,
            ).0 is Err
        }),
{
    reveal(module_bound);
    reveal(namespaced_var);
    let ns = match namespace {
        Some(n) => n,
        None => namespace_stem(url),
    };
    get_after_put(s.uses.user, ns, m);
    let s1 = module_bound(s, m, url, namespace, false, pos).1;
    assert forall|other: Seq<char>| other != ns implies #[trigger] get(s1.uses.user, other) == get(
        s.uses.user,
        other,
    ) by {
        put_keeps_others(s.uses.user, ns, m, other);
    }
}

/// A module that is used without a namespace gives its public variables by their bare names, where no
/// scope has a variable of the name and no other module used so; where two have it, it is an error.
pub proof fn star_module_gives_its_variables(s: Ev, ans: Seq<Answer>, m: usize, name: Seq<char>, pos: Pos)
    requires
        s.uses.star_user == seq![m],
        lookup(s, name) is None,
        !kept_inside(name),
        module_var(s, m, name) is Some,
    ensures
        variable(s, ans, name, pos) == (Ok::<Val, Halt>(slashless(module_var(s, m, name)->0)), s),
{
    reveal(variable);
    reveal_with_fuel(having, 2);
    assert(seq![m].drop_last() =~= Seq::empty());
    assert(having(s, s.uses.star_user, name, MemberKind::Variable) =~= seq![m]);
}

/// A variable has the value of the innermost scope that has it, whatever modules are used.
pub proof fn scopes_come_before_modules(s: Ev, ans: Seq<Answer>, name: Seq<char>, pos: Pos)
    requires
        lookup(s, name) is Some,
    ensures
        variable(s, ans, name, pos) == (Ok::<Val, Halt>(slashless(lookup(s, name)->0)), s),
{
    reveal(variable);
}

/// The default namespace of a URL is its last part, without an underscore in front and without what
/// follows the first dot.
pub proof fn default_namespace_is_the_base_name(dir: Seq<char>, base: Seq<char>, tail: Seq<char>)
    requires
        !base.contains('/'),
        !base.contains('.'),
        !tail.contains('/'),
        tail.len() == 0 || tail[0] == '.',
        base.len() == 0 || base[0] != '_',
        base.len() > 0,
    ensures
        namespace_stem(dir + seq!['/'] + base + tail) == base,
        namespace_stem(dir + seq!['/', '_'] + base + tail) == base,
        namespace_stem(base + tail) == base,
{
    lemma_after_last(dir + seq!['/'], base + tail);
    lemma_after_last(dir + seq!['/'], seq!['_'] + base + tail);
    assert(dir + seq!['/'] + (base + tail) =~= dir + seq!['/'] + base + tail);
    assert(dir + seq!['/'] + (seq!['_'] + base + tail) =~= dir + seq!['/', '_'] + base + tail);
    assert((seq!['_'] + base + tail).skip(1) =~= base + tail);
    lemma_after_last_none(base + tail);
    lemma_first_dot(base, tail, 0);
    assert((base + tail).take(base.len() as int) =~= base);
    assert((base + tail)[0] == base[0]);
}

proof fn lemma_after_last(head: Seq<char>, t: Seq<char>)
    requires
        head.len() > 0,
        head.last() == '/',
        !t.contains('/'),
    ensures
        after_last(head + t, '/') == t,
    decreases t.len(),
{
    if t.len() == 0 {
        assert(head + t =~= head);
    } else {
        let u = t.drop_last();
        assert(t[t.len() - 1] != '/');
        assert(!u.contains('/')) by {
            if u.contains('/') {
                let k = choose|k: int| 0 <= k < u.len() && u[k] == '/';
                assert(t[k] == '/');
            }
        }
        lemma_after_last(head, u);
        assert((head + t).drop_last() =~= head + u);
        assert(u.push(t.last()) =~= t);
    }
}

proof fn lemma_after_last_none(t: Seq<char>)
    requires
        !t.contains('/'),
    ensures
        after_last(t, '/') == t,
    decreases t.len(),
{
    if t.len() > 0 {
        let u = t.drop_last();
        assert(t[t.len() - 1] != '/');
        assert(!u.contains('/')) by {
            if u.contains('/') {
                let k = choose|k: int| 0 <= k < u.len() && u[k] == '/';
                assert(t[k] == '/');
            }
        }
        lemma_after_last_none(u);
        assert(u.push(t.last()) =~= t);
    }
}

proof fn lemma_first_dot(base: Seq<char>, tail: Seq<char>, i: int)
    requires
        !base.contains('.'),
        tail.len() == 0 || tail[0] == '.',
        0 <= i <= base.len(),
    ensures
        first_from(base + tail, '.', i) == base.len(),
    decreases base.len() - i,
{
    let all = base + tail;
    if i < base.len() {
        assert(all[i] == base[i]);
        assert(base[i] != '.');
        lemma_first_dot(base, tail, i + 1);
    } else if tail.len() > 0 {
        assert(all[i] == '.');
    }
}

// ---- configuration -------------------------------------------------------

/// A `!default` variable at the top level of a module that is configured has the value that it is
/// configured with, in any spelling of the name, and the entry counts as used; unless that value is
/// `null`, or gives way to a value that the variable has.
pub proof fn configured_variable_takes_its_value(
    s: Ev,
    ans: Seq<Answer>,
    v: VarDecl,
    fuel: nat,
    name: Seq<char>,
    value: Val,
    gives_way: bool,
)
    requires
        v.namespace is None,
        v.is_default,
        same_spelling(name, v.name@),
        s.chain.scopes.len() == 1,
        s.chain.scopes[0] < s.frames.len(),
        star_hits(s, v.name@, MemberKind::Variable).len() <= 1 || lookup(s, v.name@) is Some,
        get(s.config.pending, dashed(name)) == Some((value, gives_way)),
        value != Val::Null,
        !(gives_way && lookup(s, v.name@) is Some && lookup(s, v.name@)->0 != Val::Null),
    ensures
        declare(s, ans, v, fuel).0 is Ok,
        lookup(declare(s, ans, v, fuel).1, v.name@) == Some(value),
        declare(s, ans, v, fuel).1.config.consumed == s.config.consumed.push(dashed(v.name@)),
{
    reveal(configured);
    reveal(config_used);
    spelling_is_dashes_and_underscores(name, v.name@);
    let s1 = config_used(s, v.name@);
    let s2 = global_set(s1, v.name@, value);
    get_after_put(frame(s, s.chain.scopes[0]), v.name@, value);
    assert(declare(s, ans, v, fuel) == (Ok::<(), Halt>(()), s2));
    assert(s2.chain.scopes.last() == s.chain.scopes[0]);
}

/// What is configured and not used is an error: a module that is used with a configuration must have
/// used all of it.
pub proof fn unused_configuration_is_an_error(
    s: Ev,
    ans: Seq<Answer>,
    url: Seq<char>,
    namespace: Option<Seq<char>>,
    star: bool,
    config: Seq<ConfigEntry>,
    pos: Pos,
    d: crate::sink::Drain,
    fuel: nat,
    k: int,
)
    requires
        crate::sources::builtin_url(url) is None,
        config_of(s, ans, config, 0, Seq::empty(), fuel).0 is Ok,
        ({
            let c = config_of(s, ans, config, 0, Seq::empty(), fuel);
            let i = crate::statements::config_identity(c.1, c.0->Ok_0);
            let r = module_loaded(i.1, ans, url, c.0->Ok_0, i.0, pos, Seq::empty(), false, d, fuel);
            &&& r.0 is Ok
            &&& 0 <= k < c.0->Ok_0.len()
            &&& !r.0->Ok_0.1.contains(c.0->Ok_0[k].0)
        }),
    ensures
        module_used(s, ans, url, namespace, star, config, pos, d, fuel).0 == Err::<
            crate::sink::Drain,
            Halt,
        >(Halt::Error(fault_at(unused_message(), pos))),
{
    let c = config_of(s, ans, config, 0, Seq::empty(), fuel);
}

/// The configuration of a `with` clause has each of its entries, under the canonical name and with the
/// value of its expression.
pub proof fn with_clause_configures_each_entry(
    s: Ev,
    ans: Seq<Answer>,
    list: Seq<ConfigEntry>,
    i: int,
    acc: Settings,
    fuel: nat,
) -> (mid: Seq<Ev>)
    requires
        0 <= i <= list.len(),
        config_of(s, ans, list, i, acc, fuel).0 is Ok,
    ensures
        mid.len() == list.len() - i + 1,
        mid[0] == s,
        ({
            let c = config_of(s, ans, list, i, acc, fuel).0->Ok_0;
            &&& forall|k: int|
                i <= k < list.len() ==> ({
                    let v = eval(#[trigger] mid[k - i], ans, list[k].value, fuel);
                    &&& v.0 is Ok
                    &&& v.1 == mid[k - i + 1]
                    &&& get(c, dashed(list[k].name@)) == Some(
                        (slashless(v.0->Ok_0), list[k].is_default),
                    )
                })
            &&& forall|key: Seq<char>| #[trigger] get(acc, key) is Some ==> get(c, key) == get(acc, key)
        }),
    decreases list.len() - i,
{
    if i >= list.len() {
        seq![s]
    } else {
        let v = eval(s, ans, list[i].value, fuel);
        let key = dashed(list[i].name@);
        let e = (slashless(v.0->Ok_0), list[i].is_default);
        let next = put(acc, key, e);
        let rest = with_clause_configures_each_entry(v.1, ans, list, i + 1, next, fuel);
        let all = seq![s] + rest;
        let c = config_of(s, ans, list, i, acc, fuel).0->Ok_0;
        get_after_put(acc, key, e);
        assert(get(next, key) is Some);
        assert forall|k: int| i <= k < list.len() implies ({
            let w = eval(#[trigger] all[k - i], ans, list[k].value, fuel);
            &&& w.0 is Ok
            &&& w.1 == all[k - i + 1]
            &&& get(c, dashed(list[k].name@)) == Some((slashless(w.0->Ok_0), list[k].is_default))
        }) by {
            if k > i {
                assert(all[k - i] == rest[k - (i + 1)]);
                assert(all[k - i + 1] == rest[k - (i + 1) + 1]);
            } else {
                assert(all[1] == rest[0]);
            }
        }
        assert forall|x: Seq<char>| #[trigger] get(acc, x) is Some implies get(c, x) == get(acc, x) by {
            assert(x != key);
            put_keeps_others(acc, key, e, x);
            assert(get(next, x) is Some);
        }
        all
    }
}

} // verus!
