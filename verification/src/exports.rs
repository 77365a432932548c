//! What modules re-export, how a module is set up and taken down, and what an import brings in.

use vstd::prelude::*;
use crate::ast::ForwardMember;
use crate::configs::{Settings, passes};
use crate::env::{
    copy_ids, forward_var_visibility, is_listed, listed, member_set, opt_members, origins, seek,
    seek_origin,
};
use crate::error::{Pos, fault_at};
use crate::eval::{
    Ev, Evaluator, Run, ev_of, fail, frame, out_unit, same_place, settings, stop_at, table,
};
use crate::expr::{empty_strings, push_string};
use crate::host::{Stop, named_vals};
use crate::members::{function_home, mixin_home, module_var};
use crate::names::{dashed, is_private_member, normalize_var_name, private_name};
use crate::page::{Exports, Leaf, leaf_of};
use crate::state::{
    Ids, Vars, entry, find_var, get, get_id, get_text, ids, lemma_entry_is, put, put_id, put_var,
};
use crate::text::{cat2, cat3, same_str, text_of, texts};
use crate::value::{Val, Value, copy_value, val};

verus! {

broadcast use crate::kept::group_kept;

// ---- namespaces ----------------------------------------------------------

/// Whether a namespace is taken.
pub open spec fn namespace_taken(s: Ev, ns: Seq<char>) -> bool {
    get(s.uses.builtin, ns) is Some || get(s.uses.user, ns) is Some
}

pub open spec fn taken_message(ns: Seq<char>) -> Seq<char> {
    "There's already a module with namespace \""@ + ns + "\"."@
}

/// The first variable from `i` on, not private, that a module used without a namespace has in
/// common with the global ones.
pub open spec fn star_clash(list: Vars, global: Vars, i: int) -> Option<Seq<char>>
    decreases list.len() - i,
{
    if i < 0 || i >= list.len() {
        None
    } else if !private_name(list[i].0) && get(global, list[i].0) is Some {
        Some(list[i].0)
    } else {
        star_clash(list, global, i + 1)
    }
}

pub open spec fn clash_message(name: Seq<char>) -> Seq<char> {
    "This module and the new module both define a variable named \"$"@ + name + "\"."@
}

/// The variables of a module.
pub open spec fn module_vars(s: Ev, m: usize) -> Vars {
    if m < s.modules.len() {
        frame(s, s.modules[m as int].vars)
    } else {
        Seq::empty()
    }
}

pub open spec fn module_table(s: Ev, m: usize, mixin: bool) -> Ids {
    if m < s.modules.len() {
        table(
            s,
            if mixin {
                s.modules[m as int].mixins
            } else {
                s.modules[m as int].functions
            },
        )
    } else {
        Seq::empty()
    }
}

/// The global variables.
pub open spec fn global_vars(s: Ev) -> Vars {
    if s.chain.scopes.len() > 0 {
        frame(s, s.chain.scopes[0])
    } else {
        Seq::empty()
    }
}

pub fn copy_named(v: &Vec<(String, Value)>) -> (r: Vec<(String, Value)>)
    ensures
        named_vals(r@) == named_vals(v@),
{
    let mut out: Vec<(String, Value)> = Vec::new();
    let mut i: usize = 0;
    while i < v.len()
        invariant
            i <= v@.len(),
            named_vals(out@) =~= named_vals(v@).take(i as int),
        decreases v@.len() - i,
    {
        let ghost before = named_vals(out@);
        let x = copy_value(&v[i].1);
        let ghost xv = val(x);
        out.push((v[i].0.clone(), x));
        proof {
            assert(named_vals(out@) =~= before.push((v@[i as int].0@, xv)));
            assert(named_vals(v@)[i as int] == (v@[i as int].0@, val(v@[i as int].1)));
        }
        i += 1;
    }
    proof {
        assert(named_vals(v@).take(i as int) =~= named_vals(v@));
    }
    out
}

pub fn no_vars() -> (r: Vec<(String, Value)>)
    ensures
        named_vals(r@) == Seq::<(Seq<char>, Val)>::empty(),
{
    let r: Vec<(String, Value)> = Vec::new();
    proof {
        assert(named_vals(r@) =~= Seq::empty());
    }
    r
}

pub fn no_ids() -> (r: Vec<(String, usize)>)
    ensures
        ids(r@) == Seq::<(Seq<char>, usize)>::empty(),
{
    let r: Vec<(String, usize)> = Vec::new();
    proof {
        assert(ids(r@) =~= Seq::empty());
    }
    r
}

pub fn find_clash(list: &Vec<(String, Value)>, global: &Vec<(String, Value)>) -> (r: Option<String>)
    ensures
        text_of(r) == star_clash(named_vals(list@), named_vals(global@), 0),
{
    let ghost all = named_vals(list@);
    let ghost g = named_vals(global@);
    let mut i: usize = 0;
    while i < list.len()
        invariant
            i <= list@.len(),
            all == named_vals(list@),
            g == named_vals(global@),
            star_clash(all, g, i as int) == star_clash(all, g, 0),
        decreases list@.len() - i,
    {
        if !is_private_member(list[i].0.as_str()) && find_var(global, list[i].0.as_str()) < global.len() {
            return Some(list[i].0.clone());
        }
        i += 1;
    }
    None
}

impl Evaluator {
    pub fn is_namespace_taken(&self, ns: &str) -> (r: bool)
        ensures
            r == namespace_taken(self@, ns@),
    {
        proof {
            reveal(ev_of);
        }
        get_text(&self.uses.builtin, ns).is_some() || get_id(&self.uses.user, ns).is_some()
    }

    pub fn frame_copy(&self, i: usize) -> (r: Vec<(String, Value)>)
        ensures
            named_vals(r@) == frame(self@, i),
    {
        proof {
            reveal(ev_of);
        }
        if i < self.frames.len() {
            copy_named(&self.frames[i])
        } else {
            no_vars()
        }
    }

    pub fn table_copy(&self, i: usize) -> (r: Vec<(String, usize)>)
        ensures
            ids(r@) == table(self@, i),
    {
        proof {
            reveal(ev_of);
        }
        if i < self.tables.len() {
            copy_ids(&self.tables[i])
        } else {
            no_ids()
        }
    }

    pub fn module_vars(&self, m: usize) -> (r: Vec<(String, Value)>)
        ensures
            named_vals(r@) == module_vars(self@, m),
    {
        proof {
            reveal(ev_of);
        }
        if m < self.modules.len() {
            proof {
                assert(self@.modules[m as int] == self.modules@[m as int]@);
            }
            self.frame_copy(self.modules[m].vars)
        } else {
            no_vars()
        }
    }

    pub fn module_table(&self, m: usize, mixin: bool) -> (r: Vec<(String, usize)>)
        ensures
            ids(r@) == module_table(self@, m, mixin),
    {
        proof {
            reveal(ev_of);
        }
        if m < self.modules.len() {
            proof {
                assert(self@.modules[m as int] == self.modules@[m as int]@);
            }
            if mixin {
                self.table_copy(self.modules[m].mixins)
            } else {
                self.table_copy(self.modules[m].functions)
            }
        } else {
            no_ids()
        }
    }

    pub fn global_vars(&self) -> (r: Vec<(String, Value)>)
        ensures
            named_vals(r@) == global_vars(self@),
    {
        proof {
            reveal(ev_of);
        }
        if self.chain.scopes.len() > 0 {
            self.frame_copy(self.chain.scopes[0])
        } else {
            no_vars()
        }
    }
}

// ---- modules that are loaded already -------------------------------------

/// The names configured, from `i` on, that a loaded module has a variable for.
pub open spec fn known_names(s: Ev, m: usize, c: Settings, i: int, acc: Seq<Seq<char>>) -> Seq<Seq<char>>
    decreases c.len() - i,
{
    if i < 0 || i >= c.len() {
        acc
    } else {
        known_names(
            s,
            m,
            c,
            i + 1,
            if module_var(s, m, c[i].0) is Some {
                acc.push(c[i].0)
            } else {
                acc
            },
        )
    }
}

impl Evaluator {
    pub fn known_names(&self, m: usize, c: &Vec<(String, (Value, bool))>) -> (r: Vec<String>)
        ensures
            texts(r@) == known_names(self@, m, settings(c@), 0, Seq::empty()),
    {
        let ghost all = settings(c@);
        let ghost goal = known_names(self@, m, all, 0, Seq::empty());
        let mut acc = empty_strings();
        let mut i: usize = 0;
        while i < c.len()
            invariant
                i <= c@.len(),
                all == settings(c@),
                known_names(self@, m, all, i as int, texts(acc@)) == goal,
            decreases c@.len() - i,
        {
            if self.module_var(m, c[i].0.as_str()).is_some() {
                push_string(&mut acc, c[i].0.clone());
            }
            i += 1;
        }
        acc
    }
}

// ---- re-exports ----------------------------------------------------------

/// Where the variables of a module live.
pub type Origins = Seq<(Seq<char>, (usize, Seq<char>))>;

/// The module that a variable of `m` lives in, and its name there.
pub open spec fn variable_home(s: Ev, m: usize, name: Seq<char>) -> (usize, Seq<char>) {
    if m < s.modules.len() {
        match seek(s.modules[m as int].var_origins, name) {
            Some(o) => o,
            None => (m, name),
        }
    } else {
        (m, name)
    }
}

/// Whether a function or mixin is re-exported under this name.
pub open spec fn name_passes(
    show: Option<Vec<ForwardMember>>,
    hide: Option<Vec<ForwardMember>>,
    name: Seq<char>,
) -> bool {
    !private_name(name) && listed(opt_members(show, false), opt_members(hide, false), dashed(name))
}

/// The variables re-exported, and where they live, with those of a module from `i` on; or the name
/// that two modules define.
pub open spec fn vars_exported(
    s: Ev,
    m: usize,
    list: Vars,
    i: int,
    prefix: Seq<char>,
    show: Option<Vec<ForwardMember>>,
    hide: Option<Vec<ForwardMember>>,
    vars: Vars,
    homes: Origins,
) -> Result<(Vars, Origins), Seq<char>>
    decreases list.len() - i,
{
    if i < 0 || i >= list.len() {
        Ok((vars, homes))
    } else {
        let name = list[i].0;
        let key = prefix + name;
        if private_name(name) || !passes(show, hide, key) {
            vars_exported(s, m, list, i + 1, prefix, show, hide, vars, homes)
        } else {
            let home = variable_home(s, m, name);
            let there = get(homes, key);
            if there is Some && (there->0).0 != home.0 {
                Err(key)
            } else {
                vars_exported(
                    s,
                    m,
                    list,
                    i + 1,
                    prefix,
                    show,
                    hide,
                    put(vars, key, list[i].1),
                    put(homes, key, home),
                )
            }
        }
    }
}

/// The same for functions, or for mixins.
pub open spec fn names_exported(
    s: Ev,
    m: usize,
    mixin: bool,
    list: Ids,
    i: int,
    prefix: Seq<char>,
    show: Option<Vec<ForwardMember>>,
    hide: Option<Vec<ForwardMember>>,
    defs: Ids,
    homes: Ids,
) -> Result<(Ids, Ids), Seq<char>>
    decreases list.len() - i,
{
    if i < 0 || i >= list.len() {
        Ok((defs, homes))
    } else {
        let name = list[i].0;
        let key = prefix + name;
        if private_name(name) || !name_passes(show, hide, key) {
            names_exported(s, m, mixin, list, i + 1, prefix, show, hide, defs, homes)
        } else {
            let home = if mixin {
                mixin_home(s, m, name)
            } else {
                function_home(s, m, name)
            };
            let there = get(homes, key);
            if there is Some && there->0 != home {
                Err(key)
            } else {
                names_exported(
                    s,
                    m,
                    mixin,
                    list,
                    i + 1,
                    prefix,
                    show,
                    hide,
                    put(defs, key, list[i].1),
                    put(homes, key, home),
                )
            }
        }
    }
}

/// The state with the members of a module re-exported.
#[verifier::opaque]
pub open spec fn exported(
    s: Ev,
    m: usize,
    prefix: Seq<char>,
    show: Option<Vec<ForwardMember>>,
    hide: Option<Vec<ForwardMember>>,
    pos: Pos,
) -> Run<()> {
    let f = s.page.forwarded;
    match vars_exported(s, m, module_vars(s, m), 0, prefix, show, hide, f.vars, f.var_origins) {
        Err(k) => fail(
            fault_at("Two forwarded modules both define a variable named $"@ + k + "."@, pos),
            s,
        ),
        Ok((vars, var_origins)) => match names_exported(
            s,
            m,
            false,
            module_table(s, m, false),
            0,
            prefix,
            show,
            hide,
            f.functions,
            f.fn_origins,
        ) {
            Err(k) => fail(
                fault_at("Two forwarded modules both define a function named "@ + k + "."@, pos),
                s,
            ),
            Ok((functions, fn_origins)) => match names_exported(
                s,
                m,
                true,
                module_table(s, m, true),
                0,
                prefix,
                show,
                hide,
                f.mixins,
                f.mixin_origins,
            ) {
                Err(k) => fail(
                    fault_at("Two forwarded modules both define a mixin named "@ + k + "."@, pos),
                    s,
                ),
                Ok((mixins, mixin_origins)) => (
                    Ok(()),
                    Ev {
                        page: Leaf {
                            forwarded: Exports {
                                vars,
                                var_origins,
                                functions,
                                fn_origins,
                                mixins,
                                mixin_origins,
                                ..f
                            },
                            ..s.page
                        },
                        ..s
                    },
                ),
            },
        },
    }
}

pub fn find_origin(v: &Vec<(String, (usize, String))>, key: &str) -> (r: usize)
    ensures
        r == entry(origins(v@), key@),
        r <= v@.len(),
{
    let ghost s = origins(v@);
    let mut i: usize = 0;
    while i < v.len() && !same_str(v[i].0.as_str(), key)
        invariant
            i <= v@.len(),
            s == origins(v@),
            forall|k: int| 0 <= k < i ==> (#[trigger] s[k]).0 != key@,
        decreases v@.len() - i,
    {
        i += 1;
    }
    proof {
        lemma_entry_is(s, key@, i as int);
    }
    i
}

pub fn put_origin(v: &mut Vec<(String, (usize, String))>, key: &str, m: usize, name: String)
    ensures
        origins(final(v)@) == put(origins(old(v)@), key@, (m, name@)),
{
    let i: usize = find_origin(v, key);
    if i < v.len() {
        v[i] = (key.to_owned(), (m, name));
    } else {
        v.push((key.to_owned(), (m, name)));
    }
    proof {
        assert(origins(final(v)@) =~= put(origins(old(v)@), key@, (m, name@)));
    }
}

pub fn copy_origins(v: &Vec<(String, (usize, String))>) -> (r: Vec<(String, (usize, String))>)
    ensures
        origins(r@) == origins(v@),
{
    let mut out: Vec<(String, (usize, String))> = Vec::new();
    let mut i: usize = 0;
    while i < v.len()
        invariant
            i <= v@.len(),
            origins(out@) =~= origins(v@).take(i as int),
        decreases v@.len() - i,
    {
        let ghost before = origins(out@);
        out.push((v[i].0.clone(), (v[i].1.0, v[i].1.1.clone())));
        proof {
            let e = v@[i as int];
            assert(origins(out@) =~= before.push((e.0@, ((e.1).0, (e.1).1@))));
            assert(origins(v@)[i as int] == (e.0@, ((e.1).0, (e.1).1@)));
        }
        i += 1;
    }
    proof {
        assert(origins(v@).take(i as int) =~= origins(v@));
    }
    out
}

pub open spec fn out_vars_exported(
    r: Result<(Vec<(String, Value)>, Vec<(String, (usize, String))>), String>,
) -> Result<(Vars, Origins), Seq<char>> {
    match r {
        Ok(t) => Ok((named_vals(t.0@), origins(t.1@))),
        Err(k) => Err(k@),
    }
}

pub open spec fn out_names_exported(
    r: Result<(Vec<(String, usize)>, Vec<(String, usize)>), String>,
) -> Result<(Ids, Ids), Seq<char>> {
    match r {
        Ok(t) => Ok((ids(t.0@), ids(t.1@))),
        Err(k) => Err(k@),
    }
}

impl Evaluator {
    pub fn variable_home(&self, m: usize, name: &str) -> (r: (usize, String))
        ensures
            (r.0, r.1@) == variable_home(self@, m, name@),
    {
        proof {
            reveal(ev_of);
        }
        if m < self.modules.len() {
            proof {
                assert(self@.modules[m as int] == self.modules@[m as int]@);
            }
            match seek_origin(&self.modules[m].var_origins, name) {
                Some(o) => o,
                None => (m, name.to_owned()),
            }
        } else {
            (m, name.to_owned())
        }
    }

    #[verifier::loop_isolation(false)]
    fn export_vars(
        &self,
        m: usize,
        prefix: &str,
        show: &Option<Vec<ForwardMember>>,
        hide: &Option<Vec<ForwardMember>>,
    ) -> (r: Result<(Vec<(String, Value)>, Vec<(String, (usize, String))>), String>)
        ensures
            out_vars_exported(r) == vars_exported(
                self@,
                m,
                module_vars(self@, m),
                0,
                prefix@,
                *show,
                *hide,
                self@.page.forwarded.vars,
                self@.page.forwarded.var_origins,
            ),
    {
        proof {
            reveal(ev_of);
        }
        proof {
            reveal(leaf_of);
        }
        let list = self.module_vars(m);
        let ghost all = named_vals(list@);
        let mut vars = copy_named(&self.page.forwarded.vars);
        let mut homes = copy_origins(&self.page.forwarded.var_origins);
        let ghost goal = vars_exported(
            self@,
            m,
            all,
            0,
            prefix@,
            *show,
            *hide,
            named_vals(vars@),
            origins(homes@),
        );
        let mut i: usize = 0;
        while i < list.len()
            invariant
                i <= list@.len(),
                vars_exported(
                    self@,
                    m,
                    all,
                    i as int,
                    prefix@,
                    *show,
                    *hide,
                    named_vals(vars@),
                    origins(homes@),
                ) == goal,
            decreases list@.len() - i,
        {
            proof {
                reveal(ev_of);
            }
            proof {
                reveal(leaf_of);
            }
            let name = list[i].0.as_str();
            let key = cat2(prefix, name);
            if !is_private_member(name) && !is_private_member(key.as_str()) && forward_var_visibility(
                show,
                hide,
                key.as_str(),
            ) {
                let (home, other) = self.variable_home(m, name);
                let k: usize = find_origin(&homes, key.as_str());
                if k < homes.len() && homes[k].1.0 != home {
                    return Err(key);
                }
                put_var(&mut vars, key.as_str(), copy_value(&list[i].1));
                put_origin(&mut homes, key.as_str(), home, other);
            }
            i += 1;
        }
        Ok((vars, homes))
    }

    #[verifier::loop_isolation(false)]
    fn export_names(
        &self,
        m: usize,
        mixin: bool,
        prefix: &str,
        show: &Option<Vec<ForwardMember>>,
        hide: &Option<Vec<ForwardMember>>,
        old_defs: &Vec<(String, usize)>,
        old_homes: &Vec<(String, usize)>,
    ) -> (r: Result<(Vec<(String, usize)>, Vec<(String, usize)>), String>)
        ensures
            out_names_exported(r) == names_exported(
                self@,
                m,
                mixin,
                module_table(self@, m, mixin),
                0,
                prefix@,
                *show,
                *hide,
                ids(old_defs@),
                ids(old_homes@),
            ),
    {
        let list = self.module_table(m, mixin);
        let ghost all = ids(list@);
        let mut defs = copy_ids(old_defs);
        let mut homes = copy_ids(old_homes);
        let ghost goal = names_exported(
            self@,
            m,
            mixin,
            all,
            0,
            prefix@,
            *show,
            *hide,
            ids(defs@),
            ids(homes@),
        );
        let shown = member_set(show, false);
        let hidden = member_set(hide, false);
        let mut i: usize = 0;
        while i < list.len()
            invariant
                i <= list@.len(),
                names_exported(
                    self@,
                    m,
                    mixin,
                    all,
                    i as int,
                    prefix@,
                    *show,
                    *hide,
                    ids(defs@),
                    ids(homes@),
                ) == goal,
            decreases list@.len() - i,
        {
            let name = list[i].0.as_str();
            let key = cat2(prefix, name);
            let plain = normalize_var_name(key.as_str());
            if !is_private_member(name) && !is_private_member(key.as_str()) && is_listed(
                &shown,
                &hidden,
                plain.as_str(),
            ) {
                let home: usize = if mixin {
                    self.mixin_origin(m, name)
                } else {
                    self.fn_origin(m, name)
                };
                if let Some(h) = get_id(&homes, key.as_str()) {
                    if h != home {
                        return Err(key);
                    }
                }
                put_id(&mut defs, key.as_str(), list[i].1);
                put_id(&mut homes, key.as_str(), home);
            }
            i += 1;
        }
        Ok((defs, homes))
    }

    /// Re-export the members of a module.
    pub fn export_members(
        &mut self,
        m: usize,
        prefix: &str,
        show: &Option<Vec<ForwardMember>>,
        hide: &Option<Vec<ForwardMember>>,
        pos: Pos,
    ) -> (r: Result<(), Stop>)
        ensures
            (out_unit(r), final(self)@) == exported(
                old(self)@,
                m,
                prefix@,
                *show,
                *hide,
                pos,
            ),
            same_place(old(self)@, final(self)@),
    {
        proof {
            reveal(exported);
        }
        proof {
            reveal(ev_of);
        }
        proof {
            reveal(leaf_of);
        }
        let (vars, var_origins) = match self.export_vars(m, prefix, show, hide) {
            Ok(t) => t,
            Err(k) => {
                return Err(
                    stop_at(
                        cat3(
                            "Two forwarded modules both define a variable named $",
                            k.as_str(),
                            ".",
                        ).as_str(),
                        pos,
                    ),
                );
            },
        };
        let (functions, fn_origins) = match self.export_names(
            m,
            false,
            prefix,
            show,
            hide,
            &self.page.forwarded.functions,
            &self.page.forwarded.fn_origins,
        ) {
            Ok(t) => t,
            Err(k) => {
                return Err(
                    stop_at(
                        cat3(
                            "Two forwarded modules both define a function named ",
                            k.as_str(),
                            ".",
                        ).as_str(),
                        pos,
                    ),
                );
            },
        };
        let (mixins, mixin_origins) = match self.export_names(
            m,
            true,
            prefix,
            show,
            hide,
            &self.page.forwarded.mixins,
            &self.page.forwarded.mixin_origins,
        ) {
            Ok(t) => t,
            Err(k) => {
                return Err(
                    stop_at(
                        cat3(
                            "Two forwarded modules both define a mixin named ",
                            k.as_str(),
                            ".",
                        ).as_str(),
                        pos,
                    ),
                );
            },
        };
        self.page.forwarded.vars = vars;
        self.page.forwarded.var_origins = var_origins;
        self.page.forwarded.functions = functions;
        self.page.forwarded.fn_origins = fn_origins;
        self.page.forwarded.mixins = mixins;
        self.page.forwarded.mixin_origins = mixin_origins;
        Ok(())
    }
}

} // verus!
