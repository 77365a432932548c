//! What an `@import` sees of the file it stands in, and what it leaves there.

use vstd::prelude::*;
use crate::analysis::{collect_global_var_decls, global_names};
use crate::ast::Stmt;
use crate::configs::{Settings, copy_settings, no_settings, put_setting};
use crate::diag::{decimal, to_decimal};
use crate::edges::{count, counted};
use crate::env::{Uses, origins};
use crate::eval::{
    Conf, Ev, Evaluator, captured, ev_of, frame, function_defined, mixin_defined, popped,
    same_place, settings, with_var,
};
use crate::exports::{Origins, find_origin, global_vars};
use crate::expr::{empty_strings, push_string};
use crate::host::named_vals;
use crate::install::{copy_opt_text, no_uses, pop_text, slots_added};
use crate::names::{dashed, normalize_var_name};
use crate::page::{Exports, Forwarded, Leaf, clone_of, leaf_of, no_exports};
use crate::state::{Ids, Vars, find_var, get, get_id, ids, put, put_id};
use crate::text::{append, chars_of, clone_strings, string_of, text_of, texts};
use crate::value::{Value, copy_value};

verus! {

broadcast use crate::kept::group_kept;

// ---- the configuration that an import implies ----------------------------

/// The settings with every variable of a scope from `i` on.
pub open spec fn scope_settings(list: Vars, i: int, acc: Settings) -> Settings
    decreases list.len() - i,
{
    if i < 0 || i >= list.len() {
        acc
    } else {
        scope_settings(list, i + 1, put(acc, dashed(list[i].0), (list[i].1, false)))
    }
}

/// The settings with every variable that is visible, an inner one in place of an outer one.
pub open spec fn visible_settings(s: Ev, i: int, acc: Settings) -> Settings
    decreases s.chain.scopes.len() - i,
{
    if i < 0 || i >= s.chain.scopes.len() {
        acc
    } else {
        visible_settings(s, i + 1, scope_settings(frame(s, s.chain.scopes[i]), 0, acc))
    }
}

/// Whether a file loads modules.
pub open spec fn is_load(stmt: Stmt) -> bool {
    stmt is Use || stmt is Forward
}

pub open spec fn loads_modules(stmts: Seq<Stmt>) -> bool {
    exists|k: int| 0 <= k < stmts.len() && is_load(#[trigger] stmts[k])
}

/// The state in which an imported file is evaluated. Its own module bindings stay with it; where it
/// loads modules, the variables visible here are their configuration, and their CSS is copied.
#[verifier::opaque]
pub open spec fn import_begun(
    s: Ev,
    path: Seq<char>,
    stmts: Seq<Stmt>,
    dir: Option<Option<Seq<char>>>,
) -> Ev {
    let s1 = slots_added(
        Ev {
            uses: no_uses(),
            page: Leaf {
                loading: s.page.loading.push(path),
                forwarded: no_exports(),
                file_dir: match dir {
                    Some(d) => d,
                    None => s.page.file_dir,
                },
                ..s.page
            },
            ..s
        },
        global_names(stmts, 0),
        0,
    );
    if loads_modules(stmts) {
        let n = counted(s1.page.copy_counter);
        Ev {
            config: Conf {
                pending: visible_settings(s1, 0, Seq::empty()),
                consumed: Seq::empty(),
                implicit: true,
                id: 0,
            },
            page: Leaf {
                copy_counter: n,
                import_clone: Some(("#import"@ + decimal(n as nat), Seq::empty())),
                ..s1.page
            },
            ..s1
        }
    } else {
        Ev { page: Leaf { import_clone: None, ..s1.page }, ..s1 }
    }
}

/// The state after an imported file that was begun from `from`.
#[verifier::opaque]
pub open spec fn import_ended(s: Ev, from: Ev, stmts: Seq<Stmt>) -> Ev {
    Ev {
        uses: from.uses,
        config: if loads_modules(stmts) {
            from.config
        } else {
            s.config
        },
        page: Leaf {
            file_dir: from.page.file_dir,
            import_clone: from.page.import_clone,
            forwarded: from.page.forwarded,
            loading: popped(s.page.loading),
            ..s.page
        },
        ..s
    }
}

// ---- what an import leaves -----------------------------------------------

/// The state with functions, or mixins, from `i` on defined anew where the import stands.
pub open spec fn rebound(s: Ev, list: Ids, i: int, mixin: bool) -> Ev
    decreases list.len() - i,
{
    if i < 0 || i >= list.len() {
        s
    } else if list[i].1 < s.callables.len() {
        let (id, s1) = captured(s, s.callables[list[i].1 as int].def);
        rebound(
            if mixin {
                mixin_defined(s1, list[i].0, id)
            } else {
                function_defined(s1, list[i].0, id)
            },
            list,
            i + 1,
            mixin,
        )
    } else {
        rebound(s, list, i + 1, mixin)
    }
}

/// The state with forwarded variables from `i` on made global. One that came from the same module
/// before keeps the value it has now.
pub open spec fn globals_taken(s: Ev, list: Vars, homes: Origins, i: int) -> Ev
    decreases list.len() - i,
{
    if i < 0 || i >= list.len() {
        s
    } else {
        let name = list[i].0;
        let src = match get(homes, name) {
            Some(o) => o.0,
            None => 0,
        };
        let s1 = if s.chain.scopes.len() == 0 {
            s
        } else if get(s.page.forwarded_globals, name) == Some(src) {
            if get(global_vars(s), name) is None {
                with_var(s, s.chain.scopes[0], name, list[i].1)
            } else {
                s
            }
        } else {
            with_var(
                Ev {
                    page: Leaf {
                        forwarded_globals: put(s.page.forwarded_globals, name, src),
                        ..s.page
                    },
                    ..s
                },
                s.chain.scopes[0],
                name,
                list[i].1,
            )
        };
        globals_taken(s1, list, homes, i + 1)
    }
}

/// The state with variables from `i` on set in the innermost scope.
pub open spec fn locals_taken(s: Ev, list: Vars, i: int) -> Ev
    decreases list.len() - i,
{
    if i < 0 || i >= list.len() {
        s
    } else {
        locals_taken(
            if s.chain.scopes.len() == 0 {
                s
            } else {
                with_var(s, s.chain.scopes.last(), list[i].0, list[i].1)
            },
            list,
            i + 1,
        )
    }
}

/// The state with what an imported file forwards.
#[verifier::opaque]
pub open spec fn exports_taken(s: Ev, f: Exports) -> Ev {
    if s.chain.scopes.len() == 1 {
        globals_taken(
            rebound(rebound(s, f.functions, 0, false), f.mixins, 0, true),
            f.vars,
            f.var_origins,
            0,
        )
    } else {
        rebound(rebound(locals_taken(s, f.vars, 0), f.functions, 0, false), f.mixins, 0, true)
    }
}

// ---- execution -----------------------------------------------------------

pub fn is_loading_modules(stmts: &Vec<Stmt>) -> (r: bool)
    ensures
        r == loads_modules(stmts@),
{
    let mut i: usize = 0;
    while i < stmts.len()
        invariant
            i <= stmts@.len(),
            forall|k: int| 0 <= k < i ==> !is_load(#[trigger] stmts@[k]),
        decreases stmts@.len() - i,
    {
        if matches!(&stmts[i], Stmt::Use { .. }) || matches!(&stmts[i], Stmt::Forward { .. }) {
            proof {
                assert(is_load(stmts@[i as int]));
            }
            return true;
        }
        i += 1;
    }
    false
}

/// What is put back when an imported file has been evaluated.
#[derive(Debug)]
pub struct ImportSite {
    pub uses: Uses,
    pub pending: Vec<(String, (Value, bool))>,
    pub consumed: Vec<String>,
    pub implicit: bool,
    pub id: usize,
    pub file_dir: Option<String>,
    pub import_clone: Option<(String, Vec<String>)>,
    pub forwarded: Forwarded,
}

pub open spec fn importer_of(o: ImportSite, s: Ev) -> bool {
    &&& o.uses@ == s.uses
    &&& settings(o.pending@) == s.config.pending
    &&& texts(o.consumed@) == s.config.consumed
    &&& o.implicit == s.config.implicit
    &&& o.id == s.config.id
    &&& text_of(o.file_dir) == s.page.file_dir
    &&& clone_of(o.import_clone) == s.page.import_clone
    &&& o.forwarded@ == s.page.forwarded
}

fn copy_clone(o: &Option<(String, Vec<String>)>) -> (r: Option<(String, Vec<String>)>)
    ensures
        clone_of(r) == clone_of(*o),
{
    match o {
        Some(t) => Some((t.0.clone(), clone_strings(&t.1))),
        None => None,
    }
}

#[verifier::loop_isolation(false)]
fn add_scope_settings(list: &Vec<(String, Value)>, acc: &mut Vec<(String, (Value, bool))>)
    ensures
        settings(final(acc)@) == scope_settings(named_vals(list@), 0, settings(old(acc)@)),
{
    let ghost all = named_vals(list@);
    let ghost goal = scope_settings(all, 0, settings(acc@));
    let mut i: usize = 0;
    while i < list.len()
        invariant
            i <= list@.len(),
            scope_settings(all, i as int, settings(acc@)) == goal,
        decreases list@.len() - i,
    {
        let key = normalize_var_name(list[i].0.as_str());
        put_setting(acc, key.as_str(), copy_value(&list[i].1), false);
        i += 1;
    }
}

impl Evaluator {
    fn visible_settings(&self) -> (r: Vec<(String, (Value, bool))>)
        ensures
            settings(r@) == visible_settings(self@, 0, Seq::empty()),
    {
        proof {
            reveal(ev_of);
        }
        let ghost goal = visible_settings(self@, 0, Seq::empty());
        let mut acc = no_settings();
        let mut i: usize = 0;
        while i < self.chain.scopes.len()
            invariant
                i <= self.chain.scopes@.len(),
                visible_settings(self@, i as int, settings(acc@)) == goal,
            decreases self.chain.scopes@.len() - i,
        {
            proof {
                reveal(ev_of);
            }
            let list = self.frame_copy(self.chain.scopes[i]);
            add_scope_settings(&list, &mut acc);
            i += 1;
        }
        acc
    }

    /// Begin an imported file. Gives what is to be put back.
    pub fn begin_import(&mut self, path: &str, stmts: &Vec<Stmt>, dir: Option<Option<String>>) -> (r: ImportSite)
        ensures
            final(self)@ == import_begun(
                old(self)@,
                path@,
                stmts@,
                match dir {
                    Some(d) => Some(text_of(d)),
                    None => None,
                },
            ),
            importer_of(r, old(self)@),
            same_place(old(self)@, final(self)@),
    {
        proof {
            reveal(import_begun);
        }
        proof {
            reveal(ev_of);
        }
        proof {
            reveal(leaf_of);
        }
        let o = ImportSite {
            uses: self.uses.copy(),
            pending: copy_settings(&self.config.pending),
            consumed: clone_strings(&self.config.consumed),
            implicit: self.config.implicit,
            id: self.config.id,
            file_dir: copy_opt_text(&self.page.file_dir),
            import_clone: copy_clone(&self.page.import_clone),
            forwarded: self.page.forwarded.copy(),
        };
        self.uses = Uses::none();
        push_string(&mut self.page.loading, path.to_owned());
        self.page.forwarded = Forwarded::none();
        if let Some(d) = dir {
            self.page.file_dir = d;
        }
        let names = collect_global_var_decls(stmts);
        self.add_slots(&names);
        if is_loading_modules(stmts) {
            let n: usize = count(self.page.copy_counter);
            self.config.pending = self.visible_settings();
            self.config.consumed = empty_strings();
            self.config.implicit = true;
            self.config.id = 0;
            self.page.copy_counter = n;
            let mut m = chars_of("#import");
            append(&mut m, to_decimal(n).as_slice());
            self.page.import_clone = Some((string_of(m.as_slice()), empty_strings()));
        } else {
            self.page.import_clone = None;
        }
        o
    }

    /// End an imported file.
    pub(crate) fn end_import(&mut self, o: ImportSite, stmts: &Vec<Stmt>, from: Ghost<Ev>)
        requires
            importer_of(o, from@),
        ensures
            final(self)@ == import_ended(old(self)@, from@, stmts@),
            same_place(old(self)@, final(self)@),
    {
        proof {
            reveal(import_ended);
        }
        proof {
            reveal(ev_of);
        }
        proof {
            reveal(leaf_of);
        }
        self.uses = o.uses;
        if is_loading_modules(stmts) {
            self.config.pending = o.pending;
            self.config.consumed = o.consumed;
            self.config.implicit = o.implicit;
            self.config.id = o.id;
        }
        self.page.file_dir = o.file_dir;
        self.page.import_clone = o.import_clone;
        self.page.forwarded = o.forwarded;
        pop_text(&mut self.page.loading);
    }

    fn rebind(&mut self, list: &Vec<(String, usize)>, mixin: bool)
        ensures
            final(self)@ == rebound(old(self)@, ids(list@), 0, mixin),
            same_place(old(self)@, final(self)@),
    {
        proof {
            reveal(ev_of);
        }
        let ghost all = ids(list@);
        let ghost goal = rebound(old(self)@, all, 0, mixin);
        let mut i: usize = 0;
        while i < list.len()
            invariant
                same_place(old(self)@, self@),
                i <= list@.len(),
                all == ids(list@),
                rebound(self@, all, i as int, mixin) == goal,
            decreases list@.len() - i,
        {
            proof {
                reveal(ev_of);
            }
            let k: usize = list[i].1;
            if k < self.callables.len() {
                proof {
                    assert(self@.callables[k as int] == self.callables@[k as int]@);
                }
                let def = self.callables[k].def.clone();
                let id: usize = self.capture_callable(&def);
                if mixin {
                    self.define_mixin(list[i].0.as_str(), id);
                } else {
                    self.define_function(list[i].0.as_str(), id);
                }
            }
            i += 1;
        }
    }

    fn take_globals(&mut self, list: &Vec<(String, Value)>, homes: &Vec<(String, (usize, String))>)
        ensures
            final(self)@ == globals_taken(old(self)@, named_vals(list@), origins(homes@), 0),
            same_place(old(self)@, final(self)@),
    {
        proof {
            reveal(ev_of);
        }
        proof {
            reveal(leaf_of);
        }
        let ghost all = named_vals(list@);
        let ghost hs = origins(homes@);
        let ghost goal = globals_taken(old(self)@, all, hs, 0);
        let mut i: usize = 0;
        while i < list.len()
            invariant
                same_place(old(self)@, self@),
                i <= list@.len(),
                all == named_vals(list@),
                hs == origins(homes@),
                globals_taken(self@, all, hs, i as int) == goal,
            decreases list@.len() - i,
        {
            proof {
                reveal(ev_of);
            }
            proof {
                reveal(leaf_of);
            }
            let name = list[i].0.as_str();
            let k: usize = find_origin(homes, name);
            let src: usize = if k < homes.len() {
                homes[k].1.0
            } else {
                0
            };
            if self.chain.scopes.len() > 0 {
                let f: usize = self.chain.scopes[0];
                let same_src = match get_id(&self.page.forwarded_globals, name) {
                    Some(p) => p == src,
                    None => false,
                };
                if same_src {
                    let there = f < self.frames.len() && find_var(&self.frames[f], name)
                        < self.frames[f].len();
                    if !there {
                        self.set_var(f, name, copy_value(&list[i].1));
                    }
                } else {
                    put_id(&mut self.page.forwarded_globals, name, src);
                    self.set_var(f, name, copy_value(&list[i].1));
                }
            }
            i += 1;
        }
    }

    fn take_locals(&mut self, list: &Vec<(String, Value)>)
        ensures
            final(self)@ == locals_taken(old(self)@, named_vals(list@), 0),
            same_place(old(self)@, final(self)@),
    {
        proof {
            reveal(ev_of);
        }
        let ghost all = named_vals(list@);
        let ghost goal = locals_taken(old(self)@, all, 0);
        let mut i: usize = 0;
        while i < list.len()
            invariant
                same_place(old(self)@, self@),
                i <= list@.len(),
                all == named_vals(list@),
                locals_taken(self@, all, i as int) == goal,
            decreases list@.len() - i,
        {
            proof {
                reveal(ev_of);
            }
            let n: usize = self.chain.scopes.len();
            if n > 0 {
                let f: usize = self.chain.scopes[n - 1];
                self.set_var(f, list[i].0.as_str(), copy_value(&list[i].1));
            }
            i += 1;
        }
    }

    /// Take over what an imported file forwards.
    pub fn take_exports(&mut self, f: &Forwarded)
        ensures
            final(self)@ == exports_taken(old(self)@, f@),
            same_place(old(self)@, final(self)@),
    {
        proof {
            reveal(exports_taken);
        }
        proof {
            reveal(ev_of);
        }
        if self.chain.scopes.len() == 1 {
            self.rebind(&f.functions, false);
            self.rebind(&f.mixins, true);
            self.take_globals(&f.vars, &f.var_origins);
        } else {
            self.take_locals(&f.vars);
            self.rebind(&f.functions, false);
            self.rebind(&f.mixins, true);
        }
    }
}

} // verus!
