//! How a module is set up and taken down, and how an import brings in what it forwards.

use vstd::prelude::*;
use crate::configs::{Settings, copy_settings};
use crate::env::{
    Chain, ForwardedBuiltin, Mod, Module, Scopes, Used, Uses, copy_ids, mods, opt_texts, origins,
    passed,
};
use crate::eval::{
    Conf, Ev, Evaluator, Rep, ev_of, frame, popped, same_context, same_place, settings, table,
    with_id, with_scope, with_var,
};
use crate::exports::{
    Origins, copy_named, copy_origins, find_origin, global_vars, no_ids, no_vars, put_origin,
};
use crate::expr::{empty_strings, push_string};
use crate::host::named_vals;
use crate::kept::{kept, kept_with_module};
use crate::out::{Node, OutNode, nodes};
use crate::page::{Forwarded, Leaf, leaf_of, no_exports};
use crate::report::source_of;
use crate::rules::copy_opt_strings;
use crate::state::{Ids, Vars, find_id, find_var, get, get_id, ids, put, put_id};
use crate::text::{clone_strings, text_of, texts};
use crate::value::{Val, Value, copy_value};

verus! {

broadcast use crate::kept::group_kept;

// ---- setting a module up -------------------------------------------------

pub open spec fn no_scopes() -> Scopes {
    Scopes {
        scopes: Seq::empty(),
        semi: Seq::empty(),
        functions: Seq::empty(),
        mixins: Seq::empty(),
    }
}

pub open spec fn no_uses() -> Used {
    Used {
        builtin: Seq::empty(),
        star_builtin: Seq::empty(),
        user: Seq::empty(),
        star_user: Seq::empty(),
    }
}

/// The state in which the file of a module is evaluated: scopes of its own, nothing used and
/// nothing re-exported yet.
#[verifier::opaque]
pub open spec fn module_begun(
    s: Ev,
    key: Seq<char>,
    url: Seq<char>,
    dir: Option<Seq<char>>,
    c: Settings,
    id: usize,
) -> Ev {
    with_scope(
        Ev {
            chain: no_scopes(),
            uses: no_uses(),
            selector: None,
            config: Conf { pending: c, consumed: Seq::empty(), implicit: s.config.implicit, id },
            report: Rep { url, source: source_of(s, url), ..s.report },
            page: Leaf {
                file_dir: dir,
                forwarded: no_exports(),
                module: key,
                loading: s.page.loading.push(key),
                ..s.page
            },
            ..s
        },
        Seq::empty(),
        true,
    )
}

/// The state after a module was evaluated that was set up from `from`.
#[verifier::opaque]
pub open spec fn module_ended(s: Ev, from: Ev) -> Ev {
    Ev {
        chain: from.chain,
        uses: from.uses,
        selector: from.selector,
        config: Conf { implicit: s.config.implicit, ..from.config },
        report: Rep { url: from.report.url, source: from.report.source, ..s.report },
        page: Leaf {
            file_dir: from.page.file_dir,
            forwarded: from.page.forwarded,
            module: from.page.module,
            loading: popped(s.page.loading),
            ..s.page
        },
        ..s
    }
}

/// The state with a variable for each name from `i` on, `null` where there is none yet.
pub open spec fn slots_added(s: Ev, names: Seq<Seq<char>>, i: int) -> Ev
    decreases names.len() - i,
{
    if i < 0 || i >= names.len() {
        s
    } else {
        slots_added(
            if s.chain.scopes.len() > 0 && get(global_vars(s), names[i]) is None {
                with_var(s, s.chain.scopes[0], names[i], Val::Null)
            } else {
                s
            },
            names,
            i + 1,
        )
    }
}

/// What is put back when a module has been evaluated.
#[derive(Debug)]
pub struct Outer {
    pub chain: Chain,
    pub uses: Uses,
    pub selector: Option<Vec<String>>,
    pub pending: Vec<(String, (Value, bool))>,
    pub consumed: Vec<String>,
    pub id: usize,
    pub url: String,
    pub source: String,
    pub file_dir: Option<String>,
    pub forwarded: Forwarded,
    pub module: String,
}

/// Whether `o` is what is put back for a module set up from `s`.
pub open spec fn outer_of(o: Outer, s: Ev) -> bool {
    &&& o.chain@ == s.chain
    &&& o.uses@ == s.uses
    &&& opt_texts(o.selector) == s.selector
    &&& settings(o.pending@) == s.config.pending
    &&& texts(o.consumed@) == s.config.consumed
    &&& o.id == s.config.id
    &&& o.url@ == s.report.url
    &&& o.source@ == s.report.source
    &&& text_of(o.file_dir) == s.page.file_dir
    &&& o.forwarded@ == s.page.forwarded
    &&& o.module@ == s.page.module
}

impl Chain {
    pub fn none() -> (r: Chain)
        ensures
            r@ == no_scopes(),
    {
        let r = Chain {
            scopes: Vec::new(),
            semi: Vec::new(),
            functions: Vec::new(),
            mixins: Vec::new(),
        };
        proof {
            assert(r.scopes@ =~= Seq::empty());
            assert(r.semi@ =~= Seq::empty());
            assert(r.functions@ =~= Seq::empty());
            assert(r.mixins@ =~= Seq::empty());
        }
        r
    }
}

impl Uses {
    pub fn none() -> (r: Uses)
        ensures
            r@ == no_uses(),
    {
        let r = Uses {
            builtin: Vec::new(),
            star_builtin: Vec::new(),
            user: Vec::new(),
            star_user: Vec::new(),
        };
        proof {
            assert(r@.builtin =~= Seq::empty());
            assert(r@.star_builtin =~= Seq::empty());
            assert(r@.user =~= Seq::empty());
            assert(r.star_user@ =~= Seq::empty());
        }
        r
    }
}

pub fn copy_opt_text(o: &Option<String>) -> (r: Option<String>)
    ensures
        text_of(r) == text_of(*o),
{
    match o {
        Some(t) => Some(t.clone()),
        None => None,
    }
}

pub fn pop_text(v: &mut Vec<String>)
    ensures
        texts(final(v)@) == popped(texts(old(v)@)),
{
    let ghost before = texts(v@);
    v.pop();
    proof {
        assert(texts(final(v)@) =~= popped(before));
    }
}

pub fn copy_passed(v: &Vec<ForwardedBuiltin>) -> (r: Vec<ForwardedBuiltin>)
    ensures
        passed(r@) == passed(v@),
{
    let mut out: Vec<ForwardedBuiltin> = Vec::new();
    let mut i: usize = 0;
    while i < v.len()
        invariant
            i <= v@.len(),
            passed(out@) =~= passed(v@).take(i as int),
        decreases v@.len() - i,
    {
        let ghost before = passed(out@);
        let b = ForwardedBuiltin {
            module: v[i].module.clone(),
            prefix: copy_opt_text(&v[i].prefix),
            show: copy_opt_strings(&v[i].show),
            hide: copy_opt_strings(&v[i].hide),
        };
        let ghost bv = b@;
        out.push(b);
        proof {
            assert(passed(out@) =~= before.push(bv));
            assert(passed(v@)[i as int] == v@[i as int]@);
        }
        i += 1;
    }
    proof {
        assert(passed(v@).take(i as int) =~= passed(v@));
    }
    out
}

impl Forwarded {
    pub fn copy(&self) -> (r: Forwarded)
        ensures
            r@ == self@,
    {
        Forwarded {
            vars: copy_named(&self.vars),
            functions: copy_ids(&self.functions),
            mixins: copy_ids(&self.mixins),
            var_origins: copy_origins(&self.var_origins),
            fn_origins: copy_ids(&self.fn_origins),
            mixin_origins: copy_ids(&self.mixin_origins),
            builtins: copy_passed(&self.builtins),
        }
    }
}

impl Evaluator {
    /// Set a module up. Gives what is to be put back.
    pub fn begin_module(
        &mut self,
        key: &str,
        url: &str,
        dir: Option<String>,
        c: Vec<(String, (Value, bool))>,
        id: usize,
    ) -> (r: Outer)
        ensures
            final(self)@ == module_begun(
                old(self)@,
                key@,
                url@,
                text_of(dir),
                settings(c@),
                id,
            ),
            outer_of(r, old(self)@),
            same_context(old(self)@, final(self)@),
    {
        proof {
            reveal(module_begun);
        }
        proof {
            reveal(ev_of);
        }
        proof {
            reveal(leaf_of);
        }
        let source = self.source_for(url);
        let outer = Outer {
            chain: self.chain.copy(),
            uses: self.uses.copy(),
            selector: copy_opt_strings(&self.selector),
            pending: copy_settings(&self.config.pending),
            consumed: clone_strings(&self.config.consumed),
            id: self.config.id,
            url: self.report.url.clone(),
            source: self.report.source.clone(),
            file_dir: copy_opt_text(&self.page.file_dir),
            forwarded: self.page.forwarded.copy(),
            module: self.page.module.clone(),
        };
        self.chain = Chain::none();
        self.uses = Uses::none();
        self.selector = None;
        self.config.pending = c;
        self.config.consumed = empty_strings();
        self.config.id = id;
        self.report.url = url.to_owned();
        self.report.source = source;
        self.page.file_dir = dir;
        self.page.forwarded = Forwarded::none();
        self.page.module = key.to_owned();
        push_string(&mut self.page.loading, key.to_owned());
        self.push_scope_frame(no_vars(), true);
        outer
    }

    /// Take a module down.
    pub(crate) fn end_module(&mut self, o: Outer, from: Ghost<Ev>)
        requires
            outer_of(o, from@),
        ensures
            final(self)@ == module_ended(old(self)@, from@),
            same_context(old(self)@, final(self)@),
            final(self)@.chain == from@.chain,
    {
        proof {
            reveal(module_ended);
        }
        proof {
            reveal(ev_of);
        }
        proof {
            reveal(leaf_of);
        }
        self.chain = o.chain;
        self.uses = o.uses;
        self.selector = o.selector;
        self.config.pending = o.pending;
        self.config.consumed = o.consumed;
        self.config.id = o.id;
        self.report.url = o.url;
        self.report.source = o.source;
        self.page.file_dir = o.file_dir;
        self.page.forwarded = o.forwarded;
        self.page.module = o.module;
        pop_text(&mut self.page.loading);
    }

    /// A variable for each name, `null` where there is none yet.
    pub fn add_slots(&mut self, names: &Vec<String>)
        ensures
            final(self)@ == slots_added(old(self)@, texts(names@), 0),
            same_place(old(self)@, final(self)@),
    {
        proof {
            reveal(ev_of);
        }
        let ghost all = texts(names@);
        let ghost goal = slots_added(old(self)@, all, 0);
        let mut i: usize = 0;
        while i < names.len()
            invariant
                same_place(old(self)@, self@),
                i <= names@.len(),
                all == texts(names@),
                slots_added(self@, all, i as int) == goal,
            decreases names@.len() - i,
        {
            proof {
                reveal(ev_of);
            }
            if self.chain.scopes.len() > 0 {
                let f: usize = self.chain.scopes[0];
                let there = f < self.frames.len() && find_var(&self.frames[f], names[i].as_str())
                    < self.frames[f].len();
                if !there {
                    self.set_var(f, names[i].as_str(), Value::Null);
                }
            }
            i += 1;
        }
    }
}

// ---- what a module holds -------------------------------------------------

/// The state with the variables from `i` on put into a frame that has none of their names, and
/// where those live that were put there.
pub open spec fn vars_merged(s: Ev, f: usize, list: Vars, homes: Origins, i: int, acc: Origins) -> (Ev, Origins)
    decreases list.len() - i,
{
    if i < 0 || i >= list.len() {
        (s, acc)
    } else if get(frame(s, f), list[i].0) is Some {
        vars_merged(s, f, list, homes, i + 1, acc)
    } else {
        vars_merged(
            with_var(s, f, list[i].0, list[i].1),
            f,
            list,
            homes,
            i + 1,
            match get(homes, list[i].0) {
                Some(o) => put(acc, list[i].0, o),
                None => acc,
            },
        )
    }
}

/// The same for a table of functions or mixins.
pub open spec fn ids_merged(s: Ev, t: usize, list: Ids, homes: Ids, i: int, acc: Ids) -> (Ev, Ids)
    decreases list.len() - i,
{
    if i < 0 || i >= list.len() {
        (s, acc)
    } else if get(table(s, t), list[i].0) is Some {
        ids_merged(s, t, list, homes, i + 1, acc)
    } else {
        ids_merged(
            with_id(s, t, list[i].0, list[i].1),
            t,
            list,
            homes,
            i + 1,
            match get(homes, list[i].0) {
                Some(o) => put(acc, list[i].0, o),
                None => acc,
            },
        )
    }
}

pub open spec fn first_of(l: Seq<usize>) -> usize {
    if l.len() > 0 {
        l[0]
    } else {
        0
    }
}

/// The number of a module that has been evaluated to the state `inside`, and the state in which it
/// is known by its key. What it re-exports joins its own members, which come first.
#[verifier::opaque]
pub open spec fn module_added(
    s: Ev,
    inside: Ev,
    key: Seq<char>,
    url: Seq<char>,
    dir: Option<Seq<char>>,
    id: usize,
    css: Seq<Node>,
) -> (usize, Ev) {
    let f = inside.page.forwarded;
    let vars = first_of(inside.chain.scopes);
    let functions = first_of(inside.chain.functions);
    let mixins = first_of(inside.chain.mixins);
    let (s1, var_origins) = vars_merged(s, vars, f.vars, f.var_origins, 0, Seq::empty());
    let (s2, fn_origins) = ids_merged(s1, functions, f.functions, f.fn_origins, 0, Seq::empty());
    let (s3, mixin_origins) = ids_merged(s2, mixins, f.mixins, f.mixin_origins, 0, Seq::empty());
    let m = Mod {
        vars,
        functions,
        mixins,
        uses: inside.uses,
        forwarded_builtins: f.builtins,
        var_origins,
        var_write_origins: f.var_origins,
        fn_origins,
        mixin_origins,
        diag_url: url,
        config_origin: id,
        file_dir: match dir {
            Some(d) => d,
            None => Seq::empty(),
        },
        emitted_main: false,
        css,
    };
    let n = s3.modules.len() as usize;
    (
        n,
        Ev {
            modules: s3.modules.push(m),
            page: Leaf { cache: put(s3.page.cache, key, n), ..s3.page },
            ..s3
        },
    )
}

/// The state in which a module's CSS stands in the main output.
#[verifier::opaque]
pub open spec fn module_emitted(s: Ev, m: usize) -> Ev {
    if m < s.modules.len() {
        Ev {
            modules: s.modules.update(
                m as int,
                Mod { emitted_main: true, ..s.modules[m as int] },
            ),
            ..s
        }
    } else {
        s
    }
}

fn first_index(l: &Vec<usize>) -> (r: usize)
    ensures
        r == first_of(l@),
{
    if l.len() > 0 {
        l[0]
    } else {
        0
    }
}

/// What is taken out of an evaluated module before it is taken down.
#[derive(Debug)]
pub struct Inner {
    pub vars: usize,
    pub functions: usize,
    pub mixins: usize,
    pub uses: Uses,
    pub forwarded: Forwarded,
    pub consumed: Vec<String>,
}

pub open spec fn inner_of(i: Inner, s: Ev) -> bool {
    &&& i.vars == first_of(s.chain.scopes)
    &&& i.functions == first_of(s.chain.functions)
    &&& i.mixins == first_of(s.chain.mixins)
    &&& i.uses@ == s.uses
    &&& i.forwarded@ == s.page.forwarded
    &&& texts(i.consumed@) == s.config.consumed
}

impl Evaluator {
    pub fn take_inner(&self) -> (r: Inner)
        ensures
            inner_of(r, self@),
    {
        proof {
            reveal(ev_of);
        }
        proof {
            reveal(leaf_of);
        }
        Inner {
            vars: first_index(&self.chain.scopes),
            functions: first_index(&self.chain.functions),
            mixins: first_index(&self.chain.mixins),
            uses: self.uses.copy(),
            forwarded: self.page.forwarded.copy(),
            consumed: clone_strings(&self.config.consumed),
        }
    }

    fn merge_vars(&mut self, f: usize, list: &Vec<(String, Value)>, homes: &Vec<(String, (usize, String))>) -> (r: Vec<
        (String, (usize, String)),
    >)
        ensures
            (final(self)@, origins(r@)) == vars_merged(
                old(self)@,
                f,
                named_vals(list@),
                origins(homes@),
                0,
                Seq::empty(),
            ),
            same_place(old(self)@, final(self)@),
    {
        proof {
            reveal(ev_of);
        }
        let ghost all = named_vals(list@);
        let ghost hs = origins(homes@);
        let ghost goal = vars_merged(old(self)@, f, all, hs, 0, Seq::empty());
        let mut acc: Vec<(String, (usize, String))> = Vec::new();
        let mut i: usize = 0;
        proof {
            assert(origins(acc@) =~= Seq::empty());
        }
        while i < list.len()
            invariant
                same_place(old(self)@, self@),
                i <= list@.len(),
                all == named_vals(list@),
                hs == origins(homes@),
                vars_merged(self@, f, all, hs, i as int, origins(acc@)) == goal,
            decreases list@.len() - i,
        {
            proof {
                reveal(ev_of);
            }
            let name = list[i].0.as_str();
            let there = f < self.frames.len() && find_var(&self.frames[f], name) < self.frames[f].len();
            if !there {
                self.set_var(f, name, copy_value(&list[i].1));
                let k: usize = find_origin(homes, name);
                if k < homes.len() {
                    put_origin(&mut acc, name, homes[k].1.0, homes[k].1.1.clone());
                }
            }
            i += 1;
        }
        acc
    }

    fn merge_ids(&mut self, t: usize, list: &Vec<(String, usize)>, homes: &Vec<(String, usize)>) -> (r: Vec<
        (String, usize),
    >)
        ensures
            (final(self)@, ids(r@)) == ids_merged(
                old(self)@,
                t,
                ids(list@),
                ids(homes@),
                0,
                Seq::empty(),
            ),
            same_place(old(self)@, final(self)@),
    {
        proof {
            reveal(ev_of);
        }
        let ghost all = ids(list@);
        let ghost hs = ids(homes@);
        let ghost goal = ids_merged(old(self)@, t, all, hs, 0, Seq::empty());
        let mut acc = no_ids();
        let mut i: usize = 0;
        while i < list.len()
            invariant
                same_place(old(self)@, self@),
                i <= list@.len(),
                all == ids(list@),
                hs == ids(homes@),
                ids_merged(self@, t, all, hs, i as int, ids(acc@)) == goal,
            decreases list@.len() - i,
        {
            proof {
                reveal(ev_of);
            }
            let name = list[i].0.as_str();
            let there = t < self.tables.len() && find_id(&self.tables[t], name) < self.tables[t].len();
            if !there {
                self.set_id(t, name, list[i].1);
                if let Some(o) = get_id(homes, name) {
                    put_id(&mut acc, name, o);
                }
            }
            i += 1;
        }
        acc
    }

    /// Make a module of what was evaluated.
    pub(crate) fn add_module(
        &mut self,
        i: Inner,
        key: &str,
        url: &str,
        dir: &Option<String>,
        id: usize,
        css: Vec<OutNode>,
        inside: Ghost<Ev>,
    ) -> (r: usize)
        requires
            inner_of(i, inside@),
        ensures
            (r, final(self)@) == module_added(
                old(self)@,
                inside@,
                key@,
                url@,
                text_of(*dir),
                id,
                nodes(css@),
            ),
            final(self)@.chain == old(self)@.chain,
            forall|s: Ev|
                get(s.page.cache, key@) is None && #[trigger] same_context(s, old(self)@)
                    ==> same_context(s, final(self)@),
    {
        proof {
            reveal(module_added);
        }
        proof {
            reveal(ev_of);
        }
        proof {
            reveal(leaf_of);
        }
        let var_origins = self.merge_vars(i.vars, &i.forwarded.vars, &i.forwarded.var_origins);
        let fn_origins = self.merge_ids(
            i.functions,
            &i.forwarded.functions,
            &i.forwarded.fn_origins,
        );
        let mixin_origins = self.merge_ids(
            i.mixins,
            &i.forwarded.mixins,
            &i.forwarded.mixin_origins,
        );
        let file_dir = match dir {
            Some(d) => d.clone(),
            None => String::new(),
        };
        let m = Module {
            vars: i.vars,
            functions: i.functions,
            mixins: i.mixins,
            uses: i.uses,
            forwarded_builtins: i.forwarded.builtins,
            var_origins,
            var_write_origins: i.forwarded.var_origins,
            fn_origins,
            mixin_origins,
            diag_url: url.to_owned(),
            config_origin: id,
            file_dir,
            emitted_main: false,
            css,
        };
        proof {
            assert(m@.file_dir =~= (match text_of(*dir) {
                Some(d) => d,
                None => Seq::empty(),
            }));
        }
        let n: usize = self.modules.len();
        let ghost mid = self@;
        let ghost before = mods(self.modules@);
        let ghost mv = m@;
        self.modules.push(m);
        proof {
            assert(mods(self.modules@) =~= before.push(mv));
        }
        put_id(&mut self.page.cache, key, n);
        proof {
            assert forall|s: Ev|
                get(s.page.cache, key@) is None && #[trigger] same_context(s, old(self)@) implies same_context(
                s,
                self@,
            ) by {
                kept_with_module(
                    s.page.imports,
                    s.page.cache,
                    s.modules,
                    mid.page.imports,
                    mid.page.cache,
                    mid.modules,
                    key@,
                    n,
                    mv,
                );
            }
        }
        n
    }

    /// Note that a module's CSS stands in the main output.
    pub fn note_emitted(&mut self, m: usize)
        ensures
            final(self)@ == module_emitted(old(self)@, m),
            same_place(old(self)@, final(self)@),
    {
        proof {
            reveal(module_emitted);
        }
        proof {
            reveal(ev_of);
        }
        if m < self.modules.len() {
            let ghost before = mods(self.modules@);
            let ghost was = self.modules@[m as int]@;
            self.modules[m].emitted_main = true;
            proof {
                assert(mods(self.modules@) =~= before.update(
                    m as int,
                    Mod { emitted_main: true, ..was },
                ));
                reveal(kept);
            }
        }
    }
}

} // verus!
