//! Running statements: mixins, modules and imports.

use std::rc::Rc;
use vstd::prelude::*;
use crate::analysis::{body_uses_content, collect_global_var_decls, has_top_decl};
use crate::args::{
    Args, collect_keywords, find_keyword, finish_gather, keyword_list, keywords_of,
    leftover_error, make_rest_list, out_named, take_keyword, values_beyond,
};
use crate::ast::{
    CallArg, Callable, ConfigEntry, ForwardMember, ImportArg, ParamList, Stmt, Stylesheet,
};
use crate::calls::{drop_name, drop_named_slashes};
use crate::configs::{
    ForwardPlan, copy_settings, forward_plan, is_any_missing, is_any_unused, mark_used,
    plan_forward, put_text,
};
use crate::decls::empty_nodes;
use crate::diag::to_decimal;
use crate::edges::{add_text, count, with_text};
use crate::env::{
    Block, Chain, Closure, ContentBlock, ForwardedBuiltin, Passed, Used, Uses, blocks, member_set,
    opt_block, opt_env, opt_members, passed, rc_opt,
};
use crate::error::Pos;
use crate::eval::{
    Ev, Evaluator, closing_a_frame_restores, ev_of, loads_kept, out_unit, popped, same_context,
    same_place, settings, stop, stop_at,
};
use crate::exports::{find_clash, no_vars};
use crate::expr::{empty_strings, empty_values, push_string};
use crate::host::{Answer, Halt, Source, Stop, Task, named_vals, one_name, request_names};
use crate::install::{copy_opt_text, pop_text};
use crate::members::{MemberKind, no_namespace_message};
use crate::names::{
    default_namespace, is_css_import, is_private_member, module_diag_url, normalize_arg_name,
};
use crate::kept::kept;
use crate::options::Syntax;
use crate::out::{OutItem, OutNode, SrcLines, copy_nodes, nodes, one_node};
use crate::page::{CachedImport, Forwarded, Imported, Leaf, importeds, leaf_of};
use crate::paths::directory_of;
use crate::plain::{make_import, out_drain};
use crate::run::sink_nodes;
use crate::sink::{Drain, Sink, splice_nodes};
use crate::sources::{builtin_name, request_file, request_parse};
use crate::state::{get, get_id, get_var, put, put_id, put_var};
use crate::statements::{
    apply_target, argument_found, bound_frame, builtin_forwarded, config_identity, content_block,
    content_frame, content_run, css_loaded, file_imported, forward_finished, forward_identity,
    held_so_far, import_found, import_held, import_place, imports_held, lemma_found_is_held,
    lemma_held_at_fault, lemma_held_at_first, lemma_held_at_last, lemma_held_further, lemma_held_stays,
    mixin_applied, mixin_called, mixin_included, mixin_run, module_again, module_bound,
    module_evaluated, module_first, module_forwarded, module_loaded, module_used, run_import,
    run_imports, source_known, with_module,
};
use crate::text::{
    append, append_str, cat2, cat3, chars_of, clone_strings, holds_text, same_str, string_of,
    text_of, texts,
};
use crate::tree::reparent_nodes;
use crate::value::{ListSep, Value, copy_value, drop_slashes, vals};

verus! {

broadcast use crate::kept::group_kept;

pub open spec fn out_loaded(r: Result<(usize, Vec<String>, Sink), Stop>) -> Result<
    (usize, Seq<Seq<char>>, Drain),
    Halt,
> {
    match r {
        Ok(t) => Ok((t.0, texts(t.1@), t.2@)),
        Err(e) => Err(e@),
    }
}

/// Deposit the CSS of a module below the parents.
fn deposit_module(sink: Sink, key: String, css: Vec<OutNode>, parents: &Vec<String>) -> (r: Sink)
    ensures
        r@ == with_module(sink@, key@, nodes(css@), texts(parents@)),
{
    proof {
        reveal(with_module);
    }
    let mut sink = sink;
    let list = reparent_nodes(css, parents);
    splice_nodes(&mut sink, one_node(OutNode::ModuleScope { key, nodes: list }));
    sink
}

fn find_import(list: &Vec<CachedImport>, path: &str, base: &Option<String>) -> (r: usize)
    ensures
        r == import_place(importeds(list@), path@, text_of(*base), 0),
        r <= list@.len(),
{
    let ghost all = importeds(list@);
    let ghost b = text_of(*base);
    let mut i: usize = 0;
    while i < list.len()
        invariant
            i <= list@.len(),
            all == importeds(list@),
            b == text_of(*base),
            import_place(all, path@, b, i as int) == import_place(all, path@, b, 0),
        decreases list@.len() - i,
    {
        let same_base = match (&list[i].base, base) {
            (None, None) => true,
            (Some(x), Some(y)) => same_str(x.as_str(), y.as_str()),
            _ => false,
        };
        if same_str(list[i].path.as_str(), path) && same_base {
            return i;
        }
        i += 1;
    }
    i
}

impl CachedImport {
    fn copy(&self) -> (r: CachedImport)
        ensures
            r@ == self@,
    {
        CachedImport {
            path: self.path.clone(),
            base: copy_opt_text(&self.base),
            key: self.key.clone(),
            css: self.css,
            sheet: self.sheet.clone(),
        }
    }
}

pub open spec fn out_import(r: Result<CachedImport, Stop>) -> Result<Imported, Halt> {
    match r {
        Ok(e) => Ok(e@),
        Err(e) => Err(e@),
    }
}

impl Evaluator {
    fn make_content(&self, content: &Option<Rc<Vec<Stmt>>>, params: &Option<Rc<ParamList>>) -> (r: Option<
        ContentBlock,
    >)
        ensures
            opt_block(r) == content_block(self@, *content, *params),
    {
        proof {
            reveal(content_block);
        }
        proof {
            reveal(ev_of);
        }
        match content {
            None => None,
            Some(stmts) => Some(
                ContentBlock {
                    stmts: stmts.clone(),
                    params: match params {
                        Some(p) => Some(p.clone()),
                        None => None,
                    },
                    caller: Some((self.chain.copy(), self.uses.copy())),
                },
            ),
        }
    }

    fn config_identity(&mut self, c: &Vec<(String, (Value, bool))>) -> (r: usize)
        ensures
            (r, final(self)@) == config_identity(old(self)@, settings(c@)),
            same_place(old(self)@, final(self)@),
    {
        proof {
            reveal(config_identity);
        }
        proof {
            reveal(ev_of);
        }
        proof {
            reveal(leaf_of);
        }
        if c.len() == 0 {
            return 0;
        }
        let n: usize = count(self.page.config_counter);
        self.page.config_counter = n;
        n
    }

    fn find_imported(&mut self, ans: &Vec<Answer>, path: &str) -> (r: Result<CachedImport, Stop>)
        ensures
            (out_import(r), final(self)@) == import_found(old(self)@, ans@, path@),
            same_place(old(self)@, final(self)@),
    {
        proof {
            reveal(import_found);
        }
        let base = self.dir_copy();
        let loading = self.is_loading(path);
        if let Some(e) = self.cached_import(path, &base) {
            if loading {
                return Err(stop("This file is already being loaded."));
            }
            return Ok(e);
        }
        let src = match self.ask_source(ans, request_file(Task::ResolveImport, path, &base)) {
            Ok(Some(x)) => x,
            Ok(None) => {
                return Err(stop(cat2("Can't find stylesheet to import: ", path).as_str()));
            },
            Err(x) => {
                return Err(x);
            },
        };
        if loading {
            return Err(stop("This file is already being loaded."));
        }
        let sheet = match self.ask_sheet(ans, request_parse(src.text.as_str(), src.syntax)) {
            Ok(x) => x,
            Err(x) => {
                return Err(x);
            },
        };
        let e = CachedImport {
            path: path.to_owned(),
            base,
            key: src.key.clone(),
            css: src.syntax == Syntax::Css,
            sheet,
        };
        self.keep_import(&e);
        Ok(e)
    }

    fn note_source(&mut self, url: &str, text: &str)
        ensures
            final(self)@ == source_known(old(self)@, url@, text@),
            final(self)@.page == old(self)@.page,
            same_place(old(self)@, final(self)@),
    {
        proof {
            reveal(source_known);
        }
        proof {
            reveal(ev_of);
        }
        if self.report.enabled {
            put_text(&mut self.report.sources, url, text);
        }
    }

    fn apply_target(&mut self, ans: &Vec<Answer>, p: &Vec<Value>, n: &Vec<(String, Value)>) -> (r: Result<
        ((Option<usize>, Option<usize>), Vec<Value>),
        Stop,
    >)
        ensures
            (match r {
                Ok(t) => Ok((t.0, vals(t.1@))),
                Err(e) => Err(e@),
            }, final(self)@) == apply_target(old(self)@, ans@, vals(p@), named_vals(n@)),
            same_place(old(self)@, final(self)@),
    {
        proof {
            reveal(apply_target);
        }
        let (v, rest) = if p.len() > 0 {
            let rest = values_beyond(p, 1);
            proof {
                assert(vals(rest@) =~= vals(p@).skip(1));
            }
            (copy_value(&p[0]), rest)
        } else {
            match get_var(n, "mixin") {
                Some(v) => (v, empty_values()),
                None => {
                    return Err(stop("Missing argument $mixin."));
                },
            }
        };
        match v {
            Value::Mixin(m) => Ok(((m.user, m.module), rest)),
            other => match self.plain_css(ans, &other) {
                Err(x) => Err(x),
                Ok(t) => Err(
                    stop(cat3("$mixin: ", t.as_str(), " is not a mixin reference.").as_str()),
                ),
            },
        }
    }

    #[verifier::loop_isolation(false)]
    fn bind_evaled(&mut self, ans: &Vec<Answer>, params: &ParamList, a: Args, name: &str, fuel: usize) -> (r: Result<
        Vec<(String, Value)>,
        Stop,
    >)
        ensures
            (out_named(r), final(self)@) == bound_frame(
                old(self)@,
                ans@,
                *params,
                0,
                a@,
                keywords_of(a@.named),
                name@,
                Seq::empty(),
                fuel as nat,
            ),
            same_place(old(self)@, final(self)@),
    {
        proof {
            reveal(bound_frame);
        }
        let ghost goal = bound_frame(
            self@,
            ans@,
            *params,
            0,
            a@,
            keywords_of(a@.named),
            name@,
            Seq::empty(),
            fuel as nat,
        );
        let mut kw = collect_keywords(&a.named);
        let mut acc = no_vars();
        let count: usize = params.params.len();
        let mut i: usize = 0;
        while i < count
            invariant
                same_place(old(self)@, self@),
                i <= count,
                bound_frame(
                    self@,
                    ans@,
                    *params,
                    i as int,
                    a@,
                    keyword_list(kw@),
                    name@,
                    named_vals(acc@),
                    fuel as nat,
                ) == goal,
            decreases count - i,
        {
            proof {
                reveal(bound_frame);
            }
            let p = &params.params[i];
            let v = if i < a.positional.len() {
                copy_value(&a.positional[i])
            } else {
                let key = normalize_arg_name(p.name.as_str());
                let k: usize = find_keyword(&kw, key.as_str());
                if k < kw.len() {
                    take_keyword(&mut kw, k)
                } else {
                    match &p.default {
                        None => {
                            return Err(
                                stop(cat3("Missing argument $", p.name.as_str(), ".").as_str()),
                            );
                        },
                        Some(d) => match self.eval_expr(ans, d, fuel) {
                            Ok(v) => v,
                            Err(x) => {
                                return Err(x);
                            },
                        },
                    }
                }
            };
            put_var(&mut acc, p.name.as_str(), v);
            i += 1;
        }
        match &params.rest {
            Some(r) => {
                let rest = values_beyond(&a.positional, count);
                let v = make_rest_list(rest, a.sep, &kw);
                put_var(&mut acc, r.as_str(), v);
                Ok(acc)
            },
            None => match leftover_error(a.positional.len(), count, &kw, name) {
                Some(x) => Err(x),
                None => Ok(acc),
            },
        }
    }

    fn content_frame(
        &mut self,
        ans: &Vec<Answer>,
        params: &Option<Rc<ParamList>>,
        args: &Vec<CallArg>,
        fuel: usize,
    ) -> (r: Result<Option<Vec<(String, Value)>>, Stop>)
        ensures
            (match r {
                Ok(Some(f)) => Ok(Some(named_vals(f@))),
                Ok(None) => Ok(None),
                Err(e) => Err(e@),
            }, final(self)@) == content_frame(
                old(self)@,
                ans@,
                rc_opt(*params),
                args@,
                fuel as nat,
            ),
            same_place(old(self)@, final(self)@),
    {
        proof {
            reveal(content_frame);
        }
        match params {
            Some(p) => match self.eval_call_args(ans, args, fuel) {
                Err(x) => Err(x),
                Ok(g) => {
                    let a = finish_gather(g);
                    match self.bind_evaled(ans, p, a, "@content", fuel) {
                        Err(x) => Err(x),
                        Ok(f) => Ok(Some(f)),
                    }
                },
            },
            None => {
                let n: usize = args.len();
                if n > 0 {
                    let mut m = chars_of("Only 0 arguments allowed, but ");
                    append(&mut m, to_decimal(n).as_slice());
                    append_str(
                        &mut m,
                        if n == 1 {
                            " was passed."
                        } else {
                            " were passed."
                        },
                    );
                    return Err(stop(string_of(m.as_slice()).as_str()));
                }
                Ok(None)
            },
        }
    }

    fn content_top(&self) -> (r: Option<(Rc<Vec<Stmt>>, Option<Rc<ParamList>>, Option<(Chain, Uses)>)>)
        ensures
            match r {
                Some((stmts, params, caller)) => self@.contents.len() > 0 && self@.contents.last()
                    == Some(
                    Block { stmts: stmts@, params: rc_opt(params), caller: opt_env(caller) },
                ),
                None => self@.contents.len() == 0 || self@.contents.last() is None,
            },
    {
        proof {
            reveal(ev_of);
        }
        let n: usize = self.contents.len();
        if n == 0 {
            return None;
        }
        proof {
            assert(self@.contents.last() == opt_block(self.contents@[n - 1]));
        }
        match &self.contents[n - 1] {
            None => None,
            Some(b) => {
                let params = match &b.params {
                    Some(p) => Some(p.clone()),
                    None => None,
                };
                let caller = match &b.caller {
                    Some((c, u)) => Some((c.copy(), u.copy())),
                    None => None,
                };
                Some((b.stmts.clone(), params, caller))
            },
        }
    }

    fn push_loading(&mut self, path: &str)
        ensures
            final(self)@ == (Ev {
                page: Leaf { loading: old(self)@.page.loading.push(path@), ..old(self)@.page },
                ..old(self)@
            }),
            same_place(old(self)@, final(self)@),
    {
        proof {
            reveal(ev_of);
            reveal(leaf_of);
        }
        push_string(&mut self.page.loading, path.to_owned());
    }

    fn pop_loading(&mut self)
        ensures
            final(self)@ == (Ev {
                page: Leaf { loading: popped(old(self)@.page.loading), ..old(self)@.page },
                ..old(self)@
            }),
            same_place(old(self)@, final(self)@),
    {
        proof {
            reveal(ev_of);
            reveal(leaf_of);
        }
        pop_text(&mut self.page.loading);
    }

    fn is_loading(&self, key: &str) -> (r: bool)
        ensures
            r == self@.page.loading.contains(key@),
    {
        proof {
            reveal(ev_of);
            reveal(leaf_of);
        }
        holds_text(&self.page.loading, key)
    }

    fn exports_copy(&self) -> (r: Forwarded)
        ensures
            r@ == self@.page.forwarded,
    {
        proof {
            reveal(ev_of);
            reveal(leaf_of);
        }
        self.page.forwarded.copy()
    }

    fn dir_copy(&self) -> (r: Option<String>)
        ensures
            text_of(r) == self@.page.file_dir,
    {
        proof {
            reveal(ev_of);
            reveal(leaf_of);
        }
        copy_opt_text(&self.page.file_dir)
    }

    fn is_copying(&self) -> (r: bool)
        ensures
            r == (self@.page.import_clone is Some),
    {
        proof {
            reveal(ev_of);
            reveal(leaf_of);
        }
        self.page.import_clone.is_some()
    }

    fn cached_module(&self, key: &str) -> (r: Option<usize>)
        ensures
            r == get(self@.page.cache, key@),
    {
        proof {
            reveal(ev_of);
            reveal(leaf_of);
        }
        get_id(&self.page.cache, key)
    }

    fn cached_import(&self, path: &str, base: &Option<String>) -> (r: Option<CachedImport>)
        ensures
            ({
                let k = import_place(self@.page.imports, path@, text_of(*base), 0);
                match r {
                    Some(e) => k < self@.page.imports.len() && e@ == self@.page.imports[k],
                    None => k >= self@.page.imports.len(),
                }
            }),
    {
        proof {
            reveal(ev_of);
            reveal(leaf_of);
        }
        let k: usize = find_import(&self.page.imports, path, base);
        if k < self.page.imports.len() {
            proof {
                assert(self@.page.imports[k as int] == self.page.imports@[k as int]@);
            }
            Some(self.page.imports[k].copy())
        } else {
            None
        }
    }

    fn keep_import(&mut self, e: &CachedImport)
        ensures
            final(self)@ == (Ev {
                page: Leaf { imports: old(self)@.page.imports.push(e@), ..old(self)@.page },
                ..old(self)@
            }),
            same_place(old(self)@, final(self)@),
    {
        proof {
            reveal(ev_of);
            reveal(leaf_of);
        }
        let ghost before = importeds(self.page.imports@);
        let copy = e.copy();
        let ghost ev = copy@;
        self.page.imports.push(copy);
        proof {
            assert(importeds(self.page.imports@) =~= before.push(ev));
            reveal(kept);
        }
    }

    /// What a `@forward` hands on of the configuration here.
    fn plan_forward(
        &self,
        own: &Vec<(String, (Value, bool))>,
        prefix: &Option<String>,
        show: &Option<Vec<ForwardMember>>,
        hide: &Option<Vec<ForwardMember>>,
    ) -> (r: ForwardPlan)
        ensures
            r@ == forward_plan(
                self@.config.pending,
                settings(own@),
                text_of(*prefix),
                *show,
                *hide,
            ),
    {
        proof {
            reveal(ev_of);
        }
        plan_forward(&self.config.pending, own, prefix, show, hide)
    }

    fn use_star_builtin(&mut self, m: &str)
        ensures
            final(self)@ == (Ev {
                uses: Used {
                    star_builtin: with_text(old(self)@.uses.star_builtin, m@),
                    ..old(self)@.uses
                },
                ..old(self)@
            }),
            same_place(old(self)@, final(self)@),
    {
        proof {
            reveal(ev_of);
        }
        add_text(&mut self.uses.star_builtin, m);
    }

    fn push_content(&mut self, b: Option<ContentBlock>)
        ensures
            final(self)@ == (Ev {
                contents: old(self)@.contents.push(opt_block(b)),
                ..old(self)@
            }),
            same_place(old(self)@, final(self)@),
    {
        proof {
            reveal(ev_of);
        }
        let ghost before = blocks(self.contents@);
        let ghost bv = opt_block(b);
        self.contents.push(b);
        proof {
            assert(blocks(self.contents@) =~= before.push(bv));
        }
    }

    fn pop_content(&mut self) -> (r: Option<Option<ContentBlock>>)
        ensures
            final(self)@ == (Ev { contents: popped(old(self)@.contents), ..old(self)@ }),
            match r {
                Some(b) => old(self)@.contents.len() > 0 && opt_block(b) == old(
                    self,
                )@.contents.last(),
                None => old(self)@.contents.len() == 0,
            },
            same_place(old(self)@, final(self)@),
    {
        proof {
            reveal(ev_of);
        }
        let ghost before = blocks(self.contents@);
        let r = self.contents.pop();
        proof {
            assert(blocks(self.contents@) =~= popped(before));
        }
        r
    }

    fn use_builtin(&mut self, ns: &str, m: &str)
        ensures
            final(self)@ == (Ev {
                uses: Used {
                    builtin: put(old(self)@.uses.builtin, ns@, m@),
                    ..old(self)@.uses
                },
                ..old(self)@
            }),
            same_place(old(self)@, final(self)@),
    {
        proof {
            reveal(ev_of);
        }
        put_text(&mut self.uses.builtin, ns, m);
    }

    fn bind_module(
        &mut self,
        m: usize,
        url: &str,
        namespace: &Option<String>,
        star: bool,
        pos: Pos,
    ) -> (r: Result<(), Stop>)
        ensures
            (out_unit(r), final(self)@) == module_bound(
                old(self)@,
                m,
                url@,
                text_of(*namespace),
                star,
                pos,
            ),
            same_place(old(self)@, final(self)@),
    {
        proof {
            reveal(module_bound);
        }
        proof {
            reveal(ev_of);
        }
        if star {
            let list = self.module_vars(m);
            let global = self.global_vars();
            if let Some(name) = find_clash(&list, &global) {
                return Err(
                    stop_at(
                        cat3(
                            "This module and the new module both define a variable named \"$",
                            name.as_str(),
                            "\".",
                        ).as_str(),
                        pos,
                    ),
                );
            }
            if !holds_index(&self.uses.star_user, m) {
                self.uses.star_user.push(m);
            }
            return Ok(());
        }
        let ns = match namespace {
            Some(n) => n.clone(),
            None => match default_namespace(url, pos) {
                Ok(n) => n,
                Err(e) => {
                    return Err(Stop::Error(e));
                },
            },
        };
        if self.is_namespace_taken(ns.as_str()) {
            return Err(
                stop_at(
                    cat3(
                        "There's already a module with namespace \"",
                        ns.as_str(),
                        "\".",
                    ).as_str(),
                    pos,
                ),
            );
        }
        put_id(&mut self.uses.user, ns.as_str(), m);
        Ok(())
    }

    fn forward_builtin(
        &mut self,
        m: String,
        prefix: &Option<String>,
        show: &Option<Vec<ForwardMember>>,
        hide: &Option<Vec<ForwardMember>>,
    )
        ensures
            final(self)@ == builtin_forwarded(
                old(self)@,
                Passed {
                    module: m@,
                    prefix: text_of(*prefix),
                    show: opt_members(*show, false),
                    hide: opt_members(*hide, false),
                },
            ),
            same_place(old(self)@, final(self)@),
    {
        proof {
            reveal(builtin_forwarded);
        }
        proof {
            reveal(ev_of);
        }
        proof {
            reveal(leaf_of);
        }
        let b = ForwardedBuiltin {
            module: m,
            prefix: copy_opt_text(prefix),
            show: member_set(show, false),
            hide: member_set(hide, false),
        };
        let ghost before = passed(self.page.forwarded.builtins@);
        let ghost bv = b@;
        self.page.forwarded.builtins.push(b);
        proof {
            assert(passed(self.page.forwarded.builtins@) =~= before.push(bv));
        }
    }

    fn forward_identity(&mut self, own: &Vec<(String, (Value, bool))>) -> (r: usize)
        ensures
            (r, final(self)@) == forward_identity(old(self)@, settings(own@)),
            same_place(old(self)@, final(self)@),
    {
        proof {
            reveal(forward_identity);
        }
        proof {
            reveal(ev_of);
        }
        if own.len() == 0 {
            return self.config.id;
        }
        self.config.implicit = false;
        self.config_identity(own)
    }

    fn finish_forward(
        &mut self,
        p: &ForwardPlan,
        m: usize,
        used: &Vec<String>,
        prefix: &Option<String>,
        show: &Option<Vec<ForwardMember>>,
        hide: &Option<Vec<ForwardMember>>,
        pos: Pos,
    ) -> (r: Result<(), Stop>)
        ensures
            (out_unit(r), final(self)@) == forward_finished(
                old(self)@,
                p@,
                m,
                texts(used@),
                text_of(*prefix),
                *show,
                *hide,
                pos,
            ),
            same_place(old(self)@, final(self)@),
    {
        proof {
            reveal(forward_finished);
        }
        proof {
            reveal(ev_of);
        }
        if is_any_missing(&p.own, used) {
            return Err(
                stop_at("This variable was not declared with !default in the @used module.", pos),
            );
        }
        mark_used(p, used, &mut self.config.consumed);
        mark_used(p, &p.claimed, &mut self.config.consumed);
        let pre = match prefix {
            Some(x) => x.clone(),
            None => {
                let none = String::new();
                proof {
                    assert(none@ =~= Seq::empty());
                }
                none
            },
        };
        self.export_members(m, pre.as_str(), show, hide, pos)
    }

    fn load_again(
        &mut self,
        m: usize,
        key: &str,
        c: &Vec<(String, (Value, bool))>,
        id: usize,
        pos: Pos,
        parents: &Vec<String>,
        copies: bool,
        sink: Sink,
    ) -> (r: Result<(usize, Vec<String>, Sink), Stop>)
        ensures
            (out_loaded(r), final(self)@) == module_again(
                old(self)@,
                m,
                key@,
                settings(c@),
                id,
                pos,
                texts(parents@),
                copies,
                sink@,
            ),
            same_place(old(self)@, final(self)@),
    {
        proof {
            reveal(module_again);
        }
        proof {
            reveal(ev_of);
        }
        if m >= self.modules.len() {
            return Err(Stop::Mismatch);
        }
        proof {
            assert(self@.modules[m as int] == self.modules@[m as int]@);
        }
        let used = self.known_names(m, c);
        if used.len() > 0 {
            if self.config.implicit {
                let css = copy_nodes(&self.modules[m].css);
                self.record_load(key);
                let out = deposit_module(sink, key.to_owned(), css, parents);
                return Ok((m, used, out));
            }
            if id != 0 && self.modules[m].config_origin == id {
                return Ok((m, used, sink));
            }
            return Err(
                stop_at(
                    "This module was already loaded, so it can't be configured using \"with\".",
                    pos,
                ),
            );
        }
        if copies {
            let (copy, list) = self.clone_module_css(key);
            let out = deposit_module(sink, copy, list, parents);
            return Ok((m, empty_strings(), out));
        }
        let done = self.modules[m].emitted_main;
        let css = copy_nodes(&self.modules[m].css);
        self.record_load(key);
        if done {
            return Ok((m, empty_strings(), sink));
        }
        self.note_emitted(m);
        let out = deposit_module(sink, key.to_owned(), css, parents);
        Ok((m, empty_strings(), out))
    }
}

fn holds_index(v: &Vec<usize>, m: usize) -> (r: bool)
    ensures
        r == v@.contains(m),
{
    let mut i: usize = 0;
    while i < v.len()
        invariant
            i <= v@.len(),
            forall|k: int| 0 <= k < i ==> #[trigger] v@[k] != m,
        decreases v@.len() - i,
    {
        if v[i] == m {
            return true;
        }
        i += 1;
    }
    false
}

// ---- mixins --------------------------------------------------------------

impl Evaluator {
    fn run_mixin(
        &mut self,
        ans: &Vec<Answer>,
        def: &Rc<Callable>,
        chain: Chain,
        a: Args,
        content: Option<ContentBlock>,
        note: bool,
        parents: &Vec<String>,
        sink: Sink,
        fuel: usize,
    ) -> (r: Result<Sink, Stop>)
        ensures
            (out_drain(r), final(self)@) == mixin_run(
                old(self)@,
                ans@,
                (Closure { def: **def, chain: chain@ }),
                a@,
                opt_block(content),
                note,
                texts(parents@),
                sink@,
                fuel as nat,
            ),
            same_place(old(self)@, final(self)@),
        decreases fuel, 15nat, 0int,
    {
        let saved = self.chain_copy();
        self.set_chain(chain);
        self.push_scope(false);
        match self.bind_evaled_into_scope(ans, &def.params, a, def.name.as_str(), fuel) {
            Err(x) => {
                self.set_chain(saved);
                Err(x)
            },
            Ok(()) => {
                self.push_content(content);
                if note {
                    self.push_mixin_flag(true);
                }
                let r = self.exec(ans, &def.body, parents, sink, fuel);
                if note {
                    self.pop_mixin_flag();
                }
                let _ = self.pop_content();
                self.set_chain(saved);
                r
            },
        }
    }

    fn call_mixin(
        &mut self,
        ans: &Vec<Answer>,
        id: usize,
        home: Option<usize>,
        args: &Vec<CallArg>,
        content: &Option<Rc<Vec<Stmt>>>,
        params: &Option<Rc<ParamList>>,
        parents: &Vec<String>,
        sink: Sink,
        fuel: usize,
    ) -> (r: Result<Sink, Stop>)
        ensures
            (out_drain(r), final(self)@) == mixin_called(
                old(self)@,
                ans@,
                id,
                home,
                args@,
                *content,
                *params,
                texts(parents@),
                sink@,
                fuel as nat,
            ),
            same_place(old(self)@, final(self)@),
        decreases fuel, 20nat, 0int,
    {
        let (def, chain) = match self.closure_at(id) {
            Some(t) => t,
            None => {
                return Err(Stop::Mismatch);
            },
        };
        if content.is_some() && !body_uses_content(&def.body) {
            return Err(stop("Mixin doesn't accept a content block."));
        }
        let a = match self.eval_call_args(ans, args, fuel) {
            Ok(g) => finish_gather(g),
            Err(x) => {
                return Err(x);
            },
        };
        let b = self.make_content(content, params);
        match home {
            None => self.run_mixin(ans, &def, chain, a, b, true, parents, sink, fuel),
            Some(m) => {
                let ghost from = self@;
                let saved = self.enter_module(m);
                let r = self.run_mixin(ans, &def, chain, a, b, false, parents, sink, fuel);
                self.leave_module(saved, Ghost(m), Ghost(from));
                r
            },
        }
    }

    fn exec_apply(
        &mut self,
        ans: &Vec<Answer>,
        args: &Vec<CallArg>,
        content: &Option<Rc<Vec<Stmt>>>,
        params: &Option<Rc<ParamList>>,
        parents: &Vec<String>,
        sink: Sink,
        fuel: usize,
    ) -> (r: Result<Sink, Stop>)
        ensures
            (out_drain(r), final(self)@) == mixin_applied(
                old(self)@,
                ans@,
                args@,
                *content,
                *params,
                texts(parents@),
                sink@,
                fuel as nat,
            ),
            same_place(old(self)@, final(self)@),
        decreases fuel, 20nat, 0int,
    {
        let a = match self.eval_call_args(ans, args, fuel) {
            Ok(g) => finish_gather(g),
            Err(x) => {
                return Err(x);
            },
        };
        let p = drop_slashes(a.positional);
        let n = drop_named_slashes(a.named);
        let ((user, module), rest) = match self.apply_target(ans, &p, &n) {
            Ok(t) => t,
            Err(x) => {
                return Err(x);
            },
        };
        let id: usize = match user {
            None => {
                if content.is_some() {
                    return Err(stop("Mixin doesn't accept a content block."));
                }
                return Err(stop("Undefined mixin."));
            },
            Some(id) => id,
        };
        let (def, chain) = match self.closure_at(id) {
            Some(t) => t,
            None => {
                return Err(stop("Undefined mixin."));
            },
        };
        if content.is_some() && !body_uses_content(&def.body) {
            return Err(stop("Mixin doesn't accept a content block."));
        }
        let b = self.make_content(content, params);
        let given = Args { positional: rest, named: drop_name(&n, "mixin"), sep: ListSep::Comma };
        let home = match module {
            Some(m) => self.module_uses(m),
            None => None,
        };
        match home {
            Some(u) => {
                let saved = self.uses_copy();
                self.set_uses(u);
                let r = self.run_mixin(ans, &def, chain, given, b, true, parents, sink, fuel);
                self.set_uses(saved);
                r
            },
            None => self.run_mixin(ans, &def, chain, given, b, true, parents, sink, fuel),
        }
    }

    /// `@include`.
    pub fn exec_mixin(
        &mut self,
        ans: &Vec<Answer>,
        name: &str,
        args: &Vec<CallArg>,
        content: &Option<Rc<Vec<Stmt>>>,
        params: &Option<Rc<ParamList>>,
        module: &Option<String>,
        pos: Pos,
        parents: &Vec<String>,
        sink: Sink,
        fuel: usize,
    ) -> (r: Result<Sink, Stop>)
        ensures
            (out_drain(r), final(self)@) == mixin_included(
                old(self)@,
                ans@,
                name@,
                args@,
                *content,
                *params,
                text_of(*module),
                pos,
                texts(parents@),
                sink@,
                fuel as nat,
            ),
            same_place(old(self)@, final(self)@),
        decreases fuel, 45nat, 0int,
    {
        if let Some(ns) = module {
            let ns = ns.as_str();
            let builtin = self.used_builtin(ns);
            let meta = match &builtin {
                Some(b) => same_str(b.as_str(), "meta"),
                None => false,
            };
            if meta && same_str(name, "apply") {
                return self.exec_apply(ans, args, content, params, parents, sink, fuel);
            }
            if meta && same_str(name, "load-css") {
                return self.exec_load_css(
                    ans,
                    args,
                    content.is_some(),
                    pos,
                    parents,
                    sink,
                    fuel,
                );
            }
            return match self.used_module(ns) {
                Some(m) => {
                    if is_private_member(name) {
                        return Err(
                            stop("Private members can't be accessed from outside their modules."),
                        );
                    }
                    match self.module_mixin(m, name) {
                        None => Err(stop("Undefined mixin.")),
                        Some(id) => {
                            let home: usize = self.mixin_origin(m, name);
                            self.call_mixin(
                                ans,
                                id,
                                Some(home),
                                args,
                                content,
                                params,
                                parents,
                                sink,
                                fuel,
                            )
                        },
                    }
                },
                None => {
                    if builtin.is_none() {
                        Err(stop(no_namespace_message(ns).as_str()))
                    } else {
                        Err(stop("Undefined mixin."))
                    }
                },
            };
        }
        if let Some(id) = self.lookup_mixin(name) {
            return self.call_mixin(ans, id, None, args, content, params, parents, sink, fuel);
        }
        let hits = self.star_hits(name, MemberKind::Mixin);
        if hits.len() > 1 {
            return Err(stop("This mixin is available from multiple global modules."));
        }
        if hits.len() == 1 {
            return match self.module_mixin(hits[0], name) {
                None => Err(Stop::Mismatch),
                Some(id) => self.call_mixin(
                    ans,
                    id,
                    Some(hits[0]),
                    args,
                    content,
                    params,
                    parents,
                    sink,
                    fuel,
                ),
            };
        }
        Err(stop(cat3("Undefined mixin ", name, ".").as_str()))
    }

    /// `@content`.
    pub fn exec_content(
        &mut self,
        ans: &Vec<Answer>,
        args: &Vec<CallArg>,
        parents: &Vec<String>,
        sink: Sink,
        fuel: usize,
    ) -> (r: Result<Sink, Stop>)
        ensures
            (out_drain(r), final(self)@) == content_run(
                old(self)@,
                ans@,
                args@,
                texts(parents@),
                sink@,
                fuel as nat,
            ),
            same_place(old(self)@, final(self)@),
        decreases fuel, 40nat, 0int,
    {
        let (stmts, params, caller) = match self.content_top() {
            Some(t) => t,
            None => {
                return Ok(sink);
            },
        };
        let frame = match self.content_frame(ans, &params, args, fuel) {
            Ok(f) => f,
            Err(x) => {
                return Err(x);
            },
        };
        let saved_chain = self.chain_copy();
        let saved_uses = self.uses_copy();
        let restore = caller.is_some();
        if let Some((c, u)) = caller {
            self.set_chain(c);
            self.set_uses(u);
        }
        let ghost outer = self@;
        let ghost vars = match &frame {
            Some(f) => named_vals(f@),
            None => Seq::empty(),
        };
        match frame {
            Some(f) => self.push_scope_frame(f, false),
            None => self.push_scope(false),
        }
        let running = self.pop_content();
        let r = self.exec(ans, &stmts, parents, sink, fuel);
        if let Some(b) = running {
            self.push_content(b);
        }
        proof {
            closing_a_frame_restores(outer, vars, false, self@);
        }
        self.pop_scope();
        if restore {
            self.set_chain(saved_chain);
            self.set_uses(saved_uses);
        }
        r
    }

    // ---- modules ---------------------------------------------------------

    fn exec_load_css(
        &mut self,
        ans: &Vec<Answer>,
        args: &Vec<CallArg>,
        content: bool,
        pos: Pos,
        parents: &Vec<String>,
        sink: Sink,
        fuel: usize,
    ) -> (r: Result<Sink, Stop>)
        ensures
            (out_drain(r), final(self)@) == css_loaded(
                old(self)@,
                ans@,
                args@,
                content,
                pos,
                texts(parents@),
                sink@,
                fuel as nat,
            ),
            same_place(old(self)@, final(self)@),
        decreases fuel, 40nat, 0int,
    {
        if content {
            return Err(stop_at("Mixin doesn't accept a content block.", pos));
        }
        let a = match self.eval_call_args(ans, args, fuel) {
            Ok(g) => finish_gather(g),
            Err(x) => {
                return Err(x);
            },
        };
        let (url, c) = match self.load_css_arguments(ans, a, pos) {
            Ok(t) => t,
            Err(x) => {
                return Err(x);
            },
        };
        if let Some(m) = builtin_name(url.as_str()) {
            return match self.ask_flag(ans, request_names(Task::IsModule, one_name(m.as_str()))) {
                Err(x) => Err(x),
                Ok(false) => Err(stop_at("Can't find stylesheet to import.", pos)),
                Ok(true) => {
                    if c.len() > 0 {
                        Err(
                            stop_at(
                                cat3(
                                    "Built-in module sass:",
                                    m.as_str(),
                                    " can't be configured.",
                                ).as_str(),
                                pos,
                            ),
                        )
                    } else {
                        Ok(sink)
                    }
                },
            };
        }
        let id: usize = self.config_identity(&c);
        let names = copy_settings(&c);
        match self.load_module(
            ans,
            url.as_str(),
            c,
            id,
            pos,
            parents,
            true,
            Sink::Top(empty_nodes()),
            fuel,
        ) {
            Err(x) => Err(x),
            Ok((_, used, inner)) => {
                if is_any_unused(&names, &used) {
                    return Err(
                        stop_at(
                            "This variable was not declared with !default in the @used module.",
                            pos,
                        ),
                    );
                }
                let mut sink = sink;
                splice_nodes(&mut sink, sink_nodes(inner));
                Ok(sink)
            },
        }
    }

    /// `@use`.
    pub fn exec_use(
        &mut self,
        ans: &Vec<Answer>,
        url: &str,
        namespace: &Option<String>,
        star: bool,
        config: &Vec<ConfigEntry>,
        pos: Pos,
        sink: Sink,
        fuel: usize,
    ) -> (r: Result<Sink, Stop>)
        ensures
            (out_drain(r), final(self)@) == module_used(
                old(self)@,
                ans@,
                url@,
                text_of(*namespace),
                star,
                config@,
                pos,
                sink@,
                fuel as nat,
            ),
            same_place(old(self)@, final(self)@),
        decreases fuel, 40nat, 0int,
    {
        if let Some(m) = builtin_name(url) {
            match self.ask_flag(ans, request_names(Task::IsModule, one_name(m.as_str()))) {
                Err(x) => {
                    return Err(x);
                },
                Ok(false) => {
                    return Err(stop_at("Can't find stylesheet to import.", pos));
                },
                Ok(true) => {},
            }
            if config.len() > 0 {
                return Err(stop_at("Built-in modules can't be configured.", pos));
            }
            if star {
                self.use_star_builtin(m.as_str());
                return Ok(sink);
            }
            let ns = match namespace {
                Some(n) => n.clone(),
                None => m.clone(),
            };
            if self.is_namespace_taken(ns.as_str()) {
                return Err(
                    stop_at(
                        cat3(
                            "There's already a module with namespace \"",
                            ns.as_str(),
                            "\".",
                        ).as_str(),
                        pos,
                    ),
                );
            }
            self.use_builtin(ns.as_str(), m.as_str());
            return Ok(sink);
        }
        let c = match self.eval_config(ans, config, fuel) {
            Ok(c) => c,
            Err(x) => {
                return Err(x);
            },
        };
        let id: usize = self.config_identity(&c);
        let names = copy_settings(&c);
        match self.load_module(ans, url, c, id, pos, &empty_strings(), false, sink, fuel) {
            Err(x) => Err(x),
            Ok((m, used, out)) => {
                if is_any_unused(&names, &used) {
                    return Err(
                        stop_at(
                            "This variable was not declared with !default in the @used module.",
                            pos,
                        ),
                    );
                }
                match self.bind_module(m, url, namespace, star, pos) {
                    Err(x) => Err(x),
                    Ok(()) => Ok(out),
                }
            },
        }
    }

    /// `@forward`.
    pub fn exec_forward(
        &mut self,
        ans: &Vec<Answer>,
        url: &str,
        prefix: &Option<String>,
        show: &Option<Vec<ForwardMember>>,
        hide: &Option<Vec<ForwardMember>>,
        config: &Vec<ConfigEntry>,
        pos: Pos,
        parents: &Vec<String>,
        sink: Sink,
        fuel: usize,
    ) -> (r: Result<Sink, Stop>)
        ensures
            (out_drain(r), final(self)@) == module_forwarded(
                old(self)@,
                ans@,
                url@,
                text_of(*prefix),
                *show,
                *hide,
                config@,
                pos,
                texts(parents@),
                sink@,
                fuel as nat,
            ),
            same_place(old(self)@, final(self)@),
        decreases fuel, 40nat, 0int,
    {
        if let Some(m) = builtin_name(url) {
            match self.ask_flag(ans, request_names(Task::IsModule, one_name(m.as_str()))) {
                Err(x) => {
                    return Err(x);
                },
                Ok(false) => {
                    return Err(stop_at("Can't find stylesheet to import.", pos));
                },
                Ok(true) => {},
            }
            if config.len() > 0 {
                return Err(stop_at("Built-in modules can't be configured.", pos));
            }
            self.forward_builtin(m, prefix, show, hide);
            return Ok(sink);
        }
        let own = match self.eval_config(ans, config, fuel) {
            Ok(c) => c,
            Err(x) => {
                return Err(x);
            },
        };
        let p = self.plan_forward(&own, prefix, show, hide);
        let implicit = self.config_implicit();
        let id: usize = self.forward_identity(&own);
        let combined = copy_settings(&p.combined);
        let r = self.load_module(ans, url, combined, id, pos, parents, false, sink, fuel);
        self.set_implicit(implicit);
        match r {
            Err(x) => Err(x),
            Ok((m, used, out)) => match self.finish_forward(
                &p,
                m,
                &used,
                prefix,
                show,
                hide,
                pos,
            ) {
                Err(x) => Err(x),
                Ok(()) => Ok(out),
            },
        }
    }

    pub fn load_module(
        &mut self,
        ans: &Vec<Answer>,
        url: &str,
        c: Vec<(String, (Value, bool))>,
        id: usize,
        pos: Pos,
        parents: &Vec<String>,
        force: bool,
        sink: Sink,
        fuel: usize,
    ) -> (r: Result<(usize, Vec<String>, Sink), Stop>)
        ensures
            (out_loaded(r), final(self)@) == module_loaded(
                old(self)@,
                ans@,
                url@,
                settings(c@),
                id,
                pos,
                texts(parents@),
                force,
                sink@,
                fuel as nat,
            ),
            same_place(old(self)@, final(self)@),
        decreases fuel, 30nat, 0int,
    {
        let copies = force || self.is_copying();
        let q = request_file(Task::ResolveModule, url, &self.dir_copy());
        let src = match self.ask_source(ans, q) {
            Ok(Some(x)) => x,
            Ok(None) => {
                return Err(stop_at("Can't find stylesheet to import.", pos));
            },
            Err(x) => {
                return Err(x);
            },
        };
        match self.cached_module(src.key.as_str()) {
            Some(m) => self.load_again(m, src.key.as_str(), &c, id, pos, parents, copies, sink),
            None => self.load_first(ans, url, src, c, id, pos, parents, copies, sink, fuel),
        }
    }

    fn load_first(
        &mut self,
        ans: &Vec<Answer>,
        url: &str,
        src: &Source,
        c: Vec<(String, (Value, bool))>,
        id: usize,
        pos: Pos,
        parents: &Vec<String>,
        copies: bool,
        sink: Sink,
        fuel: usize,
    ) -> (r: Result<(usize, Vec<String>, Sink), Stop>)
        requires
            get(old(self)@.page.cache, src.key@) is None,
        ensures
            (out_loaded(r), final(self)@) == module_first(
                old(self)@,
                ans@,
                url@,
                *src,
                settings(c@),
                id,
                pos,
                texts(parents@),
                copies,
                sink@,
                fuel as nat,
            ),
            same_place(old(self)@, final(self)@),
        decreases fuel, 25nat, 0int,
    {
        let key = src.key.as_str();
        if self.is_loading(key) {
            return Err(stop_at("Module loop: this module is already being loaded.", pos));
        }
        let sheet = match self.ask_sheet(ans, request_parse(src.text.as_str(), src.syntax)) {
            Ok(x) => x,
            Err(x) => {
                return Err(x);
            },
        };
        let shown = module_diag_url(url, key);
        self.note_source(shown.as_str(), src.text.as_str());
        if !copies {
            self.record_load(key);
        }
        let css = src.syntax == Syntax::Css;
        let (m, used, list) = match self.eval_module(
            ans,
            key,
            shown.as_str(),
            &sheet,
            css,
            c,
            id,
            fuel,
        ) {
            Ok(t) => t,
            Err(x) => {
                return Err(x);
            },
        };
        if copies {
            let (copy, list) = self.clone_module_css(key);
            let out = deposit_module(sink, copy, list, parents);
            return Ok((m, used, out));
        }
        self.note_emitted(m);
        let out = deposit_module(sink, key.to_owned(), list, parents);
        Ok((m, used, out))
    }

    fn eval_module(
        &mut self,
        ans: &Vec<Answer>,
        key: &str,
        url: &str,
        sheet: &Rc<Stylesheet>,
        css: bool,
        c: Vec<(String, (Value, bool))>,
        id: usize,
        fuel: usize,
    ) -> (r: Result<(usize, Vec<String>, Vec<OutNode>), Stop>)
        requires
            get(old(self)@.page.cache, key@) is None,
        ensures
            (match r {
                Ok(t) => Ok((t.0, texts(t.1@), nodes(t.2@))),
                Err(e) => Err(e@),
            }, final(self)@) == module_evaluated(
                old(self)@,
                ans@,
                key@,
                url@,
                **sheet,
                css,
                settings(c@),
                id,
                fuel as nat,
            ),
            same_place(old(self)@, final(self)@),
        decreases fuel, 20nat, 0int,
    {
        let dir = directory_of(key);
        let ghost from = self@;
        let outer = self.begin_module(key, url, copy_opt_text(&dir), c, id);
        let r = if css {
            self.exec_css(ans, &sheet.stmts, &empty_strings(), Sink::Top(empty_nodes()), fuel)
        } else {
            let names = collect_global_var_decls(&sheet.stmts);
            self.add_slots(&names);
            self.exec(ans, &sheet.stmts, &empty_strings(), Sink::Top(empty_nodes()), fuel)
        };
        let inner = self.take_inner();
        let ghost inside = self@;
        proof {
            assert(same_context(from, inside));
        }
        self.end_module(outer, Ghost(from));
        proof {
            assert(same_context(from, self@));
        }
        match r {
            Err(x) => Err(x),
            Ok(sink) => {
                let list = sink_nodes(sink);
                let used = clone_strings(&inner.consumed);
                let m: usize = self.add_module(
                    inner,
                    key,
                    url,
                    &dir,
                    id,
                    copy_nodes(&list),
                    Ghost(inside),
                );
                Ok((m, used, list))
            },
        }
    }

    // ---- imports ---------------------------------------------------------

    /// `@import`.
    #[verifier::loop_isolation(false)]
    pub fn eval_imports(
        &mut self,
        ans: &Vec<Answer>,
        args: &Vec<ImportArg>,
        parents: &Vec<String>,
        sink: Sink,
        fuel: usize,
    ) -> (r: Result<Sink, Stop>)
        ensures
            (out_drain(r), final(self)@) == run_imports(
                old(self)@,
                ans@,
                args@,
                0,
                texts(parents@),
                sink@,
                fuel as nat,
            ),
            imports_held(
                final(self)@,
                old(self)@,
                ans@,
                args@,
                0,
                texts(parents@),
                sink@,
                fuel as nat,
            ),
            same_place(old(self)@, final(self)@),
        decreases fuel, 40nat, args@.len(),
    {
        let ghost ps = texts(parents@);
        let ghost goal = run_imports(self@, ans@, args@, 0, ps, sink@, fuel as nat);
        let ghost from = (self@, sink@);
        let mut out = sink;
        let mut i: usize = 0;
        proof {
            lemma_held_at_first(from, ans@, args@, ps, fuel as nat);
        }
        while i < args.len()
            invariant
                same_place(old(self)@, self@),
                i <= args@.len(),
                run_imports(self@, ans@, args@, i as int, ps, out@, fuel as nat) == goal,
                held_so_far((self@, out@), i as int, from, ans@, args@, ps, fuel as nat),
            decreases args@.len() - i,
        {
            let ghost before = (self@, out@);
            match self.eval_import(ans, &args[i], parents, out, fuel) {
                Ok(o) => {
                    out = o;
                    proof {
                        lemma_held_further(
                            before,
                            (self@, out@),
                            i as int,
                            from,
                            ans@,
                            args@,
                            ps,
                            fuel as nat,
                        );
                    }
                },
                Err(x) => {
                    proof {
                        lemma_held_at_fault(
                            before,
                            self@,
                            x@,
                            i as int,
                            from,
                            ans@,
                            args@,
                            ps,
                            fuel as nat,
                        );
                    }
                    return Err(x);
                },
            }
            i += 1;
        }
        proof {
            lemma_held_at_last((self@, out@), i as int, from, ans@, args@, ps, fuel as nat);
        }
        Ok(out)
    }

    fn eval_import(
        &mut self,
        ans: &Vec<Answer>,
        arg: &ImportArg,
        parents: &Vec<String>,
        sink: Sink,
        fuel: usize,
    ) -> (r: Result<Sink, Stop>)
        ensures
            (out_drain(r), final(self)@) == run_import(
                old(self)@,
                ans@,
                *arg,
                texts(parents@),
                sink@,
                fuel as nat,
            ),
            match argument_found(old(self)@, ans@, *arg) {
                Some(e) => import_held(final(self)@, e),
                None => true,
            },
            same_place(old(self)@, final(self)@),
        decreases fuel, 36nat, 0int,
    {
        proof {
            reveal(argument_found);
        }
        let mut sink = sink;
        match arg {
            ImportArg::Css { url, modifiers } => match self.serialize_css_import(
                ans,
                url,
                modifiers,
                fuel,
            ) {
                Err(x) => Err(x),
                Ok(t) => {
                    if sink.is_rule() {
                        sink.push_item(
                            OutItem::ChildlessAtRule {
                                name: "import".to_owned(),
                                prelude: t,
                                lines: SrcLines { file: 0, start: 0, end: 0, col: 0 },
                            },
                        );
                    } else {
                        sink.push_at_rule(make_import(t.as_str()));
                    }
                    Ok(sink)
                },
            },
            ImportArg::Sass { path, pos, length } => {
                if is_css_import(path.as_str()) {
                    let t = cat3("\"", path.as_str(), "\"");
                    sink.push_at_rule(make_import(t.as_str()));
                    return Ok(sink);
                }
                match self.emit_deprecation(ans, *pos, *length) {
                    Ok(()) => {},
                    Err(x) => {
                        return Err(x);
                    },
                }
                let ghost warned = self@;
                match self.find_imported(ans, path.as_str()) {
                    Err(x) => Err(x),
                    Ok(e) => {
                        let ghost found = self@;
                        let r = self.import_file(ans, &e, parents, sink, fuel);
                        proof {
                            lemma_found_is_held(warned, ans@, path@);
                            lemma_held_stays(found, self@, e@);
                        }
                        r
                    },
                }
            },
        }
    }

    fn import_file(
        &mut self,
        ans: &Vec<Answer>,
        e: &CachedImport,
        parents: &Vec<String>,
        sink: Sink,
        fuel: usize,
    ) -> (r: Result<Sink, Stop>)
        ensures
            (out_drain(r), final(self)@) == file_imported(
                old(self)@,
                ans@,
                e@,
                texts(parents@),
                sink@,
                fuel as nat,
            ),
            same_place(old(self)@, final(self)@),
        decreases fuel, 35nat, 0int,
    {
        let stmts = &e.sheet.stmts;
        if e.css {
            self.push_loading(e.path.as_str());
            let r = self.exec_css(ans, stmts, parents, sink, fuel);
            self.pop_loading();
            return r;
        }
        let dir = if e.key.as_str().is_empty() {
            None
        } else {
            Some(directory_of(e.key.as_str()))
        };
        let ghost from = self@;
        let site = self.begin_import(e.path.as_str(), stmts, dir);
        if has_top_decl(stmts) {
            return Err(stop("expected \"{\"."));
        }
        let r = self.exec(ans, stmts, parents, sink, fuel);
        let exports = self.exports_copy();
        self.end_import(site, stmts, Ghost(from));
        match r {
            Err(x) => Err(x),
            Ok(out) => {
                self.take_exports(&exports);
                Ok(out)
            },
        }
    }
}

} // verus!
