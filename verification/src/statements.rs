//! What statements do: the output they deposit, and the state after them.

use std::rc::Rc;
use vstd::prelude::*;
use crate::analysis::{custom_name, global_names, top_decl, uses_content};
use crate::args::{
    Given, Keywords, beyond, given, keywords_of, leftover_fault, nothing_gathered, rest_list,
};
use crate::ast::{
    CallArg, ConfigEntry, Expr, ForwardMember, IfBranch, ImportArg, MediaQueryList, ParamList,
    PropertySet, Rule, Stmt, Stylesheet, SupportsCondition, TplPiece,
};
use crate::at_root::{
    Layer, RootQuery, has_decl, kept_layers, leaves, leaves_style_rules, parsed_root_query,
    rewrapped, spaced, wrapped_all,
};
use crate::configs::{
    Plan, Settings, any_missing, any_unused, config_of, forward_plan, load_css_arguments,
    unused_message, used_downstream,
};
use crate::decls::{
    block_lines, custom_at_rule, custom_declared, declared, full_name, import_warned, stamped,
};
use crate::diag::decimal;
use crate::edges::{cloned_css, counted, load_recorded, with_text};
use crate::env::{Block, Closure, Passed, Used, opt_members, rc_opt};
use crate::error::{Pos, fault, fault_at};
use crate::eval::{
    Conf, Ev, Rep, Run, asked_flag, captured, fail, function_defined, loads_kept, local_set,
    mixin_defined, mixin_named, plain_css, popped, scope_popped, scope_pushed, styled_css,
    with_scope,
};
use crate::exports::{
    clash_message, exported, global_vars, known_names, module_vars, namespace_taken, star_clash,
    taken_message,
};
use crate::host::{Answer, Halt, Source, Task, ask_names};
use crate::imports::{exports_taken, import_begun, import_ended};
use crate::install::{module_added, module_begun, module_emitted, module_ended, slots_added};
use crate::kept::kept;
use crate::media::{Query, all_rendered, merged_lists};
use crate::members::{MemberKind, mixin_home, module_mixin, no_namespace, star_hits};
use crate::names::{
    css_import, dashed, indices, keyframes_name, namespace_stem, private_name, shown_url,
    valid_namespace,
};
use crate::ops::map_fault;
use crate::options::Syntax;
use crate::out::{Item, Mark, Node, SrcLines, no_lines};
use crate::page::{Exports, Imported, Leaf};
use crate::paths::directory;
use crate::plain::{import_node, plain_sheet};
use crate::queries::{
    css_import_text, resolved_queries, supports_text, trimmed_template, whole_template,
};
use crate::report::{call_entered, call_left};
use crate::rules::{emitted, extended, rule_breaks, rule_entered, rule_left, rule_selectors};
use crate::sem::{
    asked_int_bits, each_items, each_set, module_entered, module_left, named_slashless,
    without_name,
};
use crate::semantics::{
    bind_scope, call_args, debug, declare, eval, for_bounds, raise, taken, warn, while_limit,
};
use crate::sink::{
    Drain, flushed, with_at_rule, with_at_rules, with_childless, with_comment, with_item,
    with_spliced, with_style_rule,
};
use crate::sources::{ask_file, ask_parse, asked_sheet, asked_source, builtin_url};
use crate::state::{Vars, entry, get, put};
use crate::text::{joined, text_of};
use crate::tree::{Split, block, body_items, reparented, shelled, split_body};
use crate::value::{ListSep, Val, all_slashless, first_map, truthy, with_unit};

verus! {

// ---- without recursion ---------------------------------------------------

/// The nodes that a sink has collected.
pub open spec fn drain_nodes(d: Drain) -> Seq<Node> {
    match d {
        Drain::Top(out) => out,
        Drain::AtRoot(body) => body,
        Drain::Rule { selectors, linebreaks, lines, items, nested } => nested,
    }
}

/// An empty sink for the block of a rule.
pub open spec fn rule_drain(selectors: Seq<Seq<char>>, linebreaks: Seq<bool>, lines: SrcLines) -> Drain {
    Drain::Rule { selectors, linebreaks, lines, items: Seq::empty(), nested: Seq::empty() }
}

/// Whether a statement of a block is a declaration.
pub open spec fn any_decl(body: Seq<Stmt>) -> bool {
    exists|k: int| 0 <= k < body.len() && (#[trigger] body[k]) is Decl
}

pub open spec fn any_rule(body: Seq<Stmt>) -> bool {
    exists|k: int| 0 <= k < body.len() && (#[trigger] body[k]) is Rule
}

/// Whether a frame of `@keyframes` holds a style rule.
pub open spec fn frame_with_rule(stmt: Stmt) -> bool {
    match stmt {
        Stmt::Rule(r) => any_rule(r.body@),
        _ => false,
    }
}

pub open spec fn any_frame_with_rule(body: Seq<Stmt>) -> bool {
    exists|k: int| 0 <= k < body.len() && frame_with_rule(#[trigger] body[k])
}

pub open spec fn with_layer(s: Ev, l: Layer) -> Ev {
    Ev { page: Leaf { layers: s.page.layers.push(l), ..s.page }, ..s }
}

pub open spec fn without_layer(s: Ev) -> Ev {
    Ev { page: Leaf { layers: popped(s.page.layers), ..s.page }, ..s }
}

/// The sink with the CSS of a module below the parents.
#[verifier::opaque]
pub open spec fn with_module(d: Drain, key: Seq<char>, css: Seq<Node>, parents: Seq<Seq<char>>) -> Drain {
    with_spliced(
        d,
        seq![
            Node::ModuleScope {
                key,
                nodes: if parents.len() == 0 {
                    css
                } else {
                    reparented(css, parents)
                },
            },
        ],
    )
}

/// The block that a `@content` runs, with what it sees of where it is written.
#[verifier::opaque]
pub open spec fn content_block(s: Ev, content: Option<Rc<Vec<Stmt>>>, params: Option<Rc<ParamList>>) -> Option<
    Block,
> {
    match content {
        Some(stmts) => Some(
            Block { stmts: stmts@, params: rc_opt(params), caller: Some((s.chain, s.uses)) },
        ),
        None => None,
    }
}

pub open spec fn content_refused() -> Seq<char> {
    "Mixin doesn't accept a content block."@
}

/// The identity of a new configuration; none where there is nothing in it.
#[verifier::opaque]
pub open spec fn config_identity(s: Ev, c: Settings) -> (usize, Ev) {
    if c.len() == 0 {
        (0, s)
    } else {
        let n = counted(s.page.config_counter);
        (n, Ev { page: Leaf { config_counter: n, ..s.page }, ..s })
    }
}

/// The import that was resolved before, from `i` on.
pub open spec fn import_place(list: Seq<Imported>, path: Seq<char>, base: Option<Seq<char>>, i: int) -> int
    decreases list.len() - i,
{
    if i < 0 || i >= list.len() {
        list.len() as int
    } else if list[i].path == path && list[i].base == base {
        i
    } else {
        import_place(list, path, base, i + 1)
    }
}

/// The file that an import names.
#[verifier::opaque]
pub open spec fn import_found(s: Ev, ans: Seq<Answer>, path: Seq<char>) -> Run<Imported> {
    let base = s.page.file_dir;
    let k = import_place(s.page.imports, path, base, 0);
    let loading = s.page.loading.contains(path);
    if k < s.page.imports.len() {
        if loading {
            fail(fault("This file is already being loaded."@), s)
        } else {
            (Ok(s.page.imports[k]), s)
        }
    } else {
        match asked_source(s, ans, ask_file(Task::ResolveImport, path, base)) {
            (Err(h), s1) => (Err(h), s1),
            (Ok(None), s1) => fail(fault("Can't find stylesheet to import: "@ + path), s1),
            (Ok(Some(src)), s1) => if loading {
                fail(fault("This file is already being loaded."@), s1)
            } else {
                match asked_sheet(s1, ans, ask_parse(src.text@, src.syntax)) {
                    (Err(h), s2) => (Err(h), s2),
                    (Ok(sheet), s2) => {
                        let e = Imported {
                            path,
                            base,
                            key: src.key@,
                            css: src.syntax == Syntax::Css,
                            sheet,
                        };
                        (
                            Ok(e),
                            Ev { page: Leaf { imports: s2.page.imports.push(e), ..s2.page }, ..s2 },
                        )
                    },
                }
            },
        }
    }
}

/// The state with the source of a file known, where diagnostics show sources.
#[verifier::opaque]
pub open spec fn source_known(s: Ev, url: Seq<char>, text: Seq<char>) -> Ev {
    if s.report.enabled {
        Ev { report: Rep { sources: put(s.report.sources, url, text), ..s.report }, ..s }
    } else {
        s
    }
}

/// The mixin that `apply` is given, and the arguments it passes on.
#[verifier::opaque]
pub open spec fn apply_target(s: Ev, ans: Seq<Answer>, p: Seq<Val>, n: Vars) -> Run<
    ((Option<usize>, Option<usize>), Seq<Val>),
> {
    let target = if p.len() > 0 {
        Some((p[0], p.skip(1)))
    } else {
        match get(n, "mixin"@) {
            Some(v) => Some((v, Seq::empty())),
            None => None,
        }
    };
    match target {
        None => fail(fault("Missing argument $mixin."@), s),
        Some((v, rest)) => match v {
            Val::Mixin { name, user, module } => (Ok(((user, module), rest)), s),
            other => match plain_css(s, ans, other) {
                (Err(h), s1) => (Err(h), s1),
                (Ok(t), s1) => fail(fault("$mixin: "@ + t + " is not a mixin reference."@), s1),
            },
        },
    }
}

/// The variables of a frame that parameters from `i` on are bound in.
#[verifier::opaque]
pub open spec fn bound_frame(
    s: Ev,
    ans: Seq<Answer>,
    params: ParamList,
    i: int,
    a: Given,
    kw: Keywords,
    name: Seq<char>,
    acc: Vars,
    fuel: nat,
) -> Run<Vars>
    decreases params.params@.len() - i,
{
    let n = params.params@.len();
    if i < 0 || i >= n {
        match params.rest {
            Some(r) => (
                Ok(put(acc, r@, rest_list(beyond(a.positional, n as int), a.sep, kw))),
                s,
            ),
            None => match leftover_fault(a.positional.len() as int, n as int, kw, name) {
                Some(m) => fail(fault(m), s),
                None => (Ok(acc), s),
            },
        }
    } else {
        let p = params.params@[i];
        let k = entry(kw, dashed(p.name@));
        if i < a.positional.len() {
            bound_frame(
                s,
                ans,
                params,
                i + 1,
                a,
                kw,
                name,
                put(acc, p.name@, a.positional[i]),
                fuel,
            )
        } else if k < kw.len() {
            bound_frame(
                s,
                ans,
                params,
                i + 1,
                a,
                kw.remove(k),
                name,
                put(acc, p.name@, (kw[k].1).1),
                fuel,
            )
        } else {
            match p.default {
                None => fail(fault("Missing argument $"@ + p.name@ + "."@), s),
                Some(d) => match eval(s, ans, d, fuel) {
                    (Err(h), s1) => (Err(h), s1),
                    (Ok(v), s1) => bound_frame(
                        s1,
                        ans,
                        params,
                        i + 1,
                        a,
                        kw,
                        name,
                        put(acc, p.name@, v),
                        fuel,
                    ),
                },
            }
        }
    }
}

/// The scope that a `@content` block runs in: that of its parameters, if it has any.
#[verifier::opaque]
pub open spec fn content_frame(s: Ev, ans: Seq<Answer>, params: Option<ParamList>, args: Seq<CallArg>, fuel: nat) -> Run<
    Option<Vars>,
> {
    match params {
        Some(p) => match call_args(s, ans, args, 0, nothing_gathered(), fuel) {
            (Err(h), s1) => (Err(h), s1),
            (Ok(g), s1) => match bound_frame(
                s1,
                ans,
                p,
                0,
                given(g),
                keywords_of(given(g).named),
                "@content"@,
                Seq::empty(),
                fuel,
            ) {
                (Err(h), s2) => (Err(h), s2),
                (Ok(f), s2) => (Ok(Some(f)), s2),
            },
        },
        None => if args.len() > 0 {
            fail(
                fault(
                    "Only 0 arguments allowed, but "@ + decimal(args.len()) + (if args.len() == 1 {
                        " was passed."@
                    } else {
                        " were passed."@
                    }),
                ),
                s,
            )
        } else {
            (Ok(None), s)
        },
    }
}

// ---- blocks and statements -----------------------------------------------

/// The sink after a block of statements.
pub open spec fn run_block(
    s: Ev,
    ans: Seq<Answer>,
    stmts: Seq<Stmt>,
    parents: Seq<Seq<char>>,
    d: Drain,
    fuel: nat,
) -> Run<Drain>
    decreases fuel, 0nat, 0int,
{
    if fuel == 0 {
        (Err(Halt::Depth), s)
    } else {
        run_stmts(s, ans, stmts, 0, parents, d, (fuel - 1) as nat)
    }
}

/// The sink after the statements from `i` on.
pub open spec fn run_stmts(
    s: Ev,
    ans: Seq<Answer>,
    stmts: Seq<Stmt>,
    i: int,
    parents: Seq<Seq<char>>,
    d: Drain,
    fuel: nat,
) -> Run<Drain>
    decreases fuel, 60nat, stmts.len() - i,
{
    if i < 0 || i >= stmts.len() {
        (Ok(d), s)
    } else {
        match run_stmt(s, ans, stmts[i], parents, d, fuel) {
            (Err(h), s1) => (Err(h), s1),
            (Ok(d1), s1) => run_stmts(s1, ans, stmts, i + 1, parents, d1, fuel),
        }
    }
}

/// The outcome of a step that deposits nothing.
pub open spec fn quietly(r: Run<()>, d: Drain) -> Run<Drain> {
    match r {
        (Err(h), s) => (Err(h), s),
        (Ok(_), s) => (Ok(d), s),
    }
}

pub open spec fn top_decl_message() -> Seq<char> {
    "top-level declarations aren't allowed"@
}

pub open spec fn nested_custom_message() -> Seq<char> {
    "Declarations whose names begin with \"--\" may not be nested."@
}

/// The sink after a statement.
pub open spec fn run_stmt(s: Ev, ans: Seq<Answer>, stmt: Stmt, parents: Seq<Seq<char>>, d: Drain, fuel: nat) -> Run<
    Drain,
>
    decreases fuel, 50nat, 0int,
{
    match stmt {
        Stmt::VarDecl(v) => quietly(declare(s, ans, v, fuel), d),
        Stmt::Comment(c, lines) => match whole_template(s, ans, c@, fuel) {
            (Err(h), s1) => (Err(h), s1),
            (Ok(t), s1) => {
                let (l, s2) = stamped(s1, lines);
                (Ok(with_comment(d, t, l)), s2)
            },
        },
        Stmt::Decl(x) => if d is Top {
            fail(fault_at(top_decl_message(), x.pos), s)
        } else {
            match declared(s, ans, x, fuel) {
                (Err(h), s1) => (Err(h), s1),
                (Ok(None), s1) => (Ok(d), s1),
                (Ok(Some(i)), s1) => (Ok(with_item(d, i)), s1),
            }
        },
        Stmt::PropertySet(x) => if d is Top {
            fail(fault_at(top_decl_message(), x.pos), s)
        } else {
            property_set(s, ans, x, parents, d, fuel)
        },
        Stmt::CustomDecl(x) => if d is Top {
            fail(fault_at(top_decl_message(), x.pos), s)
        } else if s.page.prefix is Some {
            fail(fault_at(nested_custom_message(), x.pos), s)
        } else {
            match custom_declared(s, ans, x, fuel) {
                (Err(h), s1) => (Err(h), s1),
                (Ok(i), s1) => (Ok(with_item(d, i)), s1),
            }
        },
        Stmt::Rule(r) => style_rule(s, ans, r, parents, d, fuel),
        Stmt::If(branches) => run_branches(s, ans, branches@, 0, parents, d, fuel),
        Stmt::For { var, from, to, inclusive, body } => for_stmt(
            s,
            ans,
            var@,
            from,
            to,
            inclusive,
            body@,
            parents,
            d,
            fuel,
        ),
        Stmt::Each { vars, list, body } => each_stmt(s, ans, vars@, list, body@, parents, d, fuel),
        Stmt::While { cond, body } => while_stmt(s, ans, cond, body@, parents, d, fuel),
        Stmt::FunctionDef(c) => {
            let (id, s1) = captured(s, *c);
            (Ok(d), function_defined(s1, c.name@, id))
        },
        Stmt::MixinDef(c) => {
            let (id, s1) = captured(s, *c);
            (Ok(d), mixin_defined(s1, c.name@, id))
        },
        Stmt::Return(_) => fail(fault("@return is only allowed inside a function."@), s),
        Stmt::Include { name, args, content, content_params, module, pos, length } => {
            let r = mixin_included(
                call_entered(s, pos, length, name@ + "()"@),
                ans,
                name@,
                args@,
                content,
                content_params,
                text_of(module),
                pos,
                parents,
                d,
                fuel,
            );
            (r.0, call_left(r.1, s.report.member))
        },
        Stmt::Use { url, namespace, star, config, pos } => module_used(
            s,
            ans,
            url@,
            text_of(namespace),
            star,
            config@,
            pos,
            d,
            fuel,
        ),
        Stmt::Forward { url, prefix, show, hide, config, pos } => module_forwarded(
            s,
            ans,
            url@,
            text_of(prefix),
            show,
            hide,
            config@,
            pos,
            parents,
            d,
            fuel,
        ),
        Stmt::Content(args) => {
            let r = content_run(
                Ev { in_mixin: s.in_mixin.push(false), ..s },
                ans,
                args@,
                parents,
                d,
                fuel,
            );
            (r.0, Ev { in_mixin: popped(r.1.in_mixin), ..r.1 })
        },
        Stmt::Import(args) => run_imports(s, ans, args@, 0, parents, d, fuel),
        Stmt::AtRule { name, prelude, body, lines } => {
            let (l, s1) = stamped(s, lines);
            at_rule(s1, ans, name@, prelude@, body, l, parents, d, fuel)
        },
        Stmt::InterpAtRule { name, prelude, body } => match whole_template(s, ans, name@, fuel) {
            (Err(h), s1) => (Err(h), s1),
            (Ok(n), s1) => match body {
                Some(b) => if keyframes_name(n) {
                    keyframes(s1, ans, n, prelude@, b@, no_lines(), d, fuel)
                } else {
                    at_rule(s1, ans, n, prelude@, body, no_lines(), parents, d, fuel)
                },
                None => at_rule(s1, ans, n, prelude@, body, no_lines(), parents, d, fuel),
            },
        },
        Stmt::CssCustomAtRule { name, prelude, body } => match custom_at_rule(
            s,
            ans,
            name@,
            prelude@,
            body@,
            fuel,
        ) {
            (Err(h), s1) => (Err(h), s1),
            (Ok(n), s1) => (Ok(with_at_rule(d, n)), s1),
        },
        Stmt::Media { query, body, lines } => {
            let (l, s1) = stamped(s, lines);
            media_rule(s1, ans, query, body@, l, parents, d, fuel)
        },
        Stmt::Supports { condition, body } => supports_rule(s, ans, condition, body@, parents, d, fuel),
        Stmt::AtRoot { query, body } => at_root_rule(s, ans, query, body@, parents, d, fuel),
        Stmt::Keyframes { name, prelude, body, lines } => {
            let (l, s1) = stamped(s, lines);
            keyframes(s1, ans, name@, prelude@, body@, l, d, fuel)
        },
        Stmt::Extend { selector, optional, pos } => quietly(
            extended(s, ans, selector@, optional, pos, parents, fuel),
            d,
        ),
        Stmt::Warn { value, pos } => quietly(warn(s, ans, value, pos, fuel), d),
        Stmt::Debug { value, pos } => quietly(debug(s, ans, value, pos, fuel), d),
        Stmt::Error { value, pos, length } => quietly(raise(s, ans, value, pos, length, fuel), d),
    }
}

// ---- control flow --------------------------------------------------------

/// The sink after the first branch of an `@if`, from `i` on, whose condition holds.
pub open spec fn run_branches(
    s: Ev,
    ans: Seq<Answer>,
    branches: Seq<IfBranch>,
    i: int,
    parents: Seq<Seq<char>>,
    d: Drain,
    fuel: nat,
) -> Run<Drain>
    decreases fuel, 40nat, branches.len() - i,
{
    if i < 0 || i >= branches.len() {
        (Ok(d), s)
    } else {
        match taken(s, ans, branches[i].cond, fuel) {
            (Err(h), s1) => (Err(h), s1),
            (Ok(true), s1) => {
                let r = run_block(scope_pushed(s1, true), ans, branches[i].body@, parents, d, fuel);
                (r.0, scope_popped(r.1))
            },
            (Ok(false), s1) => run_branches(s1, ans, branches, i + 1, parents, d, fuel),
        }
    }
}

/// The sink after a `@for`.
pub open spec fn for_stmt(
    s: Ev,
    ans: Seq<Answer>,
    var: Seq<char>,
    from: Expr,
    to: Expr,
    inclusive: bool,
    body: Seq<Stmt>,
    parents: Seq<Seq<char>>,
    d: Drain,
    fuel: nat,
) -> Run<Drain>
    decreases fuel, 41nat, 0int,
{
    match for_bounds(s, ans, from, to, fuel) {
        (Err(h), s1) => (Err(h), s1),
        (Ok((a, b, unit)), s1) => {
            let r = run_for(
                scope_pushed(s1, true),
                ans,
                var,
                unit,
                indices(a as int, b as int, inclusive),
                0,
                body,
                parents,
                d,
                fuel,
            );
            (r.0, scope_popped(r.1))
        },
    }
}

/// The sink after an `@each`.
pub open spec fn each_stmt(
    s: Ev,
    ans: Seq<Answer>,
    vars: Seq<String>,
    list: Expr,
    body: Seq<Stmt>,
    parents: Seq<Seq<char>>,
    d: Drain,
    fuel: nat,
) -> Run<Drain>
    decreases fuel, 41nat, 0int,
{
    match eval(s, ans, list, fuel) {
        (Err(h), s1) => (Err(h), s1),
        (Ok(v), s1) => {
            let r = run_each(
                scope_pushed(s1, true),
                ans,
                vars,
                each_items(v),
                0,
                body,
                parents,
                d,
                fuel,
            );
            (r.0, scope_popped(r.1))
        },
    }
}

/// The sink after a `@while`.
pub open spec fn while_stmt(
    s: Ev,
    ans: Seq<Answer>,
    cond: Expr,
    body: Seq<Stmt>,
    parents: Seq<Seq<char>>,
    d: Drain,
    fuel: nat,
) -> Run<Drain>
    decreases fuel, 41nat, 0int,
{
    let r = run_while(scope_pushed(s, true), ans, cond, body, 0, parents, d, fuel);
    (r.0, scope_popped(r.1))
}

/// The sink after a `@for`, from index `k` on.
pub open spec fn run_for(
    s: Ev,
    ans: Seq<Answer>,
    var: Seq<char>,
    unit: Seq<char>,
    ks: Seq<int>,
    k: int,
    body: Seq<Stmt>,
    parents: Seq<Seq<char>>,
    d: Drain,
    fuel: nat,
) -> Run<Drain>
    decreases fuel, 40nat, ks.len() - k,
{
    if k < 0 || k >= ks.len() {
        (Ok(d), s)
    } else {
        match asked_int_bits(s, ans, ks[k]) {
            (Err(h), s1) => (Err(h), s1),
            (Ok(b), s1) => match run_block(
                local_set(s1, var, Val::Number(with_unit(b, unit))),
                ans,
                body,
                parents,
                d,
                fuel,
            ) {
                (Err(h), s2) => (Err(h), s2),
                (Ok(d1), s2) => run_for(s2, ans, var, unit, ks, k + 1, body, parents, d1, fuel),
            },
        }
    }
}

/// The sink after an `@each`, from item `k` on.
pub open spec fn run_each(
    s: Ev,
    ans: Seq<Answer>,
    vars: Seq<String>,
    items: Seq<Val>,
    k: int,
    body: Seq<Stmt>,
    parents: Seq<Seq<char>>,
    d: Drain,
    fuel: nat,
) -> Run<Drain>
    decreases fuel, 40nat, items.len() - k,
{
    if k < 0 || k >= items.len() {
        (Ok(d), s)
    } else {
        match run_block(each_set(s, vars, items[k]), ans, body, parents, d, fuel) {
            (Err(h), s1) => (Err(h), s1),
            (Ok(d1), s1) => run_each(s1, ans, vars, items, k + 1, body, parents, d1, fuel),
        }
    }
}

/// The sink after a `@while`, `k` rounds of which have been run.
pub open spec fn run_while(
    s: Ev,
    ans: Seq<Answer>,
    cond: Expr,
    body: Seq<Stmt>,
    k: int,
    parents: Seq<Seq<char>>,
    d: Drain,
    fuel: nat,
) -> Run<Drain>
    decreases fuel, 40nat, while_limit() - k,
{
    match eval(s, ans, cond, fuel) {
        (Err(h), s1) => (Err(h), s1),
        (Ok(v), s1) => if !truthy(v) {
            (Ok(d), s1)
        } else {
            match run_block(s1, ans, body, parents, d, fuel) {
                (Err(h), s2) => (Err(h), s2),
                (Ok(d1), s2) => if k + 1 >= while_limit() {
                    fail(fault("@while exceeded 100000 iterations"@), s2)
                } else {
                    run_while(s2, ans, cond, body, k + 1, parents, d1, fuel)
                },
            }
        },
    }
}

// ---- rules ---------------------------------------------------------------

/// The sink after nested properties.
pub open spec fn property_set(
    s: Ev,
    ans: Seq<Answer>,
    x: PropertySet,
    parents: Seq<Seq<char>>,
    d: Drain,
    fuel: nat,
) -> Run<Drain>
    decreases fuel, 40nat, 0int,
{
    if s.page.prefix is Some && custom_name(x.property@) {
        fail(fault_at(nested_custom_message(), x.pos), s)
    } else {
        match trimmed_template(s, ans, x.property@, fuel) {
            (Err(h), s1) => (Err(h), s1),
            (Ok(name), s1) => {
                let full = full_name(s1, name);
                match set_value(s1, ans, x, full, d, fuel) {
                    (Err(h), s2) => (Err(h), s2),
                    (Ok(d1), s2) => {
                        let r = run_block(
                            Ev { page: Leaf { prefix: Some(full), ..s2.page }, ..s2 },
                            ans,
                            x.body@,
                            parents,
                            d1,
                            fuel,
                        );
                        (r.0, Ev { page: Leaf { prefix: s2.page.prefix, ..r.1.page }, ..r.1 })
                    },
                }
            },
        }
    }
}

/// The sink with the value that stands before nested properties.
#[verifier::opaque]
pub open spec fn set_value(s: Ev, ans: Seq<Answer>, x: PropertySet, full: Seq<char>, d: Drain, fuel: nat) -> Run<
    Drain,
> {
    match x.value {
        None => (Ok(d), s),
        Some(e) => match eval(s, ans, e, fuel) {
            (Err(h), s1) => (Err(h), s1),
            (Ok(v), s1) => if v == Val::Null {
                (Ok(d), s1)
            } else {
                match first_map(v) {
                    Some(m) => map_fault(s1, ans, m, x.pos),
                    None => match styled_css(s1, ans, v) {
                        (Err(h), s2) => (Err(h), s2),
                        (Ok(t), s2) => (
                            Ok(
                                with_item(
                                    d,
                                    Item::Decl {
                                        prop: full,
                                        value: t,
                                        important: x.important,
                                        custom: false,
                                        lines: no_lines(),
                                    },
                                ),
                            ),
                            s2,
                        ),
                    },
                }
            },
        },
    }
}

/// The sink after a style rule.
pub open spec fn style_rule(
    s: Ev,
    ans: Seq<Answer>,
    r: Rule,
    parents: Seq<Seq<char>>,
    d: Drain,
    fuel: nat,
) -> Run<Drain>
    decreases fuel, 40nat, 0int,
{
    match whole_template(s, ans, r.selector@, fuel) {
        (Err(h), s1) => (Err(h), s1),
        (Ok(text), s1) => match rule_selectors(s1, ans, text, parents) {
            (Err(h), s2) => (Err(h), s2),
            (Ok(current), s2) => {
                let lbs = rule_breaks(s2, text, parents, current.len());
                let e = emitted(s2, current, lbs, 0, Seq::empty(), Seq::empty());
                let (lines, s3) = stamped(
                    rule_entered(e.s, current, lbs),
                    block_lines(r.lines.start, r.lines.end),
                );
                let x = run_block(
                    s3,
                    ans,
                    r.body@,
                    current,
                    rule_drain(e.selectors, e.breaks, lines),
                    fuel,
                );
                let s4 = rule_left(x.1, e.s);
                match x.0 {
                    Err(h) => (Err(h), s4),
                    Ok(inner) => (Ok(with_style_rule(d, drain_nodes(flushed(inner)))), s4),
                }
            },
        },
    }
}

/// What the body of an at-rule comes to. Below a style rule its declarations belong to that rule's
/// selectors.
pub open spec fn at_body(s: Ev, ans: Seq<Answer>, stmts: Seq<Stmt>, parents: Seq<Seq<char>>, fuel: nat) -> Run<
    Seq<Node>,
>
    decreases fuel, 10nat, 0int,
{
    let from = scope_pushed(s, false);
    let r = run_block(
        from,
        ans,
        stmts,
        parents,
        if parents.len() == 0 {
            Drain::AtRoot(Seq::empty())
        } else {
            rule_drain(parents, Seq::empty(), no_lines())
        },
        fuel,
    );
    let s1 = scope_popped(r.1);
    match r.0 {
        Err(h) => (Err(h), s1),
        Ok(inner) => (Ok(drain_nodes(flushed(inner))), s1),
    }
}

/// The sink after an at-rule without a meaning of its own.
pub open spec fn at_rule(
    s: Ev,
    ans: Seq<Answer>,
    name: Seq<char>,
    prelude: Seq<TplPiece>,
    body: Option<Vec<Stmt>>,
    lines: SrcLines,
    parents: Seq<Seq<char>>,
    d: Drain,
    fuel: nat,
) -> Run<Drain>
    decreases fuel, 40nat, 0int,
{
    match whole_template(s, ans, prelude, fuel) {
        (Err(h), s1) => (Err(h), s1),
        (Ok(p), s1) => match body {
            None => if name == "charset"@ && !(d is Rule) {
                (Ok(d), s1)
            } else {
                (Ok(with_childless(d, name, p, lines)), s1)
            },
            Some(b) => match at_body(
                s1,
                ans,
                b@,
                if name == "font-face"@ || s1.page.at_root {
                    Seq::empty()
                } else {
                    parents
                },
                fuel,
            ) {
                (Err(h), s2) => (Err(h), s2),
                (Ok(inner), s2) => (Ok(with_at_rule(d, block(name, p, inner, lines))), s2),
            },
        },
    }
}

/// The sink after a `@media` rule.
pub open spec fn media_rule(
    s: Ev,
    ans: Seq<Answer>,
    query: MediaQueryList,
    body: Seq<Stmt>,
    lines: SrcLines,
    parents: Seq<Seq<char>>,
    d: Drain,
    fuel: nat,
) -> Run<Drain>
    decreases fuel, 40nat, 0int,
{
    if parents.len() == 0 && any_decl(body) {
        fail(fault("expected \"{\"."@), s)
    } else {
        match resolved_queries(s, ans, query, fuel) {
            (Err(h), s1) => (Err(h), s1),
            (Ok(qs), s1) => if s1.page.keyframes && d is Rule {
                match at_body(s1, ans, body, Seq::empty(), fuel) {
                    (Err(h), s2) => (Err(h), s2),
                    (Ok(list), s2) => (
                        Ok(
                            with_item(
                                d,
                                Item::NestedAtRule {
                                    name: "media"@,
                                    prelude: joined(all_rendered(qs), ", "@),
                                    items: body_items(list),
                                },
                            ),
                        ),
                        s2,
                    ),
                }
            } else {
                let merged = if s1.page.media.len() == 0 {
                    None
                } else {
                    merged_lists(s1.page.media, qs)
                };
                match merged {
                    Some(m) => if m.len() == 0 {
                        (Ok(d), s1)
                    } else {
                        media_block(s1, ans, m, true, body, lines, parents, d, fuel)
                    },
                    None => media_block(s1, ans, qs, false, body, lines, parents, d, fuel),
                }
            },
        }
    }
}

/// The state inside a `@media` rule.
#[verifier::opaque]
pub open spec fn media_entered(s: Ev, qs: Seq<Query>, prelude: Seq<char>) -> Ev {
    with_layer(
        Ev { page: Leaf { media: qs, media_hoist: Seq::empty(), ..s.page }, ..s },
        Layer::Media(prelude),
    )
}

/// The state after what was done inside a `@media` rule that was entered from `from`.
#[verifier::opaque]
pub open spec fn media_left(s: Ev, from: Ev) -> Ev {
    let s1 = without_layer(s);
    Ev {
        page: Leaf { media: from.page.media, media_hoist: from.page.media_hoist, ..s1.page },
        ..s1
    }
}

/// The sink after a `@media` rule with these queries; one merged with those round it bubbles out of
/// them.
pub open spec fn media_block(
    s: Ev,
    ans: Seq<Answer>,
    qs: Seq<Query>,
    bubbles: bool,
    body: Seq<Stmt>,
    lines: SrcLines,
    parents: Seq<Seq<char>>,
    d: Drain,
    fuel: nat,
) -> Run<Drain>
    decreases fuel, 20nat, 0int,
{
    let prelude = joined(all_rendered(qs), ", "@);
    let outermost = s.page.layers.len() == 0;
    let r = at_body(media_entered(s, qs, prelude), ans, body, parents, fuel);
    let hoisted = r.1.page.media_hoist;
    let s1 = media_left(r.1, s);
    match r.0 {
        Err(h) => (Err(h), s1),
        Ok(list) => {
            let (out, s2) = media_closed(s1, list, prelude, lines, outermost, hoisted, bubbles, d);
            (Ok(out), s2)
        },
    }
}

/// The sink with the body of a `@media` rule, split around what left it.
#[verifier::opaque]
pub open spec fn media_closed(
    s: Ev,
    list: Seq<Node>,
    prelude: Seq<char>,
    lines: SrcLines,
    outermost: bool,
    hoisted: Seq<Seq<Node>>,
    bubbles: bool,
    d: Drain,
) -> (Drain, Ev) {
    let split = split_body(
        list,
        "media"@,
        prelude,
        lines,
        true,
        outermost,
        hoisted,
        s.page.at_root_hoist,
    );
    let s1 = batches_taken(s, split.at_root);
    if split.nodes.len() == 0 {
        (d, s1)
    } else if bubbles {
        (
            with_at_rule(d, Node::Mark(Mark::MediaHoist)),
            Ev {
                page: Leaf { media_hoist: s1.page.media_hoist.push(split.nodes), ..s1.page },
                ..s1
            },
        )
    } else {
        (with_at_rules(d, split.nodes), s1)
    }
}

/// The state with so many batches of `@at-root` placed.
#[verifier::opaque]
pub open spec fn batches_taken(s: Ev, n: int) -> Ev {
    Ev { page: Leaf { at_root_hoist: s.page.at_root_hoist.skip(n), ..s.page }, ..s }
}

/// The sink after a `@supports` rule.
pub open spec fn supports_rule(
    s: Ev,
    ans: Seq<Answer>,
    condition: SupportsCondition,
    body: Seq<Stmt>,
    parents: Seq<Seq<char>>,
    d: Drain,
    fuel: nat,
) -> Run<Drain>
    decreases fuel, 40nat, 0int,
{
    match supports_text(s, ans, condition, fuel) {
        (Err(h), s1) => (Err(h), s1),
        (Ok(prelude), s1) => {
            let outermost = s1.page.layers.len() == 0;
            let r = at_body(with_layer(s1, Layer::Supports(prelude)), ans, body, parents, fuel);
            let s2 = without_layer(r.1);
            match r.0 {
                Err(h) => (Err(h), s2),
                Ok(list) => {
                    let split = split_body(
                        list,
                        "supports"@,
                        prelude,
                        no_lines(),
                        false,
                        outermost,
                        Seq::empty(),
                        s2.page.at_root_hoist,
                    );
                    (Ok(with_at_rules(d, split.nodes)), batches_taken(s2, split.at_root))
                },
            }
        },
    }
}

/// The state inside `@keyframes`.
#[verifier::opaque]
pub open spec fn frames_entered(s: Ev, name: Seq<char>, prelude: Seq<char>) -> Ev {
    with_layer(
        Ev { page: Leaf { keyframes: true, ..s.page }, ..s },
        Layer::Keyframes(name, prelude),
    )
}

#[verifier::opaque]
pub open spec fn frames_left(s: Ev, keyframes: bool) -> Ev {
    let s1 = without_layer(s);
    Ev { page: Leaf { keyframes, ..s1.page }, ..s1 }
}

/// The sink after `@keyframes`.
pub open spec fn keyframes(
    s: Ev,
    ans: Seq<Answer>,
    name: Seq<char>,
    prelude: Seq<TplPiece>,
    body: Seq<Stmt>,
    lines: SrcLines,
    d: Drain,
    fuel: nat,
) -> Run<Drain>
    decreases fuel, 40nat, 0int,
{
    if any_frame_with_rule(body) {
        fail(fault("Style rules may not be used within keyframe blocks."@), s)
    } else {
        match whole_template(s, ans, prelude, fuel) {
            (Err(h), s1) => (Err(h), s1),
            (Ok(p), s1) => {
                let outermost = s1.page.layers.len() == 0;
                let r = at_body(frames_entered(s1, name, p), ans, body, Seq::empty(), fuel);
                let s2 = frames_left(r.1, s1.page.keyframes);
                match r.0 {
                    Err(h) => (Err(h), s2),
                    Ok(list) => {
                        let (shell, rest) = shelled(
                            list,
                            0,
                            outermost,
                            s2.page.at_root_hoist,
                            Seq::empty(),
                            Split { nodes: Seq::empty(), media: 0, at_root: 0 },
                        );
                        (
                            Ok(
                                with_at_rules(
                                    with_at_rule(d, block(name, p, shell, lines)),
                                    rest.nodes,
                                ),
                            ),
                            batches_taken(s2, rest.at_root),
                        )
                    },
                }
            },
        }
    }
}

/// The text of the query of an `@at-root`, if it has one.
#[verifier::opaque]
pub open spec fn root_query_text(s: Ev, ans: Seq<Answer>, query: Option<Vec<TplPiece>>, fuel: nat) -> Run<
    Option<Seq<char>>,
> {
    match query {
        None => (Ok(None), s),
        Some(q) => match whole_template(s, ans, q@, fuel) {
            (Err(h), s1) => (Err(h), s1),
            (Ok(t), s1) => (Ok(Some(t)), s1),
        },
    }
}

/// The state inside an `@at-root`.
#[verifier::opaque]
pub open spec fn at_root_entered(s: Ev, q: RootQuery) -> Ev {
    let s1 = scope_pushed(s, false);
    Ev {
        page: Leaf {
            at_root: leaves_style_rules(q),
            media: if leaves(q, "media"@) {
                Seq::empty()
            } else {
                s1.page.media
            },
            keyframes: if leaves(q, "keyframes"@) {
                false
            } else {
                s1.page.keyframes
            },
            ..s1.page
        },
        ..s1
    }
}

/// The state after what was done inside an `@at-root` that was entered from `from`.
#[verifier::opaque]
pub open spec fn at_root_left(s: Ev, q: RootQuery, from: Ev) -> Ev {
    scope_popped(
        Ev {
            page: Leaf {
                at_root: from.page.at_root,
                media: if leaves(q, "media"@) {
                    from.page.media
                } else {
                    s.page.media
                },
                keyframes: if leaves(q, "keyframes"@) {
                    from.page.keyframes
                } else {
                    s.page.keyframes
                },
                ..s.page
            },
            ..s
        },
    )
}

/// The sink after an `@at-root`.
pub open spec fn at_root_rule(
    s: Ev,
    ans: Seq<Answer>,
    query: Option<Vec<TplPiece>>,
    body: Seq<Stmt>,
    parents: Seq<Seq<char>>,
    d: Drain,
    fuel: nat,
) -> Run<Drain>
    decreases fuel, 40nat, 0int,
{
    match root_query_text(s, ans, query, fuel) {
        (Err(h), s1) => (Err(h), s1),
        (Ok(t), s1) => {
            let q = parsed_root_query(t);
            let kept = kept_layers(q, s1.page.layers);
            let escapes = kept.len() != s1.page.layers.len();
            let bare = leaves_style_rules(q);
            if !escapes && !bare {
                run_block(s1, ans, body, parents, d, fuel)
            } else {
                let r = run_block(
                    at_root_entered(s1, q),
                    ans,
                    body,
                    parents,
                    Drain::AtRoot(Seq::empty()),
                    fuel,
                );
                let s2 = at_root_left(r.1, q, s1);
                match r.0 {
                    Err(h) => (Err(h), s2),
                    Ok(inner) => at_root_closed(
                        s2,
                        drain_nodes(inner),
                        kept,
                        escapes,
                        bare,
                        parents,
                        d,
                    ),
                }
            }
        },
    }
}

/// The sink with what stands in an `@at-root`.
#[verifier::opaque]
pub open spec fn at_root_closed(
    s: Ev,
    list: Seq<Node>,
    kept: Seq<Layer>,
    escapes: bool,
    bare: bool,
    parents: Seq<Seq<char>>,
    d: Drain,
) -> Run<Drain> {
    if (bare || parents.len() == 0) && has_decl(list) {
        fail(fault("Declarations may only be used within style rules."@), s)
    } else {
        let out = spaced(
            if !bare && parents.len() > 0 {
                rewrapped(list, 0, parents, Seq::empty(), Seq::empty())
            } else {
                list
            },
        );
        if out.len() == 0 {
            (Ok(d), s)
        } else if escapes {
            (
                Ok(with_at_rule(d, Node::Mark(Mark::AtRootHoist))),
                Ev {
                    page: Leaf {
                        at_root_hoist: s.page.at_root_hoist.push(wrapped_all(kept, out)),
                        ..s.page
                    },
                    ..s
                },
            )
        } else {
            (Ok(with_at_rules(d, out)), s)
        }
    }
}

// ---- mixins --------------------------------------------------------------

/// The sink after a mixin that is run with these arguments in the scopes of its definition, with a
/// block for its `@content`. The scopes of the caller are in place again after it.
pub open spec fn mixin_run(
    s: Ev,
    ans: Seq<Answer>,
    c: Closure,
    a: Given,
    content: Option<Block>,
    note: bool,
    parents: Seq<Seq<char>>,
    d: Drain,
    fuel: nat,
) -> Run<Drain>
    decreases fuel, 15nat, 0int,
{
    let inside = scope_pushed(Ev { chain: c.chain, ..s }, false);
    match bind_scope(inside, ans, c.def.params, 0, a, keywords_of(a.named), c.def.name@, fuel) {
        (Err(h), s1) => (Err(h), Ev { chain: s.chain, ..s1 }),
        (Ok(_), s1) => {
            let r = run_block(
                Ev {
                    contents: s1.contents.push(content),
                    in_mixin: if note {
                        s1.in_mixin.push(true)
                    } else {
                        s1.in_mixin
                    },
                    ..s1
                },
                ans,
                c.def.body@,
                parents,
                d,
                fuel,
            );
            (
                r.0,
                Ev {
                    contents: popped(r.1.contents),
                    in_mixin: if note {
                        popped(r.1.in_mixin)
                    } else {
                        r.1.in_mixin
                    },
                    chain: s.chain,
                    ..r.1
                },
            )
        },
    }
}

/// The sink after a mixin by its number; `home` is the module it runs in, if not this one.
pub open spec fn mixin_called(
    s: Ev,
    ans: Seq<Answer>,
    id: usize,
    home: Option<usize>,
    args: Seq<CallArg>,
    content: Option<Rc<Vec<Stmt>>>,
    params: Option<Rc<ParamList>>,
    parents: Seq<Seq<char>>,
    d: Drain,
    fuel: nat,
) -> Run<Drain>
    decreases fuel, 20nat, 0int,
{
    if id >= s.callables.len() {
        (Err(Halt::Mismatch), s)
    } else {
        let c = s.callables[id as int];
        if content is Some && !uses_content(c.def.body@, 0) {
            fail(fault(content_refused()), s)
        } else {
            match call_args(s, ans, args, 0, nothing_gathered(), fuel) {
                (Err(h), s1) => (Err(h), s1),
                (Ok(g), s1) => {
                    let b = content_block(s1, content, params);
                    match home {
                        None => mixin_run(s1, ans, c, given(g), b, true, parents, d, fuel),
                        Some(m) => {
                            let r = mixin_run(
                                module_entered(s1, m),
                                ans,
                                c,
                                given(g),
                                b,
                                false,
                                parents,
                                d,
                                fuel,
                            );
                            (r.0, module_left(r.1, m, s1))
                        },
                    }
                },
            }
        }
    }
}

/// The state that uses what a module uses.
pub open spec fn uses_of(s: Ev, m: Option<usize>) -> Ev {
    match m {
        Some(k) => if k < s.modules.len() {
            Ev { uses: s.modules[k as int].uses, ..s }
        } else {
            s
        },
        None => s,
    }
}

/// The sink after `apply`.
pub open spec fn mixin_applied(
    s: Ev,
    ans: Seq<Answer>,
    args: Seq<CallArg>,
    content: Option<Rc<Vec<Stmt>>>,
    params: Option<Rc<ParamList>>,
    parents: Seq<Seq<char>>,
    d: Drain,
    fuel: nat,
) -> Run<Drain>
    decreases fuel, 20nat, 0int,
{
    match call_args(s, ans, args, 0, nothing_gathered(), fuel) {
        (Err(h), s1) => (Err(h), s1),
        (Ok(g), s1) => {
            let p = all_slashless(given(g).positional);
            let n = named_slashless(given(g).named);
            match apply_target(s1, ans, p, n) {
                (Err(h), s2) => (Err(h), s2),
                (Ok(((user, module), rest)), s2) => if user is None || user->0 >= s2.callables.len() {
                    fail(
                        fault(
                            if content is Some && user is None {
                                content_refused()
                            } else {
                                "Undefined mixin."@
                            },
                        ),
                        s2,
                    )
                } else {
                    let c = s2.callables[user->0 as int];
                    if content is Some && !uses_content(c.def.body@, 0) {
                        fail(fault(content_refused()), s2)
                    } else {
                        let r = mixin_run(
                            uses_of(s2, module),
                            ans,
                            c,
                            Given {
                                positional: rest,
                                named: without_name(n, "mixin"@),
                                sep: ListSep::Comma,
                            },
                            content_block(s2, content, params),
                            true,
                            parents,
                            d,
                            fuel,
                        );
                        (
                            r.0,
                            if module is Some && module->0 < s2.modules.len() {
                                Ev { uses: s2.uses, ..r.1 }
                            } else {
                                r.1
                            },
                        )
                    }
                },
            }
        },
    }
}

/// The sink after `@include`.
pub open spec fn mixin_included(
    s: Ev,
    ans: Seq<Answer>,
    name: Seq<char>,
    args: Seq<CallArg>,
    content: Option<Rc<Vec<Stmt>>>,
    params: Option<Rc<ParamList>>,
    module: Option<Seq<char>>,
    pos: Pos,
    parents: Seq<Seq<char>>,
    d: Drain,
    fuel: nat,
) -> Run<Drain>
    decreases fuel, 45nat, 0int,
{
    match module {
        Some(ns) => if get(s.uses.builtin, ns) == Some("meta"@) && name == "apply"@ {
            mixin_applied(s, ans, args, content, params, parents, d, fuel)
        } else if get(s.uses.builtin, ns) == Some("meta"@) && name == "load-css"@ {
            css_loaded(s, ans, args, content is Some, pos, parents, d, fuel)
        } else {
            match get(s.uses.user, ns) {
                Some(m) => if private_name(name) {
                    fail(
                        fault("Private members can't be accessed from outside their modules."@),
                        s,
                    )
                } else {
                    match module_mixin(s, m, name) {
                        None => fail(fault("Undefined mixin."@), s),
                        Some(id) => mixin_called(
                            s,
                            ans,
                            id,
                            Some(mixin_home(s, m, name)),
                            args,
                            content,
                            params,
                            parents,
                            d,
                            fuel,
                        ),
                    }
                },
                None => if get(s.uses.builtin, ns) is None {
                    fail(fault(no_namespace(ns)), s)
                } else {
                    fail(fault("Undefined mixin."@), s)
                },
            }
        },
        None => match mixin_named(s, name) {
            Some(id) => mixin_called(s, ans, id, None, args, content, params, parents, d, fuel),
            None => {
                let hits = star_hits(s, name, MemberKind::Mixin);
                if hits.len() > 1 {
                    fail(fault("This mixin is available from multiple global modules."@), s)
                } else if hits.len() == 1 {
                    match module_mixin(s, hits[0], name) {
                        None => (Err(Halt::Mismatch), s),
                        Some(id) => mixin_called(
                            s,
                            ans,
                            id,
                            Some(hits[0]),
                            args,
                            content,
                            params,
                            parents,
                            d,
                            fuel,
                        ),
                    }
                } else {
                    fail(fault("Undefined mixin "@ + name + "."@), s)
                }
            },
        },
    }
}

/// The sink after `@content`.
pub open spec fn content_run(
    s: Ev,
    ans: Seq<Answer>,
    args: Seq<CallArg>,
    parents: Seq<Seq<char>>,
    d: Drain,
    fuel: nat,
) -> Run<Drain>
    decreases fuel, 40nat, 0int,
{
    if s.contents.len() == 0 || s.contents.last() is None {
        (Ok(d), s)
    } else {
        let b = s.contents.last()->0;
        match content_frame(s, ans, b.params, args, fuel) {
            (Err(h), s1) => (Err(h), s1),
            (Ok(frame), s1) => {
                let s2 = match b.caller {
                    Some((chain, uses)) => Ev { chain, uses, ..s1 },
                    None => s1,
                };
                let s3 = match frame {
                    Some(f) => with_scope(s2, f, false),
                    None => scope_pushed(s2, false),
                };
                let r = run_block(
                    Ev { contents: popped(s3.contents), ..s3 },
                    ans,
                    b.stmts,
                    parents,
                    d,
                    fuel,
                );
                let s4 = scope_popped(
                    Ev {
                        contents: if s3.contents.len() > 0 {
                            r.1.contents.push(s3.contents.last())
                        } else {
                            r.1.contents
                        },
                        ..r.1
                    },
                );
                (
                    r.0,
                    match b.caller {
                        Some(_) => Ev { chain: s1.chain, uses: s1.uses, ..s4 },
                        None => s4,
                    },
                )
            },
        }
    }
}

// ---- modules -------------------------------------------------------------

/// The sink after `load-css`.
pub open spec fn css_loaded(
    s: Ev,
    ans: Seq<Answer>,
    args: Seq<CallArg>,
    content: bool,
    pos: Pos,
    parents: Seq<Seq<char>>,
    d: Drain,
    fuel: nat,
) -> Run<Drain>
    decreases fuel, 40nat, 0int,
{
    if content {
        fail(fault_at(content_refused(), pos), s)
    } else {
        match call_args(s, ans, args, 0, nothing_gathered(), fuel) {
            (Err(h), s1) => (Err(h), s1),
            (Ok(g), s1) => match load_css_arguments(s1, ans, given(g), pos) {
                (Err(h), s2) => (Err(h), s2),
                (Ok((url, c)), s2) => match builtin_url(url) {
                    Some(m) => match asked_flag(s2, ans, ask_names(Task::IsModule, seq![m])) {
                        (Err(h), s3) => (Err(h), s3),
                        (Ok(false), s3) => fail(
                            fault_at("Can't find stylesheet to import."@, pos),
                            s3,
                        ),
                        (Ok(true), s3) => if c.len() > 0 {
                            fail(
                                fault_at(
                                    "Built-in module sass:"@ + m + " can't be configured."@,
                                    pos,
                                ),
                                s3,
                            )
                        } else {
                            (Ok(d), s3)
                        },
                    },
                    None => {
                        let (id, s3) = config_identity(s2, c);
                        match module_loaded(
                            s3,
                            ans,
                            url,
                            c,
                            id,
                            pos,
                            parents,
                            true,
                            Drain::Top(Seq::empty()),
                            fuel,
                        ) {
                            (Err(h), s4) => (Err(h), s4),
                            (Ok((m, used, inner)), s4) => if any_unused(c, used) {
                                fail(fault_at(unused_message(), pos), s4)
                            } else {
                                (Ok(with_spliced(d, drain_nodes(inner))), s4)
                            },
                        }
                    },
                },
            },
        }
    }
}

/// The sink after `@use`.
pub open spec fn module_used(
    s: Ev,
    ans: Seq<Answer>,
    url: Seq<char>,
    namespace: Option<Seq<char>>,
    star: bool,
    config: Seq<ConfigEntry>,
    pos: Pos,
    d: Drain,
    fuel: nat,
) -> Run<Drain>
    decreases fuel, 40nat, 0int,
{
    match builtin_url(url) {
        Some(m) => match asked_flag(s, ans, ask_names(Task::IsModule, seq![m])) {
            (Err(h), s1) => (Err(h), s1),
            (Ok(false), s1) => fail(fault_at("Can't find stylesheet to import."@, pos), s1),
            (Ok(true), s1) => if config.len() > 0 {
                fail(fault_at("Built-in modules can't be configured."@, pos), s1)
            } else if star {
                (
                    Ok(d),
                    Ev {
                        uses: Used { star_builtin: with_text(s1.uses.star_builtin, m), ..s1.uses },
                        ..s1
                    },
                )
            } else {
                let ns = match namespace {
                    Some(n) => n,
                    None => m,
                };
                if namespace_taken(s1, ns) {
                    fail(fault_at(taken_message(ns), pos), s1)
                } else {
                    (
                        Ok(d),
                        Ev {
                            uses: Used { builtin: put(s1.uses.builtin, ns, m), ..s1.uses },
                            ..s1
                        },
                    )
                }
            },
        },
        None => match config_of(s, ans, config, 0, Seq::empty(), fuel) {
            (Err(h), s1) => (Err(h), s1),
            (Ok(c), s1) => {
                let (id, s2) = config_identity(s1, c);
                match module_loaded(s2, ans, url, c, id, pos, Seq::empty(), false, d, fuel) {
                    (Err(h), s3) => (Err(h), s3),
                    (Ok((m, used, d1)), s3) => if any_unused(c, used) {
                        fail(fault_at(unused_message(), pos), s3)
                    } else {
                        quietly(module_bound(s3, m, url, namespace, star, pos), d1)
                    },
                }
            },
        },
    }
}

/// The state with a loaded module under its namespace, or without one.
#[verifier::opaque]
pub open spec fn module_bound(
    s: Ev,
    m: usize,
    url: Seq<char>,
    namespace: Option<Seq<char>>,
    star: bool,
    pos: Pos,
) -> Run<()> {
    if star {
        match star_clash(module_vars(s, m), global_vars(s), 0) {
            Some(name) => fail(fault_at(clash_message(name), pos), s),
            None => (
                Ok(()),
                if s.uses.star_user.contains(m) {
                    s
                } else {
                    Ev { uses: Used { star_user: s.uses.star_user.push(m), ..s.uses }, ..s }
                },
            ),
        }
    } else {
        let stem = namespace_stem(url);
        if namespace is None && !valid_namespace(stem) {
            fail(
                fault_at(
                    "The default namespace \""@ + stem + "\" is not a valid Sass identifier."@,
                    pos,
                ),
                s,
            )
        } else {
            let ns = match namespace {
                Some(n) => n,
                None => stem,
            };
            if namespace_taken(s, ns) {
                fail(fault_at(taken_message(ns), pos), s)
            } else {
                (Ok(()), Ev { uses: Used { user: put(s.uses.user, ns, m), ..s.uses }, ..s })
            }
        }
    }
}

/// The sink after `@forward`.
pub open spec fn module_forwarded(
    s: Ev,
    ans: Seq<Answer>,
    url: Seq<char>,
    prefix: Option<Seq<char>>,
    show: Option<Vec<ForwardMember>>,
    hide: Option<Vec<ForwardMember>>,
    config: Seq<ConfigEntry>,
    pos: Pos,
    parents: Seq<Seq<char>>,
    d: Drain,
    fuel: nat,
) -> Run<Drain>
    decreases fuel, 40nat, 0int,
{
    match builtin_url(url) {
        Some(m) => match asked_flag(s, ans, ask_names(Task::IsModule, seq![m])) {
            (Err(h), s1) => (Err(h), s1),
            (Ok(false), s1) => fail(fault_at("Can't find stylesheet to import."@, pos), s1),
            (Ok(true), s1) => if config.len() > 0 {
                fail(fault_at("Built-in modules can't be configured."@, pos), s1)
            } else {
                (
                    Ok(d),
                    builtin_forwarded(
                        s1,
                        Passed {
                            module: m,
                            prefix,
                            show: opt_members(show, false),
                            hide: opt_members(hide, false),
                        },
                    ),
                )
            },
        },
        None => match config_of(s, ans, config, 0, Seq::empty(), fuel) {
            (Err(h), s1) => (Err(h), s1),
            (Ok(own), s1) => {
                let p = forward_plan(s1.config.pending, own, prefix, show, hide);
                let implicit = s1.config.implicit;
                let (id, s2) = forward_identity(s1, own);
                let r = module_loaded(s2, ans, url, p.combined, id, pos, parents, false, d, fuel);
                let s3 = Ev { config: Conf { implicit, ..r.1.config }, ..r.1 };
                match r.0 {
                    Err(h) => (Err(h), s3),
                    Ok((m, used, d1)) => quietly(
                        forward_finished(s3, p, m, used, prefix, show, hide, pos),
                        d1,
                    ),
                }
            },
        },
    }
}

/// The identity of the configuration that a `@forward` hands on: that of the module it stands in,
/// unless it adds something of its own, which makes it explicit.
#[verifier::opaque]
pub open spec fn forward_identity(s: Ev, own: Settings) -> (usize, Ev) {
    if own.len() == 0 {
        (s.config.id, s)
    } else {
        config_identity(Ev { config: Conf { implicit: false, ..s.config }, ..s }, own)
    }
}

/// The state after a `@forward` whose module has been loaded.
#[verifier::opaque]
pub open spec fn forward_finished(
    s: Ev,
    p: Plan,
    m: usize,
    used: Seq<Seq<char>>,
    prefix: Option<Seq<char>>,
    show: Option<Vec<ForwardMember>>,
    hide: Option<Vec<ForwardMember>>,
    pos: Pos,
) -> Run<()> {
    if any_missing(p.own, used) {
        fail(fault_at(unused_message(), pos), s)
    } else {
        exported(
            Ev {
                config: Conf {
                    consumed: used_downstream(
                        p,
                        p.claimed,
                        0,
                        used_downstream(p, used, 0, s.config.consumed),
                    ),
                    ..s.config
                },
                ..s
            },
            m,
            match prefix {
                Some(x) => x,
                None => Seq::empty(),
            },
            show,
            hide,
            pos,
        )
    }
}

/// The state with a built-in module re-exported.
#[verifier::opaque]
pub open spec fn builtin_forwarded(s: Ev, b: Passed) -> Ev {
    Ev {
        page: Leaf {
            forwarded: Exports {
                builtins: s.page.forwarded.builtins.push(b),
                ..s.page.forwarded
            },
            ..s.page
        },
        ..s
    }
}

/// The number of a module, the names of its configuration that it used, and the sink with its CSS.
/// A module is evaluated once; where it is loaded again its CSS is not repeated, but in a copy.
pub open spec fn module_loaded(
    s: Ev,
    ans: Seq<Answer>,
    url: Seq<char>,
    c: Settings,
    id: usize,
    pos: Pos,
    parents: Seq<Seq<char>>,
    force: bool,
    d: Drain,
    fuel: nat,
) -> Run<(usize, Seq<Seq<char>>, Drain)>
    decreases fuel, 30nat, 0int,
{
    let copies = force || s.page.import_clone is Some;
    match asked_source(s, ans, ask_file(Task::ResolveModule, url, s.page.file_dir)) {
        (Err(h), s1) => (Err(h), s1),
        (Ok(None), s1) => fail(fault_at("Can't find stylesheet to import."@, pos), s1),
        (Ok(Some(src)), s1) => match get(s1.page.cache, src.key@) {
            Some(m) => module_again(s1, m, src.key@, c, id, pos, parents, copies, d),
            None => module_first(s1, ans, url, src, c, id, pos, parents, copies, d, fuel),
        },
    }
}

/// A module that has been loaded before.
#[verifier::opaque]
pub open spec fn module_again(
    s: Ev,
    m: usize,
    key: Seq<char>,
    c: Settings,
    id: usize,
    pos: Pos,
    parents: Seq<Seq<char>>,
    copies: bool,
    d: Drain,
) -> Run<(usize, Seq<Seq<char>>, Drain)> {
    if m >= s.modules.len() {
        (Err(Halt::Mismatch), s)
    } else {
        let used = known_names(s, m, c, 0, Seq::empty());
        let css = s.modules[m as int].css;
        if used.len() > 0 {
            if s.config.implicit {
                (Ok((m, used, with_module(d, key, css, parents))), load_recorded(s, key))
            } else if id != 0 && s.modules[m as int].config_origin == id {
                (Ok((m, used, d)), s)
            } else {
                fail(
                    fault_at(
                        "This module was already loaded, so it can't be configured using \"with\"."@,
                        pos,
                    ),
                    s,
                )
            }
        } else if copies {
            let ((copy, list), s1) = cloned_css(s, key);
            (Ok((m, Seq::empty(), with_module(d, copy, list, parents))), s1)
        } else {
            let s1 = load_recorded(s, key);
            if s.modules[m as int].emitted_main {
                (Ok((m, Seq::empty(), d)), s1)
            } else {
                (
                    Ok((m, Seq::empty(), with_module(d, key, css, parents))),
                    module_emitted(s1, m),
                )
            }
        }
    }
}

/// A module that has not been loaded yet.
pub open spec fn module_first(
    s: Ev,
    ans: Seq<Answer>,
    url: Seq<char>,
    src: Source,
    c: Settings,
    id: usize,
    pos: Pos,
    parents: Seq<Seq<char>>,
    copies: bool,
    d: Drain,
    fuel: nat,
) -> Run<(usize, Seq<Seq<char>>, Drain)>
    decreases fuel, 25nat, 0int,
{
    let key = src.key@;
    if s.page.loading.contains(key) {
        fail(fault_at("Module loop: this module is already being loaded."@, pos), s)
    } else {
        match asked_sheet(s, ans, ask_parse(src.text@, src.syntax)) {
            (Err(h), s1) => (Err(h), s1),
            (Ok(sheet), s1) => {
                let shown = shown_url(url, key);
                let s2 = source_known(s1, shown, src.text@);
                let s3 = if copies {
                    s2
                } else {
                    load_recorded(s2, key)
                };
                match module_evaluated(s3, ans, key, shown, sheet, src.syntax == Syntax::Css, c, id, fuel) {
                    (Err(h), s4) => (Err(h), s4),
                    (Ok((m, used, css)), s4) => if copies {
                        let ((copy, list), s5) = cloned_css(s4, key);
                        (Ok((m, used, with_module(d, copy, list, parents))), s5)
                    } else {
                        (
                            Ok((m, used, with_module(d, key, css, parents))),
                            module_emitted(s4, m),
                        )
                    },
                }
            },
        }
    }
}

/// The number of a module whose file has been evaluated, what it used of its configuration, and its
/// CSS.
pub open spec fn module_evaluated(
    s: Ev,
    ans: Seq<Answer>,
    key: Seq<char>,
    url: Seq<char>,
    sheet: Stylesheet,
    css: bool,
    c: Settings,
    id: usize,
    fuel: nat,
) -> Run<(usize, Seq<Seq<char>>, Seq<Node>)>
    decreases fuel, 20nat, 0int,
{
    let dir = directory(key);
    let begun = module_begun(s, key, url, dir, c, id);
    let r = if css {
        plain_sheet(begun, ans, sheet.stmts@, Seq::empty(), Drain::Top(Seq::empty()), fuel)
    } else {
        run_block(
            slots_added(begun, global_names(sheet.stmts@, 0), 0),
            ans,
            sheet.stmts@,
            Seq::empty(),
            Drain::Top(Seq::empty()),
            fuel,
        )
    };
    let s1 = module_ended(r.1, s);
    match r.0 {
        Err(h) => (Err(h), s1),
        Ok(inner) => {
            let list = drain_nodes(inner);
            let (m, s2) = module_added(s1, r.1, key, url, dir, id, list);
            (Ok((m, r.1.config.consumed, list)), s2)
        },
    }
}

// ---- imports -------------------------------------------------------------

/// The sink after the arguments of an `@import` from `i` on.
pub open spec fn run_imports(
    s: Ev,
    ans: Seq<Answer>,
    args: Seq<ImportArg>,
    i: int,
    parents: Seq<Seq<char>>,
    d: Drain,
    fuel: nat,
) -> Run<Drain>
    decreases fuel, 40nat, args.len() - i,
{
    if i < 0 || i >= args.len() {
        (Ok(d), s)
    } else {
        match run_import(s, ans, args[i], parents, d, fuel) {
            (Err(h), s1) => (Err(h), s1),
            (Ok(d1), s1) => run_imports(s1, ans, args, i + 1, parents, d1, fuel),
        }
    }
}

/// The sink after an argument of an `@import`.
pub open spec fn run_import(
    s: Ev,
    ans: Seq<Answer>,
    arg: ImportArg,
    parents: Seq<Seq<char>>,
    d: Drain,
    fuel: nat,
) -> Run<Drain>
    decreases fuel, 36nat, 0int,
{
    match arg {
        ImportArg::Css { url, modifiers } => match css_import_text(s, ans, url@, modifiers@, fuel) {
            (Err(h), s1) => (Err(h), s1),
            (Ok(t), s1) => (
                Ok(
                    if d is Rule {
                        with_item(
                            d,
                            Item::ChildlessAtRule {
                                name: "import"@,
                                prelude: t,
                                lines: no_lines(),
                            },
                        )
                    } else {
                        with_at_rule(d, import_node(t))
                    },
                ),
                s1,
            ),
        },
        ImportArg::Sass { path, pos, length } => if css_import(path@) {
            (Ok(with_at_rule(d, import_node("\""@ + path@ + "\""@))), s)
        } else {
            match import_warned(s, ans, pos, length) {
                (Err(h), s1) => (Err(h), s1),
                (Ok(_), s1) => match import_found(s1, ans, path@) {
                    (Err(h), s2) => (Err(h), s2),
                    (Ok(e), s2) => file_imported(s2, ans, e, parents, d, fuel),
                },
            }
        },
    }
}

/// The sink after the file that an import names.
pub open spec fn file_imported(
    s: Ev,
    ans: Seq<Answer>,
    e: Imported,
    parents: Seq<Seq<char>>,
    d: Drain,
    fuel: nat,
) -> Run<Drain>
    decreases fuel, 35nat, 0int,
{
    let stmts = e.sheet.stmts@;
    if e.css {
        let r = plain_sheet(
            Ev { page: Leaf { loading: s.page.loading.push(e.path), ..s.page }, ..s },
            ans,
            stmts,
            parents,
            d,
            fuel,
        );
        (r.0, Ev { page: Leaf { loading: popped(r.1.page.loading), ..r.1.page }, ..r.1 })
    } else {
        let dir = if e.key.len() == 0 {
            None
        } else {
            Some(directory(e.key))
        };
        let begun = import_begun(s, e.path, stmts, dir);
        if top_decl(stmts, 0) {
            fail(fault("expected \"{\"."@), begun)
        } else {
            let r = run_block(begun, ans, stmts, parents, d, fuel);
            let s1 = import_ended(r.1, s, stmts);
            match r.0 {
                Err(h) => (Err(h), s1),
                Ok(d1) => (Ok(d1), exports_taken(s1, r.1.page.forwarded)),
            }
        }
    }
}

/// The file that an argument of an `@import` finds.
#[verifier::opaque]
pub open spec fn argument_found(s: Ev, ans: Seq<Answer>, arg: ImportArg) -> Option<Imported> {
    match arg {
        ImportArg::Css { .. } => None,
        ImportArg::Sass { path, pos, length } => if css_import(path@) {
            None
        } else {
            match import_warned(s, ans, pos, length) {
                (Err(_), _) => None,
                (Ok(_), s1) => match import_found(s1, ans, path@) {
                    (Err(_), _) => None,
                    (Ok(e), _) => Some(e),
                },
            }
        },
    }
}

/// Whether a file that was found is held for its URL and directory.
#[verifier::opaque]
pub open spec fn import_held(s: Ev, e: Imported) -> bool {
    let k = import_place(s.page.imports, e.path, e.base, 0);
    k < s.page.imports.len() && s.page.imports[k] == e
}

/// Whether `end` holds every file that the arguments of an `@import` from `i` on find.
#[verifier::opaque]
pub open spec fn imports_held(
    end: Ev,
    s: Ev,
    ans: Seq<Answer>,
    args: Seq<ImportArg>,
    i: int,
    parents: Seq<Seq<char>>,
    d: Drain,
    fuel: nat,
) -> bool
    decreases args.len() - i,
{
    if i < 0 || i >= args.len() {
        true
    } else {
        &&& match argument_found(s, ans, args[i]) {
            Some(e) => import_held(end, e),
            None => true,
        }
        &&& match run_import(s, ans, args[i], parents, d, fuel) {
            (Err(_), _) => true,
            (Ok(d1), s1) => imports_held(end, s1, ans, args, i + 1, parents, d1, fuel),
        }
    }
}

pub proof fn lemma_import_place(list: Seq<Imported>, path: Seq<char>, base: Option<Seq<char>>, i: int)
    requires
        0 <= i <= list.len(),
    ensures
        ({
            let k = import_place(list, path, base, i);
            &&& i <= k <= list.len()
            &&& k < list.len() ==> list[k].path == path && list[k].base == base
            &&& forall|j: int| i <= j < k ==> !(#[trigger] list[j].path == path && list[j].base == base)
        }),
    decreases list.len() - i,
{
    if i < list.len() && !(list[i].path == path && list[i].base == base) {
        lemma_import_place(list, path, base, i + 1);
    }
}

proof fn lemma_import_stays(
    list: Seq<Imported>,
    more: Seq<Imported>,
    path: Seq<char>,
    base: Option<Seq<char>>,
    i: int,
)
    requires
        0 <= i <= list.len() <= more.len(),
        forall|k: int| 0 <= k < list.len() ==> #[trigger] more[k] == list[k],
        import_place(list, path, base, i) < list.len(),
    ensures
        import_place(more, path, base, i) == import_place(list, path, base, i),
    decreases list.len() - i,
{
    if i < list.len() {
        assert(more[i] == list[i]);
        if !(list[i].path == path && list[i].base == base) {
            lemma_import_stays(list, more, path, base, i + 1);
        }
    }
}

/// What is found is held.
pub proof fn lemma_found_is_held(s: Ev, ans: Seq<Answer>, path: Seq<char>)
    ensures
        match import_found(s, ans, path) {
            (Ok(e), s1) => import_held(s1, e),
            _ => true,
        },
{
    reveal(import_found);
    reveal(import_held);
    let base = s.page.file_dir;
    let found = import_found(s, ans, path);
    let list = found.1.page.imports;
    lemma_import_place(s.page.imports, path, base, 0);
    if import_place(s.page.imports, path, base, 0) >= s.page.imports.len() && found.0 is Ok {
        lemma_import_place(list, path, base, 0);
        let q = import_place(list, path, base, 0);
        assert(list[list.len() - 1].path == path && list[list.len() - 1].base == base);
        assert(q == list.len() - 1) by {
            if q < list.len() - 1 {
                assert(list[q] == s.page.imports[q]);
            }
        }
    }
}

/// What is held stays so.
pub proof fn lemma_held_stays(a: Ev, b: Ev, e: Imported)
    requires
        import_held(a, e),
        loads_kept(a, b),
    ensures
        import_held(b, e),
{
    reveal(kept);
    reveal(import_held);
    lemma_import_place(a.page.imports, e.path, e.base, 0);
    lemma_import_stays(a.page.imports, b.page.imports, e.path, e.base, 0);
}

/// Where the argument `i` leads from `before` to `after`, what it found is held on.
proof fn lemma_held_step(
    end: Ev,
    before: Ev,
    after: Ev,
    ans: Seq<Answer>,
    args: Seq<ImportArg>,
    i: int,
    parents: Seq<Seq<char>>,
    d: Drain,
    d1: Result<Drain, Halt>,
    fuel: nat,
)
    requires
        0 <= i < args.len(),
        run_import(before, ans, args[i], parents, d, fuel) == (d1, after),
        match argument_found(before, ans, args[i]) {
            Some(e) => import_held(after, e),
            None => true,
        },
        loads_kept(after, end),
        d1 is Ok ==> imports_held(end, after, ans, args, i + 1, parents, d1->Ok_0, fuel),
    ensures
        imports_held(end, before, ans, args, i, parents, d, fuel),
{
    reveal_with_fuel(imports_held, 1);
    match argument_found(before, ans, args[i]) {
        Some(e) => {
            lemma_held_stays(after, end, e);
        },
        None => {},
    }
}

/// Whether all is held of the arguments, as seen from `from`, where it is of those from `i` on, as
/// seen from `now`.
#[verifier::opaque]
pub open spec fn held_so_far(
    now: (Ev, Drain),
    i: int,
    from: (Ev, Drain),
    ans: Seq<Answer>,
    args: Seq<ImportArg>,
    parents: Seq<Seq<char>>,
    fuel: nat,
) -> bool {
    forall|end: Ev|
        loads_kept(now.0, end) && imports_held(end, now.0, ans, args, i, parents, now.1, fuel)
            ==> #[trigger] imports_held(end, from.0, ans, args, 0, parents, from.1, fuel)
}

pub proof fn lemma_held_at_first(
    from: (Ev, Drain),
    ans: Seq<Answer>,
    args: Seq<ImportArg>,
    parents: Seq<Seq<char>>,
    fuel: nat,
)
    ensures
        held_so_far(from, 0, from, ans, args, parents, fuel),
{
    reveal(held_so_far);
}

pub proof fn lemma_held_further(
    before: (Ev, Drain),
    after: (Ev, Drain),
    i: int,
    from: (Ev, Drain),
    ans: Seq<Answer>,
    args: Seq<ImportArg>,
    parents: Seq<Seq<char>>,
    fuel: nat,
)
    requires
        held_so_far(before, i, from, ans, args, parents, fuel),
        0 <= i < args.len(),
        run_import(before.0, ans, args[i], parents, before.1, fuel) == (
            Ok::<Drain, Halt>(after.1),
            after.0,
        ),
        match argument_found(before.0, ans, args[i]) {
            Some(e) => import_held(after.0, e),
            None => true,
        },
        loads_kept(before.0, after.0),
    ensures
        held_so_far(after, i + 1, from, ans, args, parents, fuel),
{
    reveal(held_so_far);
    broadcast use crate::kept::group_kept;

    assert forall|end: Ev|
        loads_kept(after.0, end) && imports_held(
            end,
            after.0,
            ans,
            args,
            i + 1,
            parents,
            after.1,
            fuel,
        ) implies #[trigger] imports_held(end, from.0, ans, args, 0, parents, from.1, fuel) by {
        lemma_held_step(
            end,
            before.0,
            after.0,
            ans,
            args,
            i,
            parents,
            before.1,
            Ok(after.1),
            fuel,
        );
        assert(loads_kept(before.0, end));
    }
}

/// Where an argument fails, what was found up to it is held.
pub proof fn lemma_held_at_fault(
    before: (Ev, Drain),
    after: Ev,
    h: Halt,
    i: int,
    from: (Ev, Drain),
    ans: Seq<Answer>,
    args: Seq<ImportArg>,
    parents: Seq<Seq<char>>,
    fuel: nat,
)
    requires
        held_so_far(before, i, from, ans, args, parents, fuel),
        0 <= i < args.len(),
        run_import(before.0, ans, args[i], parents, before.1, fuel) == (Err::<Drain, Halt>(h), after),
        match argument_found(before.0, ans, args[i]) {
            Some(e) => import_held(after, e),
            None => true,
        },
        loads_kept(before.0, after),
    ensures
        imports_held(after, from.0, ans, args, 0, parents, from.1, fuel),
{
    reveal(held_so_far);
    broadcast use crate::kept::group_kept;

    lemma_held_step(after, before.0, after, ans, args, i, parents, before.1, Err(h), fuel);
}

/// Past the last argument, what was found is held.
pub proof fn lemma_held_at_last(
    now: (Ev, Drain),
    i: int,
    from: (Ev, Drain),
    ans: Seq<Answer>,
    args: Seq<ImportArg>,
    parents: Seq<Seq<char>>,
    fuel: nat,
)
    requires
        held_so_far(now, i, from, ans, args, parents, fuel),
        i >= args.len(),
    ensures
        imports_held(now.0, from.0, ans, args, 0, parents, from.1, fuel),
{
    reveal(held_so_far);
    reveal_with_fuel(imports_held, 1);
    broadcast use crate::kept::group_kept;

}

} // verus!
