//! What holds of evaluation as a whole.

use vstd::prelude::*;
use crate::args::Given;
use crate::analysis::global_names;
use crate::ast::{CallArg, Declaration, ImportArg, Rule, Stylesheet, TplPiece, VarDecl};
use crate::configs::Settings;
use crate::decls::{
    decl_value, declared, file_number, import_warned, place_in, spot_seen, warning_limit,
};
use crate::edges::{load_recorded, reached};
use crate::env::{Block, Closure};
use crate::error::{Pos, fault, fault_at};
use crate::eval::{
    Ev, callable_in, fail, frame, function_named, global_set, loads_kept, lookup, lookup_in,
    mixin_named, pop_undoes_push, table,
};
use crate::exports::known_names;
use crate::extends::{
    Exts, all_blank, all_reached, any_placeholder, applies, private_target, rank_place, ranked,
    reach, reach_all, rewritten, rewritten_inside, swept,
};
use crate::host::{Answer, Halt, Source, Task};
use crate::install::{
    module_added, module_begun, module_emitted, module_ended, no_uses, slots_added,
};
use crate::kept::kept;
use crate::media::Query;
use crate::names::{css_import, keyframes_name, private_name, shown_url};
use crate::options::Syntax;
use crate::out::{Item, Node, SrcLines};
use crate::page::Imported;
use crate::paths::directory;
use crate::plain::{import_node, plain_sheet};
use crate::queries::{trimmed_template, whole_template};
use crate::rules::{extended, rule_entered, rule_left};
use crate::sem::has_value;
use crate::semantics::{body_run, declare_in, declare_value, eval};
use crate::sink::{Drain, with_at_rule};
use crate::sources::{ask_file, ask_parse, asked_sheet, asked_source};
use crate::state::{Ids, entry, get, get_after_put, put};
use crate::statements::{
    argument_found, at_rule, content_frame, content_run, drain_nodes, file_imported, import_found,
    import_held, imports_held, lemma_held_stays, lemma_import_place, media_closed,
    media_entered, media_left, mixin_run, module_again, module_evaluated, module_first,
    module_loaded, run_block, run_import, run_imports, source_known,
};
use crate::tree::split_from;
use crate::value::Val;

verus! {

// ---- scopes --------------------------------------------------------------

/// Whatever the body of a function does, the scopes of the caller are in place after it.
pub proof fn function_restores_scopes(s: Ev, ans: Seq<Answer>, c: Closure, a: Given, note: bool, fuel: nat)
    ensures
        body_run(s, ans, c, a, note, fuel).1.chain == s.chain,
{
}

/// Whatever the body of a mixin does, the scopes of the caller are in place after it.
pub proof fn mixin_restores_scopes(
    s: Ev,
    ans: Seq<Answer>,
    c: Closure,
    a: Given,
    content: Option<Block>,
    note: bool,
    parents: Seq<Seq<char>>,
    d: Drain,
    fuel: nat,
)
    ensures
        mixin_run(s, ans, c, a, content, note, parents, d, fuel).1.chain == s.chain,
{
}

/// A `@content` block with the scopes of where it is written gives them back to the mixin.
pub proof fn content_restores_scopes(
    s: Ev,
    ans: Seq<Answer>,
    args: Seq<CallArg>,
    parents: Seq<Seq<char>>,
    d: Drain,
    fuel: nat,
)
    requires
        s.contents.len() > 0,
        s.contents.last() is Some,
        (s.contents.last()->0).caller is Some,
    ensures
        ({
            let b = s.contents.last()->0;
            content_frame(s, ans, b.params, args, fuel).0 is Ok ==> {
                let after = content_frame(s, ans, b.params, args, fuel).1;
                let r = content_run(s, ans, args, parents, d, fuel).1;
                r.chain == after.chain && r.uses == after.uses
            }
        }),
{
    reveal(content_frame);
}

/// Leaving a style rule right after entering it brings back its selector and its scopes.
pub proof fn leaving_a_rule_restores(s: Ev, current: Seq<Seq<char>>, lbs: Seq<bool>)
    ensures
        ({
            let r = rule_left(rule_entered(s, current, lbs), s);
            &&& r.selector == s.selector
            &&& r.page == s.page
            &&& r.chain == s.chain
        }),
{
    reveal(rule_entered);
    reveal(rule_left);
    pop_undoes_push(s, false);
    let r = rule_left(rule_entered(s, current, lbs), s);
    assert(r.chain.scopes =~= s.chain.scopes);
    assert(r.chain.semi =~= s.chain.semi);
    assert(r.chain.functions =~= s.chain.functions);
    assert(r.chain.mixins =~= s.chain.mixins);
}

/// Leaving a `@media` rule right after entering it changes nothing.
pub proof fn leaving_media_restores(s: Ev, qs: Seq<Query>, prelude: Seq<char>)
    ensures
        media_left(media_entered(s, qs, prelude), s) == s,
{
    reveal(media_entered);
    reveal(media_left);
    let r = media_left(media_entered(s, qs, prelude), s);
    assert(r.page.layers =~= s.page.layers);
}

/// Taking a module down right after setting it up brings back all that belongs to the file that
/// loads it.
pub proof fn module_leaves_its_loader_alone(
    s: Ev,
    key: Seq<char>,
    url: Seq<char>,
    dir: Option<Seq<char>>,
    c: Settings,
    id: usize,
)
    ensures
        ({
            let r = module_ended(module_begun(s, key, url, dir, c, id), s);
            &&& r.chain == s.chain
            &&& r.uses == s.uses
            &&& r.selector == s.selector
            &&& r.config == s.config
            &&& r.report == s.report
            &&& r.page == s.page
        }),
{
    reveal(module_begun);
    reveal(module_ended);
    let r = module_ended(module_begun(s, key, url, dir, c, id), s);
    assert(r.page.loading =~= s.page.loading);
}

/// A module is set up with nothing of the file that loads it in sight: no variable, no function, no
/// mixin, and no module.
pub proof fn module_starts_empty(
    s: Ev,
    key: Seq<char>,
    url: Seq<char>,
    dir: Option<Seq<char>>,
    c: Settings,
    id: usize,
    name: Seq<char>,
)
    requires
        s.frames.len() <= usize::MAX,
        s.tables.len() < usize::MAX,
    ensures
        ({
            let b = module_begun(s, key, url, dir, c, id);
            &&& lookup(b, name) is None
            &&& function_named(b, name) is None
            &&& mixin_named(b, name) is None
            &&& b.uses == no_uses()
        }),
{
    reveal(module_begun);
    let b = module_begun(s, key, url, dir, c, id);
    assert(b.chain.scopes =~= seq![s.frames.len() as usize]);
    assert(b.chain.functions =~= seq![s.tables.len() as usize]);
    assert(b.chain.mixins =~= seq![(s.tables.len() + 1) as usize]);
    reveal_with_fuel(lookup_in, 3);
    reveal_with_fuel(callable_in, 3);
    assert(frame(b, s.frames.len() as usize) =~= Seq::empty());
    assert(table(b, s.tables.len() as usize) =~= Seq::empty());
    assert(table(b, (s.tables.len() + 1) as usize) =~= Seq::empty());
    assert(b.chain.scopes.drop_last() =~= Seq::empty());
    assert(b.chain.functions.drop_last() =~= Seq::empty());
    assert(b.chain.mixins.drop_last() =~= Seq::empty());
    reveal_with_fuel(entry, 2);
}

// ---- modules -------------------------------------------------------------

/// A module is evaluated once: where it is used again, without a configuration and outside copies,
/// the same module is given, none is added, and its CSS is not repeated.
pub proof fn module_is_evaluated_once(
    s: Ev,
    ans: Seq<Answer>,
    url: Seq<char>,
    id: usize,
    pos: Pos,
    parents: Seq<Seq<char>>,
    d: Drain,
    fuel: nat,
    m: usize,
)
    requires
        s.page.import_clone is None,
        ({
            let a = asked_source(s, ans, ask_file(Task::ResolveModule, url, s.page.file_dir));
            &&& a.0 is Ok
            &&& (a.0->Ok_0) is Some
            &&& get(s.page.cache, ((a.0->Ok_0)->0).key@) == Some(m)
        }),
        m < s.modules.len(),
        s.modules[m as int].emitted_main,
    ensures
        ({
            let r = module_loaded(
                s,
                ans,
                url,
                Seq::empty(),
                id,
                pos,
                parents,
                false,
                d,
                fuel,
            );
            r.0 == Ok::<(usize, Seq<Seq<char>>, Drain), Halt>((m, Seq::empty(), d)) && r.1.modules
                == s.modules
        }),
{
    reveal(module_again);
    reveal(load_recorded);
    assert(known_names(
        asked_source(s, ans, ask_file(Task::ResolveModule, url, s.page.file_dir)).1,
        m,
        Seq::empty(),
        0,
        Seq::empty(),
    ) =~= Seq::empty());
}

/// A module that was loaded is known under its key, and its CSS stands in the output.
pub proof fn first_load_is_remembered(
    s: Ev,
    ans: Seq<Answer>,
    url: Seq<char>,
    id: usize,
    pos: Pos,
    parents: Seq<Seq<char>>,
    d: Drain,
    fuel: nat,
)
    requires
        s.page.import_clone is None,
        ({
            let r = module_loaded(s, ans, url, Seq::empty(), id, pos, parents, false, d, fuel);
            r.0 is Ok && r.1.modules.len() <= usize::MAX
        }),
    ensures
        ({
            let a = asked_source(s, ans, ask_file(Task::ResolveModule, url, s.page.file_dir));
            let r = module_loaded(s, ans, url, Seq::empty(), id, pos, parents, false, d, fuel);
            let m = (r.0->Ok_0).0;
            &&& a.0 is Ok
            &&& (a.0->Ok_0) is Some
            &&& get(r.1.page.cache, ((a.0->Ok_0)->0).key@) == Some(m)
            &&& m < r.1.modules.len()
            &&& r.1.modules[m as int].emitted_main
        }),
{
    let a = asked_source(s, ans, ask_file(Task::ResolveModule, url, s.page.file_dir));
    let src = (a.0->Ok_0)->0;
    let s1 = a.1;
    match get(s1.page.cache, src.key@) {
        Some(m) => {
            lemma_again_is_known(s1, m, src.key@, id, pos, parents, d);
        },
        None => {
            lemma_first_is_known(s1, ans, url, src, id, pos, parents, d, fuel);
        },
    }
}

proof fn lemma_again_is_known(
    s: Ev,
    m: usize,
    key: Seq<char>,
    id: usize,
    pos: Pos,
    parents: Seq<Seq<char>>,
    d: Drain,
)
    requires
        get(s.page.cache, key) == Some(m),
        module_again(s, m, key, Seq::empty(), id, pos, parents, false, d).0 is Ok,
    ensures
        ({
            let r = module_again(s, m, key, Seq::empty(), id, pos, parents, false, d);
            &&& (r.0->Ok_0).0 == m
            &&& get(r.1.page.cache, key) == Some(m)
            &&& m < r.1.modules.len()
            &&& r.1.modules[m as int].emitted_main
        }),
{
    reveal(module_again);
    reveal(load_recorded);
    reveal(module_emitted);
    let none: Settings = Seq::empty();
    assert(known_names(s, m, none, 0, Seq::empty()) =~= Seq::empty());
}

proof fn lemma_first_is_known(
    s: Ev,
    ans: Seq<Answer>,
    url: Seq<char>,
    src: Source,
    id: usize,
    pos: Pos,
    parents: Seq<Seq<char>>,
    d: Drain,
    fuel: nat,
)
    requires
        ({
            let r = module_first(s, ans, url, src, Seq::empty(), id, pos, parents, false, d, fuel);
            r.0 is Ok && r.1.modules.len() <= usize::MAX
        }),
    ensures
        ({
            let r = module_first(s, ans, url, src, Seq::empty(), id, pos, parents, false, d, fuel);
            let m = (r.0->Ok_0).0;
            &&& get(r.1.page.cache, src.key@) == Some(m)
            &&& m < r.1.modules.len()
            &&& r.1.modules[m as int].emitted_main
        }),
{
    let key = src.key@;
    let p = asked_sheet(s, ans, ask_parse(src.text@, src.syntax));
    let shown = shown_url(url, key);
    let s3 = load_recorded(source_known(p.1, shown, src.text@), key);
    let css = src.syntax == Syntax::Css;
    let e = module_evaluated(s3, ans, key, shown, p.0->Ok_0, css, Seq::empty(), id, fuel);
    lemma_emitted_is_known(e.1, (e.0->Ok_0).0);
    lemma_evaluated_is_known(s3, ans, key, shown, p.0->Ok_0, css, Seq::empty(), id, fuel);
}

proof fn lemma_emitted_is_known(s: Ev, m: usize)
    ensures
        ({
            let t = module_emitted(s, m);
            &&& t.page == s.page
            &&& t.modules.len() == s.modules.len()
            &&& m < s.modules.len() ==> t.modules[m as int].emitted_main
        }),
{
    reveal(module_emitted);
}

proof fn lemma_evaluated_is_known(
    s: Ev,
    ans: Seq<Answer>,
    key: Seq<char>,
    url: Seq<char>,
    sheet: Stylesheet,
    css: bool,
    c: Settings,
    id: usize,
    fuel: nat,
)
    requires
        module_evaluated(s, ans, key, url, sheet, css, c, id, fuel).0 is Ok,
        module_evaluated(s, ans, key, url, sheet, css, c, id, fuel).1.modules.len() <= usize::MAX,
    ensures
        ({
            let r = module_evaluated(s, ans, key, url, sheet, css, c, id, fuel);
            let m = (r.0->Ok_0).0;
            get(r.1.page.cache, key) == Some(m) && m < r.1.modules.len()
        }),
{
    let begun = module_begun(s, key, url, directory(key), c, id);
    let run = if css {
        plain_sheet(begun, ans, sheet.stmts@, Seq::empty(), Drain::Top(Seq::empty()), fuel)
    } else {
        run_block(
            slots_added(begun, global_names(sheet.stmts@, 0), 0),
            ans,
            sheet.stmts@,
            Seq::empty(),
            Drain::Top(Seq::empty()),
            fuel,
        )
    };
    let list = drain_nodes(run.0->Ok_0);
    let r = module_evaluated(s, ans, key, url, sheet, css, c, id, fuel);
    let x = module_added(module_ended(run.1, s), run.1, key, url, directory(key), id, list);
    assert(r.1 == x.1);
    assert((r.0->Ok_0).0 == x.0);
    lemma_added_is_known(module_ended(run.1, s), run.1, key, url, directory(key), id, list);
}

proof fn lemma_added_is_known(
    s: Ev,
    inside: Ev,
    key: Seq<char>,
    url: Seq<char>,
    dir: Option<Seq<char>>,
    id: usize,
    css: Seq<Node>,
)
    requires
        module_added(s, inside, key, url, dir, id, css).1.modules.len() <= usize::MAX,
    ensures
        ({
            let r = module_added(s, inside, key, url, dir, id, css);
            get(r.1.page.cache, key) == Some(r.0) && r.0 < r.1.modules.len()
        }),
{
    reveal(module_added);
    let r = module_added(s, inside, key, url, dir, id, css);
    let before = choose|c: Ids| #[trigger] put(c, key, r.0) == r.1.page.cache;
    get_after_put(before, key, r.0);
}

/// A module is loaded once: whatever is evaluated after its first load, each later load of the same
/// file, under any URL, gives the same module, uses no configuration, and leaves the output as it is.
pub proof fn later_loads_give_the_same_module(
    s: Ev,
    ans: Seq<Answer>,
    url: Seq<char>,
    id: usize,
    pos: Pos,
    parents: Seq<Seq<char>>,
    d: Drain,
    fuel: nat,
    later: Ev,
    later_ans: Seq<Answer>,
    later_url: Seq<char>,
    later_id: usize,
    later_pos: Pos,
    later_parents: Seq<Seq<char>>,
    later_d: Drain,
    later_fuel: nat,
)
    requires
        s.page.import_clone is None,
        later.page.import_clone is None,
        ({
            let a = asked_source(s, ans, ask_file(Task::ResolveModule, url, s.page.file_dir));
            let b = asked_source(
                later,
                later_ans,
                ask_file(Task::ResolveModule, later_url, later.page.file_dir),
            );
            let r = module_loaded(s, ans, url, Seq::empty(), id, pos, parents, false, d, fuel);
            &&& r.0 is Ok
            &&& r.1.modules.len() <= usize::MAX
            &&& loads_kept(r.1, later)
            &&& b.0 is Ok
            &&& (b.0->Ok_0) is Some
            &&& ((b.0->Ok_0)->0).key@ == ((a.0->Ok_0)->0).key@
        }),
    ensures
        ({
            let r = module_loaded(s, ans, url, Seq::empty(), id, pos, parents, false, d, fuel);
            let t = module_loaded(
                later,
                later_ans,
                later_url,
                Seq::empty(),
                later_id,
                later_pos,
                later_parents,
                false,
                later_d,
                later_fuel,
            );
            t.0 == Ok::<(usize, Seq<Seq<char>>, Drain), Halt>(
                ((r.0->Ok_0).0, Seq::empty(), later_d),
            ) && t.1.modules == later.modules
        }),
{
    first_load_is_remembered(s, ans, url, id, pos, parents, d, fuel);
    let r = module_loaded(s, ans, url, Seq::empty(), id, pos, parents, false, d, fuel);
    reveal(kept);
    let m = (r.0->Ok_0).0;
    assert(later.modules[m as int].emitted_main);
    module_is_evaluated_once(
        later,
        later_ans,
        later_url,
        later_id,
        later_pos,
        later_parents,
        later_d,
        later_fuel,
        m,
    );
}

/// A file that is not found is an error wherever it is asked for, and nothing is written.
pub proof fn missing_module_is_an_error(
    s: Ev,
    ans: Seq<Answer>,
    url: Seq<char>,
    c: Settings,
    id: usize,
    pos: Pos,
    parents: Seq<Seq<char>>,
    force: bool,
    d: Drain,
    fuel: nat,
)
    requires
        s.asked < ans.len(),
        ans[s.asked as int] is Nothing,
    ensures
        module_loaded(s, ans, url, c, id, pos, parents, force, d, fuel).0 == Err::<
            (usize, Seq<Seq<char>>, Drain),
            Halt,
        >(Halt::Error(fault_at("Can't find stylesheet to import."@, pos))),
{
}

// ---- variables -----------------------------------------------------------

/// `!default` does not touch a variable that has a value.
pub proof fn default_keeps_a_value(s: Ev, ans: Seq<Answer>, v: VarDecl, fuel: nat)
    requires
        v.is_default,
        ({
            let r = eval(s, ans, v.value, fuel);
            r.0 is Ok && has_value(lookup(r.1, v.name@))
        }),
    ensures
        declare_value(s, ans, v, fuel) == (
            Ok::<(), Halt>(()),
            eval(s, ans, v.value, fuel).1,
        ),
{
}

/// A variable of a built-in module cannot be assigned to, nor can a private one of any module.
pub proof fn foreign_variables_are_guarded(s: Ev, ans: Seq<Answer>, ns: Seq<char>, v: VarDecl, fuel: nat)
    requires
        private_name(v.name@) || (get(s.uses.user, ns) is None),
    ensures
        declare_in(s, ans, ns, v, fuel).0 is Err,
        declare_in(s, ans, ns, v, fuel).1 == s,
{
}

/// `!global` sets the global variable, whatever scopes are open.
pub proof fn global_assignment_is_global(s: Ev, name: Seq<char>, v: Val)
    requires
        s.chain.scopes.len() > 0,
        s.chain.scopes[0] < s.frames.len(),
    ensures
        get(frame(global_set(s, name, v), s.chain.scopes[0]), name) == Some(v),
        global_set(s, name, v).chain == s.chain,
{
    get_after_put(s.frames[s.chain.scopes[0] as int], name, v);
}

// ---- statements that leave nothing ---------------------------------------

/// A `@media` rule whose body comes to nothing leaves nothing.
pub proof fn empty_media_leaves_nothing(
    s: Ev,
    prelude: Seq<char>,
    lines: SrcLines,
    outermost: bool,
    hoisted: Seq<Seq<Node>>,
    bubbles: bool,
    d: Drain,
)
    ensures
        media_closed(s, Seq::empty(), prelude, lines, outermost, hoisted, bubbles, d).0 == d,
{
    reveal(media_closed);
    reveal_with_fuel(split_from, 2);
}

/// A declaration whose value is `null` leaves nothing.
pub proof fn null_declaration_leaves_nothing(s: Ev, ans: Seq<Answer>, x: Declaration, fuel: nat)
    requires
        ({
            let n = trimmed_template(s, ans, x.property@, fuel);
            n.0 is Ok && eval(n.1, ans, x.value, fuel).0 == Ok::<Val, Halt>(Val::Null)
        }),
    ensures
        declared(s, ans, x, fuel).0 == Ok::<Option<Item>, Halt>(None),
{
    reveal(declared);
    reveal(decl_value);
}

/// A `@charset` outside style rules is dropped.
pub proof fn charset_is_dropped(
    s: Ev,
    ans: Seq<Answer>,
    prelude: Seq<TplPiece>,
    lines: SrcLines,
    parents: Seq<Seq<char>>,
    d: Drain,
    fuel: nat,
)
    requires
        !(d is Rule),
        whole_template(s, ans, prelude, fuel).0 is Ok,
    ensures
        at_rule(s, ans, "charset"@, prelude, None, lines, parents, d, fuel).0 == Ok::<Drain, Halt>(d),
{
}

/// A `@content` without a block leaves nothing and changes nothing.
pub proof fn content_without_a_block_does_nothing(
    s: Ev,
    ans: Seq<Answer>,
    args: Seq<CallArg>,
    parents: Seq<Seq<char>>,
    d: Drain,
    fuel: nat,
)
    requires
        s.contents.len() == 0 || s.contents.last() is None,
    ensures
        content_run(s, ans, args, parents, d, fuel) == (Ok::<Drain, Halt>(d), s),
{
}

/// An import of CSS is written as it is and changes nothing else.
pub proof fn css_import_passes_through(
    s: Ev,
    ans: Seq<Answer>,
    path: String,
    pos: Pos,
    length: usize,
    parents: Seq<Seq<char>>,
    d: Drain,
    fuel: nat,
)
    requires
        css_import(path@),
    ensures
        run_import(s, ans, ImportArg::Sass { path, pos, length }, parents, d, fuel) == (
            Ok::<Drain, Halt>(with_at_rule(d, import_node("\""@ + path@ + "\""@))),
            s,
        ),
{
}

/// An import is asked for once: where an `@import` found a file, and whatever is evaluated after
/// it, an `@import` of the same URL from the same directory asks for no file, finds what the first
/// one found, and evaluates that again. What the first run found it still holds at its end, and
/// nothing that is evaluated drops it: `Evaluator::eval_imports` ensures the one, and every step of
/// an evaluation the other.
pub proof fn import_is_asked_for_once(
    first: Ev,
    ans: Seq<Answer>,
    args: Seq<ImportArg>,
    i: int,
    parents: Seq<Seq<char>>,
    d: Drain,
    fuel: nat,
    second: Ev,
    later_ans: Seq<Answer>,
    later_args: Seq<ImportArg>,
    j: int,
    later_parents: Seq<Seq<char>>,
    later_d: Drain,
    later_fuel: nat,
)
    requires
        0 <= i < args.len(),
        0 <= j < later_args.len(),
        args[i] is Sass,
        later_args[j] is Sass,
        args[i]->path@ == later_args[j]->path@,
        !css_import(args[i]->path@),
        second.page.file_dir == first.page.file_dir,
        ({
            let run = run_imports(first, ans, args, i, parents, d, fuel);
            &&& run.0 is Ok
            &&& imports_held(run.1, first, ans, args, i, parents, d, fuel)
            &&& loads_kept(run.1, second)
        }),
    ensures
        argument_found(first, ans, args[i]) is Some,
        ({
            let found = argument_found(first, ans, args[i])->0;
            let run = run_imports(
                second,
                later_ans,
                later_args,
                j,
                later_parents,
                later_d,
                later_fuel,
            );
            match import_warned(second, later_ans, later_args[j]->pos, later_args[j]->length) {
                (Err(h), s1) => run == (Err::<Drain, Halt>(h), s1),
                (Ok(_), s1) => if s1.page.loading.contains(found.path) {
                    run == fail::<Drain>(fault("This file is already being loaded."@), s1)
                } else {
                    run == match file_imported(
                        s1,
                        later_ans,
                        found,
                        later_parents,
                        later_d,
                        later_fuel,
                    ) {
                        (Err(h), s2) => (Err::<Drain, Halt>(h), s2),
                        (Ok(d1), s2) => run_imports(
                            s2,
                            later_ans,
                            later_args,
                            j + 1,
                            later_parents,
                            d1,
                            later_fuel,
                        ),
                    }
                },
            }
        }),
{
    let run = run_imports(first, ans, args, i, parents, d, fuel);
    lemma_argument_of_run(first, ans, args[i], parents, d, fuel);
    let e = argument_found(first, ans, args[i])->0;
    assert(import_held(run.1, e)) by {
        reveal_with_fuel(imports_held, 1);
    }
    lemma_held_stays(run.1, second, e);
    lemma_import_of_held(second, later_ans, later_args[j], e, later_parents, later_d, later_fuel);
}

/// An argument that was evaluated has found a file, under its URL and for the directory.
proof fn lemma_argument_of_run(
    s: Ev,
    ans: Seq<Answer>,
    arg: ImportArg,
    parents: Seq<Seq<char>>,
    d: Drain,
    fuel: nat,
)
    requires
        arg is Sass,
        !css_import(arg->path@),
        run_import(s, ans, arg, parents, d, fuel).0 is Ok,
    ensures
        argument_found(s, ans, arg) is Some,
        argument_found(s, ans, arg)->0.path == arg->path@,
        argument_found(s, ans, arg)->0.base == s.page.file_dir,
{
    reveal(argument_found);
    reveal(import_found);
    let w = import_warned(s, ans, arg->pos, arg->length);
    lemma_warning_keeps(s, ans, arg->pos, arg->length);
    lemma_import_place(w.1.page.imports, arg->path@, w.1.page.file_dir, 0);
}

/// An argument whose file is held asks for none.
proof fn lemma_import_of_held(
    s: Ev,
    ans: Seq<Answer>,
    arg: ImportArg,
    e: Imported,
    parents: Seq<Seq<char>>,
    d: Drain,
    fuel: nat,
)
    requires
        arg is Sass,
        !css_import(arg->path@),
        import_held(s, e),
        e.path == arg->path@,
        e.base == s.page.file_dir,
    ensures
        run_import(s, ans, arg, parents, d, fuel) == match import_warned(s, ans, arg->pos, arg->length) {
            (Err(h), s1) => (Err::<Drain, Halt>(h), s1),
            (Ok(_), s1) => if s1.page.loading.contains(e.path) {
                fail(fault("This file is already being loaded."@), s1)
            } else {
                file_imported(s1, ans, e, parents, d, fuel)
            },
        },
{
    reveal(import_found);
    reveal(import_held);
    lemma_warning_keeps(s, ans, arg->pos, arg->length);
}

/// A warning changes nothing of what has been loaded, nor the directory.
proof fn lemma_warning_keeps(s: Ev, ans: Seq<Answer>, pos: Pos, length: usize)
    ensures
        import_warned(s, ans, pos, length).1.page.imports == s.page.imports,
        import_warned(s, ans, pos, length).1.page.file_dir == s.page.file_dir,
{
    reveal(import_warned);
}

/// An `@extend` outside style rules is an error.
pub proof fn extend_needs_a_rule(
    s: Ev,
    ans: Seq<Answer>,
    selector: Seq<TplPiece>,
    optional: bool,
    pos: Pos,
    fuel: nat,
)
    ensures
        extended(s, ans, selector, optional, pos, Seq::empty(), fuel) == (
            Err::<(), Halt>(
                Halt::Error(fault_at("@extend may only be used within style rules."@, pos)),
            ),
            s,
        ),
{
    reveal(extended);
}

// ---- reports -------------------------------------------------------------

/// A file keeps its number.
pub proof fn file_keeps_its_number(s: Ev)
    ensures
        file_number(file_number(s).1).0 == file_number(s).0,
        file_number(file_number(s).1).1 == file_number(s).1,
{
    let k = place_in(s.page.file_ids, s.report.url, 0);
    lemma_place_in(s.page.file_ids, s.report.url, 0);
    let s1 = file_number(s).1;
    if k >= s.page.file_ids.len() {
        lemma_place_in_pushed(s.page.file_ids, s.report.url, 0);
    }
}

proof fn lemma_place_in(list: Seq<Seq<char>>, t: Seq<char>, i: int)
    requires
        0 <= i <= list.len(),
    ensures
        i <= place_in(list, t, i) <= list.len(),
        place_in(list, t, i) < list.len() ==> list[place_in(list, t, i)] == t,
    decreases list.len() - i,
{
    if i < list.len() && list[i] != t {
        lemma_place_in(list, t, i + 1);
    }
}

proof fn lemma_place_in_pushed(list: Seq<Seq<char>>, t: Seq<char>, i: int)
    requires
        0 <= i <= list.len(),
        place_in(list, t, i) == list.len(),
    ensures
        place_in(list.push(t), t, i) == list.len(),
    decreases list.len() - i,
{
    if i < list.len() {
        assert(list[i] != t) by {
            lemma_place_in(list, t, i);
        }
        assert(list.push(t)[i] == list[i]);
        lemma_place_in_pushed(list, t, i + 1);
    } else {
        assert(list.push(t)[i] == t);
    }
}

/// An import is warned of once at each place, and never more often than the limit in all.
pub proof fn import_warnings_are_limited(s: Ev, ans: Seq<Answer>, pos: Pos, length: usize)
    requires
        s.page.shown <= warning_limit(),
    ensures
        import_warned(s, ans, pos, length).1.page.shown <= warning_limit(),
        s.page.seen.contains((s.report.url, pos)) ==> import_warned(s, ans, pos, length) == (
            Ok::<(), Halt>(()),
            s,
        ),
        s.report.enabled ==> import_warned(s, ans, pos, length).1.page.seen.contains(
            (s.report.url, pos),
        ),
{
    reveal(import_warned);
    let seen = spot_seen(s, pos).page.seen;
    assert(seen[seen.len() - 1] == (s.report.url, pos));
}

// ---- extensions ----------------------------------------------------------

/// A placeholder whose name is private is extended in its own module only.
pub proof fn private_placeholders_stay_private(x: Exts, k: int, scope: Seq<char>)
    requires
        0 <= k < x.list.len(),
        private_target(x.list[k].target),
        applies(x, k, scope),
    ensures
        x.list[k].origin == scope,
{
}

/// An `@extend` applies in the module that it is written in.
pub proof fn extension_applies_at_home(x: Exts, k: int)
    requires
        0 <= k < x.list.len(),
    ensures
        applies(x, k, x.list[k].origin),
{
}

proof fn lemma_reach_keeps(edges: Seq<(Seq<char>, Seq<Seq<char>>)>, key: Seq<char>, seen: Seq<Seq<char>>, hops: nat, t: Seq<char>)
    requires
        seen.contains(t),
    ensures
        reach(edges, key, seen, hops).contains(t),
    decreases hops, 0nat, 0int,
{
    if hops > 0 && !seen.contains(key) {
        let more = seen.push(key);
        let i = choose|i: int| 0 <= i < seen.len() && seen[i] == t;
        assert(more[i] == t);
        lemma_reach_all_keeps(edges, reached(edges, key), 0, more, (hops - 1) as nat, t);
    }
}

proof fn lemma_reach_all_keeps(
    edges: Seq<(Seq<char>, Seq<Seq<char>>)>,
    keys: Seq<Seq<char>>,
    i: int,
    seen: Seq<Seq<char>>,
    hops: nat,
    t: Seq<char>,
)
    requires
        seen.contains(t),
    ensures
        reach_all(edges, keys, i, seen, hops).contains(t),
    decreases hops, 1nat, keys.len() - i,
{
    if 0 <= i < keys.len() {
        lemma_reach_keeps(edges, keys[i], seen, hops, t);
        lemma_reach_all_keeps(edges, keys, i + 1, reach(edges, keys[i], seen, hops), hops, t);
    }
}

/// A module sees itself.
pub proof fn module_sees_itself(edges: Seq<(Seq<char>, Seq<Seq<char>>)>, key: Seq<char>)
    ensures
        all_reached(edges, key).contains(key),
{
    let seen = Seq::<Seq<char>>::empty().push(key);
    assert(seen[0] == key);
    lemma_reach_all_keeps(edges, reached(edges, key), 0, seen, edges.len(), key);
}

/// What a module loads, it sees.
pub proof fn module_sees_what_it_loads(
    edges: Seq<(Seq<char>, Seq<Seq<char>>)>,
    key: Seq<char>,
    to: Seq<char>,
)
    requires
        reached(edges, key).contains(to),
    ensures
        all_reached(edges, key).contains(to),
{
    let keys = reached(edges, key);
    let i = choose|i: int| 0 <= i < keys.len() && keys[i] == to;
    assert(edges.len() > 0) by {
        if edges.len() == 0 {
            reveal_with_fuel(entry, 2);
        }
    }
    let seen = Seq::<Seq<char>>::empty().push(key);
    lemma_reach_all_visits(edges, keys, 0, seen, edges.len(), i);
}

proof fn lemma_reach_all_visits(
    edges: Seq<(Seq<char>, Seq<Seq<char>>)>,
    keys: Seq<Seq<char>>,
    i: int,
    seen: Seq<Seq<char>>,
    hops: nat,
    k: int,
)
    requires
        hops > 0,
        0 <= i <= k < keys.len(),
    ensures
        reach_all(edges, keys, i, seen, hops).contains(keys[k]),
    decreases k - i,
{
    let next = reach(edges, keys[i], seen, hops);
    if i == k {
        assert(next.contains(keys[k])) by {
            if !seen.contains(keys[k]) {
                let more = seen.push(keys[k]);
                assert(more[more.len() - 1] == keys[k]);
                lemma_reach_all_keeps(
                    edges,
                    reached(edges, keys[k]),
                    0,
                    more,
                    (hops - 1) as nat,
                    keys[k],
                );
            }
        }
        lemma_reach_all_keeps(edges, keys, i + 1, next, hops, keys[k]);
    } else {
        lemma_reach_all_visits(edges, keys, i + 1, next, hops, k);
    }
}

/// The order of extensions: each once, and none before one that sees more.
pub proof fn extensions_are_ordered(sees: Seq<Seq<Seq<char>>>, n: nat)
    requires
        n <= sees.len(),
    ensures
        ranked(sees, n).len() == n,
        forall|i: int| 0 <= i < n ==> 0 <= #[trigger] ranked(sees, n)[i] < n,
        forall|i: int, j: int|
            0 <= i < j < n ==> #[trigger] ranked(sees, n)[i] != #[trigger] ranked(sees, n)[j],
        forall|i: int, j: int|
            0 <= i < j < n ==> sees[#[trigger] ranked(sees, n)[i]].len() >= sees[#[trigger] ranked(
                sees,
                n,
            )[j]].len(),
    decreases n,
{
    if n > 0 {
        let before = ranked(sees, (n - 1) as nat);
        extensions_are_ordered(sees, (n - 1) as nat);
        let p = rank_place(sees, before, n - 1, 0);
        lemma_rank_place(sees, before, n - 1, 0);
        let after = before.insert(p, n - 1);
        assert(after == ranked(sees, n));
        assert forall|i: int, j: int| 0 <= i < j < n implies sees[#[trigger] after[i]].len()
            >= sees[#[trigger] after[j]].len() by {
            let bi = if i < p {
                before[i]
            } else {
                before[i - 1]
            };
            let bj = if j < p {
                before[j]
            } else {
                before[j - 1]
            };
            if i == p {
                assert(after[j] == before[j - 1]);
                if p < before.len() {
                    assert(sees[before[p]].len() >= sees[before[j - 1]].len());
                }
            } else if j == p {
                assert(after[i] == before[i]);
            } else {
                assert(after[i] == bi);
                assert(after[j] == bj);
            }
        }
    }
}

proof fn lemma_rank_place(sees: Seq<Seq<Seq<char>>>, order: Seq<int>, k: int, i: int)
    requires
        0 <= i <= order.len(),
        forall|j: int| 0 <= j < i ==> sees[#[trigger] order[j]].len() >= sees[k].len(),
    ensures
        ({
            let p = rank_place(sees, order, k, i);
            &&& 0 <= p <= order.len()
            &&& forall|j: int| 0 <= j < p ==> sees[#[trigger] order[j]].len() >= sees[k].len()
            &&& p < order.len() ==> sees[order[p]].len() < sees[k].len()
        }),
    decreases order.len() - i,
{
    if i < order.len() && sees[order[i]].len() >= sees[k].len() {
        lemma_rank_place(sees, order, k, i + 1);
    }
}

/// A node that the extension pass has nothing to do with: no placeholder in it, nothing empty that
/// would be dropped.
pub open spec fn settled_node(n: Node) -> bool
    decreases n,
{
    match n {
        Node::Rule { selectors, linebreaks, items, lines } => !any_placeholder(selectors),
        Node::ModuleScope { key, nodes } => !all_blank(nodes) && settled(nodes),
        Node::AtRule { name, prelude, body, has_block, lines } => !(has_block && body.len() == 0 && (name
            == "media"@ || name == "supports"@)) && (keyframes_name(name) || settled(body)),
        _ => true,
    }
}

pub open spec fn settled(list: Seq<Node>) -> bool
    decreases list,
{
    forall|i: int| 0 <= i < list.len() ==> settled_node(#[trigger] list[i])
}

/// Without an `@extend`, and where no rule holds a placeholder and nothing is empty, the extension
/// pass leaves a document exactly as it is, and asks nothing.
pub proof fn pass_without_extensions_changes_nothing(
    s: Ev,
    ans: Seq<Answer>,
    x: Exts,
    list: Seq<Node>,
    scope: Seq<char>,
    matched: Seq<u64>,
)
    requires
        x.order.len() == 0,
        settled(list),
    ensures
        rewritten(s, ans, x, list, scope, matched) == (
            Ok::<(Seq<Node>, Seq<u64>), Halt>((list, matched)),
            s,
        ),
    decreases list, list.len() + 1,
{
    lemma_inside_unchanged(s, ans, x, list, 0, scope, matched);
    assert(list.take(0) =~= Seq::empty());
    lemma_swept_unchanged(s, ans, list, 0, scope, matched);
}

proof fn lemma_inside_unchanged(
    s: Ev,
    ans: Seq<Answer>,
    x: Exts,
    list: Seq<Node>,
    i: int,
    scope: Seq<char>,
    matched: Seq<u64>,
)
    requires
        x.order.len() == 0,
        settled(list),
        0 <= i <= list.len(),
    ensures
        rewritten_inside(s, ans, x, list, i, scope, list.take(i), matched) == (
            Ok::<(Seq<Node>, Seq<u64>), Halt>((list, matched)),
            s,
        ),
    decreases list, list.len() - i,
{
    if i < list.len() {
        assert(settled_node(list[i]));
        assert(list.take(i + 1) =~= list.take(i).push(list[i]));
        match list[i] {
            Node::ModuleScope { key, nodes } => {
                pass_without_extensions_changes_nothing(s, ans, x, nodes, key, matched);
            },
            Node::AtRule { name, prelude, body, has_block, lines } => {
                if !keyframes_name(name) {
                    pass_without_extensions_changes_nothing(s, ans, x, body, scope, matched);
                }
            },
            _ => {},
        }
        lemma_inside_unchanged(s, ans, x, list, i + 1, scope, matched);
    } else {
        assert(list.take(i) =~= list);
    }
}

proof fn lemma_swept_unchanged(s: Ev, ans: Seq<Answer>, list: Seq<Node>, i: int, scope: Seq<char>, matched: Seq<u64>)
    requires
        settled(list),
        0 <= i <= list.len(),
    ensures
        swept(s, ans, list, i, scope, Seq::empty(), list.take(i), matched) == (
            Ok::<(Seq<Node>, Seq<u64>), Halt>((list, matched)),
            s,
        ),
    decreases list.len() - i,
{
    if i < list.len() {
        assert(settled_node(list[i]));
        assert(list.take(i + 1) =~= list.take(i).push(list[i]));
        assert(matched + Seq::<u64>::empty() =~= matched);
        lemma_swept_unchanged(s, ans, list, i + 1, scope, matched);
    } else {
        assert(list.take(i) =~= list);
    }
}

} // verus!
