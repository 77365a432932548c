//! Compiling a source, step by step.
//!
//! [`compile`] is a function of the source, the options and the answers given so far. It comes to
//! the CSS, to an error, or to the next thing that it needs; with that answer added it is called
//! again.

use std::rc::Rc;
use vstd::prelude::*;
use crate::analysis::{DeclScope, body_fault, validate_declarations};
use crate::ast::Stylesheet;
use crate::configs::no_settings;
use crate::decls::{empty_nodes, out_nodes, warnings_counted};
use crate::env::{Chain, Uses};
use crate::error::{Error, Fault, Note, Notice, copy_notices, fault, note_text, notes};
use crate::eval::{
    Conf, Config, Ev, Evaluator, Rep, Report, Run, ev_of, fail, same_place, with_scope,
};
use crate::exports::no_vars;
use crate::expr::empty_strings;
use crate::extends::extensions_applied;
use crate::host::{Answer, Ask, Halt, Request, Source, Stop};
use crate::install::{no_scopes, no_uses};
use crate::options::{Importer, Options, OutputStyle, Syntax};
use crate::out::{Node, OutNode, nodes};
use crate::page::{Forwarded, Leaf, Page, leaf_of, no_exports};
use crate::report::{finalized, rendered_error, trace_at};
use crate::run::sink_nodes;
use crate::sink::{Drain, Sink};
use crate::paths::{directory, directory_of};
use crate::sources::{ask_parse, asked_sheet, request_parse};
use crate::statements::{drain_nodes, run_block};
use crate::tree::{hoist_css_imports, hoisted};

verus! {

broadcast use crate::kept::group_kept;

/// What a compilation has come to.
#[derive(Debug)]
pub enum Step {
    /// The CSS is done.
    Done(String),
    /// The source is wrong.
    Failed(Error),
    /// Everything is evaluated; the text of this output is needed.
    Write(Vec<OutNode>),
    /// An answer is needed.
    Need(Request),
    /// Calls and expressions nest too deeply.
    Depth,
    /// An answer is not of the kind that was asked for.
    Mismatch,
}

/// What a [`Step`] is.
pub ghost enum Next {
    Done(Seq<char>),
    Failed(Fault),
    Write(Seq<Node>),
    Need(Ask),
    Depth,
    Mismatch,
}

impl View for Step {
    type V = Next;

    open spec fn view(&self) -> Next {
        match *self {
            Step::Done(t) => Next::Done(t@),
            Step::Failed(e) => Next::Failed(e@),
            Step::Write(list) => Next::Write(nodes(list@)),
            Step::Need(q) => Next::Need(q@),
            Step::Depth => Next::Depth,
            Step::Mismatch => Next::Mismatch,
        }
    }
}

/// A step of a compilation, with what it has reported on the way.
#[derive(Debug)]
pub struct Progress {
    pub step: Step,
    pub log: Vec<Notice>,
}

// ---- the state at the beginning ------------------------------------------

pub open spec fn no_page(dir: Seq<char>) -> Leaf {
    Leaf {
        file_dir: Some(dir),
        linebreaks: Seq::empty(),
        prefix: None,
        keyframes: false,
        at_root: false,
        media: Seq::empty(),
        media_hoist: Seq::empty(),
        at_root_hoist: Seq::empty(),
        layers: Seq::empty(),
        loading: Seq::empty(),
        module: Seq::empty(),
        cache: Seq::empty(),
        imports: Seq::empty(),
        deps: Seq::empty(),
        order: Seq::empty(),
        copies: Seq::empty(),
        copy_counter: 0,
        config_counter: 0,
        import_clone: None,
        forwarded: no_exports(),
        forwarded_globals: Seq::empty(),
        extends: Seq::empty(),
        bogus: Seq::empty(),
        placeholders: Seq::empty(),
        file_ids: Seq::empty(),
        shown: 0,
        omitted: 0,
        seen: Seq::empty(),
    }
}

/// The state in which an entry file is evaluated. Diagnostics show sources where there is one.
pub open spec fn started(source: Seq<char>, url: Seq<char>, compressed: bool) -> Ev {
    with_scope(
        Ev {
            frames: Seq::empty(),
            tables: Seq::empty(),
            callables: Seq::empty(),
            modules: Seq::empty(),
            chain: no_scopes(),
            uses: no_uses(),
            contents: Seq::empty(),
            in_mixin: Seq::empty(),
            selector: None,
            supports: false,
            plain: false,
            compressed,
            config: Conf {
                pending: Seq::empty(),
                consumed: Seq::empty(),
                implicit: false,
                id: 0,
            },
            report: Rep {
                enabled: source.len() > 0,
                member: "root stylesheet"@,
                calls: Seq::empty(),
                url,
                source,
                sources: seq![(url, source)],
                log: Seq::empty(),
            },
            asked: 0,
            page: no_page(Seq::empty()),
        },
        Seq::empty(),
        true,
    )
}

fn empty_page() -> (r: Page)
    ensures
        r@ == no_page(Seq::empty()),
{
    proof {
        reveal(ev_of);
    }
    proof {
        reveal(leaf_of);
    }
    let p = Page {
        file_dir: Some(String::new()),
        linebreaks: Vec::new(),
        prefix: None,
        keyframes: false,
        at_root: false,
        media: Vec::new(),
        media_hoist: Vec::new(),
        at_root_hoist: Vec::new(),
        layers: Vec::new(),
        loading: Vec::new(),
        module: String::new(),
        cache: Vec::new(),
        imports: Vec::new(),
        deps: Vec::new(),
        order: Vec::new(),
        copies: Vec::new(),
        copy_counter: 0,
        config_counter: 0,
        import_clone: None,
        forwarded: Forwarded::none(),
        forwarded_globals: Vec::new(),
        extends: Vec::new(),
        bogus: Vec::new(),
        placeholders: Vec::new(),
        file_ids: Vec::new(),
        shown: 0,
        omitted: 0,
        seen: Vec::new(),
    };
    proof {
        let e = no_page(Seq::empty());
        assert(p@.file_dir->0 =~= e.file_dir->0);
        assert(p@.linebreaks =~= e.linebreaks);
        assert(p@.media =~= e.media);
        assert(p@.media_hoist =~= e.media_hoist);
        assert(p@.at_root_hoist =~= e.at_root_hoist);
        assert(p@.layers =~= e.layers);
        assert(p@.loading =~= e.loading);
        assert(p@.module =~= e.module);
        assert(p@.cache =~= e.cache);
        assert(p@.imports =~= e.imports);
        assert(p@.deps =~= e.deps);
        assert(p@.order =~= e.order);
        assert(p@.copies =~= e.copies);
        assert(p@.forwarded_globals =~= e.forwarded_globals);
        assert(p@.extends =~= e.extends);
        assert(p@.bogus =~= e.bogus);
        assert(p@.placeholders =~= e.placeholders);
        assert(p@.file_ids =~= e.file_ids);
        assert(p@.seen =~= e.seen);
    }
    p
}

fn first_report(source: &str, url: &str) -> (r: Report)
    ensures
        r@ == (Rep {
            enabled: source@.len() > 0,
            member: "root stylesheet"@,
            calls: Seq::empty(),
            url: url@,
            source: source@,
            sources: seq![(url@, source@)],
            log: Seq::empty(),
        }),
{
    let mut sources: Vec<(String, String)> = Vec::new();
    sources.push((url.to_owned(), source.to_owned()));
    let r = Report {
        enabled: !source.is_empty(),
        member: "root stylesheet".to_owned(),
        calls: Vec::new(),
        url: url.to_owned(),
        source: source.to_owned(),
        sources,
        log: Vec::new(),
    };
    proof {
        assert(r@.calls =~= Seq::empty());
        assert(r@.sources =~= seq![(url@, source@)]);
        assert(r@.log =~= Seq::empty());
    }
    r
}

impl Evaluator {
    /// An evaluation that has not begun yet.
    pub fn new(source: &str, url: &str, compressed: bool) -> (r: Evaluator)
        ensures
            r@ == started(source@, url@, compressed),
    {
        let mut ev = Evaluator {
            frames: Vec::new(),
            tables: Vec::new(),
            callables: Vec::new(),
            modules: Vec::new(),
            chain: Chain::none(),
            uses: Uses::none(),
            contents: Vec::new(),
            in_mixin: Vec::new(),
            selector: None,
            supports: false,
            plain: false,
            compressed,
            config: Config {
                pending: no_settings(),
                consumed: empty_strings(),
                implicit: false,
                id: 0,
            },
            report: first_report(source, url),
            asked: 0,
            page: empty_page(),
        };
        proof {
            reveal(ev_of);
            assert(ev@.frames =~= Seq::empty());
            assert(ev@.tables =~= Seq::empty());
            assert(ev@.callables =~= Seq::empty());
            assert(ev@.modules =~= Seq::empty());
            assert(ev@.contents =~= Seq::empty());
            assert(ev@.in_mixin =~= Seq::empty());
        }
        ev.push_scope_frame(no_vars(), true);
        ev
    }
}

// ---- evaluation of a sheet -----------------------------------------------

/// How deep calls and expressions may nest.
pub open spec fn depth_limit() -> nat {
    usize::MAX as nat
}

/// What a syntax tree comes to: its output under the extensions in it, CSS imports first. An error
/// is rendered.
pub open spec fn sheet_output(s: Ev, ans: Seq<Answer>, sheet: Stylesheet) -> Run<Seq<Node>> {
    match run_block(
        s,
        ans,
        sheet.stmts@,
        Seq::empty(),
        Drain::Top(Seq::empty()),
        depth_limit(),
    ) {
        (Err(Halt::Error(f)), s1) => (Err(Halt::Error(finalized(s1, f))), warnings_counted(s1)),
        (Err(h), s1) => (Err(h), s1),
        (Ok(d), s1) => match extensions_applied(s1, ans, drain_nodes(d)) {
            (Err(h), s2) => (Err(h), s2),
            (Ok(list), s2) => (Ok(hoisted(list)), warnings_counted(s2)),
        },
    }
}

impl Evaluator {
    /// Evaluate a syntax tree.
    pub fn eval_sheet(&mut self, ans: &Vec<Answer>, sheet: &Stylesheet) -> (r: Result<Vec<OutNode>, Stop>)
        ensures
            (out_nodes(r), final(self)@) == sheet_output(old(self)@, ans@, *sheet),
            same_place(old(self)@, final(self)@),
    {
        match self.exec(
            ans,
            &sheet.stmts,
            &empty_strings(),
            Sink::Top(empty_nodes()),
            usize::MAX,
        ) {
            Err(Stop::Error(f)) => {
                let g = self.finalize_error(f);
                self.emit_deprecation_footer();
                Err(Stop::Error(g))
            },
            Err(x) => Err(x),
            Ok(sink) => match self.apply_extends(ans, &sink_nodes(sink)) {
                Err(x) => Err(x),
                Ok(list) => {
                    let mut list = list;
                    hoist_css_imports(&mut list);
                    self.emit_deprecation_footer();
                    Ok(list)
                },
            },
        }
    }
}

// ---- compilation ---------------------------------------------------------

/// The syntax tree of the entry file. An error in it is rendered where the input has a name.
pub open spec fn entry_sheet(
    s: Ev,
    ans: Seq<Answer>,
    source: Seq<char>,
    syntax: Syntax,
    url: Option<Seq<char>>,
) -> Run<Stylesheet> {
    match asked_sheet(s, ans, ask_parse(source, syntax)) {
        (Err(Halt::Error(f)), s1) => if url is Some && f.rendered is None && f.pos is Some {
            fail(
                Fault { rendered: Some(rendered_error(s1, f, trace_at(s1, f.pos->0))), ..f },
                s1,
            )
        } else {
            fail(f, s1)
        },
        other => other,
    }
}

/// The output of a source, from a state that has not begun yet: its syntax tree is read, checked
/// and evaluated.
pub open spec fn output_from(
    s: Ev,
    ans: Seq<Answer>,
    source: Seq<char>,
    syntax: Syntax,
    url: Option<Seq<char>>,
) -> Run<Seq<Node>> {
    match entry_sheet(s, ans, source, syntax, url) {
        (Err(h), s1) => (Err(h), s1),
        (Ok(sheet), s1) => match body_fault(sheet.stmts@, 0, DeclScope::Allowed) {
            Some(m) => fail(fault(m), s1),
            None => sheet_output(
                Ev {
                    page: Leaf {
                        file_dir: Some(
                            match directory(s1.report.url) {
                                Some(x) => x,
                                None => Seq::empty(),
                            },
                        ),
                        ..s1.page
                    },
                    ..s1
                },
                ans,
                sheet,
            ),
        },
    }
}

/// The output of a source.
pub open spec fn source_output(
    source: Seq<char>,
    syntax: Syntax,
    url: Option<Seq<char>>,
    compressed: bool,
    ans: Seq<Answer>,
) -> Run<Seq<Node>> {
    let s = match url {
        Some(u) => started(source, u, compressed),
        None => started(Seq::empty(), Seq::empty(), compressed),
    };
    output_from(s, ans, source, syntax, url)
}

/// The next step of a compilation, and what it has reported.
pub open spec fn compilation(
    source: Seq<char>,
    syntax: Syntax,
    url: Option<Seq<char>>,
    compressed: bool,
    ans: Seq<Answer>,
) -> (Next, Seq<Note>) {
    match source_output(source, syntax, url, compressed, ans) {
        (Err(Halt::Error(f)), s) => (Next::Failed(f), s.report.log),
        (Err(Halt::Need(q)), s) => (Next::Need(q), s.report.log),
        (Err(Halt::Depth), s) => (Next::Depth, s.report.log),
        (Err(Halt::Mismatch), s) => (Next::Mismatch, s.report.log),
        (Ok(list), s) => (
            if s.asked >= ans.len() {
                Next::Write(list)
            } else {
                match ans[s.asked as int] {
                    Answer::Text(t) => Next::Done(t@),
                    _ => Next::Mismatch,
                }
            },
            s.report.log,
        ),
    }
}

/// The next step of a compilation with these options, and what it has reported.
pub open spec fn outcome(source: Seq<char>, o: Options<'_>, ans: Seq<Answer>) -> (Next, Seq<Note>) {
    compilation(source, o.syntax, opt_view(o.url), o.style == OutputStyle::Compressed, ans)
}

pub open spec fn opt_view(o: Option<&str>) -> Option<Seq<char>> {
    match o {
        Some(t) => Some(t@),
        None => None,
    }
}

impl Evaluator {
    fn entry_sheet(&mut self, ans: &Vec<Answer>, source: &str, syntax: Syntax, named: bool, url: Ghost<
        Option<Seq<char>>,
    >) -> (r: Result<Rc<Stylesheet>, Stop>)
        requires
            named == (url@ is Some),
        ensures
            (match r {
                Ok(x) => Ok(*x),
                Err(e) => Err(e@),
            }, final(self)@) == entry_sheet(old(self)@, ans@, source@, syntax, url@),
            same_place(old(self)@, final(self)@),
    {
        match self.ask_sheet(ans, request_parse(source, syntax)) {
            Ok(x) => Ok(x),
            Err(Stop::Error(f)) => {
                if named && f.rendered.is_none() {
                    if let Some(pos) = f.pos {
                        let frames = self.frames_for(pos);
                        let n = self.render_error_with_frames(&f, &frames);
                        let mut f = f;
                        f.rendered = Some(n);
                        return Err(Stop::Error(f));
                    }
                }
                Err(Stop::Error(f))
            },
            Err(x) => Err(x),
        }
    }

    fn url_copy(&self) -> (r: String)
        ensures
            r@ == self@.report.url,
    {
        proof {
            reveal(ev_of);
        }
        self.report.url.clone()
    }

    fn set_dir(&mut self, dir: String)
        ensures
            final(self)@ == (Ev {
                page: Leaf { file_dir: Some(dir@), ..old(self)@.page },
                ..old(self)@
            }),
            same_place(old(self)@, final(self)@),
    {
        proof {
            reveal(ev_of);
            reveal(leaf_of);
        }
        self.page.file_dir = Some(dir);
    }

    fn source_output(&mut self, ans: &Vec<Answer>, source: &str, syntax: Syntax, url: Option<&str>) -> (r: Result<
        Vec<OutNode>,
        Stop,
    >)
        ensures
            (out_nodes(r), final(self)@) == output_from(
                old(self)@,
                ans@,
                source@,
                syntax,
                opt_view(url),
            ),
            same_place(old(self)@, final(self)@),
    {
        let sheet = match self.entry_sheet(
            ans,
            source,
            syntax,
            url.is_some(),
            Ghost(opt_view(url)),
        ) {
            Ok(x) => x,
            Err(x) => {
                return Err(x);
            },
        };
        match validate_declarations(&sheet) {
            Ok(()) => {},
            Err(e) => {
                return Err(Stop::Error(e));
            },
        }
        let name = self.url_copy();
        let dir = match directory_of(name.as_str()) {
            Some(d) => d,
            None => {
                let none = String::new();
                proof {
                    assert(none@ =~= Seq::empty());
                }
                none
            },
        };
        self.set_dir(dir);
        self.eval_sheet(ans, &sheet)
    }
}

/// Compile a source as far as the answers go.
pub fn compile(source: &str, options: &Options<'_>, ans: &Vec<Answer>) -> (r: Progress)
    ensures
        (r.step@, notes(r.log@)) == outcome(source@, *options, ans@),
{
    let compressed = options.style == OutputStyle::Compressed;
    proof {
        reveal(ev_of);
        reveal_strlit("");
        assert(""@ =~= Seq::<char>::empty());
    }
    let mut ev = match options.url {
        Some(u) => Evaluator::new(source, u, compressed),
        None => Evaluator::new("", "", compressed),
    };
    let r = ev.source_output(ans, source, options.syntax, options.url);
    let step = match r {
        Err(Stop::Error(e)) => Step::Failed(e),
        Err(Stop::Need(q)) => Step::Need(q),
        Err(Stop::Depth) => Step::Depth,
        Err(Stop::Mismatch) => Step::Mismatch,
        Ok(list) => {
            if ev.asked >= ans.len() {
                Step::Write(list)
            } else {
                match &ans[ev.asked] {
                    Answer::Text(t) => Step::Done(t.clone()),
                    _ => Step::Mismatch,
                }
            }
        },
    };
    Progress { step, log: copy_notices(&ev.report.log) }
}

/// The answer that a found file is.
pub fn source_answer(found: Option<(String, String, Syntax)>) -> (r: Answer)
    ensures
        match found {
            Some((key, text, syntax)) => r == Answer::Source(Source { key, text, syntax }),
            None => r == Answer::Nothing,
        },
{
    match found {
        Some((key, text, syntax)) => Answer::Source(Source { key, text, syntax }),
        None => Answer::Nothing,
    }
}

/// Whether an answer is what an importer may give for a module.
pub open spec fn module_answer<I: Importer + ?Sized>(
    importer: &I,
    url: &str,
    base_dir: Option<&str>,
    r: Answer,
) -> bool {
    exists|f: Option<(String, String, Syntax)>| #[trigger]
        call_ensures(I::resolve_module_with_syntax_in, (importer, url, base_dir), f) && match f {
            Some((key, text, syntax)) => r == Answer::Source(Source { key, text, syntax }),
            None => r == Answer::Nothing,
        }
}

/// Whether an answer is what an importer may give for an imported file.
pub open spec fn import_answer<I: Importer + ?Sized>(
    importer: &I,
    path: &str,
    base_dir: Option<&str>,
    r: Answer,
) -> bool {
    exists|f: Option<(String, String, Syntax)>| #[trigger]
        call_ensures(I::resolve_import_with_path, (importer, path, base_dir), f) && match f {
            Some((key, text, syntax)) => r == Answer::Source(Source { key, text, syntax }),
            None => r == Answer::Nothing,
        }
}

/// Ask an importer for a module.
pub fn module_of<I: Importer + ?Sized>(importer: &I, url: &str, base_dir: Option<&str>) -> (r: Answer)
    ensures
        module_answer(importer, url, base_dir, r),
{
    source_answer(importer.resolve_module_with_syntax_in(url, base_dir))
}

/// Ask an importer for an imported file.
pub fn import_of<I: Importer + ?Sized>(importer: &I, path: &str, base_dir: Option<&str>) -> (r: Answer)
    ensures
        import_answer(importer, path, base_dir, r),
{
    source_answer(importer.resolve_import_with_path(path, base_dir))
}

/// Ask the importer of the options for a module. Without an importer there is none.
pub fn find_module(options: &Options<'_>, url: &str, base_dir: Option<&str>) -> (r: Answer)
    ensures
        match options.importer {
            Some(i) => module_answer(i, url, base_dir, r),
            None => r == Answer::Nothing,
        },
{
    match options.importer {
        None => Answer::Nothing,
        Some(i) => module_of(i, url, base_dir),
    }
}

/// Ask the importer of the options for an imported file. Without an importer there is none.
pub fn find_import_file(options: &Options<'_>, path: &str, base_dir: Option<&str>) -> (r: Answer)
    ensures
        match options.importer {
            Some(i) => import_answer(i, path, base_dir, r),
            None => r == Answer::Nothing,
        },
{
    match options.importer {
        None => Answer::Nothing,
        Some(i) => import_of(i, path, base_dir),
    }
}

// ---- laws ----------------------------------------------------------------

/// Whether snippets are drawn with Unicode glyphs changes nothing of a compilation: not whether it
/// succeeds, nor the CSS, nor an error's message and position, nor what is asked. It shows in the
/// drawn snippet of a diagnostic alone.
pub proof fn glyphs_change_only_snippets(
    source: Seq<char>,
    a: Options<'_>,
    b: Options<'_>,
    ans: Seq<Answer>,
    n: Note,
    one: Seq<char>,
    other: Seq<char>,
)
    requires
        a.style == b.style,
        a.syntax == b.syntax,
        opt_view(a.url) == opt_view(b.url),
    ensures
        outcome(source, a, ans) == outcome(source, b, ans),
        n.excerpt is None ==> note_text(n, one) == note_text(n, other),
        n.excerpt is Some ==> note_text(n, one) == n.before + one + n.after && note_text(n, other)
            == n.before + other + n.after,
{
}

} // verus!
