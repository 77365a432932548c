//! What evaluation knows of the output under way and of the files it comes from.

use std::rc::Rc;
use vstd::prelude::*;
use crate::ast::Stylesheet;
use crate::at_root::{AtCtx, Layer, layers};
use crate::env::{ForwardedBuiltin, Passed, origins, passed};
use crate::error::Pos;
use crate::host::named_vals;
use crate::media::{Query, ResolvedQuery, queries};
use crate::out::{Node, OutNode};
use crate::state::{Ids, Vars, ids, pairs_of_text};
use crate::text::{text_of, texts};
use crate::tree::forest;
use crate::value::Value;

verus! {

/// An `@extend` to be applied when everything has been evaluated.
#[derive(Debug)]
pub struct PendingExtend {
    pub target: String,
    pub extenders: Vec<String>,
    pub breaks: Vec<bool>,
    pub optional: bool,
    pub in_media: bool,
    pub origin: String,
    pub pos: Pos,
}

/// What a [`PendingExtend`] is.
pub ghost struct Pending {
    pub target: Seq<char>,
    pub extenders: Seq<Seq<char>>,
    pub breaks: Seq<bool>,
    pub optional: bool,
    pub in_media: bool,
    pub origin: Seq<char>,
    pub pos: Pos,
}

impl View for PendingExtend {
    type V = Pending;

    open spec fn view(&self) -> Pending {
        Pending {
            target: self.target@,
            extenders: texts(self.extenders@),
            breaks: self.breaks@,
            optional: self.optional,
            in_media: self.in_media,
            origin: self.origin@,
            pos: self.pos,
        }
    }
}

pub open spec fn pendings(v: Seq<PendingExtend>) -> Seq<Pending> {
    Seq::new(v.len(), |i: int| v[i]@)
}

/// What the `@forward` rules of a module re-export.
#[derive(Debug)]
pub struct Forwarded {
    pub vars: Vec<(String, Value)>,
    pub functions: Vec<(String, usize)>,
    pub mixins: Vec<(String, usize)>,
    pub var_origins: Vec<(String, (usize, String))>,
    pub fn_origins: Vec<(String, usize)>,
    pub mixin_origins: Vec<(String, usize)>,
    pub builtins: Vec<ForwardedBuiltin>,
}

/// What a [`Forwarded`] holds.
pub ghost struct Exports {
    pub vars: Vars,
    pub functions: Ids,
    pub mixins: Ids,
    pub var_origins: Seq<(Seq<char>, (usize, Seq<char>))>,
    pub fn_origins: Ids,
    pub mixin_origins: Ids,
    pub builtins: Seq<Passed>,
}

impl View for Forwarded {
    type V = Exports;

    open spec fn view(&self) -> Exports {
        Exports {
            vars: named_vals(self.vars@),
            functions: ids(self.functions@),
            mixins: ids(self.mixins@),
            var_origins: origins(self.var_origins@),
            fn_origins: ids(self.fn_origins@),
            mixin_origins: ids(self.mixin_origins@),
            builtins: passed(self.builtins@),
        }
    }
}

pub open spec fn no_exports() -> Exports {
    Exports {
        vars: Seq::empty(),
        functions: Seq::empty(),
        mixins: Seq::empty(),
        var_origins: Seq::empty(),
        fn_origins: Seq::empty(),
        mixin_origins: Seq::empty(),
        builtins: Seq::empty(),
    }
}

impl Forwarded {
    /// Nothing re-exported.
    pub fn none() -> (r: Forwarded)
        ensures
            r@ == no_exports(),
    {
        let r = Forwarded {
            vars: Vec::new(),
            functions: Vec::new(),
            mixins: Vec::new(),
            var_origins: Vec::new(),
            fn_origins: Vec::new(),
            mixin_origins: Vec::new(),
            builtins: Vec::new(),
        };
        proof {
            assert(r@.vars =~= Seq::empty());
            assert(r@.functions =~= Seq::empty());
            assert(r@.mixins =~= Seq::empty());
            assert(r@.var_origins =~= Seq::empty());
            assert(r@.fn_origins =~= Seq::empty());
            assert(r@.mixin_origins =~= Seq::empty());
            assert(r@.builtins =~= Seq::empty());
        }
        r
    }
}

/// An import that was resolved: the path and the directory it was imported from, the key of the
/// file, whether it is plain CSS, and its syntax tree.
#[derive(Debug)]
pub struct CachedImport {
    pub path: String,
    pub base: Option<String>,
    pub key: String,
    pub css: bool,
    pub sheet: Rc<Stylesheet>,
}

/// What a [`CachedImport`] is.
pub ghost struct Imported {
    pub path: Seq<char>,
    pub base: Option<Seq<char>>,
    pub key: Seq<char>,
    pub css: bool,
    pub sheet: Stylesheet,
}

impl View for CachedImport {
    type V = Imported;

    open spec fn view(&self) -> Imported {
        Imported {
            path: self.path@,
            base: text_of(self.base),
            key: self.key@,
            css: self.css,
            sheet: *self.sheet,
        }
    }
}

pub open spec fn importeds(v: Seq<CachedImport>) -> Seq<Imported> {
    Seq::new(v.len(), |i: int| v[i]@)
}

/// The keys that each key leads to.
pub open spec fn edges_of(v: Seq<(String, Vec<String>)>) -> Seq<(Seq<char>, Seq<Seq<char>>)> {
    Seq::new(v.len(), |i: int| (v[i].0@, texts(v[i].1@)))
}

pub open spec fn clone_of(o: Option<(String, Vec<String>)>) -> Option<(Seq<char>, Seq<Seq<char>>)> {
    match o {
        Some(t) => Some((t.0@, texts(t.1@))),
        None => None,
    }
}

/// Where a warning has been given.
pub open spec fn spots(v: Seq<(String, Pos)>) -> Seq<(Seq<char>, Pos)> {
    Seq::new(v.len(), |i: int| (v[i].0@, v[i].1))
}

#[derive(Debug)]
pub struct Page {
    /// The directory of the file under evaluation.
    pub file_dir: Option<String>,
    /// Which selectors of the enclosing rule begin on a line of their own.
    pub linebreaks: Vec<bool>,
    /// The name that nested properties have before their own.
    pub prefix: Option<String>,
    pub keyframes: bool,
    /// Inside `@at-root`, before the first rule in it.
    pub at_root: bool,
    /// The queries of the enclosing `@media` rule.
    pub media: Vec<ResolvedQuery>,
    /// What bubbles out of the enclosing `@media` rule, batch by batch.
    pub media_hoist: Vec<Vec<OutNode>>,
    /// What `@at-root` moves out of the enclosing at-rules, batch by batch.
    pub at_root_hoist: Vec<Vec<OutNode>>,
    /// The enclosing at-rules, outermost first.
    pub layers: Vec<AtCtx>,
    /// The files being loaded, innermost last.
    pub loading: Vec<String>,
    /// The key of the module under evaluation; empty for the entry file.
    pub module: String,
    /// The modules loaded so far, by key.
    pub cache: Vec<(String, usize)>,
    /// The imports resolved so far.
    pub imports: Vec<CachedImport>,
    /// What each module loads, copies among it.
    pub deps: Vec<(String, Vec<String>)>,
    /// What each module loads, without copies, in the order of loading.
    pub order: Vec<(String, Vec<String>)>,
    /// The copies of modules' CSS: the key of the copy, and that of the module.
    pub copies: Vec<(String, String)>,
    pub copy_counter: usize,
    pub config_counter: usize,
    /// The copy that the loads inside an import share, and the modules already in it.
    pub import_clone: Option<(String, Vec<String>)>,
    /// What the module under evaluation re-exports so far.
    pub forwarded: Forwarded,
    /// The global variables that an import took from a module, with the module.
    pub forwarded_globals: Vec<(String, usize)>,
    pub extends: Vec<PendingExtend>,
    /// The selectors left out for their combinators.
    pub bogus: Vec<String>,
    /// The selectors with placeholders, each after the module it stands in.
    pub placeholders: Vec<(String, String)>,
    /// The files that output comes from; a file's number is its place here, from one.
    pub file_ids: Vec<String>,
    /// How many import warnings have been given, and how many were left out.
    pub shown: u32,
    pub omitted: u32,
    /// Where an import warning has been due.
    pub seen: Vec<(String, Pos)>,
}

/// What a [`Page`] holds.
pub ghost struct Leaf {
    pub file_dir: Option<Seq<char>>,
    pub linebreaks: Seq<bool>,
    pub prefix: Option<Seq<char>>,
    pub keyframes: bool,
    pub at_root: bool,
    pub media: Seq<Query>,
    pub media_hoist: Seq<Seq<Node>>,
    pub at_root_hoist: Seq<Seq<Node>>,
    pub layers: Seq<Layer>,
    pub loading: Seq<Seq<char>>,
    pub module: Seq<char>,
    pub cache: Ids,
    pub imports: Seq<Imported>,
    pub deps: Seq<(Seq<char>, Seq<Seq<char>>)>,
    pub order: Seq<(Seq<char>, Seq<Seq<char>>)>,
    pub copies: Seq<(Seq<char>, Seq<char>)>,
    pub copy_counter: usize,
    pub config_counter: usize,
    pub import_clone: Option<(Seq<char>, Seq<Seq<char>>)>,
    pub forwarded: Exports,
    pub forwarded_globals: Ids,
    pub extends: Seq<Pending>,
    pub bogus: Seq<Seq<char>>,
    pub placeholders: Seq<(Seq<char>, Seq<char>)>,
    pub file_ids: Seq<Seq<char>>,
    pub shown: u32,
    pub omitted: u32,
    pub seen: Seq<(Seq<char>, Pos)>,
}

/// What a page holds. It is revealed where a field of the page is read or set.
#[verifier::opaque]
pub open spec fn leaf_of(p: Page) -> Leaf {
    Leaf {
        file_dir: text_of(p.file_dir),
        linebreaks: p.linebreaks@,
        prefix: text_of(p.prefix),
        keyframes: p.keyframes,
        at_root: p.at_root,
        media: queries(p.media@),
        media_hoist: forest(p.media_hoist@),
        at_root_hoist: forest(p.at_root_hoist@),
        layers: layers(p.layers@),
        loading: texts(p.loading@),
        module: p.module@,
        cache: ids(p.cache@),
        imports: importeds(p.imports@),
        deps: edges_of(p.deps@),
        order: edges_of(p.order@),
        copies: pairs_of_text(p.copies@),
        copy_counter: p.copy_counter,
        config_counter: p.config_counter,
        import_clone: clone_of(p.import_clone),
        forwarded: p.forwarded@,
        forwarded_globals: ids(p.forwarded_globals@),
        extends: pendings(p.extends@),
        bogus: texts(p.bogus@),
        placeholders: pairs_of_text(p.placeholders@),
        file_ids: texts(p.file_ids@),
        shown: p.shown,
        omitted: p.omitted,
        seen: spots(p.seen@),
    }
}

impl View for Page {
    type V = Leaf;

    open spec fn view(&self) -> Leaf {
        leaf_of(*self)
    }
}

} // verus!
