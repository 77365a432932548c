//! Scopes, callables and modules, and the evaluator that holds them.

use std::rc::Rc;
use vstd::prelude::*;
use crate::ast::{Callable, ForwardMember, ParamList, Stmt};
use crate::host::named_vals;
use crate::names::{dash, dashed, normalize_var_name};
use crate::out::{Node, OutNode, copy_bools, nodes};
use crate::state::{Ids, entry, find_id, find_var, ids, lemma_entry_is, opt_val, pairs_of_text};
use crate::text::{clone_strings, holds_text, same_str, text_of, texts};
use crate::value::{Value, copy_value};

verus! {

// ---- scope chains --------------------------------------------------------

/// A chain of scopes, outermost first: indices of variable frames, whether each is semi-global,
/// and indices of the function and mixin tables that go with them.
#[derive(Debug)]
pub struct Chain {
    pub scopes: Vec<usize>,
    pub semi: Vec<bool>,
    pub functions: Vec<usize>,
    pub mixins: Vec<usize>,
}

/// What a [`Chain`] is.
pub ghost struct Scopes {
    pub scopes: Seq<usize>,
    pub semi: Seq<bool>,
    pub functions: Seq<usize>,
    pub mixins: Seq<usize>,
}

impl View for Chain {
    type V = Scopes;

    open spec fn view(&self) -> Scopes {
        Scopes {
            scopes: self.scopes@,
            semi: self.semi@,
            functions: self.functions@,
            mixins: self.mixins@,
        }
    }
}

pub fn copy_indices(v: &Vec<usize>) -> (r: Vec<usize>)
    ensures
        r@ == v@,
{
    let mut out: Vec<usize> = Vec::new();
    let mut i: usize = 0;
    while i < v.len()
        invariant
            i <= v@.len(),
            out@ =~= v@.take(i as int),
        decreases v@.len() - i,
    {
        out.push(v[i]);
        i += 1;
    }
    proof {
        assert(v@.take(i as int) =~= v@);
    }
    out
}

impl Chain {
    pub fn copy(&self) -> (r: Chain)
        ensures
            r@ == self@,
    {
        Chain {
            scopes: copy_indices(&self.scopes),
            semi: copy_bools(&self.semi),
            functions: copy_indices(&self.functions),
            mixins: copy_indices(&self.mixins),
        }
    }
}

// ---- modules in use ------------------------------------------------------

/// The modules in scope: built-in ones by namespace and without one, user-defined ones likewise.
#[derive(Debug)]
pub struct Uses {
    pub builtin: Vec<(String, String)>,
    pub star_builtin: Vec<String>,
    pub user: Vec<(String, usize)>,
    pub star_user: Vec<usize>,
}

/// What [`Uses`] holds.
pub ghost struct Used {
    pub builtin: Seq<(Seq<char>, Seq<char>)>,
    pub star_builtin: Seq<Seq<char>>,
    pub user: Ids,
    pub star_user: Seq<usize>,
}

impl View for Uses {
    type V = Used;

    open spec fn view(&self) -> Used {
        Used {
            builtin: pairs_of_text(self.builtin@),
            star_builtin: texts(self.star_builtin@),
            user: ids(self.user@),
            star_user: self.star_user@,
        }
    }
}

pub fn copy_text_pairs(v: &Vec<(String, String)>) -> (r: Vec<(String, String)>)
    ensures
        pairs_of_text(r@) == pairs_of_text(v@),
{
    let mut out: Vec<(String, String)> = Vec::new();
    let mut i: usize = 0;
    while i < v.len()
        invariant
            i <= v@.len(),
            out@.len() == i,
            forall|k: int| 0 <= k < i ==> #[trigger] out@[k] == v@[k],
        decreases v@.len() - i,
    {
        out.push((v[i].0.clone(), v[i].1.clone()));
        i += 1;
    }
    proof {
        assert(out@ =~= v@);
    }
    out
}

pub fn copy_ids(v: &Vec<(String, usize)>) -> (r: Vec<(String, usize)>)
    ensures
        r@ == v@,
{
    let mut out: Vec<(String, usize)> = Vec::new();
    let mut i: usize = 0;
    while i < v.len()
        invariant
            i <= v@.len(),
            out@.len() == i,
            forall|k: int| 0 <= k < i ==> #[trigger] out@[k] == v@[k],
        decreases v@.len() - i,
    {
        out.push((v[i].0.clone(), v[i].1));
        i += 1;
    }
    proof {
        assert(out@ =~= v@);
    }
    out
}

impl Uses {
    pub fn copy(&self) -> (r: Uses)
        ensures
            r@ == self@,
    {
        Uses {
            builtin: copy_text_pairs(&self.builtin),
            star_builtin: clone_strings(&self.star_builtin),
            user: copy_ids(&self.user),
            star_user: copy_indices(&self.star_user),
        }
    }
}

// ---- callables -----------------------------------------------------------

/// A user-defined function or mixin with the scopes of its definition.
#[derive(Debug)]
pub struct UserCallable {
    pub def: Rc<Callable>,
    pub chain: Chain,
}

/// What a [`UserCallable`] is.
pub ghost struct Closure {
    pub def: Callable,
    pub chain: Scopes,
}

impl View for UserCallable {
    type V = Closure;

    open spec fn view(&self) -> Closure {
        Closure { def: *self.def, chain: self.chain@ }
    }
}

pub open spec fn closures(v: Seq<UserCallable>) -> Seq<Closure> {
    Seq::new(v.len(), |i: int| v[i]@)
}

// ---- content blocks ------------------------------------------------------

/// A `@content` block, with the scopes and modules it runs in where they are not those of the
/// mixin.
#[derive(Debug)]
pub struct ContentBlock {
    pub stmts: Rc<Vec<Stmt>>,
    pub params: Option<Rc<ParamList>>,
    pub caller: Option<(Chain, Uses)>,
}

/// What a [`ContentBlock`] is.
pub ghost struct Block {
    pub stmts: Seq<Stmt>,
    pub params: Option<ParamList>,
    pub caller: Option<(Scopes, Used)>,
}

pub open spec fn rc_opt<T>(o: Option<Rc<T>>) -> Option<T> {
    match o {
        Some(r) => Some(*r),
        None => None,
    }
}

pub open spec fn opt_env(o: Option<(Chain, Uses)>) -> Option<(Scopes, Used)> {
    match o {
        Some(e) => Some((e.0@, e.1@)),
        None => None,
    }
}

impl View for ContentBlock {
    type V = Block;

    open spec fn view(&self) -> Block {
        Block { stmts: self.stmts@, params: rc_opt(self.params), caller: opt_env(self.caller) }
    }
}

pub open spec fn opt_block(o: Option<ContentBlock>) -> Option<Block> {
    match o {
        Some(b) => Some(b@),
        None => None,
    }
}

pub open spec fn blocks(v: Seq<Option<ContentBlock>>) -> Seq<Option<Block>> {
    Seq::new(v.len(), |i: int| opt_block(v[i]))
}

// ---- modules -------------------------------------------------------------

/// A built-in module that a module forwards.
#[derive(Debug)]
pub struct ForwardedBuiltin {
    pub module: String,
    pub prefix: Option<String>,
    pub show: Option<Vec<String>>,
    pub hide: Option<Vec<String>>,
}

/// What a [`ForwardedBuiltin`] is.
pub ghost struct Passed {
    pub module: Seq<char>,
    pub prefix: Option<Seq<char>>,
    pub show: Option<Seq<Seq<char>>>,
    pub hide: Option<Seq<Seq<char>>>,
}

pub open spec fn opt_texts(o: Option<Vec<String>>) -> Option<Seq<Seq<char>>> {
    match o {
        Some(v) => Some(texts(v@)),
        None => None,
    }
}

impl View for ForwardedBuiltin {
    type V = Passed;

    open spec fn view(&self) -> Passed {
        Passed {
            module: self.module@,
            prefix: text_of(self.prefix),
            show: opt_texts(self.show),
            hide: opt_texts(self.hide),
        }
    }
}

pub open spec fn passed(v: Seq<ForwardedBuiltin>) -> Seq<Passed> {
    Seq::new(v.len(), |i: int| v[i]@)
}

/// Whether a member passes the `show` and `hide` lists of a `@forward`: one that is shown, or where
/// nothing is shown, one that is not hidden.
pub open spec fn listed(show: Option<Seq<Seq<char>>>, hide: Option<Seq<Seq<char>>>, name: Seq<char>) -> bool {
    match show {
        Some(s) => s.contains(name),
        None => match hide {
            Some(h) => !h.contains(name),
            None => true,
        },
    }
}

pub fn is_listed(show: &Option<Vec<String>>, hide: &Option<Vec<String>>, name: &str) -> (r: bool)
    ensures
        r == listed(opt_texts(*show), opt_texts(*hide), name@),
{
    match show {
        Some(s) => holds_text(s, name),
        None => match hide {
            Some(h) => !holds_text(h, name),
            None => true,
        },
    }
}

impl ForwardedBuiltin {
    /// Whether a member of the module, by its own name, can be seen.
    pub fn visible(&self, bare: &str) -> (r: bool)
        ensures
            r == listed(self@.show, self@.hide, bare@),
    {
        is_listed(&self.show, &self.hide, bare)
    }
}

/// The members of a `show` or `hide` list that are variables, or that are not, in canonical
/// form.
pub open spec fn members(list: Seq<ForwardMember>, vars: bool) -> Seq<Seq<char>>
    decreases list.len(),
{
    if list.len() == 0 {
        Seq::empty()
    } else {
        let before = members(list.drop_last(), vars);
        match list.last() {
            ForwardMember::Var(n) => if vars {
                before.push(dashed(n@))
            } else {
                before
            },
            ForwardMember::Name(n) => if vars {
                before
            } else {
                before.push(dashed(n@))
            },
        }
    }
}

pub open spec fn opt_members(list: Option<Vec<ForwardMember>>, vars: bool) -> Option<Seq<Seq<char>>> {
    match list {
        Some(l) => Some(members(l@, vars)),
        None => None,
    }
}

pub fn member_set(list: &Option<Vec<ForwardMember>>, vars: bool) -> (r: Option<Vec<String>>)
    ensures
        opt_texts(r) == opt_members(*list, vars),
{
    match list {
        None => None,
        Some(l) => {
            let mut out: Vec<String> = Vec::new();
            let mut i: usize = 0;
            proof {
                assert(texts(out@) =~= Seq::empty());
            }
            while i < l.len()
                invariant
                    i <= l@.len(),
                    texts(out@) == members(l@.take(i as int), vars),
                decreases l@.len() - i,
            {
                let ghost before = texts(out@);
                proof {
                    assert(l@.take(i + 1).drop_last() =~= l@.take(i as int));
                }
                match &l[i] {
                    ForwardMember::Var(n) => {
                        if vars {
                            out.push(normalize_var_name(n.as_str()));
                            proof {
                                assert(texts(out@) =~= before.push(dashed(n@)));
                            }
                        }
                    },
                    ForwardMember::Name(n) => {
                        if !vars {
                            out.push(normalize_var_name(n.as_str()));
                            proof {
                                assert(texts(out@) =~= before.push(dashed(n@)));
                            }
                        }
                    },
                }
                i += 1;
            }
            proof {
                assert(l@.take(i as int) =~= l@);
            }
            Some(out)
        },
    }
}

/// Whether a `@forward` with these lists passes a variable on.
pub fn forward_var_visibility(
    show: &Option<Vec<ForwardMember>>,
    hide: &Option<Vec<ForwardMember>>,
    name: &str,
) -> (r: bool)
    ensures
        r == listed(opt_members(*show, true), opt_members(*hide, true), dashed(name@)),
{
    let n = normalize_var_name(name);
    is_listed(&member_set(show, true), &member_set(hide, true), n.as_str())
}

/// A module: the frame of its variables, the tables of its functions and mixins, what it uses,
/// and where the members that it forwards come from.
#[derive(Debug)]
pub struct Module {
    pub vars: usize,
    pub functions: usize,
    pub mixins: usize,
    pub uses: Uses,
    pub forwarded_builtins: Vec<ForwardedBuiltin>,
    pub var_origins: Vec<(String, (usize, String))>,
    pub var_write_origins: Vec<(String, (usize, String))>,
    pub fn_origins: Vec<(String, usize)>,
    pub mixin_origins: Vec<(String, usize)>,
    pub diag_url: String,
    pub config_origin: usize,
    pub file_dir: String,
    pub emitted_main: bool,
    pub css: Vec<OutNode>,
}

/// What a [`Module`] is.
pub ghost struct Mod {
    pub vars: usize,
    pub functions: usize,
    pub mixins: usize,
    pub uses: Used,
    pub forwarded_builtins: Seq<Passed>,
    pub var_origins: Seq<(Seq<char>, (usize, Seq<char>))>,
    pub var_write_origins: Seq<(Seq<char>, (usize, Seq<char>))>,
    pub fn_origins: Ids,
    pub mixin_origins: Ids,
    pub diag_url: Seq<char>,
    pub config_origin: usize,
    pub file_dir: Seq<char>,
    pub emitted_main: bool,
    pub css: Seq<Node>,
}

pub open spec fn origins(s: Seq<(String, (usize, String))>) -> Seq<(Seq<char>, (usize, Seq<char>))> {
    Seq::new(s.len(), |i: int| (s[i].0@, ((s[i].1).0, (s[i].1).1@)))
}

impl View for Module {
    type V = Mod;

    open spec fn view(&self) -> Mod {
        Mod {
            vars: self.vars,
            functions: self.functions,
            mixins: self.mixins,
            uses: self.uses@,
            forwarded_builtins: passed(self.forwarded_builtins@),
            var_origins: origins(self.var_origins@),
            var_write_origins: origins(self.var_write_origins@),
            fn_origins: ids(self.fn_origins@),
            mixin_origins: ids(self.mixin_origins@),
            diag_url: self.diag_url@,
            config_origin: self.config_origin,
            file_dir: self.file_dir@,
            emitted_main: self.emitted_main,
            css: nodes(self.css@),
        }
    }
}

pub open spec fn mods(v: Seq<Module>) -> Seq<Mod> {
    Seq::new(v.len(), |i: int| v[i]@)
}

// ---- names spelled with dashes or underscores ----------------------------

/// The index of the first entry whose name is the same but for dashes and underscores.
pub open spec fn loose_entry<T>(s: Seq<(Seq<char>, T)>, key: Seq<char>) -> int
    decreases s.len(),
{
    if s.len() == 0 {
        0
    } else if dashed(s[0].0) == dashed(key) {
        0
    } else {
        1 + loose_entry(s.skip(1), key)
    }
}

/// What a table says of a name: by its own spelling if it has an entry, else by the first that
/// differs only in dashes and underscores.
pub open spec fn seek<T>(s: Seq<(Seq<char>, T)>, key: Seq<char>) -> Option<T> {
    if entry(s, key) < s.len() {
        Some(s[entry(s, key)].1)
    } else if loose_entry(s, key) < s.len() {
        Some(s[loose_entry(s, key)].1)
    } else {
        None
    }
}

pub proof fn lemma_loose_entry_is<T>(s: Seq<(Seq<char>, T)>, key: Seq<char>, k: int)
    requires
        0 <= k <= s.len(),
        k < s.len() ==> dashed(s[k].0) == dashed(key),
        forall|j: int| 0 <= j < k ==> dashed((#[trigger] s[j]).0) != dashed(key),
    ensures
        loose_entry(s, key) == k,
    decreases s.len(),
{
    if s.len() > 0 && k > 0 {
        let t = s.skip(1);
        assert(dashed(s[0].0) != dashed(key));
        assert forall|j: int| 0 <= j < k - 1 implies dashed((#[trigger] t[j]).0) != dashed(key) by {
            assert(t[j] == s[j + 1]);
        }
        lemma_loose_entry_is(t, key, k - 1);
    }
}

/// What the first entry says whose name is the same but for dashes and underscores.
pub open spec fn loose_get<T>(s: Seq<(Seq<char>, T)>, key: Seq<char>) -> Option<T> {
    if loose_entry(s, key) < s.len() {
        Some(s[loose_entry(s, key)].1)
    } else {
        None
    }
}

pub fn loose_id(v: &Vec<(String, usize)>, key: &str) -> (r: Option<usize>)
    ensures
        r == loose_get(ids(v@), key@),
{
    let ghost s = ids(v@);
    let mut k: usize = 0;
    while k < v.len() && !same_name(v[k].0.as_str(), key)
        invariant
            k <= v@.len(),
            s == ids(v@),
            forall|j: int| 0 <= j < k ==> dashed((#[trigger] s[j]).0) != dashed(key@),
        decreases v@.len() - k,
    {
        k += 1;
    }
    proof {
        lemma_loose_entry_is(s, key@, k as int);
    }
    if k < v.len() {
        Some(v[k].1)
    } else {
        None
    }
}

/// Whether two names are the same but for dashes and underscores.
pub fn same_name(a: &str, b: &str) -> (r: bool)
    ensures
        r == (dashed(a@) == dashed(b@)),
{
    same_str(dash(a).as_str(), dash(b).as_str())
}

pub fn seek_var(v: &Vec<(String, Value)>, key: &str) -> (r: Option<Value>)
    ensures
        opt_val(r) == seek(named_vals(v@), key@),
{
    let i: usize = find_var(v, key);
    if i < v.len() {
        return Some(copy_value(&v[i].1));
    }
    let ghost s = named_vals(v@);
    let mut k: usize = 0;
    while k < v.len() && !same_name(v[k].0.as_str(), key)
        invariant
            k <= v@.len(),
            s == named_vals(v@),
            forall|j: int| 0 <= j < k ==> dashed((#[trigger] s[j]).0) != dashed(key@),
        decreases v@.len() - k,
    {
        k += 1;
    }
    proof {
        lemma_loose_entry_is(s, key@, k as int);
    }
    if k < v.len() {
        Some(copy_value(&v[k].1))
    } else {
        None
    }
}

pub fn seek_id(v: &Vec<(String, usize)>, key: &str) -> (r: Option<usize>)
    ensures
        r == seek(ids(v@), key@),
{
    let i: usize = find_id(v, key);
    if i < v.len() {
        return Some(v[i].1);
    }
    let ghost s = ids(v@);
    let mut k: usize = 0;
    while k < v.len() && !same_name(v[k].0.as_str(), key)
        invariant
            k <= v@.len(),
            s == ids(v@),
            forall|j: int| 0 <= j < k ==> dashed((#[trigger] s[j]).0) != dashed(key@),
        decreases v@.len() - k,
    {
        k += 1;
    }
    proof {
        lemma_loose_entry_is(s, key@, k as int);
    }
    if k < v.len() {
        Some(v[k].1)
    } else {
        None
    }
}

pub open spec fn opt_origin(o: Option<(usize, String)>) -> Option<(usize, Seq<char>)> {
    match o {
        Some(p) => Some((p.0, p.1@)),
        None => None,
    }
}

pub fn seek_origin(v: &Vec<(String, (usize, String))>, key: &str) -> (r: Option<(usize, String)>)
    ensures
        opt_origin(r) == seek(origins(v@), key@),
{
    let ghost s = origins(v@);
    let mut i: usize = 0;
    while i < v.len() && !same_str(v[i].0.as_str(), key)
        invariant
            i <= v@.len(),
            s == origins(v@),
            forall|k: int| 0 <= k < i ==> (#[trigger] s[k]).0 != key@,
        decreases v@.len() - i,
    {
        i += 1;
    }
    proof {
        lemma_entry_is(s, key@, i as int);
    }
    if i < v.len() {
        let p = &v[i].1;
        return Some((p.0, p.1.clone()));
    }
    let mut k: usize = 0;
    while k < v.len() && !same_name(v[k].0.as_str(), key)
        invariant
            k <= v@.len(),
            s == origins(v@),
            forall|j: int| 0 <= j < k ==> dashed((#[trigger] s[j]).0) != dashed(key@),
        decreases v@.len() - k,
    {
        k += 1;
    }
    proof {
        lemma_loose_entry_is(s, key@, k as int);
    }
    if k < v.len() {
        let p = &v[k].1;
        Some((p.0, p.1.clone()))
    } else {
        None
    }
}

} // verus!
