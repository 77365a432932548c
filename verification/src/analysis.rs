//! Questions about the syntax tree that are answered without evaluating it.

use vstd::prelude::*;
use crate::ast::{
    BinOp, CallArg, Expr, IfBranch, IfClause, IfCond, ImportArg, MediaFeature, MediaInParens,
    MediaQuery, Stmt, Stylesheet, TplPiece, UnOp,
};
use crate::error::{Error, verdict};
use crate::text::{
    append_str, chars_of, find_from, first_from, lower, spells, starts, starts_with, string_of,
    text_of, texts, to_lower, trim_start, trimmed_start,
};

verus! {

// ---- where functions and mixins may be declared ---------------------------

/// The construct that encloses a statement.
#[derive(Clone, Copy, Debug, PartialEq, Eq, Structural)]
pub enum DeclScope {
    /// The top level, a style rule or a plain at-rule.
    Allowed,
    /// A conditional or a loop.
    Control,
    Function,
    Mixin,
}

/// The scope inside a conditional or a loop: that of a function or mixin is kept.
pub open spec fn control_scope(scope: DeclScope) -> DeclScope {
    match scope {
        DeclScope::Function => scope,
        DeclScope::Mixin => scope,
        _ => DeclScope::Control,
    }
}

pub fn enter_control(scope: DeclScope) -> (r: DeclScope)
    ensures
        r == control_scope(scope),
{
    match scope {
        DeclScope::Function => scope,
        DeclScope::Mixin => scope,
        _ => DeclScope::Control,
    }
}

/// The message for a function declared in a scope, or a mixin.
pub open spec fn declaration_fault(scope: DeclScope, function: bool) -> Option<Seq<char>> {
    match scope {
        DeclScope::Allowed => None,
        DeclScope::Control => Some(
            (if function {
                "Functions"@
            } else {
                "Mixins"@
            }) + " may not be declared in control directives."@,
        ),
        DeclScope::Function => Some("This at-rule is not allowed here."@),
        DeclScope::Mixin => Some(
            "Mixins may not contain "@ + (if function {
                "function"@
            } else {
                "mixin"@
            }) + " declarations."@,
        ),
    }
}

pub fn decl_error(scope: DeclScope, function: bool) -> (r: Option<String>)
    ensures
        text_of(r) == declaration_fault(scope, function),
{
    match scope {
        DeclScope::Allowed => None,
        DeclScope::Control => {
            let mut m = chars_of(
                if function {
                    "Functions"
                } else {
                    "Mixins"
                },
            );
            append_str(&mut m, " may not be declared in control directives.");
            Some(string_of(m.as_slice()))
        },
        DeclScope::Function => Some("This at-rule is not allowed here.".to_owned()),
        DeclScope::Mixin => {
            let mut m = chars_of("Mixins may not contain ");
            append_str(
                &mut m,
                if function {
                    "function"
                } else {
                    "mixin"
                },
            );
            append_str(&mut m, " declarations.");
            Some(string_of(m.as_slice()))
        },
    }
}

/// Whether an import argument loads a Sass file.
pub open spec fn has_sass_import(args: Seq<ImportArg>) -> bool {
    exists|k: int| 0 <= k < args.len() && (#[trigger] args[k]) is Sass
}

fn holds_sass_import(args: &Vec<ImportArg>) -> (r: bool)
    ensures
        r == has_sass_import(args@),
{
    let mut i: usize = 0;
    while i < args.len()
        invariant
            i <= args@.len(),
            forall|k: int| 0 <= k < i ==> !((#[trigger] args@[k]) is Sass),
        decreases args@.len() - i,
    {
        if matches!(&args[i], ImportArg::Sass { .. }) {
            return true;
        }
        i += 1;
    }
    false
}

/// The fault of one statement.
pub open spec fn stmt_fault(stmt: Stmt, scope: DeclScope) -> Option<Seq<char>>
    decreases stmt, 0int,
{
    match stmt {
        Stmt::FunctionDef(c) => match declaration_fault(scope, true) {
            Some(m) => Some(m),
            None => body_fault(c.body@, 0, DeclScope::Function),
        },
        Stmt::MixinDef(c) => match declaration_fault(scope, false) {
            Some(m) => Some(m),
            None => body_fault(c.body@, 0, DeclScope::Mixin),
        },
        Stmt::If(branches) => branches_fault(branches@, 0, control_scope(scope)),
        Stmt::For { var, from, to, inclusive, body } => body_fault(body@, 0, control_scope(scope)),
        Stmt::Each { vars, list, body } => body_fault(body@, 0, control_scope(scope)),
        Stmt::While { cond, body } => body_fault(body@, 0, control_scope(scope)),
        Stmt::Rule(r) => body_fault(r.body@, 0, scope),
        Stmt::AtRule { name, prelude, body, lines } => match body {
            Some(b) => body_fault(b@, 0, scope),
            None => None,
        },
        Stmt::Media { query, body, lines } => body_fault(body@, 0, scope),
        Stmt::Supports { condition, body } => body_fault(body@, 0, scope),
        Stmt::PropertySet(x) => body_fault(x.body@, 0, scope),
        Stmt::InterpAtRule { name, prelude, body } => match body {
            Some(b) => body_fault(b@, 0, scope),
            None => None,
        },
        Stmt::AtRoot { query, body } => body_fault(body@, 0, scope),
        Stmt::Keyframes { name, prelude, body, lines } => body_fault(body@, 0, scope),
        Stmt::Include { name, args, content, content_params, module, pos, length } => match content {
            Some(b) => body_fault(b@, 0, scope),
            None => None,
        },
        Stmt::Import(args) => if scope != DeclScope::Allowed && has_sass_import(args@) {
            Some("This at-rule is not allowed here."@)
        } else {
            None
        },
        _ => None,
    }
}

/// The fault of the first statement, from `i` on, that has one.
pub open spec fn body_fault(stmts: Seq<Stmt>, i: int, scope: DeclScope) -> Option<Seq<char>>
    decreases stmts, stmts.len() - i,
{
    if i < 0 || i >= stmts.len() {
        None
    } else {
        match stmt_fault(stmts[i], scope) {
            Some(m) => Some(m),
            None => body_fault(stmts, i + 1, scope),
        }
    }
}

pub open spec fn branches_fault(branches: Seq<IfBranch>, i: int, scope: DeclScope) -> Option<Seq<char>>
    decreases branches, branches.len() - i,
{
    if i < 0 || i >= branches.len() {
        None
    } else {
        match body_fault(branches[i].body@, 0, scope) {
            Some(m) => Some(m),
            None => branches_fault(branches, i + 1, scope),
        }
    }
}

fn check_stmt(stmt: &Stmt, scope: DeclScope) -> (r: Result<(), Error>)
    ensures
        verdict(r, stmt_fault(*stmt, scope)),
    decreases stmt, 0int,
{
    match stmt {
        Stmt::FunctionDef(c) => {
            if let Some(m) = decl_error(scope, true) {
                return Err(Error::unpositioned(m.as_str()));
            }
            validate_decl_scope(&c.body, DeclScope::Function)
        },
        Stmt::MixinDef(c) => {
            if let Some(m) = decl_error(scope, false) {
                return Err(Error::unpositioned(m.as_str()));
            }
            validate_decl_scope(&c.body, DeclScope::Mixin)
        },
        Stmt::If(branches) => check_branches(branches, enter_control(scope)),
        Stmt::For { body, .. } => validate_decl_scope(body, enter_control(scope)),
        Stmt::Each { body, .. } => validate_decl_scope(body, enter_control(scope)),
        Stmt::While { body, .. } => validate_decl_scope(body, enter_control(scope)),
        Stmt::Rule(r) => validate_decl_scope(&r.body, scope),
        Stmt::AtRule { body, .. } => match body {
            Some(b) => validate_decl_scope(b, scope),
            None => Ok(()),
        },
        Stmt::Media { body, .. } => validate_decl_scope(body, scope),
        Stmt::Supports { body, .. } => validate_decl_scope(body, scope),
        Stmt::PropertySet(x) => validate_decl_scope(&x.body, scope),
        Stmt::InterpAtRule { body, .. } => match body {
            Some(b) => validate_decl_scope(b, scope),
            None => Ok(()),
        },
        Stmt::AtRoot { body, .. } => validate_decl_scope(body, scope),
        Stmt::Keyframes { body, .. } => validate_decl_scope(body, scope),
        Stmt::Include { content, .. } => match content {
            Some(b) => validate_decl_scope(b, scope),
            None => Ok(()),
        },
        Stmt::Import(args) => {
            if scope != DeclScope::Allowed && holds_sass_import(args) {
                return Err(Error::unpositioned("This at-rule is not allowed here."));
            }
            Ok(())
        },
        _ => Ok(()),
    }
}

fn validate_decl_scope(stmts: &Vec<Stmt>, scope: DeclScope) -> (r: Result<(), Error>)
    ensures
        verdict(r, body_fault(stmts@, 0, scope)),
    decreases stmts@, stmts@.len(),
{
    let mut i: usize = 0;
    while i < stmts.len()
        invariant
            i <= stmts@.len(),
            body_fault(stmts@, i as int, scope) == body_fault(stmts@, 0, scope),
        decreases stmts@.len() - i,
    {
        match check_stmt(&stmts[i], scope) {
            Ok(()) => {},
            Err(e) => {
                return Err(e);
            },
        }
        i += 1;
    }
    Ok(())
}

fn check_branches(branches: &Vec<IfBranch>, scope: DeclScope) -> (r: Result<(), Error>)
    ensures
        verdict(r, branches_fault(branches@, 0, scope)),
    decreases branches@, branches@.len(),
{
    let mut i: usize = 0;
    while i < branches.len()
        invariant
            i <= branches@.len(),
            branches_fault(branches@, i as int, scope) == branches_fault(branches@, 0, scope),
        decreases branches@.len() - i,
    {
        match validate_decl_scope(&branches[i].body, scope) {
            Ok(()) => {},
            Err(e) => {
                return Err(e);
            },
        }
        i += 1;
    }
    Ok(())
}

/// Reject functions and mixins declared in conditionals, loops, functions and mixins, whether or
/// not they are ever reached.
pub fn validate_declarations(sheet: &Stylesheet) -> (r: Result<(), Error>)
    ensures
        verdict(r, body_fault(sheet.stmts@, 0, DeclScope::Allowed)),
{
    validate_decl_scope(&sheet.stmts, DeclScope::Allowed)
}

// ---- content blocks ------------------------------------------------------

/// Whether a statement of the body, from `i` on, holds a `@content`.
pub open spec fn uses_content(body: Seq<Stmt>, i: int) -> bool
    decreases body, body.len() - i,
{
    if i < 0 || i >= body.len() {
        false
    } else {
        stmt_content(body[i]) || uses_content(body, i + 1)
    }
}

pub open spec fn branches_content(branches: Seq<IfBranch>, i: int) -> bool
    decreases branches, branches.len() - i,
{
    if i < 0 || i >= branches.len() {
        false
    } else {
        uses_content(branches[i].body@, 0) || branches_content(branches, i + 1)
    }
}

/// Whether a statement holds a `@content`, at any depth.
pub open spec fn stmt_content(stmt: Stmt) -> bool
    decreases stmt, 0int,
{
    match stmt {
        Stmt::Content(_) => true,
        Stmt::Rule(r) => uses_content(r.body@, 0),
        Stmt::If(branches) => branches_content(branches@, 0),
        Stmt::For { var, from, to, inclusive, body } => uses_content(body@, 0),
        Stmt::Each { vars, list, body } => uses_content(body@, 0),
        Stmt::While { cond, body } => uses_content(body@, 0),
        Stmt::Media { query, body, lines } => uses_content(body@, 0),
        Stmt::Supports { condition, body } => uses_content(body@, 0),
        Stmt::PropertySet(x) => uses_content(x.body@, 0),
        Stmt::InterpAtRule { name, prelude, body } => match body {
            Some(b) => uses_content(b@, 0),
            None => false,
        },
        Stmt::AtRoot { query, body } => uses_content(body@, 0),
        Stmt::Keyframes { name, prelude, body, lines } => uses_content(body@, 0),
        Stmt::AtRule { name, prelude, body, lines } => match body {
            Some(b) => uses_content(b@, 0),
            None => false,
        },
        Stmt::Include { name, args, content, content_params, module, pos, length } => match content {
            Some(b) => uses_content(b@, 0),
            None => false,
        },
        _ => false,
    }
}

fn stmt_uses_content(stmt: &Stmt) -> (r: bool)
    ensures
        r == stmt_content(*stmt),
    decreases stmt, 0int,
{
    match stmt {
        Stmt::Content(_) => true,
        Stmt::Rule(r) => body_uses_content(&r.body),
        Stmt::If(branches) => branches_use_content(branches),
        Stmt::For { body, .. } => body_uses_content(body),
        Stmt::Each { body, .. } => body_uses_content(body),
        Stmt::While { body, .. } => body_uses_content(body),
        Stmt::Media { body, .. } => body_uses_content(body),
        Stmt::Supports { body, .. } => body_uses_content(body),
        Stmt::PropertySet(x) => body_uses_content(&x.body),
        Stmt::InterpAtRule { body, .. } => match body {
            Some(b) => body_uses_content(b),
            None => false,
        },
        Stmt::AtRoot { body, .. } => body_uses_content(body),
        Stmt::Keyframes { body, .. } => body_uses_content(body),
        Stmt::AtRule { body, .. } => match body {
            Some(b) => body_uses_content(b),
            None => false,
        },
        Stmt::Include { content, .. } => match content {
            Some(b) => body_uses_content(b),
            None => false,
        },
        _ => false,
    }
}

/// Whether a mixin body holds a `@content`.
pub fn body_uses_content(body: &Vec<Stmt>) -> (r: bool)
    ensures
        r == uses_content(body@, 0),
    decreases body@, body@.len(),
{
    let mut i: usize = 0;
    while i < body.len()
        invariant
            i <= body@.len(),
            uses_content(body@, i as int) == uses_content(body@, 0),
        decreases body@.len() - i,
    {
        if stmt_uses_content(&body[i]) {
            return true;
        }
        i += 1;
    }
    false
}

fn branches_use_content(branches: &Vec<IfBranch>) -> (r: bool)
    ensures
        r == branches_content(branches@, 0),
    decreases branches@, branches@.len(),
{
    let mut i: usize = 0;
    while i < branches.len()
        invariant
            i <= branches@.len(),
            branches_content(branches@, i as int) == branches_content(branches@, 0),
        decreases branches@.len() - i,
    {
        if body_uses_content(&branches[i].body) {
            return true;
        }
        i += 1;
    }
    false
}

// ---- global variables ----------------------------------------------------

/// The names of the `!global` variables declared in rules, conditionals, loops and at-rules, from
/// `i` on.
pub open spec fn global_names(stmts: Seq<Stmt>, i: int) -> Seq<Seq<char>>
    decreases stmts, stmts.len() - i,
{
    if i < 0 || i >= stmts.len() {
        Seq::empty()
    } else {
        stmt_globals(stmts[i]) + global_names(stmts, i + 1)
    }
}

pub open spec fn branches_globals(branches: Seq<IfBranch>, i: int) -> Seq<Seq<char>>
    decreases branches, branches.len() - i,
{
    if i < 0 || i >= branches.len() {
        Seq::empty()
    } else {
        global_names(branches[i].body@, 0) + branches_globals(branches, i + 1)
    }
}

pub open spec fn stmt_globals(stmt: Stmt) -> Seq<Seq<char>>
    decreases stmt, 0int,
{
    match stmt {
        Stmt::VarDecl(v) => if v.is_global && v.namespace is None {
            seq![v.name@]
        } else {
            Seq::empty()
        },
        Stmt::Rule(r) => global_names(r.body@, 0),
        Stmt::If(branches) => branches_globals(branches@, 0),
        Stmt::For { var, from, to, inclusive, body } => global_names(body@, 0),
        Stmt::Each { vars, list, body } => global_names(body@, 0),
        Stmt::While { cond, body } => global_names(body@, 0),
        Stmt::Media { query, body, lines } => global_names(body@, 0),
        Stmt::Supports { condition, body } => global_names(body@, 0),
        Stmt::PropertySet(x) => global_names(x.body@, 0),
        Stmt::InterpAtRule { name, prelude, body } => match body {
            Some(b) => global_names(b@, 0),
            None => Seq::empty(),
        },
        Stmt::AtRoot { query, body } => global_names(body@, 0),
        Stmt::Keyframes { name, prelude, body, lines } => global_names(body@, 0),
        Stmt::AtRule { name, prelude, body, lines } => match body {
            Some(b) => global_names(b@, 0),
            None => Seq::empty(),
        },
        _ => Seq::empty(),
    }
}

fn append_strings(out: &mut Vec<String>, more: Vec<String>)
    ensures
        texts(final(out)@) == texts(old(out)@) + texts(more@),
{
    let mut more = more;
    let ghost mv = texts(more@);
    out.append(&mut more);
    proof {
        assert(texts(final(out)@) =~= texts(old(out)@) + mv);
    }
}

fn no_strings() -> (r: Vec<String>)
    ensures
        texts(r@) == Seq::<Seq<char>>::empty(),
{
    let r: Vec<String> = Vec::new();
    proof {
        assert(texts(r@) =~= Seq::empty());
    }
    r
}

fn stmt_global_decls(stmt: &Stmt) -> (r: Vec<String>)
    ensures
        texts(r@) == stmt_globals(*stmt),
    decreases stmt, 0int,
{
    match stmt {
        Stmt::VarDecl(v) => {
            if v.is_global && v.namespace.is_none() {
                let mut out: Vec<String> = Vec::new();
                out.push(v.name.clone());
                proof {
                    assert(texts(out@) =~= seq![v.name@]);
                }
                out
            } else {
                no_strings()
            }
        },
        Stmt::Rule(r) => collect_global_var_decls(&r.body),
        Stmt::If(branches) => branch_global_decls(branches),
        Stmt::For { body, .. } => collect_global_var_decls(body),
        Stmt::Each { body, .. } => collect_global_var_decls(body),
        Stmt::While { body, .. } => collect_global_var_decls(body),
        Stmt::Media { body, .. } => collect_global_var_decls(body),
        Stmt::Supports { body, .. } => collect_global_var_decls(body),
        Stmt::PropertySet(x) => collect_global_var_decls(&x.body),
        Stmt::InterpAtRule { body, .. } => match body {
            Some(b) => collect_global_var_decls(b),
            None => no_strings(),
        },
        Stmt::AtRoot { body, .. } => collect_global_var_decls(body),
        Stmt::Keyframes { body, .. } => collect_global_var_decls(body),
        Stmt::AtRule { body, .. } => match body {
            Some(b) => collect_global_var_decls(b),
            None => no_strings(),
        },
        _ => no_strings(),
    }
}

/// The names of the `!global` variables that a file declares in nested blocks.
pub fn collect_global_var_decls(stmts: &Vec<Stmt>) -> (r: Vec<String>)
    ensures
        texts(r@) == global_names(stmts@, 0),
    decreases stmts@, stmts@.len(),
{
    let mut out = no_strings();
    let mut i: usize = 0;
    let ghost goal = global_names(stmts@, 0);
    proof {
        assert(texts(out@) + goal =~= goal);
    }
    while i < stmts.len()
        invariant
            i <= stmts@.len(),
            texts(out@) + global_names(stmts@, i as int) == goal,
        decreases stmts@.len() - i,
    {
        let ghost before = texts(out@);
        let more = stmt_global_decls(&stmts[i]);
        let ghost mv = texts(more@);
        append_strings(&mut out, more);
        i += 1;
        proof {
            let rest = global_names(stmts@, i as int);
            assert(before + mv + rest =~= before + (mv + rest));
        }
    }
    proof {
        assert(texts(out@) + Seq::<Seq<char>>::empty() =~= texts(out@));
    }
    out
}

fn branch_global_decls(branches: &Vec<IfBranch>) -> (r: Vec<String>)
    ensures
        texts(r@) == branches_globals(branches@, 0),
    decreases branches@, branches@.len(),
{
    let mut out = no_strings();
    let mut i: usize = 0;
    let ghost goal = branches_globals(branches@, 0);
    proof {
        assert(texts(out@) + goal =~= goal);
    }
    while i < branches.len()
        invariant
            i <= branches@.len(),
            texts(out@) + branches_globals(branches@, i as int) == goal,
        decreases branches@.len() - i,
    {
        let ghost before = texts(out@);
        let more = collect_global_var_decls(&branches[i].body);
        let ghost mv = texts(more@);
        append_strings(&mut out, more);
        i += 1;
        proof {
            let rest = branches_globals(branches@, i as int);
            assert(before + mv + rest =~= before + (mv + rest));
        }
    }
    proof {
        assert(texts(out@) + Seq::<Seq<char>>::empty() =~= texts(out@));
    }
    out
}

// ---- declarations at the top of an imported file -------------------------

/// Whether a declaration stands at the top level of a file, from `i` on, or in the conditionals and
/// loops there.
pub open spec fn top_decl(stmts: Seq<Stmt>, i: int) -> bool
    decreases stmts, stmts.len() - i,
{
    if i < 0 || i >= stmts.len() {
        false
    } else {
        stmt_top_decl(stmts[i]) || top_decl(stmts, i + 1)
    }
}

pub open spec fn branches_top_decl(branches: Seq<IfBranch>, i: int) -> bool
    decreases branches, branches.len() - i,
{
    if i < 0 || i >= branches.len() {
        false
    } else {
        top_decl(branches[i].body@, 0) || branches_top_decl(branches, i + 1)
    }
}

pub open spec fn stmt_top_decl(stmt: Stmt) -> bool
    decreases stmt, 0int,
{
    match stmt {
        Stmt::Decl(_) => true,
        Stmt::PropertySet(_) => true,
        Stmt::CustomDecl(_) => true,
        Stmt::If(branches) => branches_top_decl(branches@, 0),
        Stmt::For { var, from, to, inclusive, body } => top_decl(body@, 0),
        Stmt::Each { vars, list, body } => top_decl(body@, 0),
        Stmt::While { cond, body } => top_decl(body@, 0),
        _ => false,
    }
}

fn is_top_decl(stmt: &Stmt) -> (r: bool)
    ensures
        r == stmt_top_decl(*stmt),
    decreases stmt, 0int,
{
    match stmt {
        Stmt::Decl(_) => true,
        Stmt::PropertySet(_) => true,
        Stmt::CustomDecl(_) => true,
        Stmt::If(branches) => branches_have_top_decl(branches),
        Stmt::For { body, .. } => has_top_decl(body),
        Stmt::Each { body, .. } => has_top_decl(body),
        Stmt::While { body, .. } => has_top_decl(body),
        _ => false,
    }
}

pub fn has_top_decl(stmts: &Vec<Stmt>) -> (r: bool)
    ensures
        r == top_decl(stmts@, 0),
    decreases stmts@, stmts@.len(),
{
    let mut i: usize = 0;
    while i < stmts.len()
        invariant
            i <= stmts@.len(),
            top_decl(stmts@, i as int) == top_decl(stmts@, 0),
        decreases stmts@.len() - i,
    {
        if is_top_decl(&stmts[i]) {
            return true;
        }
        i += 1;
    }
    false
}

fn branches_have_top_decl(branches: &Vec<IfBranch>) -> (r: bool)
    ensures
        r == branches_top_decl(branches@, 0),
    decreases branches@, branches@.len(),
{
    let mut i: usize = 0;
    while i < branches.len()
        invariant
            i <= branches@.len(),
            branches_top_decl(branches@, i as int) == branches_top_decl(branches@, 0),
        decreases branches@.len() - i,
    {
        if has_top_decl(&branches[i].body) {
            return true;
        }
        i += 1;
    }
    false
}

// ---- expressions ---------------------------------------------------------

pub open spec fn has_interp(pieces: Seq<TplPiece>) -> bool {
    exists|k: int| 0 <= k < pieces.len() && (#[trigger] pieces[k]) is Interp
}

pub fn holds_interp(pieces: &Vec<TplPiece>) -> (r: bool)
    ensures
        r == has_interp(pieces@),
{
    let mut i: usize = 0;
    while i < pieces.len()
        invariant
            i <= pieces@.len(),
            forall|k: int| 0 <= k < i ==> !((#[trigger] pieces@[k]) is Interp),
        decreases pieces@.len() - i,
    {
        if matches!(&pieces[i], TplPiece::Interp(_)) {
            return true;
        }
        i += 1;
    }
    false
}

/// A call without the vendor prefix of its name: what follows the second `-` of a name that begins
/// with a single `-`.
pub open spec fn unprefixed_call(t: Seq<char>) -> Seq<char> {
    if t.len() > 1 && t[0] == '-' && t[1] != '-' && first_from(t, '-', 1) < first_from(t, '(', 1) {
        t.skip(first_from(t, '-', 1) + 1)
    } else {
        t
    }
}

/// Whether a piece is interpolation, or starts a `var()` or an `env()`, with a vendor prefix or
/// without.
pub open spec fn piece_substitutes(p: TplPiece) -> bool {
    match p {
        TplPiece::Interp(_) => true,
        TplPiece::Lit(s) => {
            let t = unprefixed_call(lower(trimmed_start(s@)));
            starts(t, "var("@) || starts(t, "env("@)
        },
    }
}

pub open spec fn some_piece_substitutes(pieces: Seq<TplPiece>) -> bool {
    exists|k: int| 0 <= k < pieces.len() && piece_substitutes(#[trigger] pieces[k])
}

fn any_piece_substitutes(pieces: &Vec<TplPiece>) -> (r: bool)
    ensures
        r == some_piece_substitutes(pieces@),
{
    let mut i: usize = 0;
    while i < pieces.len()
        invariant
            i <= pieces@.len(),
            forall|k: int| 0 <= k < i ==> !piece_substitutes(#[trigger] pieces@[k]),
        decreases pieces@.len() - i,
    {
        if is_piece_substitution(&pieces[i]) {
            return true;
        }
        i += 1;
    }
    false
}

/// Whether an expression is a substitution: interpolation, a `var()` or an `env()`.
pub open spec fn substitutes(e: Expr) -> bool {
    match e {
        Expr::Interp(_) => true,
        Expr::Func { name, args, pos, length, module } => lower(name@) == "var"@ || lower(name@) == "env"@,
        Expr::Ident(pieces) => some_piece_substitutes(pieces@),
        _ => false,
    }
}

fn strip_vendor(t: &[char]) -> (r: &[char])
    ensures
        r@ == unprefixed_call(t@),
{
    let n: usize = t.len();
    if n < 2 || t[0] != '-' || t[1] == '-' {
        return t;
    }
    let k: usize = find_from(t, '-', 1);
    if k < find_from(t, '(', 1) {
        let r = vstd::slice::slice_subrange(t, k + 1, n);
        proof {
            assert(r@ =~= t@.skip(k + 1));
        }
        r
    } else {
        t
    }
}

fn is_piece_substitution(p: &TplPiece) -> (r: bool)
    ensures
        r == piece_substitutes(*p),
{
    match p {
        TplPiece::Interp(_) => true,
        TplPiece::Lit(s) => {
            let chars = chars_of(s.as_str());
            let low = to_lower(trim_start(chars.as_slice()));
            let t = strip_vendor(low.as_slice());
            starts_with(t, "var(") || starts_with(t, "env(")
        },
    }
}

/// Whether `name` is `word`, in any case.
pub fn is_word(name: &str, word: &str) -> (r: bool)
    ensures
        r == (lower(name@) == word@),
{
    let chars = chars_of(name);
    spells(to_lower(chars.as_slice()).as_slice(), word)
}

pub fn expr_has_substitution(e: &Expr) -> (r: bool)
    ensures
        r == substitutes(*e),
{
    match e {
        Expr::Interp(_) => true,
        Expr::Func { name, .. } => is_word(name.as_str(), "var") || is_word(name.as_str(), "env"),
        Expr::Ident(pieces) => any_piece_substitutes(pieces),
        _ => false,
    }
}

/// Whether an expression holds a substitution, in operations, parentheses, calculations or lists.
pub open spec fn contains_substitution(e: Expr) -> bool
    decreases e, 0int,
{
    substitutes(e) || match e {
        Expr::Binary { op, lhs, rhs, pos } => contains_substitution(*lhs) || contains_substitution(*rhs),
        Expr::Div { lhs, rhs, slash, pos } => contains_substitution(*lhs) || contains_substitution(*rhs),
        Expr::Unary { op, operand } => contains_substitution(*operand),
        Expr::Paren(inner) => contains_substitution(*inner),
        Expr::Calc { inner } => contains_substitution(*inner),
        Expr::List { items, sep, bracketed } => list_substitutes(items@, 0),
        _ => false,
    }
}

pub open spec fn list_substitutes(s: Seq<Expr>, i: int) -> bool
    decreases s, s.len() - i,
{
    if i < 0 || i >= s.len() {
        false
    } else {
        contains_substitution(s[i]) || list_substitutes(s, i + 1)
    }
}

pub fn expr_contains_calc_substitution(e: &Expr) -> (r: bool)
    ensures
        r == contains_substitution(*e),
    decreases e, 0int,
{
    if expr_has_substitution(e) {
        return true;
    }
    match e {
        Expr::Binary { op: _, lhs, rhs, pos: _ } => expr_contains_calc_substitution(lhs)
            || expr_contains_calc_substitution(rhs),
        Expr::Div { lhs, rhs, .. } => expr_contains_calc_substitution(lhs)
            || expr_contains_calc_substitution(rhs),
        Expr::Unary { op: _, operand } => expr_contains_calc_substitution(operand),
        Expr::Paren(inner) => expr_contains_calc_substitution(inner),
        Expr::Calc { inner } => expr_contains_calc_substitution(inner),
        Expr::List { items, .. } => {
            let mut i: usize = 0;
            while i < items.len()
                invariant
                    i <= items@.len(),
                    list_substitutes(items@, i as int) == list_substitutes(items@, 0),
                    decreases_to!(*e => items@),
                    contains_substitution(*e) == list_substitutes(items@, 0),
                decreases items@.len() - i,
            {
                if expr_contains_calc_substitution(&items[i]) {
                    return true;
                }
                i += 1;
            }
            false
        },
        _ => false,
    }
}

/// An operator that no calculation can hold; besides these there is `not`.
pub open spec fn non_calc(op: BinOp) -> bool {
    op != BinOp::Add && op != BinOp::Sub && op != BinOp::Mul
}

/// Whether an expression holds such an operator, in operations, parentheses or lists.
pub open spec fn has_non_calc(e: Expr) -> bool
    decreases e, 0int,
{
    match e {
        Expr::Binary { op, lhs, rhs, pos } => non_calc(op) || has_non_calc(*lhs) || has_non_calc(*rhs),
        Expr::Div { lhs, rhs, slash, pos } => has_non_calc(*lhs) || has_non_calc(*rhs),
        Expr::Unary { op, operand } => op == UnOp::Not || has_non_calc(*operand),
        Expr::Paren(inner) => has_non_calc(*inner),
        Expr::List { items, sep, bracketed } => list_has_non_calc(items@, 0),
        _ => false,
    }
}

pub open spec fn list_has_non_calc(s: Seq<Expr>, i: int) -> bool
    decreases s, s.len() - i,
{
    if i < 0 || i >= s.len() {
        false
    } else {
        has_non_calc(s[i]) || list_has_non_calc(s, i + 1)
    }
}

pub fn expr_has_non_calc_op(e: &Expr) -> (r: bool)
    ensures
        r == has_non_calc(*e),
    decreases e, 0int,
{
    match e {
        Expr::Binary { op, lhs, rhs, pos: _ } => (*op != BinOp::Add && *op != BinOp::Sub && *op
            != BinOp::Mul) || expr_has_non_calc_op(lhs) || expr_has_non_calc_op(rhs),
        Expr::Div { lhs, rhs, .. } => expr_has_non_calc_op(lhs) || expr_has_non_calc_op(rhs),
        Expr::Unary { op, operand } => *op == UnOp::Not || expr_has_non_calc_op(operand),
        Expr::Paren(inner) => expr_has_non_calc_op(inner),
        Expr::List { items, .. } => {
            let mut i: usize = 0;
            while i < items.len()
                invariant
                    i <= items@.len(),
                    list_has_non_calc(items@, i as int) == list_has_non_calc(items@, 0),
                    decreases_to!(*e => items@),
                    has_non_calc(*e) == list_has_non_calc(items@, 0),
                decreases items@.len() - i,
            {
                if expr_has_non_calc_op(&items[i]) {
                    return true;
                }
                i += 1;
            }
            false
        },
        _ => false,
    }
}

/// Whether a property name starts, as it is written, with `--`.
pub open spec fn custom_name(property: Seq<TplPiece>) -> bool {
    property.len() > 0 && property[0] is Lit && starts(
        trimmed_start(property[0]->Lit_0@),
        "--"@,
    )
}

pub fn literal_name_is_custom_property(property: &Vec<TplPiece>) -> (r: bool)
    ensures
        r == custom_name(property@),
{
    if property.len() == 0 {
        return false;
    }
    match &property[0] {
        TplPiece::Lit(s) => {
            let chars = chars_of(s.as_str());
            starts_with(trim_start(chars.as_slice()), "--")
        },
        _ => false,
    }
}

// ---- media queries -------------------------------------------------------

/// Whether an expression holds interpolation anywhere.
pub open spec fn interpolated(e: Expr) -> bool
    decreases e, 0int,
{
    match e {
        Expr::Interp(_) => true,
        Expr::Ident(t) => has_interp(t@),
        Expr::QuotedString(t) => has_interp(t@),
        Expr::Paren(inner) => interpolated(*inner),
        Expr::Calc { inner } => interpolated(*inner),
        Expr::Unary { op, operand } => interpolated(*operand),
        Expr::Binary { op, lhs, rhs, pos } => interpolated(*lhs) || interpolated(*rhs),
        Expr::Div { lhs, rhs, slash, pos } => interpolated(*lhs) || interpolated(*rhs),
        Expr::List { items, sep, bracketed } => list_interpolated(items@, 0),
        Expr::Pairs(entries) => pairs_interpolated(entries@, 0),
        Expr::ModernIf(clauses) => clauses_interpolated(clauses@, 0),
        Expr::InterpFunc { name, args, pos } => has_interp(name@) || args_interpolated(args@, 0),
        Expr::Func { name, args, pos, length, module } => args_interpolated(args@, 0),
        _ => false,
    }
}

pub open spec fn list_interpolated(s: Seq<Expr>, i: int) -> bool
    decreases s, s.len() - i,
{
    if i < 0 || i >= s.len() {
        false
    } else {
        interpolated(s[i]) || list_interpolated(s, i + 1)
    }
}

pub open spec fn pairs_interpolated(s: Seq<(Expr, Expr)>, i: int) -> bool
    decreases s, s.len() - i,
{
    if i < 0 || i >= s.len() {
        false
    } else {
        interpolated(s[i].0) || interpolated(s[i].1) || pairs_interpolated(s, i + 1)
    }
}

pub open spec fn args_interpolated(s: Seq<CallArg>, i: int) -> bool
    decreases s, s.len() - i,
{
    if i < 0 || i >= s.len() {
        false
    } else {
        interpolated(s[i].value) || args_interpolated(s, i + 1)
    }
}

pub open spec fn clauses_interpolated(s: Seq<IfClause>, i: int) -> bool
    decreases s, s.len() - i,
{
    if i < 0 || i >= s.len() {
        false
    } else {
        (match s[i].condition {
            Some(c) => cond_interpolated(c),
            None => false,
        }) || interpolated(s[i].value) || clauses_interpolated(s, i + 1)
    }
}

/// Whether a condition of a CSS `if()` holds interpolation.
pub open spec fn cond_interpolated(c: IfCond) -> bool
    decreases c, 0int,
{
    match c {
        IfCond::Sass(e) => interpolated(e),
        IfCond::Raw { pieces } => has_interp(pieces@),
        IfCond::Not(inner) => cond_interpolated(*inner),
        IfCond::Paren(inner) => cond_interpolated(*inner),
        IfCond::And(list) => conds_interpolated(list@, 0),
        IfCond::Or(list) => conds_interpolated(list@, 0),
    }
}

pub open spec fn conds_interpolated(s: Seq<IfCond>, i: int) -> bool
    decreases s, s.len() - i,
{
    if i < 0 || i >= s.len() {
        false
    } else {
        cond_interpolated(s[i]) || conds_interpolated(s, i + 1)
    }
}

fn is_interpolated(e: &Expr) -> (r: bool)
    ensures
        r == interpolated(*e),
    decreases e, 0int,
{
    match e {
        Expr::Interp(_) => true,
        Expr::Ident(t) => holds_interp(t),
        Expr::QuotedString(t) => holds_interp(t),
        Expr::Paren(inner) => is_interpolated(inner),
        Expr::Calc { inner } => is_interpolated(inner),
        Expr::Unary { op: _, operand } => is_interpolated(operand),
        Expr::Binary { op: _, lhs, rhs, pos: _ } => is_interpolated(lhs) || is_interpolated(rhs),
        Expr::Div { lhs, rhs, .. } => is_interpolated(lhs) || is_interpolated(rhs),
        Expr::List { items, .. } => is_list_interpolated(items),
        Expr::Pairs(entries) => is_pairs_interpolated(entries),
        Expr::ModernIf(clauses) => is_clauses_interpolated(clauses),
        Expr::InterpFunc { name, args, pos: _ } => holds_interp(name) || is_args_interpolated(args),
        Expr::Func { args, .. } => is_args_interpolated(args),
        _ => false,
    }
}

fn is_list_interpolated(v: &Vec<Expr>) -> (r: bool)
    ensures
        r == list_interpolated(v@, 0),
    decreases v@, v@.len(),
{
    let mut i: usize = 0;
    while i < v.len()
        invariant
            i <= v@.len(),
            list_interpolated(v@, i as int) == list_interpolated(v@, 0),
        decreases v@.len() - i,
    {
        if is_interpolated(&v[i]) {
            return true;
        }
        i += 1;
    }
    false
}

fn is_pairs_interpolated(v: &Vec<(Expr, Expr)>) -> (r: bool)
    ensures
        r == pairs_interpolated(v@, 0),
    decreases v@, v@.len(),
{
    let mut i: usize = 0;
    while i < v.len()
        invariant
            i <= v@.len(),
            pairs_interpolated(v@, i as int) == pairs_interpolated(v@, 0),
        decreases v@.len() - i,
    {
        if is_interpolated(&v[i].0) || is_interpolated(&v[i].1) {
            return true;
        }
        i += 1;
    }
    false
}

fn is_args_interpolated(v: &Vec<CallArg>) -> (r: bool)
    ensures
        r == args_interpolated(v@, 0),
    decreases v@, v@.len(),
{
    let mut i: usize = 0;
    while i < v.len()
        invariant
            i <= v@.len(),
            args_interpolated(v@, i as int) == args_interpolated(v@, 0),
        decreases v@.len() - i,
    {
        if is_interpolated(&v[i].value) {
            return true;
        }
        i += 1;
    }
    false
}

fn is_clauses_interpolated(v: &Vec<IfClause>) -> (r: bool)
    ensures
        r == clauses_interpolated(v@, 0),
    decreases v@, v@.len(),
{
    let mut i: usize = 0;
    while i < v.len()
        invariant
            i <= v@.len(),
            clauses_interpolated(v@, i as int) == clauses_interpolated(v@, 0),
        decreases v@.len() - i,
    {
        if let Some(c) = &v[i].condition {
            if is_cond_interpolated(c) {
                return true;
            }
        }
        if is_interpolated(&v[i].value) {
            return true;
        }
        i += 1;
    }
    false
}

fn is_cond_interpolated(c: &IfCond) -> (r: bool)
    ensures
        r == cond_interpolated(*c),
    decreases c, 0int,
{
    match c {
        IfCond::Sass(e) => is_interpolated(e),
        IfCond::Raw { pieces } => holds_interp(pieces),
        IfCond::Not(inner) => is_cond_interpolated(inner),
        IfCond::Paren(inner) => is_cond_interpolated(inner),
        IfCond::And(list) => is_conds_interpolated(list),
        IfCond::Or(list) => is_conds_interpolated(list),
    }
}

fn is_conds_interpolated(v: &Vec<IfCond>) -> (r: bool)
    ensures
        r == conds_interpolated(v@, 0),
    decreases v@, v@.len(),
{
    let mut i: usize = 0;
    while i < v.len()
        invariant
            i <= v@.len(),
            conds_interpolated(v@, i as int) == conds_interpolated(v@, 0),
        decreases v@.len() - i,
    {
        if is_cond_interpolated(&v[i]) {
            return true;
        }
        i += 1;
    }
    false
}

pub open spec fn feature_interpolated(f: MediaFeature) -> bool {
    match f {
        MediaFeature::Decl { name, value } => interpolated(name) || match value {
            Some(v) => interpolated(v),
            None => false,
        },
        MediaFeature::Range { first, op1, second, rest } => interpolated(first) || interpolated(second)
            || match rest {
            Some(r) => interpolated(r.1),
            None => false,
        },
    }
}

pub open spec fn condition_interpolated(c: MediaInParens) -> bool
    decreases c, 0int,
{
    match c {
        MediaInParens::Feature(f) => feature_interpolated(*f),
        MediaInParens::Not(inner) => condition_interpolated(*inner),
        MediaInParens::Group { conditions, conjunction } => conditions_interpolated(conditions@, 0),
        MediaInParens::Interp(_) => true,
    }
}

pub open spec fn conditions_interpolated(s: Seq<MediaInParens>, i: int) -> bool
    decreases s, s.len() - i,
{
    if i < 0 || i >= s.len() {
        false
    } else {
        condition_interpolated(s[i]) || conditions_interpolated(s, i + 1)
    }
}

/// Whether a media query holds interpolation anywhere.
pub open spec fn query_interpolated(q: MediaQuery) -> bool {
    match q {
        MediaQuery::Type { modifier, mtype, conditions } => (match modifier {
            Some(m) => has_interp(m@),
            None => false,
        }) || has_interp(mtype@) || conditions_interpolated(conditions@, 0),
        MediaQuery::Condition { conditions, conjunction } => conditions_interpolated(conditions@, 0),
    }
}

fn feature_has_interp(f: &MediaFeature) -> (r: bool)
    ensures
        r == feature_interpolated(*f),
{
    match f {
        MediaFeature::Decl { name, value } => is_interpolated(name) || match value {
            Some(v) => is_interpolated(v),
            None => false,
        },
        MediaFeature::Range { first, op1: _, second, rest } => is_interpolated(first) || is_interpolated(
            second,
        ) || match rest {
            Some(r) => is_interpolated(&r.1),
            None => false,
        },
    }
}

fn condition_has_interp(c: &MediaInParens) -> (r: bool)
    ensures
        r == condition_interpolated(*c),
    decreases c, 0int,
{
    match c {
        MediaInParens::Feature(f) => feature_has_interp(f),
        MediaInParens::Not(inner) => condition_has_interp(inner),
        MediaInParens::Group { conditions, .. } => conditions_have_interp(conditions),
        MediaInParens::Interp(_) => true,
    }
}

fn conditions_have_interp(v: &Vec<MediaInParens>) -> (r: bool)
    ensures
        r == conditions_interpolated(v@, 0),
    decreases v@, v@.len(),
{
    let mut i: usize = 0;
    while i < v.len()
        invariant
            i <= v@.len(),
            conditions_interpolated(v@, i as int) == conditions_interpolated(v@, 0),
        decreases v@.len() - i,
    {
        if condition_has_interp(&v[i]) {
            return true;
        }
        i += 1;
    }
    false
}

pub fn media_query_has_interp(q: &MediaQuery) -> (r: bool)
    ensures
        r == query_interpolated(*q),
{
    match q {
        MediaQuery::Type { modifier, mtype, conditions } => (match modifier {
            Some(m) => holds_interp(m),
            None => false,
        }) || holds_interp(mtype) || conditions_have_interp(conditions),
        MediaQuery::Condition { conditions, .. } => conditions_have_interp(conditions),
    }
}

// ---- laws ----------------------------------------------------------------

/// At the top level, and in style rules and plain at-rules there, a function or a mixin may be
/// declared; nowhere else.
pub proof fn declarations_only_where_allowed(scope: DeclScope, function: bool)
    ensures
        declaration_fault(scope, function) is None <==> scope == DeclScope::Allowed,
        declaration_fault(control_scope(scope), function) is Some,
{
}

} // verus!
