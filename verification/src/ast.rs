//! The syntax tree that the parsers give.

use std::rc::Rc;
use vstd::prelude::*;
use crate::error::{Error, Pos};
use crate::out::SrcLines;
use crate::value::{Color, List, ListSep, Number};

verus! {

#[derive(Clone, Copy, Debug, PartialEq, Eq, Structural)]
pub enum UnOp {
    Neg,
    Plus,
    Not,
}

#[derive(Clone, Copy, Debug, PartialEq, Eq, Structural)]
pub enum BinOp {
    Add,
    Sub,
    Mul,
    Mod,
    Eq,
    Neq,
    Lt,
    Gt,
    Le,
    Ge,
    And,
    Or,
    /// The single `=` of Microsoft filters.
    SingleEq,
}

#[derive(Clone, Copy, Debug, PartialEq, Eq, Structural)]
pub enum Conjunction {
    And,
    Or,
}

/// A piece of text with interpolation.
#[derive(Debug)]
pub enum TplPiece {
    Lit(String),
    Interp(Expr),
}

#[derive(Debug)]
pub struct CallArg {
    pub name: Option<String>,
    pub value: Expr,
    pub splat: bool,
}

/// A clause of a CSS `if()`; the `else` clause has no condition.
#[derive(Debug)]
pub struct IfClause {
    pub condition: Option<IfCond>,
    pub value: Expr,
}

/// A condition of a CSS `if()`.
#[derive(Debug)]
pub enum IfCond {
    Sass(Expr),
    Raw { pieces: Vec<TplPiece> },
    Not(Box<IfCond>),
    Paren(Box<IfCond>),
    And(Vec<IfCond>),
    Or(Vec<IfCond>),
}

#[derive(Debug)]
#[allow(inconsistent_fields)]
pub enum Expr {
    /// A number: the bits of its value, and its unit.
    Number(u64, String),
    Color(Color),
    Bool(bool),
    Null,
    /// `&`.
    Parent,
    Var { name: String, pos: Pos },
    NsVar { module: String, name: String },
    QuotedString(Vec<TplPiece>),
    Ident(Vec<TplPiece>),
    Interp(Box<Expr>),
    ModernIf(Vec<IfClause>),
    Paren(Box<Expr>),
    List { items: Vec<Expr>, sep: ListSep, bracketed: bool },
    Pairs(Vec<(Expr, Expr)>),
    Unary { op: UnOp, operand: Box<Expr> },
    Binary { op: BinOp, lhs: Box<Expr>, rhs: Box<Expr>, pos: Pos },
    Div { lhs: Box<Expr>, rhs: Box<Expr>, slash: bool, pos: Pos },
    Calc { inner: Box<Expr> },
    /// A call whose name has interpolation: always plain CSS.
    InterpFunc { name: Vec<TplPiece>, args: Vec<CallArg>, pos: Pos },
    Func { name: String, args: Vec<CallArg>, pos: Pos, length: usize, module: Option<String> },
}

#[derive(Debug)]
pub struct Param {
    pub name: String,
    pub default: Option<Expr>,
}

#[derive(Debug)]
pub struct ParamList {
    pub params: Vec<Param>,
    pub rest: Option<String>,
}

/// A `@function` or a `@mixin`.
#[derive(Debug)]
pub struct Callable {
    pub name: String,
    pub params: ParamList,
    pub body: Vec<Stmt>,
}

#[derive(Debug)]
pub struct VarDecl {
    pub name: String,
    pub value: Expr,
    pub is_default: bool,
    pub is_global: bool,
    pub namespace: Option<String>,
}

#[derive(Debug)]
pub struct Declaration {
    pub property: Vec<TplPiece>,
    pub value: Expr,
    pub important: bool,
    pub pos: Pos,
    pub end_line: u32,
}

/// A declaration of a custom property, whose value is kept as it is written.
#[derive(Debug)]
pub struct CustomDecl {
    pub property: Vec<TplPiece>,
    pub value: Vec<TplPiece>,
    pub pos: Pos,
    pub end_line: u32,
}

/// Nested properties, each of which has the name of the set before its own.
#[derive(Debug)]
pub struct PropertySet {
    pub property: Vec<TplPiece>,
    pub value: Option<Expr>,
    pub important: bool,
    pub body: Vec<Stmt>,
    pub pos: Pos,
}

#[derive(Debug)]
pub struct Rule {
    pub selector: Vec<TplPiece>,
    pub body: Vec<Stmt>,
    pub lines: SrcLines,
}

#[derive(Debug)]
pub struct IfBranch {
    pub cond: Option<Expr>,
    pub body: Vec<Stmt>,
}

/// A variable of a `with (...)` clause.
#[derive(Debug)]
pub struct ConfigEntry {
    pub name: String,
    pub value: Expr,
    pub is_default: bool,
}

/// A member that a `@forward` shows or hides.
#[derive(Debug)]
pub enum ForwardMember {
    Var(String),
    Name(String),
}

#[derive(Debug)]
pub enum ImportModifier {
    Raw(Vec<TplPiece>),
    Supports { condition: SupportsCondition, declaration: bool },
    Media { list: MediaQueryList, comma_before: bool },
}

#[derive(Debug)]
pub enum ImportArg {
    Css { url: Vec<TplPiece>, modifiers: Vec<ImportModifier> },
    Sass { path: String, pos: Pos, length: usize },
}

#[derive(Debug)]
pub enum CssCustomValue {
    Raw(Vec<TplPiece>),
    Script(Expr),
    Nested(Vec<(Vec<TplPiece>, Expr)>),
}

#[derive(Debug)]
pub struct CssCustomItem {
    pub property: Vec<TplPiece>,
    pub value: CssCustomValue,
}

#[derive(Debug)]
pub struct MediaQueryList {
    pub queries: Vec<MediaQuery>,
}

#[derive(Debug)]
pub enum MediaQuery {
    Type { modifier: Option<Vec<TplPiece>>, mtype: Vec<TplPiece>, conditions: Vec<MediaInParens> },
    Condition { conditions: Vec<MediaInParens>, conjunction: Conjunction },
}

#[derive(Debug)]
pub enum MediaInParens {
    Feature(Box<MediaFeature>),
    Not(Box<MediaInParens>),
    Group { conditions: Vec<MediaInParens>, conjunction: Conjunction },
    Interp(Expr),
}

#[derive(Debug)]
pub enum MediaFeature {
    Decl { name: Expr, value: Option<Expr> },
    Range { first: Expr, op1: String, second: Expr, rest: Option<(String, Expr)> },
}

#[derive(Debug)]
pub enum SupportsValue {
    Expr(Expr),
    Raw(Vec<TplPiece>),
}

#[derive(Debug)]
#[allow(inconsistent_fields)]
pub enum SupportsCondition {
    Operation { left: Box<SupportsCondition>, right: Box<SupportsCondition>, op: Conjunction },
    Negation(Box<SupportsCondition>),
    Interpolation(Expr),
    Declaration { name: Expr, value: Box<SupportsValue>, custom: bool },
    Function { name: Vec<TplPiece>, arguments: Vec<TplPiece> },
    Anything(Vec<TplPiece>),
}

#[derive(Debug)]
#[allow(inconsistent_fields)]
pub enum Stmt {
    VarDecl(VarDecl),
    Comment(Vec<TplPiece>, SrcLines),
    Decl(Declaration),
    PropertySet(PropertySet),
    CustomDecl(CustomDecl),
    Rule(Rule),
    If(Vec<IfBranch>),
    For { var: String, from: Expr, to: Expr, inclusive: bool, body: Vec<Stmt> },
    Each { vars: Vec<String>, list: Expr, body: Vec<Stmt> },
    While { cond: Expr, body: Vec<Stmt> },
    FunctionDef(Rc<Callable>),
    MixinDef(Rc<Callable>),
    Return(Expr),
    Include {
        name: String,
        args: Vec<CallArg>,
        content: Option<Rc<Vec<Stmt>>>,
        content_params: Option<Rc<ParamList>>,
        module: Option<String>,
        pos: Pos,
        length: usize,
    },
    Use { url: String, namespace: Option<String>, star: bool, config: Vec<ConfigEntry>, pos: Pos },
    Forward {
        url: String,
        prefix: Option<String>,
        show: Option<Vec<ForwardMember>>,
        hide: Option<Vec<ForwardMember>>,
        config: Vec<ConfigEntry>,
        pos: Pos,
    },
    Content(Vec<CallArg>),
    Import(Vec<ImportArg>),
    AtRule { name: String, prelude: Vec<TplPiece>, body: Option<Vec<Stmt>>, lines: SrcLines },
    InterpAtRule { name: Vec<TplPiece>, prelude: Vec<TplPiece>, body: Option<Vec<Stmt>> },
    CssCustomAtRule { name: String, prelude: Vec<TplPiece>, body: Vec<CssCustomItem> },
    Media { query: MediaQueryList, body: Vec<Stmt>, lines: SrcLines },
    Supports { condition: SupportsCondition, body: Vec<Stmt> },
    AtRoot { query: Option<Vec<TplPiece>>, body: Vec<Stmt> },
    Keyframes { name: String, prelude: Vec<TplPiece>, body: Vec<Stmt>, lines: SrcLines },
    Extend { selector: Vec<TplPiece>, optional: bool, pos: Pos },
    Warn { value: Expr, pos: Pos },
    Debug { value: Expr, pos: Pos },
    Error { value: Expr, pos: Pos, length: usize },
}

#[derive(Debug)]
pub struct Stylesheet {
    pub stmts: Vec<Stmt>,
}

} // verus!
