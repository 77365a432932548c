use std::rc::Rc;

use sasso::ast::{
    BinOp, CallArg, Callable, ConfigEntry, Conjunction, Declaration, Expr, IfBranch, ImportArg,
    MediaFeature, MediaInParens, MediaQuery, MediaQueryList, Param, ParamList, Rule, Stmt,
    Stylesheet, SupportsCondition, TplPiece, VarDecl,
};
use sasso::error::{Notice, Pos};
use sasso::eval::Evaluator;
use sasso::host::{Answer, Request, Source, TargetClass, Task};
use sasso::out::{OutItem, OutNode, SrcLines};
use sasso::selector_text::Spellings;
use sasso::value::{ListSep, Number, Value};
use sasso::{compile, Error, Options, Step, Syntax};

const HERE: Pos = Pos { line: 1, col: 1 };
const LINES: SrcLines = SrcLines { file: 0, start: 1, end: 1, col: 0 };

// ---- syntax trees --------------------------------------------------------

fn lit(s: &str) -> Vec<TplPiece> {
    vec![TplPiece::Lit(s.to_string())]
}

fn word(s: &str) -> Expr {
    Expr::Ident(lit(s))
}

fn px(n: f64) -> Expr {
    Expr::Number(n.to_bits(), "px".to_string())
}

fn num(n: f64) -> Expr {
    Expr::Number(n.to_bits(), String::new())
}

fn var(name: &str) -> Expr {
    Expr::Var { name: name.to_string(), pos: HERE }
}

fn arg(value: Expr) -> CallArg {
    CallArg { name: None, value, splat: false }
}

fn call(name: &str, args: Vec<CallArg>) -> Expr {
    Expr::Func { name: name.to_string(), args, pos: HERE, length: 1, module: None }
}

fn decl(property: &str, value: Expr) -> Stmt {
    Stmt::Decl(Declaration {
        property: lit(property),
        value,
        important: false,
        pos: HERE,
        end_line: 1,
    })
}

fn rule(selector: &str, body: Vec<Stmt>) -> Stmt {
    Stmt::Rule(Rule { selector: lit(selector), body, lines: LINES })
}

fn assign(name: &str, value: Expr, is_default: bool, is_global: bool) -> Stmt {
    Stmt::VarDecl(VarDecl {
        name: name.to_string(),
        value,
        is_default,
        is_global,
        namespace: None,
    })
}

fn set(name: &str, value: Expr) -> Stmt {
    assign(name, value, false, false)
}

fn callable(name: &str, params: &[&str], body: Vec<Stmt>) -> Rc<Callable> {
    let params = params
        .iter()
        .map(|p| Param { name: p.to_string(), default: None })
        .collect();
    Rc::new(Callable {
        name: name.to_string(),
        params: ParamList { params, rest: None },
        body,
    })
}

fn mixin_call(name: &str, module: Option<&str>, args: Vec<CallArg>, content: Option<Vec<Stmt>>) -> Stmt {
    Stmt::Include {
        name: name.to_string(),
        args,
        content: content.map(Rc::new),
        content_params: None,
        module: module.map(str::to_string),
        pos: HERE,
        length: 1,
    }
}

fn use_module(url: &str, config: Vec<ConfigEntry>) -> Stmt {
    Stmt::Use { url: url.to_string(), namespace: None, star: false, config, pos: HERE }
}

fn media(conditions: Vec<MediaInParens>, mtype: Option<&str>, body: Vec<Stmt>) -> Stmt {
    let query = match mtype {
        Some(t) => MediaQuery::Type { modifier: None, mtype: lit(t), conditions },
        None => MediaQuery::Condition { conditions, conjunction: Conjunction::And },
    };
    Stmt::Media { query: MediaQueryList { queries: vec![query] }, body, lines: LINES }
}

fn feature(name: &str, value: Expr) -> MediaInParens {
    MediaInParens::Feature(Box::new(MediaFeature::Decl { name: word(name), value: Some(value) }))
}

fn import(path: &str) -> Stmt {
    Stmt::Import(vec![ImportArg::Sass { path: path.to_string(), pos: HERE, length: 3 }])
}

fn extend(selector: &str, optional: bool) -> Stmt {
    Stmt::Extend { selector: lit(selector), optional, pos: HERE }
}

// ---- a small host --------------------------------------------------------

struct Host {
    /// The syntax trees of texts.
    sheets: Vec<(String, Rc<Stylesheet>)>,
    /// The texts of files, which are also their keys.
    files: Vec<(String, Syntax)>,
    /// The extensions stated so far: number, target and extender.
    extensions: Vec<(u64, String, String)>,
}

fn host() -> Host {
    Host { sheets: vec![], files: vec![], extensions: vec![] }
}

impl Host {
    fn with(mut self, text: &str, stmts: Vec<Stmt>) -> Host {
        self.sheets.push((text.to_string(), Rc::new(Stylesheet { stmts })));
        self
    }

    fn file(mut self, text: &str, syntax: Syntax, stmts: Vec<Stmt>) -> Host {
        self.files.push((text.to_string(), syntax));
        self.with(text, stmts)
    }

    fn answer(&mut self, q: &Request) -> Answer {
        let numbers: Vec<f64> = q.numbers.iter().map(|b| f64::from_bits(*b)).collect();
        match q.task {
            Task::Parse => {
                for (text, sheet) in &self.sheets {
                    if *text == q.names[0] {
                        return Answer::Sheet(sheet.clone());
                    }
                }
                Answer::Fail(Error::at("unknown text", HERE))
            }
            Task::Spellings => {
                let mut pseudos = vec![];
                if q.names.iter().any(|n| n.contains(":is(a>b)")) {
                    pseudos.push((":is(a>b)".to_string(), ":is(a > b)".to_string()));
                }
                Answer::Spellings(Spellings { names: vec![], attributes: vec![], pseudos })
            }
            Task::Css | Task::CssCompressed | Task::Interp | Task::Message => {
                Answer::Text(text(&q.values[0]))
            }
            Task::ErrorMessage => Answer::Text(format!("\"{}\"", text(&q.values[0]))),
            Task::TypeName => Answer::Text("string".to_string()),
            Task::Deprecation => Answer::Text("DEPRECATED\n".to_string()),
            Task::FromInteger => {
                let size = q.numbers[1] as f64;
                Answer::Bits((if q.numbers[0] == 1 { -size } else { size }).to_bits())
            }
            Task::Integer => Answer::Int(numbers[0] as i64),
            Task::Sum => Answer::Bits((numbers[0] + numbers[1]).to_bits()),
            Task::ConvertFactor if q.names[0] == q.names[1] => Answer::Bits(1f64.to_bits()),
            Task::ConvertFactor => Answer::Nothing,
            Task::Scale => Answer::Bits((numbers[0] * numbers[1]).to_bits()),
            Task::Less => Answer::Flag(numbers[0] < numbers[1]),
            Task::IsBuiltin => Answer::Flag(false),
            Task::IsModule => Answer::Flag(q.names[0] == "meta"),
            Task::Call => {
                let args: Vec<String> = q.values.iter().map(text).collect();
                let call = format!("{}({})", q.names[0], args.join(", "));
                Answer::Value(sasso::value::word(call))
            }
            Task::ResolveModule | Task::ResolveImport => {
                for (text, syntax) in &self.files {
                    if *text == q.names[0] {
                        return Answer::Source(Source {
                            key: text.clone(),
                            text: text.clone(),
                            syntax: *syntax,
                        });
                    }
                }
                Answer::Nothing
            }
            Task::ExtendTarget => Answer::Target(if q.names[0].contains(' ') {
                TargetClass::Complex
            } else {
                TargetClass::Simple
            }),
            Task::Extension => {
                let number = q.numbers[0];
                self.extensions.push((number, q.names[0].clone(), q.names[2].clone()));
                Answer::Nothing
            }
            Task::Extend => {
                let mut selectors: Vec<String> = q.names[1..].to_vec();
                let mut matched = vec![];
                for (number, target, extender) in &self.extensions {
                    if q.numbers.contains(number) && selectors.contains(target) {
                        selectors.push(extender.clone());
                        matched.push(*number);
                    }
                }
                selectors.retain(|s| !s.contains('%'));
                if selectors.is_empty() {
                    return Answer::Nothing;
                }
                let breaks = vec![false; selectors.len()];
                Answer::Extended { selectors, breaks, matched }
            }
            Task::HoldsSimple => Answer::Flag(q.names[0].contains(q.names[1].as_str())),
            other => panic!("nobody asks {other:?} here"),
        }
    }

    fn run(mut self, source: &str, options: &Options<'_>) -> (Result<String, Error>, Vec<String>) {
        let mut answers: Vec<Answer> = vec![];
        loop {
            let p = compile(source, options, &answers);
            let log = p.log.iter().map(shown).collect();
            match p.step {
                Step::Done(css) => return (Ok(css), log),
                Step::Failed(e) => return (Err(e), log),
                Step::Write(list) => answers.push(Answer::Text(write(&list))),
                Step::Need(q) => {
                    let a = self.answer(&q);
                    answers.push(a);
                }
                other => panic!("stopped at {other:?}"),
            }
        }
    }

    /// What is asked on the way to the CSS.
    fn questions(mut self, source: &str) -> Vec<(Task, Vec<String>)> {
        let mut answers: Vec<Answer> = vec![];
        let mut asked = vec![];
        loop {
            match compile(source, &Options::new(), &answers).step {
                Step::Need(q) => {
                    answers.push(self.answer(&q));
                    asked.push((q.task, q.names));
                }
                _ => return asked,
            }
        }
    }

    fn css(self, source: &str) -> String {
        self.run(source, &Options::new()).0.unwrap()
    }

    fn error(self, source: &str) -> String {
        self.run(source, &Options::new()).0.unwrap_err().message
    }
}

/// A diagnostic whose snippet is the source, indented.
fn shown(n: &Notice) -> String {
    match &n.excerpt {
        Some(e) => n.text(&format!("  {}", e.source)),
        None => n.text("not shown"),
    }
}

fn number_text(n: &Number) -> String {
    format!("{}{}", f64::from_bits(n.bits), n.numer.join("*"))
}

fn text(v: &Value) -> String {
    match v {
        Value::Null => String::new(),
        Value::Bool(b) => b.to_string(),
        Value::Number(n) => number_text(n),
        Value::Str(s) => s.text.clone(),
        Value::List(l) => {
            let items: Vec<String> = l.items.iter().map(text).collect();
            items.join(if l.sep == ListSep::Comma { ", " } else { " " })
        }
        other => format!("{other:?}"),
    }
}

fn write_items(items: &[OutItem]) -> String {
    let mut parts = vec![];
    for i in items {
        parts.push(match i {
            OutItem::Decl { prop, value, .. } => format!("{prop}: {value};"),
            OutItem::Comment(t, _) => format!("/*{t}*/"),
            OutItem::ChildlessAtRule { name, prelude, .. } => format!("@{name} {prelude};"),
            OutItem::NestedRule { selectors, items } => {
                format!("{} {{ {} }}", selectors.join(", "), write_items(items))
            }
            OutItem::NestedAtRule { name, prelude, items } => {
                format!("@{name} {prelude} {{ {} }}", write_items(items))
            }
        });
    }
    parts.join(" ")
}

fn write(list: &[OutNode]) -> String {
    let mut parts = vec![];
    for n in list {
        match n {
            OutNode::Rule { selectors, items, .. } => {
                parts.push(format!("{} {{ {} }}", selectors.join(", "), write_items(items)));
            }
            OutNode::Comment(t, _) => parts.push(format!("/*{t}*/")),
            OutNode::Raw(t) => parts.push(t.clone()),
            OutNode::AtRule { name, prelude, body, .. } => {
                parts.push(format!("@{name} {prelude} {{ {} }}", write(body)));
            }
            OutNode::ModuleScope { nodes, .. } => parts.push(write(nodes)),
            OutNode::AtDecl { prop, value, .. } => parts.push(format!("{prop}: {value};")),
            OutNode::Blank | OutNode::Mark(_) => {}
        }
    }
    parts.retain(|p| !p.is_empty());
    parts.join("\n")
}

// ---- rules and variables -------------------------------------------------

#[test]
fn nested_rules_come_after_their_parent() {
    let body = vec![
        rule("&:hover", vec![decl("color", word("blue"))]),
        rule("b, c", vec![decl("x", px(1.0))]),
    ];
    let mut first = vec![decl("color", word("red"))];
    first.extend(body);
    let css = host().with("s", vec![rule("a", first)]).css("s");
    assert_eq!(css, "a { color: red; }\na:hover { color: blue; }\na b, a c { x: 1px; }");
}

#[test]
fn a_variable_of_a_rule_ends_with_it() {
    let css = host()
        .with(
            "s",
            vec![
                set("x", px(1.0)),
                rule("a", vec![set("x", px(2.0)), decl("b", var("x"))]),
                rule("c", vec![decl("d", var("x"))]),
            ],
        )
        .css("s");
    assert_eq!(css, "a { b: 2px; }\nc { d: 1px; }");
}

#[test]
fn global_assignments_reach_out() {
    let css = host()
        .with(
            "s",
            vec![
                set("x", px(1.0)),
                rule("a", vec![assign("x", px(2.0), false, true)]),
                assign("x", px(3.0), true, false),
                rule("c", vec![decl("d", var("x"))]),
            ],
        )
        .css("s");
    assert_eq!(css, "c { d: 2px; }");
}

#[test]
fn null_values_drop_declarations() {
    let css = host()
        .with("s", vec![rule("a", vec![decl("b", Expr::Null), decl("c", word("d"))])])
        .css("s");
    assert_eq!(css, "a { c: d; }");
}

#[test]
fn declarations_need_a_rule() {
    assert_eq!(
        host().with("s", vec![decl("a", word("b"))]).error("s"),
        "top-level declarations aren't allowed"
    );
}

#[test]
fn undefined_variables_are_errors() {
    let message = host().with("s", vec![rule("a", vec![decl("b", var("x"))])]).error("s");
    assert_eq!(message, "Undefined variable.");
}

#[test]
fn empty_lists_are_no_values() {
    let empty = Expr::List { items: vec![], sep: ListSep::Space, bracketed: false };
    let message = host().with("s", vec![rule("a", vec![decl("b", empty)])]).error("s");
    assert_eq!(message, "() isn't a valid CSS value.");
}

// ---- control flow --------------------------------------------------------

#[test]
fn the_first_true_branch_is_taken() {
    let branch = |cond: Option<Expr>, value: &str| IfBranch {
        cond,
        body: vec![decl("b", word(value))],
    };
    let stmts = vec![rule(
        "a",
        vec![Stmt::If(vec![
            branch(Some(Expr::Bool(false)), "one"),
            branch(Some(Expr::Bool(true)), "two"),
            branch(None, "three"),
        ])],
    )];
    assert_eq!(host().with("s", stmts).css("s"), "a { b: two; }");
}

#[test]
fn loops_repeat_their_body() {
    let name = vec![TplPiece::Lit(".i".to_string()), TplPiece::Interp(var("i"))];
    let body = vec![Stmt::Rule(Rule {
        selector: name,
        body: vec![decl("w", var("i"))],
        lines: LINES,
    })];
    let stmts = vec![Stmt::For {
        var: "i".to_string(),
        from: px(1.0),
        to: px(3.0),
        inclusive: false,
        body,
    }];
    assert_eq!(
        host().with("s", stmts).css("s"),
        ".i1px { w: 1px; }\n.i2px { w: 2px; }"
    );
}

#[test]
fn loop_bounds_are_checked() {
    let run = |from: Expr, to: Expr| {
        let body = vec![];
        let stmts = vec![Stmt::For { var: "i".to_string(), from, to, inclusive: true, body }];
        host().with("s", stmts).error("s")
    };
    assert_eq!(run(word("a"), num(1.0)), "string is not a number.");
    let em = Expr::Number(2f64.to_bits(), "em".to_string());
    assert_eq!(run(px(1.0), em), "Expected 2em to have unit px.");
}

#[test]
fn a_while_loop_ends() {
    let more = Expr::Binary {
        op: BinOp::Lt,
        lhs: Box::new(var("i")),
        rhs: Box::new(num(3.0)),
        pos: HERE,
    };
    let next = Expr::Binary {
        op: BinOp::Add,
        lhs: Box::new(var("i")),
        rhs: Box::new(num(1.0)),
        pos: HERE,
    };
    let stmts = vec![
        set("i", num(1.0)),
        Stmt::While {
            cond: more,
            body: vec![rule("a", vec![decl("b", var("i"))]), set("i", next)],
        },
        rule("c", vec![decl("d", var("i"))]),
    ];
    assert_eq!(
        host().with("s", stmts).css("s"),
        "a { b: 1; }\na { b: 2; }\nc { d: 3; }"
    );
}

// ---- functions and mixins ------------------------------------------------

#[test]
fn functions_return_values() {
    let twice = Expr::Binary {
        op: BinOp::Add,
        lhs: Box::new(var("n")),
        rhs: Box::new(var("n")),
        pos: HERE,
    };
    let stmts = vec![
        Stmt::FunctionDef(callable("twice", &["n"], vec![Stmt::Return(twice)])),
        rule("a", vec![decl("b", call("twice", vec![arg(px(4.0))]))]),
    ];
    assert_eq!(host().with("s", stmts).css("s"), "a { b: 8px; }");
}

#[test]
fn functions_must_return() {
    let stmts = vec![
        Stmt::FunctionDef(callable("f", &[], vec![])),
        rule("a", vec![decl("b", call("f", vec![]))]),
    ];
    assert_eq!(host().with("s", stmts).error("s"), "Function f() did not @return a value.");
}

#[test]
fn unknown_functions_are_left_to_css() {
    let stmts = vec![rule("a", vec![decl("b", call("translate", vec![arg(px(1.0))]))])];
    assert_eq!(host().with("s", stmts).css("s"), "a { b: translate(1px); }");
}

#[test]
fn only_one_branch_of_if_is_evaluated() {
    let args = vec![arg(Expr::Bool(true)), arg(word("yes")), arg(var("nothing"))];
    let stmts = vec![rule("a", vec![decl("b", call("if", args))])];
    assert_eq!(host().with("s", stmts).css("s"), "a { b: yes; }");
}

#[test]
fn mixins_take_arguments_and_content() {
    let body = vec![decl("w", var("n")), rule("b", vec![Stmt::Content(vec![])])];
    let stmts = vec![
        set("x", word("outer")),
        Stmt::MixinDef(callable("m", &["n"], body)),
        rule(
            "a",
            vec![mixin_call("m", None, vec![arg(px(1.0))], Some(vec![decl("c", var("x"))]))],
        ),
    ];
    assert_eq!(host().with("s", stmts).css("s"), "a { w: 1px; }\na b { c: outer; }");
}

#[test]
fn mixins_are_checked() {
    let m = Stmt::MixinDef(callable("m", &["n"], vec![]));
    let missing = vec![m, mixin_call("m", None, vec![], None)];
    assert_eq!(host().with("s", missing).error("s"), "Missing argument $n.");
    let unknown = vec![mixin_call("other", None, vec![], None)];
    assert_eq!(host().with("s", unknown).error("s"), "Undefined mixin other.");
    let m = Stmt::MixinDef(callable("m", &[], vec![]));
    let refused = vec![m, mixin_call("m", None, vec![], Some(vec![]))];
    assert_eq!(host().with("s", refused).error("s"), "Mixin doesn't accept a content block.");
    let elsewhere = vec![mixin_call("m", Some("ns"), vec![], None)];
    assert_eq!(
        host().with("s", elsewhere).error("s"),
        "There is no module with the namespace \"ns\"."
    );
}

#[test]
fn returns_belong_in_functions() {
    assert_eq!(
        host().with("s", vec![Stmt::Return(num(1.0))]).error("s"),
        "@return is only allowed inside a function."
    );
}

// ---- at-rules ------------------------------------------------------------

#[test]
fn nested_media_queries_merge() {
    let inner = media(vec![feature("min-width", px(1.0))], None, vec![decl("b", word("c"))]);
    let stmts = vec![media(vec![], Some("screen"), vec![rule("a", vec![inner])])];
    assert_eq!(
        host().with("s", stmts).css("s"),
        "@media screen and (min-width: 1px) { a { b: c; } }"
    );
}

#[test]
fn excluded_media_queries_give_nothing() {
    let inner = media(vec![], Some("print"), vec![decl("b", word("c"))]);
    let stmts = vec![
        rule("x", vec![decl("y", word("z"))]),
        media(vec![], Some("screen"), vec![rule("a", vec![inner])]),
    ];
    assert_eq!(host().with("s", stmts).css("s"), "x { y: z; }");
}

#[test]
fn at_root_leaves_the_rule() {
    let stmts = vec![rule(
        "a",
        vec![Stmt::AtRoot { query: None, body: vec![rule("b", vec![decl("c", word("d"))])] }],
    )];
    assert_eq!(host().with("s", stmts).css("s"), "b { c: d; }");
}

#[test]
fn keyframes_keep_their_stops() {
    let stmts = vec![rule(
        "a",
        vec![Stmt::Keyframes {
            name: "keyframes".to_string(),
            prelude: lit("k"),
            body: vec![rule("50E0%", vec![decl("b", word("c"))])],
            lines: LINES,
        }],
    )];
    assert_eq!(host().with("s", stmts).css("s"), "@keyframes k { 50e0% { b: c; } }");
}

#[test]
fn keyframes_hold_no_rules() {
    let frame = rule("from", vec![rule("a", vec![])]);
    let stmts = vec![Stmt::Keyframes {
        name: "keyframes".to_string(),
        prelude: lit("k"),
        body: vec![frame],
        lines: LINES,
    }];
    assert_eq!(
        host().with("s", stmts).error("s"),
        "Style rules may not be used within keyframe blocks."
    );
}

#[test]
fn selectors_must_not_be_empty() {
    assert_eq!(host().with("s", vec![rule(" ", vec![])]).error("s"), "expected selector.");
    assert_eq!(host().with("s", vec![rule("1a", vec![])]).error("s"), "expected selector.");
}

// ---- modules -------------------------------------------------------------

fn library() -> Vec<Stmt> {
    vec![assign("x", px(3.0), true, false), rule(".lib", vec![decl("w", var("x"))])]
}

fn lib_var() -> Expr {
    Expr::NsVar { module: "lib".to_string(), name: "x".to_string() }
}

#[test]
fn a_module_is_evaluated_once() {
    let other = vec![use_module("lib", vec![])];
    let main = vec![
        use_module("lib", vec![]),
        use_module("other", vec![]),
        rule("a", vec![decl("b", lib_var())]),
    ];
    let css = host()
        .with("s", main)
        .file("lib", Syntax::Scss, library())
        .file("other", Syntax::Scss, other)
        .css("s");
    assert_eq!(css, ".lib { w: 3px; }\na { b: 3px; }");
}

#[test]
fn modules_are_configured() {
    let entry = |name: &str| ConfigEntry {
        name: name.to_string(),
        value: px(5.0),
        is_default: false,
    };
    let main = vec![
        use_module("lib", vec![entry("x")]),
        rule("a", vec![decl("b", lib_var())]),
    ];
    let css = host().with("s", main).file("lib", Syntax::Scss, library()).css("s");
    assert_eq!(css, ".lib { w: 5px; }\na { b: 5px; }");
    let wrong = vec![use_module("lib", vec![entry("y")])];
    assert_eq!(
        host().with("s", wrong).file("lib", Syntax::Scss, library()).error("s"),
        "This variable was not declared with !default in the @used module."
    );
    let twice = vec![use_module("lib", vec![entry("x"), entry("x")])];
    assert_eq!(
        host().with("s", twice).file("lib", Syntax::Scss, library()).error("s"),
        "The variable $x was configured twice."
    );
}

#[test]
fn modules_do_not_see_their_user() {
    let lib = vec![rule(".lib", vec![decl("w", var("mine"))])];
    let main = vec![set("mine", px(1.0)), use_module("lib", vec![])];
    assert_eq!(
        host().with("s", main).file("lib", Syntax::Scss, lib).error("s"),
        "Undefined variable."
    );
}

#[test]
fn module_errors() {
    assert_eq!(
        host().with("s", vec![use_module("gone", vec![])]).error("s"),
        "Can't find stylesheet to import."
    );
    let again = vec![use_module("lib", vec![]), use_module("lib", vec![])];
    assert_eq!(
        host().with("s", again).file("lib", Syntax::Scss, library()).error("s"),
        "There's already a module with namespace \"lib\"."
    );
    let round = vec![use_module("lib", vec![])];
    assert_eq!(
        host()
            .with("s", vec![use_module("lib", vec![])])
            .file("lib", Syntax::Scss, round)
            .error("s"),
        "Module loop: this module is already being loaded."
    );
    let entry = ConfigEntry { name: "x".to_string(), value: px(1.0), is_default: false };
    assert_eq!(
        host().with("s", vec![use_module("sass:meta", vec![entry])]).error("s"),
        "Built-in modules can't be configured."
    );
    assert_eq!(
        host().with("s", vec![use_module("sass:nothing", vec![])]).error("s"),
        "Can't find stylesheet to import."
    );
}

#[test]
fn forwarded_members_have_a_prefix() {
    let middle = vec![Stmt::Forward {
        url: "lib".to_string(),
        prefix: Some("p-".to_string()),
        show: None,
        hide: None,
        config: vec![],
        pos: HERE,
    }];
    let value = Expr::NsVar { module: "middle".to_string(), name: "p-x".to_string() };
    let main = vec![use_module("middle", vec![]), rule("a", vec![decl("b", value)])];
    let css = host()
        .with("s", main)
        .file("middle", Syntax::Scss, middle)
        .file("lib", Syntax::Scss, library())
        .css("s");
    assert_eq!(css, ".lib { w: 3px; }\na { b: 3px; }");
}

#[test]
fn private_members_stay_inside() {
    let lib = vec![set("-x", px(1.0))];
    let value = Expr::NsVar { module: "lib".to_string(), name: "-x".to_string() };
    let main = vec![use_module("lib", vec![]), rule("a", vec![decl("b", value)])];
    assert_eq!(
        host().with("s", main).file("lib", Syntax::Scss, lib).error("s"),
        "Private members can't be accessed from outside their modules."
    );
}

// ---- imports -------------------------------------------------------------

#[test]
fn imported_files_share_variables() {
    let part = vec![set("y", px(7.0)), rule("p", vec![decl("q", var("x"))])];
    let main = vec![
        set("x", px(1.0)),
        import("part"),
        rule("a", vec![decl("b", var("y"))]),
    ];
    let css = host().with("s", main).file("part", Syntax::Scss, part).css("s");
    assert_eq!(css, "p { q: 1px; }\na { b: 7px; }");
}

#[test]
fn css_imports_are_kept_and_come_first() {
    let main = vec![rule("a", vec![decl("b", word("c"))]), import("reset.css")];
    let css = host().with("s", main).css("s");
    assert_eq!(css, "@import \"reset.css\";\na { b: c; }");
}

#[test]
fn plain_css_keeps_its_nesting() {
    let part = vec![rule("p", vec![decl("q", word("r")), rule("& t", vec![decl("u", word("v"))])])];
    let css = host().with("s", vec![import("part")]).file("part", Syntax::Css, part).css("s");
    assert_eq!(css, "p { q: r; & t { u: v; } }");
}

fn keyframes(name: &str, body: Vec<Stmt>) -> Stmt {
    Stmt::Keyframes {
        name: "keyframes".to_string(),
        prelude: lit(name),
        body,
        lines: LINES,
    }
}

#[test]
fn plain_css_keeps_keyframes_in_at_rules() {
    let frame = || rule("from", vec![decl("q", word("r"))]);
    let css = |part: Vec<Stmt>| {
        host().with("s", vec![import("part")]).file("part", Syntax::Css, part).css("s")
    };
    assert_eq!(css(vec![keyframes("k", vec![])]), "@keyframes k {  }");
    assert_eq!(
        css(vec![media(vec![], Some("screen"), vec![keyframes("k", vec![frame()])])]),
        "@media screen { @keyframes k { from { q: r; } } }"
    );
    // An outermost rule lets at-rules out, with a copy of itself inside.
    assert_eq!(
        css(vec![rule("a", vec![keyframes("k", vec![frame()])])]),
        "@keyframes k { a { from { q: r; } } }"
    );
}

#[test]
fn plain_css_keeps_custom_at_rules_in_at_rules() {
    let custom = Stmt::CssCustomAtRule {
        name: "function".to_string(),
        prelude: lit("--f()"),
        body: vec![],
    };
    let part = vec![media(vec![], Some("screen"), vec![custom])];
    let css = host().with("s", vec![import("part")]).file("part", Syntax::Css, part).css("s");
    assert_eq!(css, "@media screen { @function --f() {  } }");
}

#[test]
fn the_body_of_a_plain_css_at_rule_has_its_at_rules() {
    let none = SrcLines { file: 0, start: 0, end: 0, col: 0 };
    let stmts = vec![Stmt::Keyframes {
        name: "keyframes".to_string(),
        prelude: lit("k"),
        body: vec![],
        lines: none,
    }];
    let mut ev = Evaluator::new("", "", false);
    let list = ev.css_at_body(&vec![], &stmts, false, &vec![], 100).unwrap();
    assert_eq!(list.len(), 1);
    match &list[0] {
        OutNode::AtRule { name, prelude, body, has_block, lines } => {
            assert_eq!((name.as_str(), prelude.as_str()), ("keyframes", "k"));
            assert!(body.is_empty() && *has_block);
            assert_eq!(*lines, none);
        }
        other => panic!("{other:?}"),
    }
}

#[test]
fn an_import_is_asked_for_once() {
    let part = vec![rule("p", vec![decl("q", word("r"))])];
    let main = || vec![import("part"), import("part"), import("part")];
    let asked = host()
        .with("s", main())
        .file("part", Syntax::Scss, part)
        .questions("s");
    let files = asked.iter().filter(|q| q.0 == Task::ResolveImport).count();
    let parsed = asked.iter().filter(|q| q.0 == Task::Parse && q.1[0] == "part").count();
    assert_eq!((files, parsed), (1, 1));
    let part = vec![rule("p", vec![decl("q", word("r"))])];
    let css = host().with("s", main()).file("part", Syntax::Scss, part).css("s");
    assert_eq!(css, "p { q: r; }\np { q: r; }\np { q: r; }");
}

#[test]
fn imports_are_looked_up_from_their_file() {
    // The files are their own keys: the directory of `lib/a` is `lib`.
    let asked = host()
        .with("s", vec![use_module("lib/a", vec![])])
        .file("lib/a", Syntax::Scss, vec![import("b")])
        .file("b", Syntax::Scss, vec![])
        .questions("s");
    let file = asked.iter().find(|q| q.0 == Task::ResolveImport).unwrap();
    assert_eq!(file.1, vec!["b", "lib"]);
}

#[test]
fn content_may_stand_in_supports() {
    let condition = SupportsCondition::Anything(lit("x"));
    let body = vec![Stmt::Supports { condition, body: vec![Stmt::Content(vec![])] }];
    let m = Stmt::MixinDef(callable("m", &[], body));
    let content = vec![rule("a", vec![decl("b", word("c"))])];
    let css = host().with("s", vec![m, mixin_call("m", None, vec![], Some(content))]).css("s");
    assert_eq!(css, "@supports (x) { a { b: c; } }");
}

#[test]
fn selectors_are_spelled_with_their_parents() {
    let sheet = |parent: &str, inner: &str| {
        vec![rule(parent, vec![rule(inner, vec![decl("c", word("d"))])])]
    };
    let css = host().with("s", sheet("a", ":is(&>b)")).css("s");
    assert_eq!(css, ":is(a > b) { c: d; }");
    let asked = |parent: &str, inner: &str| {
        let asked = host().with("s", sheet(parent, inner)).questions("s");
        let last = asked.into_iter().filter(|q| q.0 == Task::Spellings).last().unwrap();
        last.1
    };
    assert_eq!(asked("a", ":is(&>b)"), vec![":is(a>b)"]);
    assert_eq!(asked(".a, .b", ":not(&,.c)"), vec![":not(.a, .b,.c)"]);
    assert_eq!(asked("a", "&\\31 x"), vec!["a\\31 x"]);
    assert_eq!(asked("a, b", "c, d"), vec!["a c", "a d", "b c", "b d"]);
    // A fault in putting the parents in comes before any question.
    let asked = host().with("s", sheet("a >", "&.b")).questions("s");
    assert_eq!(asked.iter().filter(|q| q.0 == Task::Spellings).count(), 1);
}

#[test]
fn repeated_imports_ask_once() {
    let part = || vec![rule("a", vec![decl("b", word("c"))])];
    let sheet = || vec![import("p"), rule("x", vec![decl("y", word("z"))]), import("p")];
    let both = || host().with("s", sheet()).file("p", Syntax::Scss, part());
    let asked = both().questions("s");
    assert_eq!(asked.iter().filter(|q| q.0 == Task::ResolveImport).count(), 1);
    assert_eq!(both().css("s"), "a { b: c; }\nx { y: z; }\na { b: c; }");
}

#[test]
fn import_errors() {
    assert_eq!(
        host().with("s", vec![import("gone")]).error("s"),
        "Can't find stylesheet to import: gone"
    );
    assert_eq!(
        host()
            .with("s", vec![import("part")])
            .file("part", Syntax::Scss, vec![import("part")])
            .error("s"),
        "This file is already being loaded."
    );
    assert_eq!(
        host()
            .with("s", vec![rule("a", vec![import("part")])])
            .file("part", Syntax::Scss, vec![decl("b", word("c"))])
            .error("s"),
        "expected \"{\"."
    );
}

#[test]
fn imports_are_warned_of() {
    let main = vec![import("part")];
    let (css, log) = host()
        .with("s", main)
        .file("part", Syntax::Scss, vec![])
        .run("s", &Options::new().with_url("in.scss"));
    assert_eq!(css.unwrap(), "");
    assert_eq!(log, vec!["DEPRECATED\n  s\n    in.scss 1:1  root stylesheet\n"]);
}

// ---- extensions ----------------------------------------------------------

#[test]
fn extended_rules_take_the_extender() {
    let main = vec![
        rule(".a", vec![decl("x", word("y"))]),
        rule(".b", vec![extend(".a", false), decl("z", word("w"))]),
    ];
    assert_eq!(host().with("s", main).css("s"), ".a, .b { x: y; }\n.b { z: w; }");
}

#[test]
fn placeholders_are_not_written() {
    let main = vec![
        rule("%p", vec![decl("x", word("y"))]),
        rule("%q", vec![decl("x", word("y"))]),
        rule(".b", vec![extend("%p", false)]),
    ];
    assert_eq!(host().with("s", main).css("s"), ".b { x: y; }");
}

#[test]
fn extension_targets_must_exist() {
    let missing = |optional: bool| vec![rule(".b", vec![extend(".a", optional), decl("x", word("y"))])];
    assert_eq!(
        host().with("s", missing(false)).error("s"),
        "The target selector was not found.\nUse \"@extend .a !optional\" to avoid this error."
    );
    assert_eq!(host().with("s", missing(true)).css("s"), ".b { x: y; }");
    assert_eq!(
        host().with("s", vec![extend(".a", false)]).error("s"),
        "@extend may only be used within style rules."
    );
    assert_eq!(
        host().with("s", vec![rule(".b", vec![extend(".a .c", false)])]).error("s"),
        "complex selectors may not be extended."
    );
}

#[test]
fn extensions_stay_inside_their_media_rule() {
    let main = vec![
        rule(".a", vec![decl("x", word("y"))]),
        media(vec![], Some("screen"), vec![rule(".b", vec![extend(".a", false)])]),
    ];
    assert_eq!(
        host().with("s", main).error("s"),
        "You may not @extend selectors across media queries."
    );
}

// ---- reports -------------------------------------------------------------

#[test]
fn errors_are_shown_with_their_place() {
    let main = vec![rule("a", vec![decl("b", var("x"))])];
    let (r, _) = host().with("s", main).run("s", &Options::new().with_url("in.scss"));
    assert_eq!(
        shown(&r.unwrap_err().rendered.unwrap()),
        "Error: Undefined variable.\n  s\n  in.scss 1:1  root stylesheet"
    );
}

#[test]
fn parse_errors_are_shown_with_their_place() {
    let (r, _) = host().run("s", &Options::new().with_url("in.scss"));
    let e = r.unwrap_err();
    assert_eq!(e.message, "unknown text");
    assert_eq!(
        shown(&e.rendered.unwrap()),
        "Error: unknown text\n  s\n  in.scss 1:1  root stylesheet"
    );
    let (r, _) = host().run("s", &Options::new());
    assert_eq!(r.unwrap_err().rendered, None);
}

#[test]
fn glyphs_show_in_snippets_alone() {
    let run = |unicode: bool| {
        let main = vec![rule("a", vec![decl("b", var("x"))])];
        let options = Options::new().with_url("in.scss").with_unicode(unicode);
        host().with("s", main).run("s", &options)
    };
    let (one, one_log) = run(true);
    let (other, other_log) = run(false);
    let (one, other) = (one.unwrap_err(), other.unwrap_err());
    assert_eq!((one.message, one.pos, one_log), (other.message, other.pos, other_log));
    let n = one.rendered.unwrap();
    assert_eq!(Some(&n), other.rendered.as_ref());
    assert_eq!(n.text("one"), "Error: Undefined variable.\none\n  in.scss 1:1  root stylesheet");
    assert_eq!(n.text("two"), "Error: Undefined variable.\ntwo\n  in.scss 1:1  root stylesheet");
}

#[test]
fn warnings_are_reported() {
    let warn = |t: &str| Stmt::Warn { value: word(t), pos: HERE };
    let (r, log) = host().with("s", vec![warn("careful")]).run("s", &Options::new());
    assert_eq!(r.unwrap(), "");
    assert_eq!(log, vec!["WARNING: careful"]);
    let debug = Stmt::Debug { value: word("seen"), pos: HERE };
    let (_, log) = host().with("s", vec![debug]).run("s", &Options::new().with_url("in.scss"));
    assert_eq!(log, vec!["in.scss:1 DEBUG: seen"]);
}

#[test]
fn user_errors_stop_the_compilation() {
    let error = Stmt::Error { value: word("no"), pos: HERE, length: 2 };
    assert_eq!(host().with("s", vec![error]).error("s"), "\"no\"");
}

#[test]
fn definitions_have_their_place() {
    let f = Stmt::FunctionDef(callable("f", &[], vec![]));
    let stmts = vec![Stmt::If(vec![IfBranch { cond: None, body: vec![f] }])];
    let message = host().with("s", stmts).error("s");
    assert_eq!(message, "Functions may not be declared in control directives.");
}

#[test]
fn a_wrong_answer_is_noticed() {
    let p = compile("s", &Options::new(), &vec![Answer::Flag(true)]);
    assert!(matches!(p.step, Step::Mismatch));
    let p = compile("s", &Options::new(), &vec![]);
    assert!(matches!(p.step, Step::Need(Request { task: Task::Parse, .. })));
}
