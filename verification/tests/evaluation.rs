use sasso::ast::TplPiece;
use sasso::calculations::calc_constant;
use sasso::compile::{find_import_file, find_module};
use sasso::configs::{is_any_unused, plan_forward};
use sasso::edges::{add_edge, holds_part, reached_from};
use sasso::error::{Error, Pos};
use sasso::eval::Evaluator;
use sasso::host::{Answer, Task};
use sasso::out::SrcLines;
use sasso::sink::Sink;
use sasso::value::{word, Value};
use sasso::{Importer, Options, Syntax};

const HERE: Pos = Pos { line: 2, col: 5 };

fn text(v: Option<Value>) -> String {
    match v {
        Some(Value::Str(s)) => s.text,
        other => format!("{other:?}"),
    }
}

fn value(s: &str) -> Value {
    word(s.to_string())
}

#[test]
fn constants_of_calculations() {
    let number = |t: &str| calc_constant(t).map(f64::from_bits);
    assert_eq!(number("pi"), Some(std::f64::consts::PI));
    assert_eq!(number("E"), Some(std::f64::consts::E));
    assert_eq!(number("Infinity"), Some(f64::INFINITY));
    assert_eq!(number("-infinity"), Some(f64::NEG_INFINITY));
    assert!(number("NaN").unwrap().is_nan());
    assert_eq!(number("tau"), None);
}

#[test]
fn inner_scopes_hide_outer_ones() {
    let mut ev = Evaluator::new("", "", false);
    ev.set_global("x", value("outer"));
    ev.push_scope(false);
    assert_eq!(text(ev.lookup("x")), "outer");
    ev.set_local("x", value("inner"));
    assert_eq!(text(ev.lookup("x")), "inner");
    ev.pop_scope();
    assert_eq!(text(ev.lookup("x")), "outer");
    assert!(ev.lookup("y").is_none());
}

#[test]
fn assignments_in_control_flow_reach_the_global_scope() {
    let mut ev = Evaluator::new("", "", false);
    ev.set_global("x", value("before"));
    ev.push_scope(true);
    ev.assign("x", value("after"));
    ev.pop_scope();
    assert_eq!(text(ev.lookup("x")), "after");
    ev.push_scope(false);
    ev.assign("x", value("local"));
    ev.pop_scope();
    assert_eq!(text(ev.lookup("x")), "after");
}

#[test]
fn a_file_keeps_its_number() {
    let mut ev = Evaluator::new("source", "in.scss", false);
    let lines = SrcLines { file: 0, start: 1, end: 2, col: 0 };
    let first = ev.stamp(lines);
    assert_eq!(first.file, 1);
    assert_eq!(ev.stamp(lines), first);
    let unknown = SrcLines { file: 0, start: 0, end: 0, col: 0 };
    assert_eq!(ev.stamp(unknown), unknown);
}

#[test]
fn an_import_is_warned_of_once_at_each_place() {
    let mut ev = Evaluator::new("source", "in.scss", false);
    let answers: Vec<Answer> = (0..20).map(|_| Answer::Text("t".to_string())).collect();
    for line in 1..8 {
        for _ in 0..2 {
            ev.emit_deprecation(&answers, Pos { line, col: 1 }, 3).unwrap();
        }
    }
    assert_eq!(ev.report.log.len(), 5);
    ev.emit_deprecation_footer();
    assert_eq!(
        ev.report.log[5].text("not shown"),
        "WARNING: 2 repetitive deprecation warnings omitted.\n\
         Run in verbose mode to see all warnings.\n"
    );
}

#[test]
fn built_in_mixins_are_known_under_any_namespace() {
    let mut ev = Evaluator::new("", "", false);
    ev.uses.builtin.push(("m".to_string(), "meta".to_string()));
    match ev.get_mixin_from_module("apply", "m", HERE) {
        Ok(Value::Mixin(m)) => {
            assert_eq!(m.name, "apply");
            assert!(m.user.is_none() && m.module.is_none());
        }
        other => panic!("{other:?}"),
    }
    match ev.get_mixin_from_module("other", "m", HERE) {
        Err(sasso::host::Stop::Error(e)) => assert_eq!(e.message, "Mixin not found: other"),
        other => panic!("{other:?}"),
    }
    match ev.get_mixin_from_module("apply", "meta", HERE) {
        Err(sasso::host::Stop::Error(e)) => {
            assert_eq!(e.message, "There is no module with the namespace \"meta\".");
        }
        other => panic!("{other:?}"),
    }
}

#[test]
fn calls_are_entered_and_left() {
    let mut ev = Evaluator::new("source", "in.scss", false);
    let from = ev.enter_call(HERE, 3, "f()");
    assert_eq!((ev.report.member.as_str(), ev.report.calls.len()), ("f()", 1));
    ev.leave_call(from);
    assert_eq!((ev.report.member.as_str(), ev.report.calls.len()), ("root stylesheet", 0));
}

#[test]
fn at_root_leaves_the_place_as_it_was() {
    let mut ev = Evaluator::new("", "", false);
    ev.page.keyframes = true;
    ev.page.at_root = true;
    let query = Some(vec![TplPiece::Lit("(without: all)".to_string())]);
    let r = ev.eval_at_root(&vec![], &query, &vec![], &vec![], Sink::Top(vec![]), 100);
    assert!(r.is_ok());
    assert!(ev.page.keyframes && ev.page.at_root && ev.page.layers.is_empty());
}

#[test]
fn loads_are_remembered() {
    let mut edges = vec![];
    add_edge(&mut edges, "a", "b");
    add_edge(&mut edges, "a", "c");
    add_edge(&mut edges, "a", "b");
    assert_eq!(reached_from(&edges, "a"), vec!["b", "c"]);
    assert!(reached_from(&edges, "b").is_empty());
}

#[test]
fn parts_of_texts() {
    assert!(holds_part("x#copy1", "#copy"));
    assert!(holds_part("abc", "abc"));
    assert!(holds_part("abc", ""));
    assert!(!holds_part("ab", "abc"));
    assert!(!holds_part("abc", "ac"));
}

fn setting(name: &str, v: &str, guarded: bool) -> (String, (Value, bool)) {
    (name.to_string(), (value(v), guarded))
}

#[test]
fn a_bare_forward_passes_on_what_it_gets() {
    let down = vec![setting("a", "1", false), setting("-b", "2", false)];
    let p = plan_forward(&down, &vec![], &None, &None, &None);
    let names: Vec<&str> = p.combined.iter().map(|e| e.0.as_str()).collect();
    assert_eq!(names, vec!["a"]);
    assert!(p.own.is_empty() && p.claimed.is_empty() && p.shadowed.is_empty());
}

#[test]
fn a_forward_adds_to_what_it_gets() {
    let down = vec![setting("p-a", "1", false), setting("p-c", "1", false), setting("d", "1", false)];
    let own = vec![setting("a", "2", true), setting("b", "2", true), setting("c", "2", false)];
    let p = plan_forward(&down, &own, &Some("p-".to_string()), &None, &None);
    // What comes from downstream goes before a default, and behind anything else.
    assert_eq!(p.claimed, vec!["a"]);
    assert_eq!(p.own, vec!["b", "c"]);
    assert_eq!(p.shadowed, vec!["c"]);
    let of = |name: &str| {
        let e = p.combined.iter().find(|e| e.0 == name).unwrap();
        text(Some(word(match &e.1 .0 {
            Value::Str(s) => s.text.clone(),
            other => format!("{other:?}"),
        })))
    };
    assert_eq!((of("a"), of("b"), of("c")), ("1".into(), "2".into(), "2".into()));
    assert!(is_any_unused(&own, &vec!["a".to_string()]));
    assert!(!is_any_unused(&vec![], &vec![]));
}

struct One;

impl Importer for One {
    fn resolve(&self, path: &str) -> Option<String> {
        if path == "known" {
            Some("a {}".to_string())
        } else {
            None
        }
    }
}

#[test]
fn without_an_importer_nothing_is_found() {
    let none = Options::new();
    assert!(matches!(find_module(&none, "known", None), Answer::Nothing));
    assert!(matches!(find_import_file(&none, "known", None), Answer::Nothing));
    let one = Options::new().with_importer(&One);
    assert!(matches!(find_module(&one, "other", Some("dir")), Answer::Nothing));
    match find_module(&one, "known", Some("dir")) {
        Answer::Source(s) => {
            assert_eq!((s.key.as_str(), s.text.as_str(), s.syntax), ("known", "a {}", Syntax::Scss));
        }
        other => panic!("{other:?}"),
    }
    match find_import_file(&one, "known", None) {
        Answer::Source(s) => assert_eq!((s.key.as_str(), s.text.as_str()), ("", "a {}")),
        other => panic!("{other:?}"),
    }
}

#[test]
fn errors_have_a_place_or_none() {
    let e = Error::at("wrong", HERE).with_length(4);
    assert!(e.has_position());
    assert_eq!((e.message.as_str(), e.pos, e.length), ("wrong", Some(HERE), 4));
    assert!(!Error::unpositioned("wrong").has_position());
}

#[test]
fn an_evaluation_asks_for_what_it_needs() {
    let mut ev = Evaluator::new("", "", false);
    let q = sasso::host::request_value(Task::Interp, &value("x"));
    match ev.ask_text(&vec![], q) {
        Err(sasso::host::Stop::Need(q)) => assert_eq!(q.task, Task::Interp),
        other => panic!("{other:?}"),
    }
    let q = sasso::host::request_value(Task::Interp, &value("x"));
    let answers = vec![Answer::Fail(Error::at("wrong", HERE))];
    match ev.ask_text(&answers, q) {
        Err(sasso::host::Stop::Error(e)) => assert_eq!(e.message, "wrong"),
        other => panic!("{other:?}"),
    }
}
