use sasso::at_root::AtRootQuery;
use sasso::cond::collapse_condition;
use sasso::media::{
    css_media_parse_list, merge_media_query_lists, serialize_media_queries, ResolvedQuery,
};
use sasso::out::{push_group, OutItem, OutNode, SrcLines};
use sasso::sink::{splice_nodes, Sink};
use sasso::tree::{hoist_css_imports, reparent_nodes, trim_leading_blanks};

const NO_LINES: SrcLines = SrcLines { file: 0, start: 0, end: 0, col: 0 };

fn decl(prop: &str) -> OutItem {
    OutItem::Decl {
        prop: prop.to_string(),
        value: "v".to_string(),
        important: false,
        custom: false,
        lines: NO_LINES,
    }
}

fn rule(selector: &str) -> OutNode {
    OutNode::Rule {
        selectors: vec![selector.to_string()],
        linebreaks: vec![],
        items: vec![decl("p")],
        lines: NO_LINES,
    }
}

fn shape(list: &[OutNode]) -> String {
    let mut out = vec![];
    for n in list {
        out.push(match n {
            OutNode::Rule { selectors, items, .. } => {
                format!("{}{{{}}}", selectors.join(","), items.len())
            }
            OutNode::Blank => "-".to_string(),
            OutNode::Raw(t) => t.clone(),
            OutNode::Comment(t, _) => format!("/*{t}*/"),
            OutNode::AtRule { name, body, .. } => format!("@{name}[{}]", shape(body)),
            other => format!("{other:?}"),
        });
    }
    out.join(" ")
}

fn queries(text: &str) -> Vec<ResolvedQuery> {
    css_media_parse_list(text).unwrap()
}

fn merged(a: &str, b: &str) -> Option<String> {
    merge_media_query_lists(&queries(a), &queries(b)).map(|l| serialize_media_queries(&l))
}

#[test]
fn groups_are_parted_by_a_blank_line() {
    let mut out = vec![];
    push_group(&mut out, vec![rule("a")]);
    push_group(&mut out, vec![rule("b")]);
    assert_eq!(shape(&out), "a{1} - b{1}");
}

#[test]
fn a_block_is_written_before_what_bubbles_out() {
    let mut sink = Sink::Rule {
        selectors: vec!["a".to_string()],
        linebreaks: vec![],
        lines: NO_LINES,
        items: vec![],
        nested: vec![],
    };
    sink.push_item(decl("one"));
    sink.push_at_rule(rule("b"));
    sink.push_item(decl("two"));
    sink.flush_rule_block();
    // Flushing again has nothing left to do.
    sink.flush_rule_block();
    match sink {
        Sink::Rule { items, nested, .. } => {
            assert!(items.is_empty());
            assert_eq!(shape(&nested), "a{1} b{1} a{1}");
        }
        _ => unreachable!(),
    }
}

#[test]
fn items_at_the_top_level_are_dropped() {
    let mut sink = Sink::Top(vec![]);
    sink.push_item(decl("one"));
    assert!(sink.is_top() && !sink.is_rule());
    splice_nodes(&mut sink, vec![rule("a")]);
    match sink {
        Sink::Top(out) => assert_eq!(shape(&out), "a{1}"),
        _ => unreachable!(),
    }
}

#[test]
fn source_map_comments_are_dropped() {
    let mut sink = Sink::AtRoot(vec![]);
    sink.push_comment("# sourceMappingURL=x".to_string(), NO_LINES);
    sink.push_comment(" kept ".to_string(), NO_LINES);
    match sink {
        Sink::AtRoot(out) => assert_eq!(shape(&out), "/* kept */"),
        _ => unreachable!(),
    }
}

#[test]
fn imports_move_to_the_front() {
    let import = || OutNode::Raw("@import \"x\";".to_string());
    let mut out = vec![rule("a"), OutNode::Blank, import()];
    hoist_css_imports(&mut out);
    assert!(shape(&out).starts_with("@import \"x\";"));
    let mut ordered = vec![import(), OutNode::Blank, rule("a")];
    let before = shape(&ordered);
    hoist_css_imports(&mut ordered);
    assert_eq!(shape(&ordered), before);
}

#[test]
fn hoisting_keeps_the_order_and_is_done_once() {
    let import = |t: &str| OutNode::Raw(format!("@import \"{t}\";"));
    let inner = vec![rule("m"), import("two")];
    let mut out = vec![
        OutNode::Comment("top".to_string(), NO_LINES),
        rule("a"),
        import("one"),
        OutNode::ModuleScope { key: "k".to_string(), nodes: inner },
        rule("b"),
        import("three"),
    ];
    hoist_css_imports(&mut out);
    let once = shape(&out);
    assert!(once.starts_with("/*top*/ @import \"one\"; @import \"two\"; @import \"three\"; a{1}"));
    assert!(once.ends_with("b{1}"));
    hoist_css_imports(&mut out);
    assert_eq!(shape(&out), once);
}

#[test]
fn rules_go_below_their_parents() {
    let list = vec![rule("b"), OutNode::Blank];
    let parents = vec!["x".to_string(), "y".to_string()];
    assert_eq!(shape(&reparent_nodes(list, &parents)), "x b,y b{1} -");
}

#[test]
fn leading_blanks_are_trimmed() {
    let mut out = vec![OutNode::Blank, OutNode::Blank, rule("a"), OutNode::Blank];
    trim_leading_blanks(&mut out);
    assert_eq!(shape(&out), "a{1} -");
}

#[test]
fn at_root_queries_name_what_they_leave() {
    let q = AtRootQuery::parse(None);
    assert!(q.excludes_style_rules() && !q.excludes_name("media"));
    let q = AtRootQuery::parse(Some("(without: media)"));
    assert!(!q.excludes_style_rules() && q.excludes_name("media") && !q.excludes_name("supports"));
    let q = AtRootQuery::parse(Some("(with: rule)"));
    assert!(!q.excludes_style_rules() && q.excludes_name("media"));
    let q = AtRootQuery::parse(Some("(without: all)"));
    assert!(q.excludes_style_rules() && q.excludes_name("keyframes"));
}

#[test]
fn queries_are_read_and_written() {
    let text = |s: &str| serialize_media_queries(&queries(s));
    assert_eq!(text("screen and (a: b), print"), "screen and (a: b), print");
    assert_eq!(text("not  screen"), "not screen");
    // What was written is read back as it was.
    for t in ["screen", "only screen and (a: b)", "print and (a) and (b: (c))"] {
        let q = queries(t);
        let again = queries(&serialize_media_queries(&q));
        assert_eq!(format!("{again:?}"), format!("{q:?}"));
    }
    assert!(css_media_parse_list("screen and (a").is_err());
}

#[test]
fn queries_merge_where_they_can() {
    assert_eq!(merged("screen", "(a: b)"), Some("screen and (a: b)".to_string()));
    assert_eq!(merged("screen", "print"), Some(String::new()));
    assert_eq!(merged("(a: b) or (c: d)", "(e: f)"), None);
    assert_eq!(merged("all", "screen"), Some("screen".to_string()));
}

#[test]
fn conditions_are_squeezed() {
    assert_eq!(collapse_condition("css(  a )"), "css(a)");
}
