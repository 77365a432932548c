use sasso::bogus::{complex_selector_block_is_bogus, complex_selector_is_bogus};
use sasso::nesting::{comma_linebreaks, part_has_parent_ref, resolve_selectors_opt};
use sasso::scan::split_commas;
use sasso::selector_check::{validate_plain_css_selector, validate_selector};
use sasso::selector_text::{normalize_attribute_text, normalize_selector, Spellings};
use sasso::text::chars_of;

fn plain() -> Spellings {
    Spellings { names: vec![], attributes: vec![], pseudos: vec![] }
}

fn below(sel: &str, parents: &[&str]) -> Result<Vec<String>, String> {
    let parents: Vec<String> = parents.iter().map(|p| p.to_string()).collect();
    resolve_selectors_opt(&plain(), sel, &parents, true).map_err(|e| e.message)
}

fn normal(s: &str) -> String {
    normalize_selector(&plain(), &chars_of(s)).into_iter().collect()
}

#[test]
fn nested_selectors_multiply() {
    assert_eq!(below("c, d", &["a", "b"]).unwrap(), vec!["a c", "a d", "b c", "b d"]);
    assert_eq!(below("a", &[]).unwrap(), vec!["a"]);
}

#[test]
fn the_parent_is_put_in_place() {
    assert_eq!(below("&:hover", &["a", ".b"]).unwrap(), vec!["a:hover", ".b:hover"]);
    assert_eq!(below(".x &", &["a"]).unwrap(), vec![".x a"]);
    assert_eq!(below("&-y", &[".b"]).unwrap(), vec![".b-y"]);
}

#[test]
fn a_letter_of_any_script_is_glued_to_the_parent() {
    // What may follow `&` directly is decided by what Unicode calls a letter or a digit.
    assert_eq!(below("&é", &[".b"]).unwrap(), vec![".bé"]);
}

#[test]
fn without_the_implicit_parent_a_selector_stays_as_it_is() {
    let parents = vec!["a".to_string()];
    assert_eq!(resolve_selectors_opt(&plain(), "b", &parents, false).unwrap(), vec!["b"]);
    assert_eq!(resolve_selectors_opt(&plain(), "& b", &parents, false).unwrap(), vec!["a b"]);
}

#[test]
fn combinators_are_spaced() {
    assert_eq!(normal("a>b+c~d"), "a > b + c ~ d");
    assert_eq!(normal("a   b"), "a b");
}

#[test]
fn a_canonical_selector_is_left_alone() {
    let once = normal("a>b[ c = \"d\" ]");
    assert_eq!(normal(&once), once);
}

#[test]
fn attribute_values_lose_quotes_they_do_not_need() {
    let text = |s: &str| normalize_attribute_text(&chars_of(s)).into_iter().collect::<String>();
    assert_eq!(text("a=\"b\""), "a=b");
    assert_eq!(text("a=\"b c\""), "a=\"b c\"");
}

#[test]
fn commas_in_brackets_do_not_split() {
    let parts: Vec<String> = split_commas(&chars_of("a:is(b, c), d[e=\",\"]"))
        .into_iter()
        .map(|p| p.into_iter().collect())
        .collect();
    assert_eq!(parts, vec!["a:is(b, c)", " d[e=\",\"]"]);
    assert_eq!(parts.join(","), "a:is(b, c), d[e=\",\"]");
}

#[test]
fn parents_are_found_outside_strings() {
    assert!(part_has_parent_ref(&chars_of(".a &")));
    assert!(!part_has_parent_ref(&chars_of("[a=\"&\"]")));
}

#[test]
fn line_breaks_follow_the_source() {
    assert_eq!(comma_linebreaks("a,\nb, c", false), vec![false, true, false]);
}

#[test]
fn doubled_combinators_are_bogus() {
    let bogus = |s: &str| complex_selector_is_bogus(&chars_of(s), false, false);
    assert!(bogus("a > + b"));
    assert!(!bogus("a > b"));
    assert!(complex_selector_block_is_bogus(&chars_of("a >")));
    assert!(!complex_selector_block_is_bogus(&chars_of("a b")));
}

#[test]
fn wrong_selectors_are_refused() {
    let wrong = |s: &str| validate_selector(s, false).unwrap_err().message;
    assert_eq!(wrong(", a"), "expected selector.");
    assert_eq!(wrong("a:b([c)]"), "expected \"]\".");
    assert_eq!(wrong("a[b(]c)"), "expected \")\".");
    assert_eq!(wrong("a:nth-child( )"), "Expected \"n\".");
    assert!(validate_selector("a > b", false).is_ok());
}

#[test]
fn plain_css_has_no_placeholders() {
    let wrong = |s: &str, top: bool| validate_plain_css_selector(s, top).unwrap_err().message;
    assert_eq!(wrong("%a", true), "Placeholder selectors aren't allowed in plain CSS.");
    assert_eq!(wrong("> a", true), "Top-level leading combinators aren't allowed in plain CSS.");
    assert_eq!(wrong("&b", false), "Parent selectors can't have suffixes in plain CSS.");
    assert!(validate_plain_css_selector("& b", false).is_ok());
}
