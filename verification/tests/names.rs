use sasso::error::Pos;
use sasso::names::{
    dash, default_namespace, for_indices, is_builtin_mixin, is_calc_function, is_css_import,
    is_keyframes_name, is_private_member, is_pure_calc_math_function, module_diag_url,
    normalize_keyframe_selector, unquoted_string_css,
};
use sasso::diag::{caret_length, render_frame_block, to_decimal, DiagFrame};
use sasso::text::{chars_of, to_lower, trim, whitespace};

const HERE: Pos = Pos { line: 3, col: 7 };

#[test]
fn underscores_and_hyphens_are_one() {
    assert_eq!(dash("a_b-c_"), "a-b-c-");
    assert_eq!(dash(""), "");
}

#[test]
fn private_names_begin_with_a_hyphen_or_an_underscore() {
    assert!(is_private_member("-a"));
    assert!(is_private_member("_a"));
    assert!(!is_private_member("a-"));
    assert!(!is_private_member(""));
}

#[test]
fn a_namespace_is_the_stem_of_the_url() {
    assert_eq!(default_namespace("src/_buttons.scss", HERE).unwrap(), "buttons");
    assert_eq!(default_namespace("theme.v2.min", HERE).unwrap(), "theme");
    let e = default_namespace("a/1st", HERE).unwrap_err();
    assert_eq!(e.message, "The default namespace \"1st\" is not a valid Sass identifier.");
    assert_eq!(e.pos, Some(HERE));
}

#[test]
fn a_shown_url_is_the_last_component_of_the_key() {
    assert_eq!(module_diag_url("lib", "/x/_lib.scss"), "_lib.scss");
    assert_eq!(module_diag_url("lib", "c:\\x\\lib.scss"), "lib.scss");
    assert_eq!(module_diag_url("lib", "/x/"), "lib");
}

#[test]
fn css_imports_are_told_apart() {
    assert!(is_css_import("reset.css"));
    assert!(is_css_import("http://a.example/b"));
    assert!(is_css_import("//a.example/b"));
    assert!(!is_css_import("partials/base"));
}

#[test]
fn keyframes_may_have_a_vendor_prefix() {
    assert!(is_keyframes_name("keyframes"));
    assert!(is_keyframes_name("-webkit-KeyFrames"));
    assert!(!is_keyframes_name("keyframes-x"));
}

#[test]
fn keyframe_stops_have_a_small_exponent() {
    assert_eq!(normalize_keyframe_selector("130E-1%"), "130e-1%");
    assert_eq!(normalize_keyframe_selector("from"), "from");
}

#[test]
fn newlines_in_unquoted_strings_become_spaces() {
    assert_eq!(unquoted_string_css("a\n   b"), "a b");
    assert_eq!(unquoted_string_css("a  b"), "a  b");
    assert_eq!(unquoted_string_css("a\n\tb"), "a b");
    assert_eq!(unquoted_string_css("a\n \t b\tc"), "a b\tc");
    assert_eq!(unquoted_string_css("a\n\nb"), "a  b");
}

#[test]
fn a_loop_runs_up_or_down() {
    assert_eq!(for_indices(1, 3, true), vec![1, 2, 3]);
    assert_eq!(for_indices(1, 3, false), vec![1, 2]);
    assert_eq!(for_indices(3, 1, true), vec![3, 2, 1]);
    assert_eq!(for_indices(2, 2, false), Vec::<i64>::new());
    assert_eq!(for_indices(2, 2, true), vec![2]);
}

#[test]
fn meta_has_two_mixins() {
    assert!(is_builtin_mixin("meta", "load_css"));
    assert!(is_builtin_mixin("meta", "apply"));
    assert!(!is_builtin_mixin("math", "apply"));
}

#[test]
fn calculations_have_names() {
    assert!(is_calc_function("clamp"));
    assert!(is_calc_function("sqrt"));
    assert!(is_calc_function("atan"));
    assert!(!is_calc_function("min"));
    assert!(!is_calc_function("calc"));
    assert!(is_pure_calc_math_function("SIN"));
    assert!(!is_pure_calc_math_function("translate"));
}

#[test]
fn numbers_in_decimal() {
    let text = |n: usize| to_decimal(n).into_iter().collect::<String>();
    assert_eq!(text(0), "0");
    assert_eq!(text(90210), "90210");
}

#[test]
fn frames_are_aligned() {
    let frame = |url: &str, line: usize, member: &str| DiagFrame {
        url: url.to_string(),
        pos: Pos { line, col: 1 },
        member: member.to_string(),
        length: 0,
    };
    let frames = vec![frame("a.scss", 2, "m()"), frame("input.scss", 10, "root stylesheet")];
    assert_eq!(
        render_frame_block(&frames, 2),
        "  a.scss 2:1       m()\n  input.scss 10:1  root stylesheet"
    );
    assert!(caret_length("ab") >= 2);
}

#[test]
fn white_space_is_what_unicode_says() {
    for code in 0..0x3100u32 {
        if let Some(c) = char::from_u32(code) {
            assert_eq!(whitespace(c), c.is_whitespace(), "U+{code:04X}");
        }
    }
}

#[test]
fn text_is_trimmed_and_lowered() {
    let chars = chars_of(" \u{a0}A b\t");
    assert_eq!(trim(&chars).iter().collect::<String>(), "A b");
    let chars = chars_of("AbÄ");
    assert_eq!(to_lower(&chars).into_iter().collect::<String>(), "abÄ");
}
