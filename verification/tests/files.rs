use sasso::files::{found_source, syntax_for_path};
use sasso::paths::{candidate_tiers, directory_of, lexical_normalize, resolve_in_base, Resolution};
use sasso::{FsImporter, Importer, Options, OutputStyle, Syntax};

fn list(items: &[&str]) -> Vec<String> {
    items.iter().map(|s| s.to_string()).collect()
}

fn found(r: Resolution) -> String {
    match r {
        Resolution::Found(p) => p,
        Resolution::Ambiguous => "ambiguous".to_string(),
        Resolution::NotFound => "none".to_string(),
    }
}

#[test]
fn dots_in_paths_are_taken_out() {
    assert_eq!(lexical_normalize("a/./b/../c"), "a/c");
    assert_eq!(lexical_normalize("../a"), "../a");
    let once = lexical_normalize("x/../../y/./z");
    assert_eq!(lexical_normalize(&once), once);
}

#[test]
fn partials_are_found() {
    let files = list(&["lib/_a.scss"]);
    assert_eq!(found(resolve_in_base("lib", "a", true, &files)), "lib/_a.scss");
    assert_eq!(found(resolve_in_base("lib", "b", true, &files)), "none");
}

#[test]
fn two_files_of_one_name_are_ambiguous() {
    let files = list(&["lib/a.scss", "lib/_a.scss"]);
    assert_eq!(found(resolve_in_base("lib", "a", true, &files)), "ambiguous");
}

#[test]
fn import_only_files_come_first_for_imports_alone() {
    let files = list(&["lib/_a.import.scss", "lib/_a.scss"]);
    assert_eq!(found(resolve_in_base("lib", "a", true, &files)), "lib/_a.import.scss");
    assert_eq!(found(resolve_in_base("lib", "a", false, &files)), "lib/_a.scss");
    let imports: Vec<String> = candidate_tiers("lib", "a", true).concat();
    for c in candidate_tiers("lib", "a", false).concat() {
        assert!(imports.contains(&c));
    }
}

#[test]
fn load_paths_are_searched_in_order() {
    let importer = FsImporter::new(list(&["one", "two"]));
    assert_eq!(importer.bases(Some("here")), list(&["here", "one", "two"]));
    let files = list(&["one/_a.scss", "two/_a.scss"]);
    assert_eq!(importer.search("a", None, true, &files, &vec![]), Some("one/_a.scss".to_string()));
    // A file that cannot be read is passed over.
    let unreadable = list(&["one/_a.scss"]);
    assert_eq!(
        importer.search("a", None, true, &files, &unreadable),
        Some("two/_a.scss".to_string())
    );
    assert_eq!(importer.search("b", None, true, &files, &vec![]), None);
}

#[test]
fn lookups_without_a_directory_agree() {
    let importer = FsImporter::new(list(&["one", "two"]));
    let files = list(&["two/_a.scss"]);
    let more = list(&["three/_a.scss", "two/_a.scss", "one/_b.scss"]);
    let unreadable = list(&["one/_b.scss"]);
    let first = importer.search("a", None, true, &files, &vec![]);
    assert_eq!(first, Some("two/_a.scss".to_string()));
    assert_eq!(importer.search("a", None, true, &more, &unreadable), first);
}

#[test]
fn a_found_file_has_a_key() {
    let canonical = Some("/lib/_a.sass".to_string());
    assert_eq!(
        found_source("lib/../lib/_a.sass", canonical, "a".to_string()),
        ("/lib/_a.sass".to_string(), "a".to_string(), Syntax::Sass)
    );
    assert_eq!(
        found_source("lib/_a.scss", None, "b".to_string()),
        ("lib/_a.scss".to_string(), "b".to_string(), Syntax::Scss)
    );
}

#[test]
fn the_extension_tells_the_syntax() {
    assert_eq!(syntax_for_path("a/b.sass"), Syntax::Sass);
    assert_eq!(syntax_for_path("a/b.css"), Syntax::Css);
    assert_eq!(syntax_for_path("a/b.scss"), Syntax::Scss);
    assert_eq!(syntax_for_path("a/b"), Syntax::Scss);
    assert_eq!(syntax_for_path("a.SASS"), Syntax::Sass);
    // What follows the name of the file does not count.
    assert_eq!(syntax_for_path("a.sass/"), Syntax::Sass);
    assert_eq!(syntax_for_path("a.css/./"), Syntax::Css);
    assert_eq!(syntax_for_path("a.sass/.."), Syntax::Scss);
    assert_eq!(syntax_for_path("/.sass"), Syntax::Scss);
    assert_eq!(syntax_for_path(""), Syntax::Scss);
}

#[test]
fn a_file_has_a_directory() {
    let paths = [
        "", ".", "/", "//", "./", "..", "a", "a/", "a/.", "/a", "//a", "/./a", "./a", "./.", "./..",
        "../a", "a/b", "a//b", "a/./b", "a/b/", "a/b/.", "a/b/..", "a/.b", "/a/b/c.scss", ".a/b",
        "a/b//./", ".//a", "a/..", "...", "./././a", "/../a", "a b/c d",
    ];
    for p in paths {
        let parent = std::path::Path::new(p).parent().map(|d| d.to_string_lossy().into_owned());
        assert_eq!(directory_of(p), parent.filter(|d| !d.is_empty()), "{p:?}");
        let ext = std::path::Path::new(p).extension().map(|e| e.to_string_lossy().into_owned());
        let syntax = match ext.as_deref() {
            Some("sass") => Syntax::Sass,
            Some("css") => Syntax::Css,
            _ => Syntax::Scss,
        };
        assert_eq!(syntax_for_path(p), syntax, "{p:?}");
    }
}

#[test]
fn the_directory_of_the_importing_file_comes_first() {
    let importer = FsImporter::new(list(&["one", "two"]));
    let files = list(&["here/_a.scss", "one/_a.scss", "two/_a.scss"]);
    assert_eq!(
        importer.search("a", Some("here"), false, &files, &vec![]),
        Some("here/_a.scss".to_string())
    );
    assert_eq!(
        importer.search("a", Some("elsewhere"), false, &files, &vec![]),
        Some("one/_a.scss".to_string())
    );
}

struct Fixed;

impl Importer for Fixed {
    fn resolve(&self, path: &str) -> Option<String> {
        if path == "known" {
            Some("a {}".to_string())
        } else {
            None
        }
    }
}

#[test]
fn importers_need_only_one_method() {
    let scss = Syntax::Scss;
    assert_eq!(Fixed.resolve_module("known"), Some(("known".to_string(), "a {}".to_string())));
    assert_eq!(
        Fixed.resolve_module_with_syntax_in("known", Some("x")),
        Some(("known".to_string(), "a {}".to_string(), scss))
    );
    assert_eq!(
        Fixed.resolve_module_with_syntax_in("known", None),
        Fixed.resolve_module_with_syntax("known")
    );
    assert_eq!(Fixed.resolve_with_syntax("known"), Some(("a {}".to_string(), scss)));
    assert_eq!(Fixed.resolve_module("other"), None);
    assert_eq!(
        Fixed.resolve_import_with_path("known", None),
        Some((String::new(), "a {}".to_string(), scss))
    );
    assert_eq!(Fixed.resolve_import_with_path("other", None), None);
}

#[test]
fn options_are_built_up() {
    let o = Options::new();
    assert_eq!(o.style, OutputStyle::Expanded);
    assert_eq!(o.syntax, Syntax::Scss);
    assert!(o.importer.is_none() && o.url.is_none() && o.unicode);
    let o = Options::default()
        .with_style(OutputStyle::Compressed)
        .with_syntax(Syntax::Sass)
        .with_importer(&Fixed)
        .with_url("in.sass")
        .with_unicode(false);
    assert_eq!(o.style, OutputStyle::Compressed);
    assert_eq!(o.syntax, Syntax::Sass);
    assert!(o.importer.is_some() && !o.unicode);
    assert_eq!(o.url, Some("in.sass"));
}
