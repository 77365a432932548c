//! What a compilation is told: output style, input syntax, importer, and how diagnostics look.

use vstd::prelude::*;

verus! {

/// Output formatting style.
#[derive(Debug, Clone, Copy, PartialEq, Eq, Structural)]
pub enum OutputStyle {
    /// Human-readable, indented output (the default).
    Expanded,
    /// Minified, single-line output.
    Compressed,
}

impl Default for OutputStyle {
    fn default() -> (r: OutputStyle)
        ensures
            r == OutputStyle::Expanded,
    {
        OutputStyle::Expanded
    }
}

/// The input syntax.
#[derive(Debug, Clone, Copy, PartialEq, Eq, Structural)]
pub enum Syntax {
    /// Braces and semicolons (the default).
    Scss,
    /// Blocks by indentation, statements by line.
    Sass,
    /// Plain CSS: Sass features are rejected, and values are not evaluated.
    Css,
}

impl Default for Syntax {
    fn default() -> (r: Syntax)
        ensures
            r == Syntax::Scss,
    {
        Syntax::Scss
    }
}

/// Gives the sources of imported files. All access to files is on the implementor's side.
pub trait Importer {
    /// The source that an `@import` argument names, if there is one.
    fn resolve(&self, path: &str) -> Option<String>;

    /// The key and the source that a module URL names. Two URLs of the same file have the same
    /// key.
    fn resolve_module(&self, path: &str) -> (r: Option<(String, String)>)
        default_ensures
            exists|s: Option<String>| #[trigger]
                call_ensures(Self::resolve, (self, path), s) && match (s, r) {
                    (Some(text), Some((key, t))) => key@ == path@ && t == text,
                    (None, None) => true,
                    _ => false,
                },
    {
        keyed_by_url(path, self.resolve(path))
    }

    /// The source that an `@import` argument names, and its syntax.
    fn resolve_with_syntax(&self, path: &str) -> (r: Option<(String, Syntax)>)
        default_ensures
            exists|s: Option<String>| #[trigger]
                call_ensures(Self::resolve, (self, path), s) && r == (match s {
                    Some(text) => Some((text, Syntax::Scss)),
                    None => None,
                }),
    {
        as_scss(self.resolve(path))
    }

    /// The key, the source and the syntax that a module URL names.
    fn resolve_module_with_syntax(&self, path: &str) -> (r: Option<(String, String, Syntax)>)
        default_ensures
            exists|m: Option<(String, String)>| #[trigger]
                call_ensures(Self::resolve_module, (self, path), m) && r == (match m {
                    Some((key, text)) => Some((key, text, Syntax::Scss)),
                    None => None,
                }),
    {
        keyed_as_scss(self.resolve_module(path))
    }

    /// The same, where a relative URL is looked up in `base_dir` first. Unless an importer says
    /// otherwise, the directory has no influence.
    fn resolve_module_with_syntax_in(&self, path: &str, base_dir: Option<&str>) -> (r: Option<
        (String, String, Syntax),
    >)
        default_ensures
            call_ensures(Self::resolve_module_with_syntax, (self, path), r),
    {
        self.resolve_module_with_syntax(path)
    }

    /// The path, the source and the syntax that an `@import` argument names; the path is empty
    /// where it is not known. Unless an importer says otherwise, it is not known, and the directory
    /// has no influence.
    fn resolve_import_with_path(&self, path: &str, base_dir: Option<&str>) -> (r: Option<
        (String, String, Syntax),
    >)
        default_ensures
            exists|f: Option<(String, Syntax)>| #[trigger]
                call_ensures(Self::resolve_with_syntax, (self, path), f) && match (f, r) {
                    (Some((text, syntax)), Some((p, t, u))) => p@.len() == 0 && t == text && u
                        == syntax,
                    (None, None) => true,
                    _ => false,
                },
    {
        without_path(self.resolve_with_syntax(path))
    }
}

/// An importer that keeps the default lookup of modules ignores the directory: two lookups of the
/// same URL that differ in the directory alone agree, and give what the lookup without a directory
/// gives. The first condition is what the default ensures; the second, that the importer does not
/// answer the same question in two ways.
pub proof fn default_ignores_the_directory<I: Importer + ?Sized>(
    importer: &I,
    path: &str,
    a: Option<&str>,
    b: Option<&str>,
    first: Option<(String, String, Syntax)>,
    second: Option<(String, String, Syntax)>,
    plain: Option<(String, String, Syntax)>,
)
    requires
        forall|d: Option<&str>, r: Option<(String, String, Syntax)>| #[trigger]
            call_ensures(I::resolve_module_with_syntax_in, (importer, path, d), r) ==> call_ensures(
                I::resolve_module_with_syntax,
                (importer, path),
                r,
            ),
        forall|x: Option<(String, String, Syntax)>, y: Option<(String, String, Syntax)>|
            #[trigger] call_ensures(I::resolve_module_with_syntax, (importer, path), x)
                && #[trigger] call_ensures(I::resolve_module_with_syntax, (importer, path), y) ==> x
                == y,
        call_ensures(I::resolve_module_with_syntax_in, (importer, path, a), first),
        call_ensures(I::resolve_module_with_syntax_in, (importer, path, b), second),
        call_ensures(I::resolve_module_with_syntax, (importer, path), plain),
    ensures
        first == plain,
        second == plain,
{
}

/// A source under the URL that named it.
pub fn keyed_by_url(path: &str, source: Option<String>) -> (r: Option<(String, String)>)
    ensures
        match (source, r) {
            (Some(s), Some((key, t))) => key@ == path@ && t == s,
            (None, None) => true,
            _ => false,
        },
{
    match source {
        Some(s) => Some((path.to_owned(), s)),
        None => None,
    }
}

/// A source as SCSS.
pub fn as_scss(source: Option<String>) -> (r: Option<(String, Syntax)>)
    ensures
        r == match source {
            Some(s) => Some((s, Syntax::Scss)),
            None => None,
        },
{
    match source {
        Some(s) => Some((s, Syntax::Scss)),
        None => None,
    }
}

/// A source with its key, as SCSS.
pub fn keyed_as_scss(found: Option<(String, String)>) -> (r: Option<(String, String, Syntax)>)
    ensures
        r == match found {
            Some((key, s)) => Some((key, s, Syntax::Scss)),
            None => None,
        },
{
    match found {
        Some((key, s)) => Some((key, s, Syntax::Scss)),
        None => None,
    }
}

/// A source of unknown path.
pub fn without_path(found: Option<(String, Syntax)>) -> (r: Option<(String, String, Syntax)>)
    ensures
        match (found, r) {
            (Some((s, syntax)), Some((path, t, u))) => path@.len() == 0 && t == s && u == syntax,
            (None, None) => true,
            _ => false,
        },
{
    match found {
        Some((s, syntax)) => Some((String::new(), s, syntax)),
        None => None,
    }
}

/// Compilation options.
pub struct Options<'a> {
    /// Output style.
    pub style: OutputStyle,
    /// Input syntax.
    pub syntax: Syntax,
    /// Gives the sources of imported files; without one nothing can be imported.
    pub importer: Option<&'a dyn Importer>,
    /// The name of the input in diagnostics; without one they have no source snippets.
    pub url: Option<&'a str>,
    /// Whether snippets are drawn with Unicode glyphs.
    pub unicode: bool,
}

impl<'a> Default for Options<'a> {
    fn default() -> (r: Options<'a>)
        ensures
            r.style == OutputStyle::Expanded,
            r.syntax == Syntax::Scss,
            r.importer is None,
            r.url is None,
            r.unicode,
    {
        Options {
            style: OutputStyle::Expanded,
            syntax: Syntax::Scss,
            importer: None,
            url: None,
            unicode: true,
        }
    }
}

impl<'a> Options<'a> {
    /// The default options: expanded, SCSS, no importer.
    pub fn new() -> (r: Self)
        ensures
            r.style == OutputStyle::Expanded,
            r.syntax == Syntax::Scss,
            r.importer is None,
            r.url is None,
            r.unicode,
    {
        Options {
            style: OutputStyle::Expanded,
            syntax: Syntax::Scss,
            importer: None,
            url: None,
            unicode: true,
        }
    }

    /// These options with another output style.
    #[must_use]
    pub fn with_style(self, style: OutputStyle) -> (r: Self)
        ensures
            r == (Options { style, ..self }),
    {
        let mut r = self;
        r.style = style;
        r
    }

    /// These options with another input syntax.
    #[must_use]
    pub fn with_syntax(self, syntax: Syntax) -> (r: Self)
        ensures
            r == (Options { syntax, ..self }),
    {
        let mut r = self;
        r.syntax = syntax;
        r
    }

    /// These options with an importer.
    #[must_use]
    pub fn with_importer(self, importer: &'a dyn Importer) -> (r: Self)
        ensures
            r == (Options { importer: Some(importer), ..self }),
    {
        let mut r = self;
        r.importer = Some(importer);
        r
    }

    /// These options with a name for the input.
    #[must_use]
    pub fn with_url(self, url: &'a str) -> (r: Self)
        ensures
            r == (Options { url: Some(url), ..self }),
    {
        let mut r = self;
        r.url = Some(url);
        r
    }

    /// These options with Unicode glyphs or without.
    #[must_use]
    pub fn with_unicode(self, unicode: bool) -> (r: Self)
        ensures
            r == (Options { unicode, ..self }),
    {
        let mut r = self;
        r.unicode = unicode;
        r
    }
}

} // verus!
