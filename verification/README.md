# sasso

The core of a compiler from SCSS to CSS, written in Verus: executable Rust whose behaviour is stated
in `requires` and `ensures` clauses and proved.

- `src/` is the library. It holds the evaluator (expressions, calls, calculations, statements,
  modules, imports, `@extend`), the handling of selectors and media queries, the output tree, and the
  search for source files.
- `app/` is ordinary Rust round the library: files on disk, floating-point arithmetic, and the loop
  that answers the compiler's questions.
- `tests/` runs the library on given values.

## How a compilation runs

`compile` is a function of the source, the options and the answers given so far. What the library
does not compute itself — the syntax tree of a text, arithmetic on floating-point numbers, the text
of a value, a built-in function, a file — it asks for: it comes to `Step::Need` with a `Request`, and
is called again with the answer added. It ends with `Step::Done`, the CSS, or with `Step::Failed`, an
error with its place in the source. A diagnostic says which piece of the source it shows; how that is
drawn is up to whoever prints it.

Because evaluation is a function of the program and the answers, every contract is an equation: the
result and the state after a step are what the specification functions in `semantics` and
`statements` say.

## Where things stand

| Modules | What they hold |
| --- | --- |
| `text`, `scan`, `state` | characters, bracketed lists, tables |
| `selector_check`, `selector_text`, `nesting`, `bogus` | selectors |
| `media`, `queries`, `cond` | media queries, `@supports` and CSS `if()` conditions |
| `out`, `sink`, `tree`, `at_root` | the output tree and what moves in it |
| `ast`, `value`, `analysis`, `names` | syntax trees, values, and questions about them |
| `host`, `eval`, `env`, `page`, `report`, `diag` | the state of an evaluation, its questions and its reports |
| `sem`, `semantics` | what expressions and function bodies mean |
| `expr`, `ops`, `args`, `calls`, `bodies`, `calculations`, `members`, `meta`, `roster` | their evaluation |
| `statements` | what statements mean |
| `decls`, `rules`, `plain`, `edges`, `configs`, `exports`, `install`, `imports`, `sources`, `run`, `loads` | their execution |
| `extends`, `extend_pass` | the extension pass |
| `compile`, `options`, `files`, `paths`, `zone` | the outside of the library |
| `kept`, `laws` | what holds of evaluation as a whole |
