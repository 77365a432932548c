//! A verified core for compiling SCSS to CSS.

pub mod analysis;
pub mod args;
pub mod ast;
pub mod at_root;
pub mod bodies;
pub mod bogus;
pub mod calculations;
pub mod call_laws;
pub mod calls;
pub mod compile;
pub mod cond;
pub mod configs;
pub mod css_laws;
pub mod decls;
pub mod diag;
pub mod edges;
pub mod env;
pub mod error;
pub mod eval;
pub mod exports;
pub mod expr;
pub mod expr_laws;
pub mod extend_pass;
pub mod extend_laws;
pub mod extends;
pub mod files;
pub mod flow_laws;
pub mod host;
pub mod imports;
pub mod install;
pub mod kept;
pub mod laws;
pub mod load_laws;
pub mod loads;
pub mod lookup_laws;
pub mod media;
pub mod media_laws;
pub mod member_laws;
pub mod members;
pub mod meta;
pub mod mixin_laws;
pub mod names;
pub mod nesting;
pub mod nesting_laws;
pub mod ops;
pub mod options;
pub mod out;
pub mod output_laws;
pub mod page;
pub mod path_laws;
pub mod paths;
pub mod plain;
pub mod queries;
pub mod report;
pub mod report_laws;
pub mod roster;
pub mod rules;
pub mod run;
pub mod scan;
pub mod selector_check;
pub mod selector_laws;
pub mod selector_text;
pub mod sem;
pub mod semantics;
pub mod sheet_laws;
pub mod sink;
pub mod sources;
pub mod state;
pub mod statements;
pub mod stmt_laws;
pub mod text;
pub mod tree;
pub mod value;
pub mod zone;
pub use crate::compile::{compile, Progress, Step};
pub use crate::error::Error;
pub use crate::files::FsImporter;
pub use crate::options::{Importer, Options, OutputStyle, Syntax};
