// A small template engine for project skeletons.
//
// A template is text with directives between `{{` and `}}`: placeholders
// (`{{name}}`), conditionals (`{{if flag}} .. {{else}} .. {{end}}`) and
// inclusions of other templates by name. `syntax` parses a template into a
// node tree, `config` holds the variables and the named template texts, and
// `render` evaluates trees against them. `laws` states what holds of every
// rendering.
use vstd::prelude::*;

pub mod config;
pub mod laws;
pub mod render;
pub mod syntax;
pub mod text;

verus! {

} // verus!
