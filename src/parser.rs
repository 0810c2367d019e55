//! A parsed source file as the analysis receives it.
use vstd::prelude::*;
use crate::syntax::SourceFile;

verus! {

/// Reads source files into syntax trees; the reading and parsing happen
/// outside the library, which receives the trees as `ParsedFile` values.
pub struct AstParser;

/// One source file: where it was read from, and its syntax tree.
pub struct ParsedFile {
    pub path: String,
    pub syntax_tree: SourceFile,
}

} // verus!
