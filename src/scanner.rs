//! Which files of a project tree are read: the walk itself happens outside
//! the library, which decides what to descend into and what to keep.
use vstd::prelude::*;
use crate::strings::str_eq;

verus! {

pub struct FileScanner {
    pub root_path: String,
}

/// The source files found, and a message for each entry that could not be read.
pub struct ScanResult {
    pub rust_files: Vec<String>,
    pub warnings: Vec<String>,
}

impl FileScanner {
    pub fn new(root_path: String) -> (r: Self)
        ensures
            r.root_path == root_path,
    {
        FileScanner { root_path }
    }
}

/// Whether the walk enters or keeps an entry: the root always; otherwise not
/// a hidden entry (name starting with `.`) and not a `target` directory.
pub fn keep_entry(file_name: &str, is_root: bool) -> (r: bool)
    ensures
        r == (is_root || (!(file_name@.len() > 0 && file_name@[0] == '.') && file_name@ != "target"@)),
{
    if is_root {
        return true;
    }
    let hidden = file_name.unicode_len() > 0 && file_name.get_char(0) == '.';
    !hidden && !str_eq(file_name, "target")
}

/// Whether an entry is a source file to parse: a file with extension `rs`.
pub fn is_rust_source(is_file: bool, extension: Option<&str>) -> (r: bool)
    ensures
        r == (is_file && (extension matches Some(e) && e@ == "rs"@)),
{
    match extension {
        Some(e) => is_file && str_eq(e, "rs"),
        None => false,
    }
}

} // verus!
