//! Loading of files named by `~include` directives.
use vstd::prelude::*;
use crate::text::push_str;

verus! {

/// Loads the text of files named by `~include` directives.
///
/// Keeps the preprocessor apart from the file system, so that it can run on any source of files.
/// An error is reported as its message.
pub trait FileLoader {
    fn read(&mut self, path: &str) -> Result<String, String>;
}

/// A loader that refuses every file.
#[derive(Debug, Default, Clone, Copy, PartialEq, Eq)]
pub struct NullFileLoader;

/// The message a `NullFileLoader` gives for `path`.
pub open spec fn not_configured_text(path: Seq<char>) -> Seq<char> {
    "file loading not configured; cannot read '"@ + path + "'"@
}

impl FileLoader for NullFileLoader {
    fn read(&mut self, path: &str) -> (result: Result<String, String>)
        ensures
            result matches Err(message) && message@ == not_configured_text(path@),
    {
        let mut message = String::new();
        push_str(&mut message, "file loading not configured; cannot read '");
        push_str(&mut message, path);
        push_str(&mut message, "'");
        Err(message)
    }
}

} // verus!
