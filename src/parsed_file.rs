use vstd::prelude::*;

use crate::diagnostic::Diagnostic;
use crate::keyvalue::KeyValueBlock;

verus! {

/// What parsing one source file produced: its tree, once parsed, and the
/// findings reported along the way.
pub struct ParsedFile {
    pub tree: Option<KeyValueBlock>,
    pub diagnostics: Vec<Diagnostic>,
}

impl ParsedFile {
    /// A file not parsed yet: no tree and no findings.
    pub fn new() -> (r: ParsedFile)
        ensures
            r.tree is None,
            r.diagnostics@.len() == 0,
    {
        ParsedFile { tree: None, diagnostics: Vec::new() }
    }
}

} // verus!
