use vstd::prelude::*;

use crate::token::SourceLoc;

verus! {

/// The kind of a non-fatal finding.
#[derive(Debug, Clone, Copy, PartialEq, Eq, Structural)]
pub enum DiagnosticCategory {
    BadIDFormat,
}

/// A non-fatal finding, reported without stopping the tokenizer or the parser.
///
/// No condition is reported this way at present: every problem that the
/// tokenizer or the parser detects is an `Error` and ends the call.
#[derive(Debug, Clone)]
pub struct Diagnostic {
    pub category: DiagnosticCategory,
    pub location: SourceLoc,
    pub snippet: String,
}

} // verus!
