//! Where a diagnostic was found.

use vstd::prelude::*;
use vstd::string::*;
use crate::text::{decimal, push_decimal};

verus! {

/// A place in some source that can be copied about and shown as text.
pub trait DiagnosticLoc: Clone {
    /// A short text that tells a reader where the place is.
    fn source_display(&self) -> String;
}

/// A file name and a line number: enough for programs that need no more.
#[derive(Debug, Clone)]
pub struct LineLoc {
    pub file: &'static str,
    pub line: u32,
}

impl LineLoc {
    /// The text `<file>:<line>`, the line in decimal.
    pub open spec fn display_text(&self) -> Seq<char> {
        self.file@ + seq![':'] + decimal(self.line as nat)
    }
}

impl DiagnosticLoc for LineLoc {
    fn source_display(&self) -> (s: String)
        ensures
            s@ == self.display_text(),
    {
        let mut s = String::from_str(self.file);
        s.push(':');
        push_decimal(&mut s, self.line as u64);
        assert(s@ =~= self.display_text());
        s
    }
}

} // verus!
