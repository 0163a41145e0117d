//! What the readers of source text report.
use vstd::prelude::*;

verus! {

/// A refusal of a reader: the characters `start..end` of the text, and why.
#[derive(Debug, Clone, PartialEq, Eq)]
pub struct Diagnostic {
    pub start: usize,
    pub end: usize,
    pub message: String,
}

/// The mathematical value of a [`Diagnostic`].
pub struct DiagnosticView {
    pub start: int,
    pub end: int,
    pub message: Seq<char>,
}

impl View for Diagnostic {
    type V = DiagnosticView;

    open spec fn view(&self) -> DiagnosticView {
        DiagnosticView { start: self.start as int, end: self.end as int, message: self.message@ }
    }
}

/// The values of a list of diagnostics, in order.
pub open spec fn diagnostics_view(d: Seq<Diagnostic>) -> Seq<DiagnosticView> {
    Seq::new(d.len(), |i: int| d[i]@)
}

} // verus!
