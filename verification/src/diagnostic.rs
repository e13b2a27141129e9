//! What the decoder reports besides readings.
//!
//! None of these conditions stops the decoder. Each is handed to the caller
//! as a value, for the caller to log, count or ignore.

use vstd::prelude::*;
use crate::label::Label;

verus! {

/// A fault in the pairing of start and end markers.
#[derive(Clone, Copy, Debug, PartialEq, Eq, Structural)]
pub enum Framing {
    /// An end marker arrived while no frame was open. It is ignored.
    StrayEnd,
    /// A start marker arrived while a frame was open. The open frame is
    /// dropped and a new one begins.
    Interrupted,
}

/// A condition met while decoding.
#[derive(Clone, Debug, PartialEq, Eq)]
pub enum Diagnostic {
    /// The markers did not pair.
    Framing(Framing),
    /// The line with this number in its frame does not have the shape of a
    /// group. The line is skipped. Line 0 is what precedes the first line
    /// feed.
    GroupSyntax { line: usize },
    /// The group on the line with this number carries a checksum other than
    /// the one computed from its label and value. The group stays in the
    /// frame.
    ChecksumMismatch { line: usize },
    /// The frame matched a variant, but these mandatory labels have no
    /// usable value. The frame gives no reading.
    IncompleteFrame { labels: Vec<Label> },
    /// The frame holds the full mandatory label set of no variant. The frame
    /// gives no reading.
    UnknownVariant,
}

/// The mathematical model of a [`Diagnostic`].
pub enum DiagnosticView {
    Framing(Framing),
    GroupSyntax { line: usize },
    ChecksumMismatch { line: usize },
    IncompleteFrame { labels: Seq<Label> },
    UnknownVariant,
}

impl View for Diagnostic {
    type V = DiagnosticView;

    open spec fn view(&self) -> DiagnosticView {
        match self {
            Diagnostic::Framing(f) => DiagnosticView::Framing(*f),
            Diagnostic::GroupSyntax { line } => DiagnosticView::GroupSyntax { line: *line },
            Diagnostic::ChecksumMismatch { line } => DiagnosticView::ChecksumMismatch {
                line: *line,
            },
            Diagnostic::IncompleteFrame { labels } => DiagnosticView::IncompleteFrame {
                labels: labels@,
            },
            Diagnostic::UnknownVariant => DiagnosticView::UnknownVariant,
        }
    }
}

/// The models of a sequence of diagnostics.
pub open spec fn diagnostic_views(s: Seq<Diagnostic>) -> Seq<DiagnosticView> {
    Seq::new(s.len(), |i: int| s[i]@)
}

} // verus!
