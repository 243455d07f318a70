//! Notices of the fallbacks that parsing took on malformed input.

use vstd::prelude::*;

verus! {

/// How a notice reads to an operator.
#[derive(PartialEq, Eq, Structural, Debug, Clone, Copy)]
pub enum Severity {
    /// The input did not have the expected shape.
    Warning,
    /// A fallback recovered what the input meant.
    Recovered,
}

/// A fallback that parsing took, with what it found.
#[derive(PartialEq, Eq, Debug)]
pub enum Diagnostic {
    /// A date did not split into three space-separated parts.
    DateNotThreeParts { date: String, parts: usize },
    /// The part at `part` starts with month number `month`; the parts before it
    /// were dropped.
    MonthFound { month: usize, part: usize },
    /// The volume and issue were not separated by `", "`.
    VolumeIssueNotCommaSeparated { text: String },
    /// The volume and issue were split at their first space instead.
    VolumeIssueSplitOnSpace { volume: String, issue: String },
}

/// A `Diagnostic` with its texts as character sequences.
pub enum DiagnosticView {
    DateNotThreeParts { date: Seq<char>, parts: nat },
    MonthFound { month: nat, part: nat },
    VolumeIssueNotCommaSeparated { text: Seq<char> },
    VolumeIssueSplitOnSpace { volume: Seq<char>, issue: Seq<char> },
}

impl View for Diagnostic {
    type V = DiagnosticView;

    open spec fn view(&self) -> DiagnosticView {
        match self {
            Diagnostic::DateNotThreeParts { date, parts } => DiagnosticView::DateNotThreeParts {
                date: date@,
                parts: *parts as nat,
            },
            Diagnostic::MonthFound { month, part } => DiagnosticView::MonthFound {
                month: *month as nat,
                part: *part as nat,
            },
            Diagnostic::VolumeIssueNotCommaSeparated { text } =>
                DiagnosticView::VolumeIssueNotCommaSeparated { text: text@ },
            Diagnostic::VolumeIssueSplitOnSpace { volume, issue } =>
                DiagnosticView::VolumeIssueSplitOnSpace { volume: volume@, issue: issue@ },
        }
    }
}

impl Diagnostic {
    pub open spec fn spec_severity(&self) -> Severity {
        match self {
            Diagnostic::DateNotThreeParts { .. } => Severity::Warning,
            Diagnostic::VolumeIssueNotCommaSeparated { .. } => Severity::Warning,
            _ => Severity::Recovered,
        }
    }

    /// A warning names malformed input; a recovery names what a fallback found.
    pub fn severity(&self) -> (r: Severity)
        ensures
            r == self.spec_severity(),
    {
        match self {
            Diagnostic::DateNotThreeParts { .. } => Severity::Warning,
            Diagnostic::VolumeIssueNotCommaSeparated { .. } => Severity::Warning,
            _ => Severity::Recovered,
        }
    }
}

/// The views of a log of notices.
pub open spec fn diag_views(s: Seq<Diagnostic>) -> Seq<DiagnosticView> {
    s.map_values(|d: Diagnostic| d@)
}

/// Appends `d` to `log`.
pub fn emit(log: &mut Vec<Diagnostic>, d: Diagnostic)
    ensures
        diag_views(final(log)@) == diag_views(old(log)@).push(d@),
{
    log.push(d);
    assert(diag_views(log@) =~= diag_views(old(log)@).push(d@));
}

} // verus!
