//! What a check reports: a verdict with a titled detail pointing into the script.

use vstd::prelude::*;
use crate::script::Span;

verus! {

/// How serious a finding is.
#[derive(Clone, Copy, Debug)]
pub enum FlagKind {
    /// Critically malicious; blocks hard.
    Dead,
    /// Dangerous.
    Red,
    /// Advisory; never changes the verdict.
    Yellow,
    /// A good-citizen signal.
    Green,
}

/// The area of the machine a check watches over.
#[derive(Clone, Copy, Debug)]
pub enum Category {
    /// What the script runs or leaves behind to run.
    Exec,
    /// What the script fetches or sends over the network.
    Remote,
    /// What the script changes in sensitive system settings.
    Sensitive,
}

/// The human-readable part of a finding.
#[derive(Debug)]
pub struct Detail {
    pub title: String,
    pub explanation: String,
    pub fix: Option<String>,
    pub span: Option<Span>,
}

/// What a check says about a command or a whole script.
#[derive(Debug)]
pub enum Verdict {
    /// Nothing to report.
    Ignore,
    Dead(Detail),
    Red(Detail),
    Yellow(Detail),
    Green(Detail),
}

/// A verdict that reports something, kept by the analysis.
#[derive(Debug)]
pub struct Finding {
    pub kind: FlagKind,
    pub detail: Detail,
}

impl Detail {
    /// A detail with a title and an explanation, no fix and no location yet.
    pub fn new(title: String, explanation: String) -> (d: Detail)
        ensures
            d.title@ == title@,
            d.explanation@ == explanation@,
            d.fix is None,
            d.span is None,
    {
        Detail { title, explanation, fix: None, span: None }
    }

    /// The same detail with a suggested fix.
    pub fn fix(self, fix: String) -> (d: Detail)
        ensures
            d.title@ == self.title@,
            d.explanation@ == self.explanation@,
            d.fix matches Some(f) && f@ == fix@,
            d.span == self.span,
    {
        Detail { title: self.title, explanation: self.explanation, fix: Some(fix), span: self.span }
    }

    /// The same detail, located at `span`.
    pub fn at(self, span: Span) -> (d: Detail)
        ensures
            d.title@ == self.title@,
            d.explanation@ == self.explanation@,
            d.fix == self.fix,
            d.span == Some(span),
    {
        Detail { title: self.title, explanation: self.explanation, fix: self.fix, span: Some(span) }
    }
}

impl Verdict {
    /// The finding a verdict becomes, when it reports something.
    pub fn into_finding(self) -> (f: Option<Finding>)
        ensures
            match self {
                Verdict::Ignore => f is None,
                Verdict::Dead(d) => f == Some(Finding { kind: FlagKind::Dead, detail: d }),
                Verdict::Red(d) => f == Some(Finding { kind: FlagKind::Red, detail: d }),
                Verdict::Yellow(d) => f == Some(Finding { kind: FlagKind::Yellow, detail: d }),
                Verdict::Green(d) => f == Some(Finding { kind: FlagKind::Green, detail: d }),
            },
    {
        match self {
            Verdict::Ignore => None,
            Verdict::Dead(d) => Some(Finding { kind: FlagKind::Dead, detail: d }),
            Verdict::Red(d) => Some(Finding { kind: FlagKind::Red, detail: d }),
            Verdict::Yellow(d) => Some(Finding { kind: FlagKind::Yellow, detail: d }),
            Verdict::Green(d) => Some(Finding { kind: FlagKind::Green, detail: d }),
        }
    }
}

} // verus!
