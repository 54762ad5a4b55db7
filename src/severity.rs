use vstd::prelude::*;

verus! {

/// How serious a reported issue is. The declaration order is the ranking:
/// a bug in the implementation comes first, plain information last.
#[derive(PartialEq, Eq, Structural, PartialOrd, Ord, Clone, Copy, Hash, Debug)]
pub enum IssueSeverity {
    Bug,
    Fatal,
    Error,
    Warning,
    Hint,
    Note,
    Suggestions,
    Info,
}

/// The position of a severity in the ranking, starting at zero for `Bug`.
pub open spec fn severity_rank(s: IssueSeverity) -> nat {
    match s {
        IssueSeverity::Bug => 0,
        IssueSeverity::Fatal => 1,
        IssueSeverity::Error => 2,
        IssueSeverity::Warning => 3,
        IssueSeverity::Hint => 4,
        IssueSeverity::Note => 5,
        IssueSeverity::Suggestions => 6,
        IssueSeverity::Info => 7,
    }
}

pub open spec fn severity_name(s: IssueSeverity) -> &'static str {
    match s {
        IssueSeverity::Bug => "bug",
        IssueSeverity::Fatal => "fatal",
        IssueSeverity::Error => "error",
        IssueSeverity::Warning => "warning",
        IssueSeverity::Hint => "hint",
        IssueSeverity::Note => "note",
        IssueSeverity::Suggestions => "suggestions",
        IssueSeverity::Info => "info",
    }
}

pub open spec fn severity_help(s: IssueSeverity) -> &'static str {
    match s {
        IssueSeverity::Bug => "bug in implementation",
        IssueSeverity::Fatal => "unrecoverable problem",
        IssueSeverity::Error => "problem that cause a broken result",
        IssueSeverity::Warning => "problem should be adressed in short term",
        IssueSeverity::Hint => "idea for improvement",
        IssueSeverity::Note => "detail that is worth mentioning",
        IssueSeverity::Suggestions => "change proposal for improvement",
        IssueSeverity::Info => "detail that is worth telling",
    }
}

impl IssueSeverity {
    /// The lower-case name of the severity.
    pub fn as_str(&self) -> (r: &'static str)
        ensures
            r == severity_name(*self),
    {
        match self {
            IssueSeverity::Bug => "bug",
            IssueSeverity::Fatal => "fatal",
            IssueSeverity::Error => "error",
            IssueSeverity::Warning => "warning",
            IssueSeverity::Hint => "hint",
            IssueSeverity::Note => "note",
            IssueSeverity::Suggestions => "suggestions",
            IssueSeverity::Info => "info",
        }
    }

    /// A short explanation of what the severity means.
    pub fn as_help_str(&self) -> (r: &'static str)
        ensures
            r == severity_help(*self),
    {
        match self {
            IssueSeverity::Bug => "bug in implementation",
            IssueSeverity::Fatal => "unrecoverable problem",
            IssueSeverity::Error => "problem that cause a broken result",
            IssueSeverity::Warning => "problem should be adressed in short term",
            IssueSeverity::Hint => "idea for improvement",
            IssueSeverity::Note => "detail that is worth mentioning",
            IssueSeverity::Suggestions => "change proposal for improvement",
            IssueSeverity::Info => "detail that is worth telling",
        }
    }

    /// The position of the severity in the ranking.
    pub fn rank(&self) -> (r: u8)
        ensures
            r as nat == severity_rank(*self),
    {
        match self {
            IssueSeverity::Bug => 0,
            IssueSeverity::Fatal => 1,
            IssueSeverity::Error => 2,
            IssueSeverity::Warning => 3,
            IssueSeverity::Hint => 4,
            IssueSeverity::Note => 5,
            IssueSeverity::Suggestions => 6,
            IssueSeverity::Info => 7,
        }
    }

    /// Whether `self` ranks strictly before `other`.
    pub fn is_more_severe_than(&self, other: &IssueSeverity) -> (r: bool)
        ensures
            r == (severity_rank(*self) < severity_rank(*other)),
    {
        self.rank() < other.rank()
    }
}

} // verus!
