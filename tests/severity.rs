use turbopack::severity::IssueSeverity;

#[test]
fn severity_ordering_sorts_most_severe_first() {
    let mut v = vec![
        IssueSeverity::Info,
        IssueSeverity::Bug,
        IssueSeverity::Warning,
        IssueSeverity::Error,
    ];
    v.sort();
    assert_eq!(
        v,
        vec![
            IssueSeverity::Bug,
            IssueSeverity::Error,
            IssueSeverity::Warning,
            IssueSeverity::Info
        ]
    );
    let mut w = vec![
        IssueSeverity::Info,
        IssueSeverity::Bug,
        IssueSeverity::Warning,
        IssueSeverity::Error,
    ];
    w.sort_by_key(|s| s.rank());
    assert_eq!(v, w);
}

#[test]
fn severity_names() {
    assert_eq!(IssueSeverity::Bug.as_str(), "bug");
    assert_eq!(IssueSeverity::Suggestions.as_str(), "suggestions");
    assert_eq!(IssueSeverity::Info.as_str(), "info");
    assert_eq!(IssueSeverity::Fatal.as_help_str(), "unrecoverable problem");
    assert_eq!(
        IssueSeverity::Warning.as_help_str(),
        "problem should be adressed in short term"
    );
    assert_eq!(IssueSeverity::Note.rank(), 5);
    assert!(IssueSeverity::Error.is_more_severe_than(&IssueSeverity::Hint));
    assert!(!IssueSeverity::Info.is_more_severe_than(&IssueSeverity::Info));
}
