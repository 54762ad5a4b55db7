use turbopack::context::Asset;
use turbopack::issue::Issue;
use turbopack::path::AbsoluteSystemPathBuf;
use turbopack::severity::IssueSeverity;
use turbopack::source::IssueSource;

#[test]
fn issue_defaults_and_builders() {
    let issue = Issue::new(
        AbsoluteSystemPathBuf::parse("/src"),
        "Module not found".to_string(),
        "Can't resolve './x'".to_string(),
    );
    assert_eq!(issue.severity, IssueSeverity::Error);
    assert_eq!(issue.category, "");
    assert_eq!(issue.documentation_link, "");
    assert!(issue.source.is_none());
    assert!(issue.sub_issues.is_empty());
    let asset = Asset::new(AbsoluteSystemPathBuf::parse("/src/a.js"), b"x".to_vec());
    let sub = Issue::new(AbsoluteSystemPathBuf::root(), "t".to_string(), "d".to_string());
    let issue = issue
        .with_severity(IssueSeverity::Warning)
        .with_category("resolve".to_string())
        .with_source(IssueSource::from_byte_offset(asset, 0, 1))
        .with_sub_issue(sub);
    assert_eq!(issue.severity, IssueSeverity::Warning);
    assert_eq!(issue.category, "resolve");
    assert!(issue.source.is_some());
    assert_eq!(issue.sub_issues.len(), 1);
    assert_eq!(issue.title, "Module not found");
}
