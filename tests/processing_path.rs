use turbopack::issue::{IssueProcessingPath, IssueProcessingPathItem, IssueVc, PathError};
use turbopack::path::AbsoluteSystemPathBuf;

fn item(desc: &str) -> IssueProcessingPathItem {
    IssueProcessingPathItem::new(None, desc.to_string())
}

fn texts(v: &[IssueProcessingPathItem]) -> Vec<String> {
    v.iter().map(|i| i.to_string()).collect()
}

fn chain(a: &str, b: &str, x: IssueVc) -> IssueProcessingPath {
    IssueProcessingPath::Item(
        Some(item(a)),
        vec![IssueProcessingPath::Item(Some(item(b)), vec![IssueProcessingPath::Root(x)])],
    )
}

#[test]
fn shortest_path_takes_lexicographic_tiebreak() {
    let x = IssueVc { id: 1 };
    let root = IssueProcessingPath::Item(None, vec![chain("b1", "b2", x), chain("a1", "a2", x)]);
    let found = root.shortest_path(x).unwrap().unwrap();
    assert_eq!(texts(&found), vec!["a1".to_string(), "a2".to_string()]);
    let root = IssueProcessingPath::Item(None, vec![chain("a1", "a2", x), chain("b1", "b2", x)]);
    let found = root.shortest_path(x).unwrap().unwrap();
    assert_eq!(texts(&found), vec!["a1".to_string(), "a2".to_string()]);
}

#[test]
fn shortest_path_prefers_shorter_and_prepends_head() {
    let x = IssueVc { id: 7 };
    let short = IssueProcessingPath::Item(Some(item("z")), vec![IssueProcessingPath::Root(x)]);
    let root = IssueProcessingPath::Item(Some(item("top")), vec![chain("a1", "a2", x), short]);
    let found = root.shortest_path(x).unwrap().unwrap();
    assert_eq!(texts(&found), vec!["top".to_string(), "z".to_string()]);
}

#[test]
fn shortest_path_of_unknown_issue_and_empty_node() {
    let x = IssueVc { id: 1 };
    let y = IssueVc { id: 2 };
    assert!(IssueProcessingPath::Root(x).shortest_path(y).unwrap().is_none());
    assert_eq!(IssueProcessingPath::Root(x).shortest_path(x).unwrap().unwrap().len(), 0);
    let empty = IssueProcessingPath::Item(None, vec![]);
    assert_eq!(empty.shortest_path(x).unwrap_err(), PathError::EmptyPath);
    assert_eq!(PathError::EmptyPath.message(), "path can't be empty");
    let nested = IssueProcessingPath::Item(None, vec![IssueProcessingPath::Root(x), empty]);
    assert!(nested.shortest_path(x).is_err());
}

#[test]
fn item_string_form() {
    let with_context = IssueProcessingPathItem::new(
        Some(AbsoluteSystemPathBuf::parse("/p")),
        "inside p".to_string(),
    );
    assert_eq!(with_context.to_string(), "/p (inside p)");
    assert_eq!(item("plain").to_string(), "plain");
}
