use turbopack::collectibles::{Collectible, CollectibleKind, TaskRuntime};
use turbopack::issue::{IssueProcessingPath, IssueVc};
use turbopack::path::AbsoluteSystemPathBuf;

#[test]
fn attach_context_reroots_paths() {
    let mut rt = TaskRuntime::new();
    let caller = rt.spawn(None);
    let sub = rt.spawn(Some(caller));
    let x = IssueVc { id: 42 };
    x.emit(&mut rt, sub);
    let back = IssueVc::attach_context(
        &mut rt,
        caller,
        AbsoluteSystemPathBuf::parse("/p"),
        "inside p".to_string(),
        sub,
    );
    assert_eq!(back, sub);
    let captured = IssueVc::peek_issues_with_path(&rt, caller);
    assert_eq!(captured.len(), 1);
    assert!(!captured.is_empty());
    assert_eq!(captured.iter(), vec![x]);
    let with_paths = captured.iter_with_shortest_path();
    assert_eq!(with_paths.len(), 1);
    assert_eq!(with_paths[0].0, x);
    let path = with_paths[0].1.as_ref().unwrap().as_ref().unwrap();
    let texts: Vec<String> = path.iter().map(|i| i.to_string()).collect();
    assert_eq!(texts, vec!["/p (inside p)".to_string()]);
}

#[test]
fn attach_description_without_context() {
    let mut rt = TaskRuntime::new();
    let caller = rt.spawn(None);
    let sub = rt.spawn(Some(caller));
    let x = IssueVc { id: 3 };
    x.emit(&mut rt, sub);
    IssueVc::attach_description(&mut rt, caller, "while parsing".to_string(), sub);
    let captured = IssueVc::peek_issues_with_path(&rt, caller);
    let with_paths = captured.iter_with_shortest_path();
    let path = with_paths[0].1.as_ref().unwrap().as_ref().unwrap();
    assert_eq!(path[0].to_string(), "while parsing");
}

#[test]
fn attach_with_nothing_below_emits_nothing() {
    let mut rt = TaskRuntime::new();
    let caller = rt.spawn(None);
    let sub = rt.spawn(Some(caller));
    IssueVc::attach_description(&mut rt, caller, "quiet".to_string(), sub);
    assert_eq!(rt.peek(caller, CollectibleKind::Path).len(), 0);
}

#[test]
fn take_removes_and_peek_keeps() {
    let mut rt = TaskRuntime::new();
    let root = rt.spawn(None);
    let a = rt.spawn(Some(root));
    let b = rt.spawn(Some(a));
    let other = rt.spawn(Some(root));
    IssueVc { id: 1 }.emit(&mut rt, b);
    IssueVc { id: 2 }.emit(&mut rt, other);
    assert_eq!(rt.peek(root, CollectibleKind::Issue).len(), 2);
    let peeked = rt.peek(a, CollectibleKind::Issue);
    assert_eq!(peeked.len(), 1);
    assert_eq!(rt.peek(a, CollectibleKind::Issue).len(), 1);
    let taken = rt.take(a, CollectibleKind::Issue);
    assert_eq!(taken.len(), 1);
    assert_eq!(taken[0].serial, peeked[0].serial);
    assert!(matches!(taken[0].item, Collectible::Issue(IssueVc { id: 1 })));
    assert_eq!(rt.peek(a, CollectibleKind::Issue).len(), 0);
    assert_eq!(rt.peek(root, CollectibleKind::Issue).len(), 1);
    assert_eq!(rt.peek(a, CollectibleKind::Path).len(), 1);
}

#[test]
fn take_issues_with_path_stops_propagation() {
    let mut rt = TaskRuntime::new();
    let root = rt.spawn(None);
    let sub = rt.spawn(Some(root));
    let x = IssueVc { id: 9 };
    x.emit(&mut rt, sub);
    let captured = IssueVc::take_issues_with_path(&mut rt, sub);
    assert_eq!(captured.iter(), vec![x]);
    match &captured.processing_path {
        IssueProcessingPath::Item(None, children) => assert_eq!(children.len(), 1),
        _ => panic!("expected an inner node"),
    }
    let after = IssueVc::peek_issues_with_path(&rt, root);
    assert!(after.is_empty());
    assert!(after.iter_with_shortest_path().is_empty());
}
