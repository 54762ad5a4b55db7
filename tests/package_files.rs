use turbopack::package_files::{should_hash, split_patterns};

#[test]
fn patterns_split_into_includes_and_excludes() {
    let inputs = vec!["**/*file".to_string(), "!some-dir/excluded-file".to_string(), "a".to_string()];
    let (inc, exc) = split_patterns(&inputs);
    assert_eq!(inc, vec!["**/*file".to_string(), "a".to_string()]);
    assert_eq!(exc, vec!["some-dir/excluded-file".to_string()]);
    let (inc, exc) = split_patterns(&vec![]);
    assert!(inc.is_empty() && exc.is_empty());
}

#[test]
fn walked_entries_to_hash() {
    assert!(should_hash(false, false, None, None));
    assert!(!should_hash(true, false, None, None));
    assert!(!should_hash(false, true, None, None));
    assert!(!should_hash(false, false, Some(false), None));
    assert!(should_hash(false, false, Some(true), Some(false)));
    assert!(!should_hash(false, false, Some(true), Some(true)));
}
