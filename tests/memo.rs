use turbopack::memo::{TaskCache, TaskKey};

#[test]
fn memoized_spawns_share_a_cell() {
    let mut cache = TaskCache::new();
    let h1 = cache.spawn(TaskKey { function: 1, args: vec![10, 20] }, b"first".to_vec());
    let h2 = cache.spawn(TaskKey { function: 1, args: vec![10, 20] }, b"second".to_vec());
    assert_eq!(h1, h2);
    assert_eq!(cache.get(h1), &b"first".to_vec());
    let h3 = cache.spawn(TaskKey { function: 1, args: vec![10, 21] }, b"other".to_vec());
    assert_ne!(h1, h3);
    let h4 = cache.spawn(TaskKey { function: 2, args: vec![10, 20] }, b"fn2".to_vec());
    assert_ne!(h1, h4);
    assert_eq!(cache.get(h4), &b"fn2".to_vec());
    assert!(TaskKey { function: 3, args: vec![] }.same_as(&TaskKey { function: 3, args: vec![] }));
}
