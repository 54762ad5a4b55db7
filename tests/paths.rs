use turbopack::path::AbsoluteSystemPathBuf;

fn test_into<T, U>(orig: T)
where
    T: Into<U>,
{
    let _ = orig.into();
}

#[test]
fn test_owned_into() {
    let absolute_system_path_buf = AbsoluteSystemPathBuf::from("/test/path");
    test_into::<AbsoluteSystemPathBuf, String>(absolute_system_path_buf.clone());
    test_into::<AbsoluteSystemPathBuf, AbsoluteSystemPathBuf>(absolute_system_path_buf.clone());
}

#[test]
fn parse_drops_empty_segments() {
    let p = AbsoluteSystemPathBuf::parse("//test//path/");
    assert_eq!(p.segments, vec!["test".to_string(), "path".to_string()]);
    assert_eq!(p.to_text(), "/test/path");
    assert_eq!(AbsoluteSystemPathBuf::root().to_text(), "/");
    let s: String = AbsoluteSystemPathBuf::from("/a/b").into();
    assert_eq!(s, "/a/b");
}

#[test]
fn parent_join_and_inside() {
    let p = AbsoluteSystemPathBuf::parse("/out/app/index.js");
    assert_eq!(p.parent().to_text(), "/out/app");
    assert_eq!(AbsoluteSystemPathBuf::root().parent().to_text(), "/");
    let out = AbsoluteSystemPathBuf::parse("/out");
    assert!(p.is_inside(&out));
    assert!(!out.is_inside(&out));
    assert!(!AbsoluteSystemPathBuf::parse("/outside/x").is_inside(&out));
    let joined = out.join(&AbsoluteSystemPathBuf::parse("/a/b"));
    assert_eq!(joined.to_text(), "/out/a/b");
    assert!(joined.same_as(&AbsoluteSystemPathBuf::parse("/out/a/b")));
    assert!(!joined.same_as(&out));
}
