use turbopack::git_hash::{
    decimal_bytes, git_like_hash, hash_files, FileRead, FileToHash, ReadErrorKind,
};

fn file(path: &str, read: FileRead) -> FileToHash {
    FileToHash { path: path.to_string(), read }
}

#[test]
fn git_hash_of_empty_contents() {
    assert_eq!(git_like_hash(b""), "e69de29bb2d1d6434b8b29ae775ad8c2e48c5391");
}

#[test]
fn git_hash_of_known_contents() {
    assert_eq!(git_like_hash(b"contents"), "0839b2e9412b314cb8bb9a20f587aa13752ae310");
    assert_eq!(
        git_like_hash(b"some-file-contents"),
        "7e59c6a6ea9098c6d3beb00e753e2c54ea502311"
    );
    assert_eq!(
        git_like_hash(b"pkgignoreme\npkgignorethisdir/"),
        "3237694bc3312ded18386964a855074af7b066af"
    );
}

#[test]
fn decimal_digits() {
    assert_eq!(decimal_bytes(0), b"0".to_vec());
    assert_eq!(decimal_bytes(1234), b"1234".to_vec());
}

#[test]
fn hash_files_allow_missing() {
    let out = hash_files(
        vec![
            file("non-existent-file.txt", FileRead::Failed(ReadErrorKind::NotFound)),
            file("existing-file.txt", FileRead::Contents(vec![])),
        ],
        true,
    )
    .unwrap();
    assert_eq!(
        out.get(&"existing-file.txt".to_string()),
        Some("e69de29bb2d1d6434b8b29ae775ad8c2e48c5391".to_string())
    );
    assert_eq!(out.get(&"non-existent-file.txt".to_string()), None);
    let out = hash_files(
        vec![file("non-existent-file.txt", FileRead::Failed(ReadErrorKind::NotFound))],
        true,
    )
    .unwrap();
    assert!(out.entries.is_empty());
}

#[test]
fn hash_files_missing_not_allowed() {
    let err = hash_files(
        vec![
            file("non-existent-file.txt", FileRead::Failed(ReadErrorKind::NotFound)),
            file("existing-file.txt", FileRead::Contents(vec![])),
        ],
        false,
    )
    .unwrap_err();
    assert_eq!(err.path, "non-existent-file.txt");
    assert_eq!(err.kind, ReadErrorKind::NotFound);
    let ok = hash_files(vec![file("existing-file.txt", FileRead::Contents(vec![]))], false);
    assert!(ok.is_ok());
}

#[test]
fn hash_files_directory_fails_either_way() {
    for allow_missing in [true, false] {
        let err = hash_files(
            vec![file("symlink-from-to-dir", FileRead::Failed(ReadErrorKind::IsADirectory))],
            allow_missing,
        )
        .unwrap_err();
        assert_eq!(err.kind, ReadErrorKind::IsADirectory);
    }
}

#[test]
fn hash_files_later_entry_replaces_earlier() {
    let out = hash_files(
        vec![
            file("f", FileRead::Contents(b"contents".to_vec())),
            file("f", FileRead::Contents(vec![])),
        ],
        false,
    )
    .unwrap();
    assert_eq!(
        out.get(&"f".to_string()),
        Some("e69de29bb2d1d6434b8b29ae775ad8c2e48c5391".to_string())
    );
}
