use s3_object_storage::keys::{join_key, key_carries_prefix, path_is_absolute, strip_key_prefix};
use s3_object_storage::storage::S3CompatibleObjectStorage;

#[test]
fn test_s3_compatible_storage_relative_path() {
    let s3_storage = S3CompatibleObjectStorage::new("s3://bucket/indexes", "bucket".to_string());
    assert_eq!(s3_storage.relative_path("indexes/foo"), "indexes/foo");

    let s3_storage = s3_storage.with_prefix("indexes");

    assert_eq!(s3_storage.relative_path("indexes/foo"), "foo");
}

#[test]
fn test_key_joins_prefix_and_path() {
    assert_eq!(join_key("indexes", "foo"), "indexes/foo");
    assert_eq!(join_key("indexes/", "foo"), "indexes/foo");
    assert_eq!(join_key("", "foo"), "foo");
    assert_eq!(join_key("indexes", "foo/bar.split"), "indexes/foo/bar.split");
    assert_eq!(join_key("a/b", ""), "a/b/");
    assert_eq!(join_key("", ""), "");
}

#[test]
fn test_key_of_absolute_path_replaces_prefix() {
    assert!(path_is_absolute("/foo"));
    assert!(!path_is_absolute("foo/"));
    assert!(!path_is_absolute(""));
    assert_eq!(join_key("indexes", "/foo"), "/foo");
}

#[test]
fn test_key_round_trip() {
    let prefixes = ["", "indexes", "indexes/", "a/b", "a//", "\u{e9}t\u{e9}"];
    let paths = ["", "foo", "foo/bar", "./foo", "foo//bar", "..", "a b", "\u{4e2d}/\u{6587}"];
    for prefix in prefixes {
        for path in paths {
            let key = join_key(prefix, path);
            assert!(key.starts_with(prefix));
            assert!(key_carries_prefix(prefix, &key));
            assert_eq!(strip_key_prefix(prefix, &key), path);
        }
    }
}

#[test]
fn test_key_does_not_double_the_separator() {
    assert_eq!(join_key("indexes/", "foo"), join_key("indexes", "foo"));
    assert!(!join_key("indexes/", "foo").contains("//"));
}

#[test]
fn test_key_carries_prefix() {
    assert!(key_carries_prefix("indexes", "indexes/foo"));
    assert!(key_carries_prefix("indexes", "indexes/"));
    assert!(key_carries_prefix("", "indexes/foo"));
    assert!(key_carries_prefix("", ""));
    assert!(!key_carries_prefix("indexes", "indexes"));
    assert!(!key_carries_prefix("indexes", "indexesfoo"));
    assert!(!key_carries_prefix("indexes", "index"));
    assert!(!key_carries_prefix("indexes", "other/foo"));
    assert!(!key_carries_prefix("indexes", "indexes//foo"));
    assert!(!key_carries_prefix("", "/foo"));
}

#[test]
fn test_storage_key_and_relative_path() {
    let storage = S3CompatibleObjectStorage::from_uri("s3://bucket/indexes").unwrap();
    let key = storage.key("foo/bar");
    assert_eq!(key, "indexes/foo/bar");
    assert!(storage.owns_key(&key));
    assert!(!storage.owns_key("elsewhere/foo"));
    assert_eq!(storage.relative_path(&key), "foo/bar");
}
