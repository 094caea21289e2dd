use s3_object_storage::bulk_delete::MAX_NUM_KEYS;
use s3_object_storage::doc_mapping::DocMappingUid;
use s3_object_storage::error::{StorageErrorKind, StorageResolverError};
use s3_object_storage::multipart::{MultiPartPolicy, MultipartState};
use s3_object_storage::retry::RetryParams;
use s3_object_storage::storage::{PutPlan, S3CompatibleObjectStorage, STORAGE_MAX_ATTEMPTS};

#[test]
fn test_new_storage() {
    let storage = S3CompatibleObjectStorage::new("s3://bucket/indexes", "bucket".to_string());
    assert_eq!(storage.uri(), "s3://bucket/indexes");
    assert_eq!(storage.bucket(), "bucket");
    assert_eq!(storage.prefix(), "");
    assert_eq!(storage.multipart_policy(), MultiPartPolicy::default());
    assert_eq!(
        storage.retry_params(),
        RetryParams {
            max_attempts: 3,
            ..RetryParams::default()
        }
    );
    assert_eq!(STORAGE_MAX_ATTEMPTS, 3);
}

#[test]
fn test_storage_from_uri() {
    let storage = S3CompatibleObjectStorage::from_uri("s3://bucket/path/to/object").unwrap();
    assert_eq!(storage.uri(), "s3://bucket/path/to/object");
    assert_eq!(storage.bucket(), "bucket");
    assert_eq!(storage.prefix(), "path/to/object");

    let storage = S3CompatibleObjectStorage::from_uri("s3://bucket/").unwrap();
    assert_eq!(storage.bucket(), "bucket");
    assert_eq!(storage.prefix(), "");

    let storage = S3CompatibleObjectStorage::from_uri("s3://bucket").unwrap();
    assert_eq!(storage.bucket(), "bucket");
    assert_eq!(storage.prefix(), "");
}

#[test]
fn test_storage_from_invalid_uri() {
    match S3CompatibleObjectStorage::from_uri("ram://path/to/file") {
        Err(StorageResolverError::InvalidUri { message }) => {
            assert_eq!(
                message,
                "URI `ram://path/to/file` is not a valid AWS S3 URI."
            );
        }
        _ => panic!("the address names no bucket"),
    }
}

#[test]
fn test_with_prefix_replaces_the_prefix() {
    let storage = S3CompatibleObjectStorage::from_uri("s3://bucket/indexes").unwrap();
    let storage = storage.with_prefix("other");
    assert_eq!(storage.prefix(), "other");
    assert_eq!(storage.bucket(), "bucket");
    assert_eq!(storage.uri(), "s3://bucket/indexes");
    assert_eq!(storage.key("foo"), "other/foo");
    let storage = storage.with_prefix("");
    assert_eq!(storage.key("foo"), "foo");
}

#[test]
fn test_set_policy() {
    let mut storage = S3CompatibleObjectStorage::from_uri("s3://bucket/indexes").unwrap();
    let policy = MultiPartPolicy {
        target_part_num_bytes: 5,
        max_num_parts: 4,
        multipart_threshold_num_bytes: 10,
        max_concurrent_uploads: 2,
    };
    storage.set_policy(policy);
    assert_eq!(storage.multipart_policy(), policy);
    assert_eq!(storage.prefix(), "indexes");
    assert_eq!(storage.bucket(), "bucket");
}

#[test]
fn test_put_plan() {
    let mut storage = S3CompatibleObjectStorage::from_uri("s3://bucket/indexes").unwrap();
    assert_eq!(storage.put_plan(0), PutPlan::SinglePart);
    assert_eq!(storage.put_plan(134_217_727), PutPlan::SinglePart);
    assert_eq!(storage.put_plan(5_000_000_000), PutPlan::SinglePart);
    assert_eq!(
        storage.put_plan(5_000_000_001),
        PutPlan::MultiPart {
            part_num_bytes: 5_000_000_000
        }
    );
    storage.set_policy(MultiPartPolicy {
        target_part_num_bytes: 5,
        max_num_parts: 4,
        multipart_threshold_num_bytes: 10,
        max_concurrent_uploads: 2,
    });
    assert_eq!(storage.put_plan(9), PutPlan::SinglePart);
    assert_eq!(storage.put_plan(10), PutPlan::MultiPart { part_num_bytes: 5 });
    assert_eq!(storage.put_plan(21), PutPlan::MultiPart { part_num_bytes: 6 });
}

#[test]
fn test_get_requests() {
    let storage = S3CompatibleObjectStorage::from_uri("s3://bucket/indexes").unwrap();
    let request = storage.get_all_request("foo");
    assert_eq!(request.bucket, "bucket");
    assert_eq!(request.key, "indexes/foo");
    assert!(request.range.is_none());

    let request = storage.get_slice_request("foo", 0..1).unwrap();
    assert_eq!(request.bucket, "bucket");
    assert_eq!(request.key, "indexes/foo");
    assert_eq!(request.range.as_deref(), Some("bytes=0-0"));

    let request = storage.get_slice_request("foo", 10..1_509).unwrap();
    assert_eq!(request.range.as_deref(), Some("bytes=10-1508"));

    let request = storage
        .get_slice_request("foo", 1_234_567_890..9_876_543_210)
        .unwrap();
    assert_eq!(
        request.range.as_deref(),
        Some("bytes=1234567890-9876543209")
    );

    let request = storage.get_slice_request("foo", 0..usize::MAX).unwrap();
    assert_eq!(
        request.range,
        Some(format!("bytes=0-{}", usize::MAX - 1))
    );
}

#[test]
fn test_get_slice_request_of_no_bytes() {
    let storage = S3CompatibleObjectStorage::from_uri("s3://bucket/indexes").unwrap();
    for range in [0..0, 5..5, 7..3] {
        let error = match storage.get_slice_request("foo", range.clone()) {
            Err(error) => error,
            Ok(_) => panic!("the range holds no byte"),
        };
        assert_eq!(error.kind(), StorageErrorKind::InvalidInput);
        assert_eq!(
            error.message(),
            format!(
                "Failed to fetch slice {:?} for object: s3://bucket/indexes/foo",
                range
            )
        );
    }
}

#[test]
fn test_error_contexts() {
    let storage = S3CompatibleObjectStorage::from_uri("s3://bucket/indexes").unwrap();
    let error = StorageErrorKind::NotFound.with_error("no such key".to_string());
    let explained = storage.get_slice_error(error, "foo/bar", 10..20);
    assert_eq!(explained.kind(), StorageErrorKind::NotFound);
    assert_eq!(
        explained.message(),
        "Failed to fetch slice 10..20 for object: s3://bucket/indexes/foo/bar: no such key"
    );
    assert_eq!(explained.to_string(), explained.message());

    let error = StorageErrorKind::Timeout.with_error("timed out".to_string());
    let explained = storage.get_all_error(error, "foo");
    assert_eq!(explained.kind(), StorageErrorKind::Timeout);
    assert_eq!(
        explained.message(),
        "Failed to fetch object: s3://bucket/indexes/foo: timed out"
    );
    let twice = explained.add_context("while searching");
    assert_eq!(
        twice.message(),
        "while searching: Failed to fetch object: s3://bucket/indexes/foo: timed out"
    );
}

#[test]
fn test_storage_starts_its_runs() {
    let storage = S3CompatibleObjectStorage::from_uri("s3://bucket/indexes").unwrap();
    let upload = storage.multipart_upload("foo");
    assert_eq!(upload.current_state(), MultipartState::Created);

    let state = storage.retry_state();
    assert_eq!(state.num_attempts(), 0);

    let paths = (0..MAX_NUM_KEYS + 1)
        .map(|number| format!("split-{number}"))
        .collect::<Vec<_>>();
    let mut run = storage.bulk_delete(paths);
    let keys = run.next_request().unwrap();
    assert_eq!(keys.len(), MAX_NUM_KEYS);
    assert_eq!(keys[0], "indexes/split-0");
    assert_eq!(keys[999], "indexes/split-999");
    run.on_response(Err(
        StorageErrorKind::InternalError.with_error("down".to_string())
    ));
    let report = run.finish().unwrap_err();
    assert_eq!(report.unattempted.len(), MAX_NUM_KEYS + 1);
    assert_eq!(report.unattempted[1_000], "split-1000");
}

#[test]
fn test_doc_mapping_uid() {
    let uid = DocMappingUid {
        doc_mapping_uid: vec![1, 2, 3],
    };
    assert_eq!(uid.clone(), uid);
    assert_ne!(
        uid,
        DocMappingUid {
            doc_mapping_uid: Vec::new()
        }
    );
}

#[test]
fn test_delete_is_idempotent() {
    let storage = S3CompatibleObjectStorage::from_uri("s3://bucket/indexes").unwrap();
    assert!(storage.on_delete_outcome(Ok(())).is_ok());
    let absent = StorageErrorKind::NotFound.with_error("no such key".to_string());
    assert!(storage.on_delete_outcome(Err(absent)).is_ok());
    let denied = StorageErrorKind::Unauthorized.with_error("denied".to_string());
    let error = storage.on_delete_outcome(Err(denied)).unwrap_err();
    assert_eq!(error.kind(), StorageErrorKind::Unauthorized);
    assert_eq!(error.message(), "denied");
}

#[test]
fn test_file_num_bytes() {
    let storage = S3CompatibleObjectStorage::from_uri("s3://bucket/indexes").unwrap();
    assert_eq!(storage.file_num_bytes_from(Some(0)).unwrap(), 0);
    assert_eq!(storage.file_num_bytes_from(Some(1_234)).unwrap(), 1_234);
    assert_eq!(
        storage.file_num_bytes_from(Some(i64::MAX)).unwrap(),
        i64::MAX as u64
    );
    for content_length in [None, Some(-1), Some(i64::MIN)] {
        let error = storage.file_num_bytes_from(content_length).unwrap_err();
        assert_eq!(error.kind(), StorageErrorKind::InternalError);
        assert_eq!(
            error.message(),
            "The returned content length was missing or negative."
        );
    }
}

#[test]
fn test_with_retry_params() {
    let params = RetryParams {
        base_delay_ms: 1,
        max_delay_ms: 2,
        max_attempts: 5,
    };
    let storage = S3CompatibleObjectStorage::from_uri("s3://bucket/indexes")
        .unwrap()
        .with_retry_params(params);
    assert_eq!(storage.retry_params(), params);
    assert_eq!(storage.prefix(), "indexes");
    assert_eq!(storage.bucket(), "bucket");
}
