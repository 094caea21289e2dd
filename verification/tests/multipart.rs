use s3_object_storage::digest::compute_md5;
use s3_object_storage::error::StorageErrorKind;
use s3_object_storage::multipart::{
    create_multipart_requests, on_upload_part_outcome, upload_part_request, CompletedPart,
    MultiPartPolicy, MultipartAction, MultipartState, MultipartUpload, MultipartUploadId, Part,
    PartsBuilder, UploadPartOutcome,
};
use s3_object_storage::retry::Retry;

fn completed(part_number: usize, e_tag: &str) -> CompletedPart {
    CompletedPart {
        part_number,
        e_tag: Some(e_tag.to_string()),
    }
}

fn uploading(key: &str) -> MultipartUpload {
    let mut upload = MultipartUpload::new(key);
    upload.on_created(Some("session-1".to_string())).unwrap();
    upload
}

#[test]
fn test_default_policy() {
    let policy = MultiPartPolicy::default();
    assert_eq!(policy.target_part_num_bytes, 5_000_000_000);
    assert_eq!(policy.max_num_parts, 10_000);
    assert_eq!(policy.multipart_threshold_num_bytes, 128 * 1_024 * 1_024);
    assert_eq!(policy.max_concurrent_uploads, 100);
    assert_eq!(policy.max_concurrent_upload(), 100);
}

#[test]
fn test_part_num_bytes_under_the_threshold() {
    let policy = MultiPartPolicy::default();
    assert_eq!(policy.part_num_bytes(0), 0);
    assert_eq!(policy.part_num_bytes(1), 1);
    assert_eq!(policy.part_num_bytes(134_217_727), 134_217_727);
}

#[test]
fn test_part_num_bytes_from_the_threshold_on() {
    let policy = MultiPartPolicy::default();
    assert_eq!(policy.part_num_bytes(134_217_728), 5_000_000_000);
    assert_eq!(policy.part_num_bytes(5_000_000_001), 5_000_000_000);
    assert_eq!(
        policy.part_num_bytes(50_000_000_000_000),
        5_000_000_000
    );
    assert_eq!(
        policy.part_num_bytes(50_000_000_000_001),
        5_000_000_001
    );
    assert_eq!(policy.part_num_bytes(u64::MAX), 1 + (u64::MAX - 1) / 10_000);
}

#[test]
fn test_part_num_bytes_keeps_the_number_of_parts() {
    let policy = MultiPartPolicy {
        target_part_num_bytes: 5,
        max_num_parts: 4,
        multipart_threshold_num_bytes: 10,
        max_concurrent_uploads: 2,
    };
    assert_eq!(policy.part_num_bytes(9), 9);
    assert_eq!(policy.part_num_bytes(10), 5);
    assert_eq!(policy.part_num_bytes(20), 5);
    assert_eq!(policy.part_num_bytes(21), 6);
    assert_eq!(policy.part_num_bytes(24), 6);
    assert_eq!(policy.part_num_bytes(25), 7);
    for len in 10u64..200 {
        let part_len = policy.part_num_bytes(len);
        assert!(part_len >= 5);
        assert!((len + part_len - 1) / part_len <= 4);
    }
}

#[test]
fn test_part_num_bytes_with_one_part_or_none() {
    let mut policy = MultiPartPolicy {
        target_part_num_bytes: 5,
        max_num_parts: 1,
        multipart_threshold_num_bytes: 10,
        max_concurrent_uploads: 2,
    };
    assert_eq!(policy.part_num_bytes(100), 100);
    policy.max_num_parts = 0;
    assert_eq!(policy.part_num_bytes(100), 100);
    policy.max_num_parts = 3;
    policy.multipart_threshold_num_bytes = 0;
    assert_eq!(policy.part_num_bytes(0), 0);
    assert_eq!(policy.part_num_bytes(1), 5);
}

#[test]
fn test_part_len() {
    let part = Part {
        part_number: 1,
        range: 3..10,
        md5: [0; 16],
    };
    assert_eq!(part.len(), 7);
    let copy = part.clone();
    assert_eq!(copy.part_number, 1);
    assert_eq!(copy.range, 3..10);
    assert_eq!(copy.md5, [0; 16]);
}

#[test]
fn test_create_multipart_requests() {
    let payload = (0..11).map(|el| el as u8).collect::<Vec<u8>>();
    let parts = create_multipart_requests(&payload, 3);
    assert_eq!(parts.len(), 4);
    let ranges = [0..3, 3..6, 6..9, 9..11];
    for (index, part) in parts.iter().enumerate() {
        assert_eq!(part.part_number, index + 1);
        assert_eq!(part.range, ranges[index]);
        let bytes = &payload[part.range.start as usize..part.range.end as usize];
        assert_eq!(part.md5, md5::compute(bytes).0);
    }
}

#[test]
fn test_create_multipart_requests_of_one_part() {
    let parts = create_multipart_requests(b"abc", 5);
    assert_eq!(parts.len(), 1);
    assert_eq!(parts[0].part_number, 1);
    assert_eq!(parts[0].range, 0..3);
    assert_eq!(parts[0].md5, compute_md5(b"abc"));
}

#[test]
fn test_parts_builder() {
    let mut builder = PartsBuilder::new(7, 3);
    let mut ranges = Vec::new();
    while let Some(range) = builder.next_range() {
        ranges.push(range.clone());
        builder.push_digest([ranges.len() as u8; 16]);
    }
    assert_eq!(ranges, vec![0..3, 3..6, 6..7]);
    let parts = builder.into_parts();
    assert_eq!(parts.len(), 3);
    for (index, part) in parts.iter().enumerate() {
        assert_eq!(part.part_number, index + 1);
        assert_eq!(part.range, ranges[index]);
        assert_eq!(part.md5, [index as u8 + 1; 16]);
    }
}

#[test]
fn test_upload_part_request() {
    let part = Part {
        part_number: 2,
        range: 3..6,
        md5: compute_md5(b"abc"),
    };
    let upload_id = MultipartUploadId("session-1".to_string());
    let request = upload_part_request("bucket", "indexes/foo", &upload_id, &part);
    assert_eq!(request.bucket, "bucket");
    assert_eq!(request.key, "indexes/foo");
    assert_eq!(request.upload_id, "session-1");
    assert_eq!(request.part_number, 2);
    assert_eq!(request.range, 3..6);
    assert_eq!(request.content_length, 3);
    assert_eq!(request.content_md5, "kAFQmDzST7DWlj99KOF/cg==");
}

#[test]
fn test_upload_part_request_of_empty_content() {
    let part = Part {
        part_number: 1,
        range: 0..0,
        md5: compute_md5(b""),
    };
    let upload_id = MultipartUploadId("id".to_string());
    let request = upload_part_request("bucket", "key", &upload_id, &part);
    assert_eq!(request.content_length, 0);
    assert_eq!(request.content_md5, "1B2M2Y8AsgTpgAmY7PhCfg==");
}

#[test]
fn test_upload_part_outcome() {
    let part = Part {
        part_number: 3,
        range: 0..5,
        md5: [0; 16],
    };
    let uploaded = on_upload_part_outcome(
        &part,
        UploadPartOutcome::Uploaded {
            e_tag: Some("tag".to_string()),
        },
    )
    .unwrap();
    assert_eq!(uploaded.part_number, 3);
    assert_eq!(uploaded.e_tag.as_deref(), Some("tag"));

    let untagged =
        on_upload_part_outcome(&part, UploadPartOutcome::Uploaded { e_tag: None }).unwrap();
    assert_eq!(untagged.part_number, 3);
    assert!(untagged.e_tag.is_none());

    let unreadable = on_upload_part_outcome(
        &part,
        UploadPartOutcome::PayloadUnreadable(StorageErrorKind::Io.with_error("gone".to_string())),
    )
    .unwrap_err();
    assert!(matches!(&unreadable, Retry::Permanent(error) if error.kind() == StorageErrorKind::Io));

    let busy = on_upload_part_outcome(
        &part,
        UploadPartOutcome::CallFailed {
            error: StorageErrorKind::InternalError.with_error("slow down".to_string()),
            retryable: true,
        },
    )
    .unwrap_err();
    assert!(matches!(&busy, Retry::Transient(error) if error.message() == "slow down"));

    let denied = on_upload_part_outcome(
        &part,
        UploadPartOutcome::CallFailed {
            error: StorageErrorKind::Unauthorized.with_error("denied".to_string()),
            retryable: false,
        },
    )
    .unwrap_err();
    assert!(matches!(&denied, Retry::Permanent(error) if error.message() == "denied"));
}

#[test]
fn test_multipart_upload_without_session_id() {
    let mut upload = MultipartUpload::new("indexes/foo");
    assert_eq!(upload.current_state(), MultipartState::Created);
    assert!(upload.upload_id().is_none());
    let error = upload.on_created(None).unwrap_err();
    assert_eq!(error.kind(), StorageErrorKind::InternalError);
    assert_eq!(error.message(), "The returned multipart upload id was null.");
    assert_eq!(upload.current_state(), MultipartState::Created);
}

#[test]
fn test_multipart_upload_completes() {
    let mut upload = uploading("indexes/foo");
    assert_eq!(upload.current_state(), MultipartState::PartsUploading);
    assert_eq!(upload.upload_id().unwrap().0, "session-1");
    let action = upload.on_parts_resolved(vec![
        Ok(completed(1, "a")),
        Ok(completed(2, "b")),
        Ok(completed(3, "c")),
    ]);
    assert_eq!(upload.current_state(), MultipartState::Completed);
    match action {
        MultipartAction::Complete { parts } => {
            assert_eq!(parts.len(), 3);
            for (index, part) in parts.iter().enumerate() {
                assert_eq!(part.part_number, index + 1);
            }
            assert_eq!(parts[0].e_tag.as_deref(), Some("a"));
            assert_eq!(parts[1].e_tag.as_deref(), Some("b"));
            assert_eq!(parts[2].e_tag.as_deref(), Some("c"));
        }
        MultipartAction::Abort => panic!("every part arrived"),
    }
    assert!(upload.finish(Ok(())).is_ok());
}

#[test]
fn test_multipart_upload_fails_as_the_completion_does() {
    let mut upload = uploading("indexes/foo");
    let action = upload.on_parts_resolved(vec![Ok(completed(1, "a"))]);
    assert!(matches!(action, MultipartAction::Complete { .. }));
    let error = upload
        .finish(Err(
            StorageErrorKind::Timeout.with_error("too slow".to_string())
        ))
        .unwrap_err();
    assert_eq!(error.kind(), StorageErrorKind::Timeout);
    assert_eq!(error.message(), "too slow");
}

#[test]
fn test_multipart_upload_aborts_on_failed_part() {
    let mut upload = uploading("indexes/foo");
    let action = upload.on_parts_resolved(vec![
        Ok(completed(1, "a")),
        Err(StorageErrorKind::Unauthorized.with_error("part 2 denied".to_string())),
        Ok(completed(3, "c")),
        Err(StorageErrorKind::Timeout.with_error("part 4 timed out".to_string())),
    ]);
    assert!(matches!(action, MultipartAction::Abort));
    assert_eq!(upload.current_state(), MultipartState::Aborted);
    let error = upload.finish(Ok(())).unwrap_err();
    assert_eq!(error.kind(), StorageErrorKind::Unauthorized);
    assert_eq!(error.message(), "part 2 denied");
}

#[test]
fn test_multipart_upload_abort_failure_does_not_mask_the_error() {
    let mut upload = uploading("indexes/foo");
    let action = upload.on_parts_resolved(vec![Err(
        StorageErrorKind::Io.with_error("part 1 unreadable".to_string())
    )]);
    assert!(matches!(action, MultipartAction::Abort));
    let error = upload
        .finish(Err(
            StorageErrorKind::InternalError.with_error("abort failed".to_string())
        ))
        .unwrap_err();
    assert_eq!(error.kind(), StorageErrorKind::Io);
    assert_eq!(error.message(), "part 1 unreadable");
}

#[test]
fn test_multipart_upload_without_parts_completes() {
    let mut upload = uploading("indexes/foo");
    let action = upload.on_parts_resolved(Vec::new());
    assert!(matches!(action, MultipartAction::Complete { parts } if parts.is_empty()));
    assert_eq!(upload.current_state(), MultipartState::Completed);
}

#[test]
fn test_create_multipart_requests_of_nothing() {
    assert!(create_multipart_requests(b"", 5).is_empty());
}
