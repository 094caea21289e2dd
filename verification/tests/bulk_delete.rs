use s3_object_storage::bulk_delete::{
    BulkDelete, DeleteObjectsOutput, DeletedObject, ObjectError, MAX_NUM_KEYS,
};
use s3_object_storage::error::StorageErrorKind;

fn paths(names: &[&str]) -> Vec<String> {
    names.iter().map(|name| name.to_string()).collect()
}

fn deleted(key: &str) -> DeletedObject {
    DeletedObject {
        key: Some(key.to_string()),
    }
}

fn object_error(key: &str, code: &str, message: &str) -> ObjectError {
    ObjectError {
        key: Some(key.to_string()),
        code: Some(code.to_string()),
        message: Some(message.to_string()),
    }
}

#[test]
fn test_s3_compatible_storage_bulk_delete() {
    let mut run = BulkDelete::new(
        "",
        paths(&["foo", "bar", "baz", "foobar", "foobaz", "barfoo", "barbaz"]),
        3,
    );

    assert_eq!(run.next_request(), Some(paths(&["foo", "bar", "baz"])));
    let answer = DeleteObjectsOutput {
        deleted: Some(vec![deleted("foo")]),
        errors: Some(vec![
            object_error("bar", "NoSuchKey", "The specified key does not exist"),
            object_error("baz", "AccessDenied", "Access Denied"),
        ]),
    };
    assert!(answer.keys_carry_prefix(""));
    run.on_response(Ok(answer));

    assert_eq!(
        run.next_request(),
        Some(paths(&["foobar", "foobaz", "barfoo"]))
    );
    let transport_error = StorageErrorKind::InternalError.with_error(
        "MalformedXML: The XML you provided was not well-formed or did not validate against our \
         published schema."
            .to_string(),
    );
    run.on_response(Err(transport_error));

    assert_eq!(run.next_request(), None);
    assert!(run.is_done());
    let bulk_delete_error = run.finish().unwrap_err();

    assert_eq!(bulk_delete_error.successes, paths(&["foo", "bar"]));
    let failure = bulk_delete_error.failures.get("baz").unwrap();
    assert_eq!(failure.code.as_ref().unwrap(), "AccessDenied");
    assert_eq!(failure.message.as_ref().unwrap(), "Access Denied");
    assert!(failure.error.is_none());
    assert!(bulk_delete_error.failures.get("foo").is_none());
    assert!(bulk_delete_error.failures.get("bar").is_none());

    assert_eq!(
        bulk_delete_error.unattempted,
        paths(&["foobar", "foobaz", "barfoo", "barbaz"])
    );
    let delete_objects_error = bulk_delete_error.error.unwrap();
    assert!(delete_objects_error.to_string().contains("MalformedXML"));
}

#[test]
fn test_bulk_delete_all_deleted_is_ok() {
    let mut run = BulkDelete::new("indexes", paths(&["a", "b", "c", "d"]), 3);
    assert_eq!(
        run.next_request(),
        Some(paths(&["indexes/a", "indexes/b", "indexes/c"]))
    );
    run.on_response(Ok(DeleteObjectsOutput {
        deleted: Some(vec![
            deleted("indexes/a"),
            deleted("indexes/b"),
            deleted("indexes/c"),
        ]),
        errors: None,
    }));
    assert!(!run.is_done());
    assert_eq!(run.next_request(), Some(paths(&["indexes/d"])));
    run.on_response(Ok(DeleteObjectsOutput {
        deleted: None,
        errors: Some(vec![object_error("indexes/d", "NoSuchKey", "gone")]),
    }));
    assert!(run.is_done());
    assert_eq!(run.next_request(), None);
    assert!(run.finish().is_ok());
}

#[test]
fn test_bulk_delete_of_nothing_is_ok() {
    let run = BulkDelete::new("indexes", Vec::new(), MAX_NUM_KEYS);
    assert!(run.is_done());
    assert_eq!(run.next_request(), None);
    assert!(run.finish().is_ok());
}

#[test]
fn test_bulk_delete_failure_without_transport_error() {
    let mut run = BulkDelete::new("indexes/", paths(&["a", "b"]), MAX_NUM_KEYS);
    assert_eq!(run.next_request(), Some(paths(&["indexes/a", "indexes/b"])));
    run.on_response(Ok(DeleteObjectsOutput {
        deleted: Some(vec![deleted("indexes/b")]),
        errors: Some(vec![ObjectError {
            key: Some("indexes/a".to_string()),
            code: None,
            message: None,
        }]),
    }));
    let report = run.finish().unwrap_err();
    assert!(report.error.is_none());
    assert_eq!(report.successes, paths(&["b"]));
    assert!(report.unattempted.is_empty());
    let failure = report.failures.get("a").unwrap();
    assert!(failure.code.is_none());
    assert!(failure.message.is_none());
    assert!(!report.failures.is_empty());
}

#[test]
fn test_bulk_delete_first_batch_fails() {
    let mut run = BulkDelete::new("", paths(&["a", "b", "c", "d", "e"]), 2);
    assert_eq!(run.next_request(), Some(paths(&["a", "b"])));
    run.on_response(Err(
        StorageErrorKind::Timeout.with_error("timed out".to_string())
    ));
    assert!(run.is_done());
    let report = run.finish().unwrap_err();
    assert_eq!(report.error.as_ref().unwrap().kind(), StorageErrorKind::Timeout);
    assert!(report.successes.is_empty());
    assert!(report.failures.is_empty());
    assert_eq!(report.unattempted, paths(&["a", "b", "c", "d", "e"]));
}

#[test]
fn test_bulk_delete_later_failure_replaces_earlier() {
    let mut run = BulkDelete::new("", paths(&["a"]), 1);
    run.on_response(Ok(DeleteObjectsOutput {
        deleted: None,
        errors: Some(vec![
            object_error("a", "AccessDenied", "first"),
            object_error("a", "InternalError", "second"),
        ]),
    }));
    let report = run.finish().unwrap_err();
    let failure = report.failures.get("a").unwrap();
    assert_eq!(failure.code.as_deref(), Some("InternalError"));
    assert_eq!(failure.message.as_deref(), Some("second"));
}

#[test]
fn test_bulk_delete_answer_without_keys_is_ignored() {
    let mut run = BulkDelete::new("", paths(&["a"]), 1);
    let answer = DeleteObjectsOutput {
        deleted: Some(vec![DeletedObject { key: None }]),
        errors: Some(vec![ObjectError {
            key: None,
            code: Some("AccessDenied".to_string()),
            message: None,
        }]),
    };
    assert!(answer.keys_carry_prefix("indexes"));
    run.on_response(Ok(answer));
    assert!(run.finish().is_ok());
}

#[test]
fn test_bulk_delete_answer_with_foreign_key() {
    let answer = DeleteObjectsOutput {
        deleted: Some(vec![deleted("indexes/a")]),
        errors: Some(vec![object_error("other/b", "AccessDenied", "denied")]),
    };
    assert!(!answer.keys_carry_prefix("indexes"));
    assert!(answer.keys_carry_prefix(""));
}

fn accounted_once(input: &[&str], report: &s3_object_storage::bulk_delete::BulkDeleteError) {
    let failed = report.failures.paths();
    let mut listed: Vec<String> = Vec::new();
    listed.extend(report.successes.iter().cloned());
    listed.extend(failed.iter().cloned());
    listed.extend(report.unattempted.iter().cloned());
    assert_eq!(listed.len(), input.len());
    for path in input {
        assert_eq!(
            listed.iter().filter(|listed| listed == path).count(),
            1,
            "{path}"
        );
    }
    for path in &failed {
        assert!(report.failures.get(path).is_some());
    }
}

#[test]
fn test_bulk_delete_accounts_for_every_path() {
    let input = ["foo", "bar", "baz", "foobar", "foobaz", "barfoo", "barbaz"];
    let mut run = BulkDelete::new("indexes", paths(&input), 3);
    run.on_response(Ok(DeleteObjectsOutput {
        deleted: Some(vec![deleted("indexes/foo")]),
        errors: Some(vec![
            object_error("indexes/bar", "NoSuchKey", "The specified key does not exist"),
            object_error("indexes/baz", "AccessDenied", "Access Denied"),
        ]),
    }));
    run.on_response(Ok(DeleteObjectsOutput {
        deleted: Some(vec![deleted("indexes/barfoo"), deleted("indexes/foobar")]),
        errors: Some(vec![object_error("indexes/foobaz", "InternalError", "oops")]),
    }));
    run.on_response(Err(
        StorageErrorKind::Timeout.with_error("timed out".to_string())
    ));
    assert!(run.is_done());
    let report = run.finish().unwrap_err();
    assert_eq!(report.successes, paths(&["foo", "bar", "barfoo", "foobar"]));
    assert_eq!(report.failures.paths(), paths(&["baz", "foobaz"]));
    assert_eq!(report.unattempted, paths(&["barbaz"]));
    accounted_once(&input, &report);
}

#[test]
fn test_bulk_delete_failures_list_each_path_once() {
    let mut run = BulkDelete::new("", paths(&["a", "b"]), 2);
    run.on_response(Ok(DeleteObjectsOutput {
        deleted: None,
        errors: Some(vec![
            object_error("a", "AccessDenied", "first"),
            object_error("b", "AccessDenied", "other"),
            object_error("a", "InternalError", "second"),
        ]),
    }));
    let report = run.finish().unwrap_err();
    assert_eq!(report.failures.paths(), paths(&["a", "b"]));
    assert_eq!(
        report.failures.get("a").unwrap().message.as_deref(),
        Some("second")
    );
    assert_eq!(
        report.failures.get("b").unwrap().message.as_deref(),
        Some("other")
    );
}
