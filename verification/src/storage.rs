//! The storage backend for one bucket: what it is configured with, and what
//! it decides before and after its remote calls.

use crate::bulk_delete::{BulkDelete, BulkDeleteView, MAX_NUM_KEYS};
use crate::error::{context_separator, StorageError, StorageErrorKind, StorageResolverError};
use crate::keys::{
    carries_prefix, is_absolute, join_key, join_spec, key_carries_prefix, strip_key_prefix, strip_spec,
};
use crate::multipart::{default_policy, MultiPartPolicy, MultipartState, MultipartUpload};
use crate::ranges::num_chunks;
use crate::retry::{default_retry_params, RetryParams, RetryState};
use crate::text::{append_decimal, decimal, texts_of};
use crate::uri::{address_at, bucket_at, first_address_at, parse_s3_uri, prefix_at};
use std::ops::Range;
use vstd::prelude::*;
use vstd::string::*;

verus! {

/// The number of attempts that a storage makes of each remote call.
pub const STORAGE_MAX_ATTEMPTS: usize = 3;

/// S3 compatible object storage.
pub struct S3CompatibleObjectStorage {
    uri: String,
    bucket: String,
    prefix: String,
    multipart_policy: MultiPartPolicy,
    retry_params: RetryParams,
}

/// What an [`S3CompatibleObjectStorage`] holds, as plain values.
pub struct S3CompatibleObjectStorageView {
    /// The address that the storage was made for.
    pub uri: Seq<char>,
    /// The bucket that holds the objects.
    pub bucket: Seq<char>,
    /// The prefix of every key of the storage.
    pub prefix: Seq<char>,
    /// When and how payloads are uploaded in parts.
    pub multipart_policy: MultiPartPolicy,
    /// How often and how fast remote calls are attempted again.
    pub retry_params: RetryParams,
}

impl View for S3CompatibleObjectStorage {
    type V = S3CompatibleObjectStorageView;

    closed spec fn view(&self) -> S3CompatibleObjectStorageView {
        S3CompatibleObjectStorageView {
            uri: self.uri@,
            bucket: self.bucket@,
            prefix: self.prefix@,
            multipart_policy: self.multipart_policy,
            retry_params: self.retry_params,
        }
    }
}

/// The retry parameters of a new storage: the default ones, with
/// [`STORAGE_MAX_ATTEMPTS`] attempts.
pub open spec fn storage_retry_params() -> RetryParams {
    RetryParams { max_attempts: STORAGE_MAX_ATTEMPTS, ..default_retry_params() }
}

/// The message for an address that names no bucket.
pub open spec fn invalid_uri_message(uri: Seq<char>) -> Seq<char> {
    "URI `"@ + uri + "` is not a valid AWS S3 URI."@
}

/// How a payload is uploaded.
#[derive(Clone, Copy, Debug, PartialEq, Eq, Structural)]
pub enum PutPlan {
    /// In one piece, with one call.
    SinglePart,
    /// In parts of `part_num_bytes` bytes; the last part may be shorter.
    MultiPart { part_num_bytes: u64 },
}

/// What is asked of the remote side to read an object, or a slice of it.
#[derive(Debug)]
pub struct GetObjectRequest {
    pub bucket: String,
    pub key: String,
    /// The bytes asked for, as a range header; the whole object where there
    /// is none.
    pub range: Option<String>,
}

/// The range header for the bytes from `start` up to and without `end`: the
/// header names the first and the last byte.
pub open spec fn range_header(start: nat, end: nat) -> Seq<char> {
    "bytes="@ + decimal(start) + "-"@ + decimal((end - 1) as nat)
}

/// A range as it is shown in messages.
pub open spec fn range_text(start: nat, end: nat) -> Seq<char> {
    decimal(start) + ".."@ + decimal(end)
}

/// Where the failure to read a slice happened.
pub open spec fn slice_context(start: nat, end: nat, uri: Seq<char>, path: Seq<char>) -> Seq<char> {
    "Failed to fetch slice "@ + range_text(start, end) + " for object: "@ + uri + "/"@ + path
}

/// The message of the error that an answer without a usable length gives.
pub open spec fn missing_length_message() -> Seq<char> {
    "The returned content length was missing or negative."@
}

/// Where the failure to read an object happened.
pub open spec fn object_context(uri: Seq<char>, path: Seq<char>) -> Seq<char> {
    "Failed to fetch object: "@ + uri + "/"@ + path
}

impl S3CompatibleObjectStorage {
    /// Creates an object storage for a bucket, given the address it was
    /// reached by. The storage has no key prefix, the default policy, and
    /// attempts every remote call up to [`STORAGE_MAX_ATTEMPTS`] times.
    pub fn new(uri: &str, bucket: String) -> (storage: S3CompatibleObjectStorage)
        ensures
            storage@ == (S3CompatibleObjectStorageView {
                uri: uri@,
                bucket: bucket@,
                prefix: Seq::empty(),
                multipart_policy: default_policy(),
                retry_params: storage_retry_params(),
            }),
    {
        let defaults = RetryParams::default();
        S3CompatibleObjectStorage {
            uri: String::from_str(uri),
            bucket,
            prefix: String::new(),
            multipart_policy: MultiPartPolicy::default(),
            retry_params: RetryParams {
                base_delay_ms: defaults.base_delay_ms,
                max_delay_ms: defaults.max_delay_ms,
                max_attempts: STORAGE_MAX_ATTEMPTS,
            },
        }
    }

    /// Creates an object storage for the bucket and the key prefix that an
    /// address names. An address that names no bucket is refused.
    pub fn from_uri(uri: &str) -> (result: Result<S3CompatibleObjectStorage, StorageResolverError>)
        ensures
            match result {
                Ok(storage) => exists|at: int|
                    first_address_at(uri@, at) && storage@ == (S3CompatibleObjectStorageView {
                        uri: uri@,
                        bucket: bucket_at(uri@, at),
                        prefix: prefix_at(uri@, at),
                        multipart_policy: default_policy(),
                        retry_params: storage_retry_params(),
                    }),
                Err(error) => (forall|at: int| !address_at(uri@, at)) && (error matches StorageResolverError::InvalidUri {
                    message,
                } && message@ == invalid_uri_message(uri@)),
            },
    {
        match parse_s3_uri(uri) {
            Some((bucket, prefix)) => {
                let storage = S3CompatibleObjectStorage::new(uri, bucket);
                Ok(storage.with_prefix(prefix.as_str()))
            },
            None => {
                let mut message = String::from_str("URI `");
                message.append(uri);
                message.append("` is not a valid AWS S3 URI.");
                Err(StorageResolverError::InvalidUri { message })
            },
        }
    }

    /// Sets the key prefix of the storage. The prefix given takes the place
    /// of the one that the storage had; it is not appended to it.
    pub fn with_prefix(self, prefix: &str) -> (storage: S3CompatibleObjectStorage)
        ensures
            storage@ == (S3CompatibleObjectStorageView { prefix: prefix@, ..self@ }),
    {
        S3CompatibleObjectStorage {
            uri: self.uri,
            bucket: self.bucket,
            prefix: String::from_str(prefix),
            multipart_policy: self.multipart_policy,
            retry_params: self.retry_params,
        }
    }

    /// Sets the retry parameters of the storage, in place of those that it
    /// was made with.
    pub fn with_retry_params(self, retry_params: RetryParams) -> (storage: S3CompatibleObjectStorage)
        ensures
            storage@ == (S3CompatibleObjectStorageView { retry_params, ..self@ }),
    {
        S3CompatibleObjectStorage {
            uri: self.uri,
            bucket: self.bucket,
            prefix: self.prefix,
            multipart_policy: self.multipart_policy,
            retry_params,
        }
    }

    /// Sets the multipart policy.
    pub fn set_policy(&mut self, multipart_policy: MultiPartPolicy)
        ensures
            final(self)@ == (S3CompatibleObjectStorageView { multipart_policy, ..old(self)@ }),
    {
        self.multipart_policy = multipart_policy;
    }

    /// The address that the storage was made for.
    pub fn uri(&self) -> (uri: &str)
        ensures
            uri@ == self@.uri,
    {
        self.uri.as_str()
    }

    /// The bucket that holds the objects.
    pub fn bucket(&self) -> (bucket: &str)
        ensures
            bucket@ == self@.bucket,
    {
        self.bucket.as_str()
    }

    /// The prefix of every key of the storage.
    pub fn prefix(&self) -> (prefix: &str)
        ensures
            prefix@ == self@.prefix,
    {
        self.prefix.as_str()
    }

    /// When and how payloads are uploaded in parts.
    pub fn multipart_policy(&self) -> (policy: MultiPartPolicy)
        ensures
            policy == self@.multipart_policy,
    {
        self.multipart_policy
    }

    /// How often and how fast remote calls are attempted again.
    pub fn retry_params(&self) -> (params: RetryParams)
        ensures
            params == self@.retry_params,
    {
        self.retry_params
    }

    /// The key of the object at `relative_path`: the path under the prefix of
    /// the storage. The key of a relative path starts with the prefix, and the
    /// path can be recovered from it.
    pub fn key(&self, relative_path: &str) -> (key: String)
        ensures
            key@ == join_spec(self@.prefix, relative_path@),
            !is_absolute(relative_path@) ==> self@.prefix.is_prefix_of(key@) && carries_prefix(
                self@.prefix,
                key@,
            ) && strip_spec(self@.prefix, key@) == relative_path@,
    {
        join_key(self.prefix.as_str(), relative_path)
    }

    /// Whether `key` is the key of a relative path in this storage.
    pub fn owns_key(&self, key: &str) -> (owned: bool)
        ensures
            owned == carries_prefix(self@.prefix, key@),
    {
        key_carries_prefix(self.prefix.as_str(), key)
    }

    /// The path of the object with the key `key`, which must be a key of this
    /// storage.
    pub fn relative_path(&self, key: &str) -> (path: String)
        requires
            carries_prefix(self@.prefix, key@),
        ensures
            path@ == strip_spec(self@.prefix, key@),
            join_spec(self@.prefix, path@) == key@,
    {
        strip_key_prefix(self.prefix.as_str(), key)
    }

    /// How a payload of `total_len` bytes is uploaded: in one piece where the
    /// part size that the policy gives for it is the size of the payload or
    /// more, in parts of that size otherwise. An upload in parts has two parts
    /// at least, and no more than the policy allows.
    pub fn put_plan(&self, total_len: u64) -> (plan: PutPlan)
        ensures
            plan == if self@.multipart_policy.spec_part_num_bytes(total_len) >= total_len {
                PutPlan::SinglePart
            } else {
                PutPlan::MultiPart {
                    part_num_bytes: self@.multipart_policy.spec_part_num_bytes(total_len),
                }
            },
            plan matches PutPlan::MultiPart { part_num_bytes } ==> 0 < part_num_bytes < total_len
                && 2 <= num_chunks(total_len as nat, part_num_bytes as nat)
                <= self@.multipart_policy.max_num_parts,
    {
        let part_num_bytes = self.multipart_policy.part_num_bytes(total_len);
        if part_num_bytes >= total_len {
            PutPlan::SinglePart
        } else {
            proof {
                let last = total_len - 1;
                let size = part_num_bytes as int;
                vstd::arithmetic::div_mod::lemma_fundamental_div_mod(last, size);
                vstd::arithmetic::div_mod::lemma_mod_bound(last, size);
                assert(last / size >= 1) by (nonlinear_arith)
                    requires
                        last == size * (last / size) + last % size,
                        0 <= last % size < size,
                        last >= size,
                        size > 0,
                ;
            }
            PutPlan::MultiPart { part_num_bytes }
        }
    }

    /// A multipart upload of the object at `path`, for which a session is to
    /// be created.
    pub fn multipart_upload(&self, path: &str) -> (upload: MultipartUpload)
        ensures
            upload.well_formed(),
            upload.key() == join_spec(self@.prefix, path@),
            upload.state() == MultipartState::Created,
            upload.session() is None,
            upload.failure() is None,
    {
        let key = self.key(path);
        MultipartUpload::new(key.as_str())
    }

    /// A remote call of this storage that has not been attempted yet.
    pub fn retry_state(&self) -> (state: RetryState)
        ensures
            state.params() == self@.retry_params,
            state.attempts() == 0,
    {
        RetryState::new(self.retry_params)
    }

    /// A bulk delete of `paths`, in batches as large as one call may carry.
    pub fn bulk_delete(&self, paths: Vec<String>) -> (run: BulkDelete)
        ensures
            run.well_formed(),
            run@ == BulkDeleteView::start(self@.prefix, texts_of(paths@), MAX_NUM_KEYS as nat),
    {
        BulkDelete::new(self.prefix.as_str(), paths, MAX_NUM_KEYS)
    }

    /// What to ask of the remote side to read the whole object at `path`.
    pub fn get_all_request(&self, path: &str) -> (request: GetObjectRequest)
        ensures
            request.bucket@ == self@.bucket,
            request.key@ == join_spec(self@.prefix, path@),
            request.range is None,
    {
        GetObjectRequest { bucket: self.bucket.clone(), key: self.key(path), range: None }
    }

    /// What to ask of the remote side to read the bytes `range` of the object
    /// at `path`. A range without bytes, or with its end before its start, is
    /// refused as invalid input: no range header can name it.
    pub fn get_slice_request(&self, path: &str, range: Range<usize>) -> (result: Result<
        GetObjectRequest,
        StorageError,
    >)
        ensures
            result is Ok <==> range.start < range.end,
            result matches Ok(request) ==> request.bucket@ == self@.bucket && request.key@
                == join_spec(self@.prefix, path@) && (request.range matches Some(header)
                && header@ == range_header(range.start as nat, range.end as nat)),
            result matches Err(error) ==> error@.kind == StorageErrorKind::InvalidInput
                && error@.message == slice_context(
                range.start as nat,
                range.end as nat,
                self@.uri,
                path@,
            ),
    {
        if range.start < range.end {
            let mut header = String::from_str("bytes=");
            append_decimal(&mut header, range.start as u64);
            header.append("-");
            append_decimal(&mut header, (range.end - 1) as u64);
            Ok(
                GetObjectRequest {
                    bucket: self.bucket.clone(),
                    key: self.key(path),
                    range: Some(header),
                },
            )
        } else {
            let context = self.slice_context_text(path, &range);
            Err(StorageErrorKind::InvalidInput.with_error(context))
        }
    }

    /// The text that says which slice of which object could not be read.
    fn slice_context_text(&self, path: &str, range: &Range<usize>) -> (context: String)
        ensures
            context@ == slice_context(range.start as nat, range.end as nat, self@.uri, path@),
    {
        let mut context = String::from_str("Failed to fetch slice ");
        append_decimal(&mut context, range.start as u64);
        context.append("..");
        append_decimal(&mut context, range.end as u64);
        context.append(" for object: ");
        context.append(self.uri.as_str());
        context.append("/");
        context.append(path);
        assert(context@ =~= slice_context(
            range.start as nat,
            range.end as nat,
            self@.uri,
            path@,
        ));
        context
    }

    /// Says of an error that it happened while the bytes `range` of the object
    /// at `path` were read.
    pub fn get_slice_error(&self, error: StorageError, path: &str, range: Range<usize>) -> (explained:
        StorageError)
        ensures
            explained@.kind == error@.kind,
            explained@.message == slice_context(
                range.start as nat,
                range.end as nat,
                self@.uri,
                path@,
            ) + context_separator() + error@.message,
    {
        let context = self.slice_context_text(path, &range);
        error.add_context(context.as_str())
    }

    /// What a delete comes to, given what came of the remote call. Deleting is
    /// idempotent: that the object was absent already is no error. Any other
    /// error stays as it is.
    pub fn on_delete_outcome(&self, outcome: Result<(), StorageError>) -> (result: Result<(), StorageError>)
        ensures
            result == match outcome {
                Err(error) if error@.kind != StorageErrorKind::NotFound => Err::<(), StorageError>(
                    error,
                ),
                _ => Ok(()),
            },
    {
        match outcome {
            Ok(()) => Ok(()),
            Err(error) => {
                if error.kind() == StorageErrorKind::NotFound {
                    Ok(())
                } else {
                    Err(error)
                }
            },
        }
    }

    /// The number of bytes of an object, from the length that the remote side
    /// reports for it. An answer without a length, or with a negative one, is
    /// an internal error.
    pub fn file_num_bytes_from(&self, content_length: Option<i64>) -> (result: Result<u64, StorageError>)
        ensures
            match content_length {
                Some(length) if length >= 0 => result == Ok::<u64, StorageError>(length as u64),
                _ => result matches Err(error) && error@.kind == StorageErrorKind::InternalError
                    && error@.message == missing_length_message(),
            },
    {
        match content_length {
            Some(length) if length >= 0 => Ok(length as u64),
            _ => Err(
                StorageErrorKind::InternalError.with_error(
                    String::from_str("The returned content length was missing or negative."),
                ),
            ),
        }
    }

    /// Says of an error that it happened while the object at `path` was read.
    pub fn get_all_error(&self, error: StorageError, path: &str) -> (explained: StorageError)
        ensures
            explained@.kind == error@.kind,
            explained@.message == object_context(self@.uri, path@) + context_separator()
                + error@.message,
    {
        let mut context = String::from_str("Failed to fetch object: ");
        context.append(self.uri.as_str());
        context.append("/");
        context.append(path);
        assert(context@ =~= object_context(self@.uri, path@));
        error.add_context(context.as_str())
    }
}

} // verus!
