//! Uploading a payload in parts.
//!
//! A multipart upload is a session on the remote side: it is created, its
//! parts are uploaded, and it is completed when every part arrived or aborted
//! when one did not. The calls are made by the caller. What is decided here is
//! how the payload is cut into parts, what is sent with each part, and what
//! follows once the parts are resolved.

use crate::digest::{compute_md5, md5_digest};
use crate::error::{StorageError, StorageErrorKind};
use crate::ranges::{chunk_range, chunks_of, lemma_chunk_bounds, num_chunks};
use crate::retry::{classify, Retry};
use std::ops::Range;
use vstd::prelude::*;
use vstd::slice::slice_subrange;
use vstd::string::*;

verus! {

/// When a payload is uploaded in parts, and in parts of what size.
#[derive(Clone, Copy, Debug, PartialEq, Eq, Structural)]
pub struct MultiPartPolicy {
    /// The size that a part should have, in bytes. Parts are larger where the
    /// number of parts would otherwise exceed `max_num_parts`.
    pub target_part_num_bytes: u64,
    /// The largest number of parts that one upload may have.
    pub max_num_parts: u64,
    /// The size from which on a payload is uploaded in parts, in bytes.
    pub multipart_threshold_num_bytes: u64,
    /// The largest number of parts that are uploaded at the same time.
    pub max_concurrent_uploads: usize,
}

/// The size that a part has by default: the largest that S3 accepts.
pub const DEFAULT_TARGET_PART_NUM_BYTES: u64 = 5_000_000_000;

/// The largest number of parts that an upload has by default.
pub const DEFAULT_MAX_NUM_PARTS: u64 = 10_000;

/// The size from which on a payload is uploaded in parts by default: 128 MiB.
pub const DEFAULT_MULTIPART_THRESHOLD_NUM_BYTES: u64 = 134_217_728;

/// The largest number of parts that are uploaded at the same time by default.
pub const DEFAULT_MAX_CONCURRENT_UPLOADS: usize = 100;

/// The policy that suits S3: parts as large as S3 accepts them, since every
/// part is charged as a request of its own.
pub open spec fn default_policy() -> MultiPartPolicy {
    MultiPartPolicy {
        target_part_num_bytes: DEFAULT_TARGET_PART_NUM_BYTES,
        max_num_parts: DEFAULT_MAX_NUM_PARTS,
        multipart_threshold_num_bytes: DEFAULT_MULTIPART_THRESHOLD_NUM_BYTES,
        max_concurrent_uploads: DEFAULT_MAX_CONCURRENT_UPLOADS,
    }
}

impl Default for MultiPartPolicy {
    fn default() -> (policy: MultiPartPolicy)
        ensures
            policy == default_policy(),
    {
        MultiPartPolicy {
            target_part_num_bytes: DEFAULT_TARGET_PART_NUM_BYTES,
            max_num_parts: DEFAULT_MAX_NUM_PARTS,
            multipart_threshold_num_bytes: DEFAULT_MULTIPART_THRESHOLD_NUM_BYTES,
            max_concurrent_uploads: DEFAULT_MAX_CONCURRENT_UPLOADS,
        }
    }
}

impl MultiPartPolicy {
    /// The size of the parts of a payload of `len` bytes. A payload under the
    /// threshold, or one that may have no more than one part, is one part of
    /// its own size. Any other payload has parts of the target size, or of the
    /// smallest size with which `max_num_parts` parts hold the payload, where
    /// that is larger.
    pub open spec fn spec_part_num_bytes(self, len: u64) -> u64 {
        if len == 0 || len < self.multipart_threshold_num_bytes || self.max_num_parts <= 1 {
            len
        } else {
            let min_part_len = 1 + (len - 1) / (self.max_num_parts as int);
            if min_part_len >= self.target_part_num_bytes {
                min_part_len as u64
            } else {
                self.target_part_num_bytes
            }
        }
    }

    /// The size of the parts of a payload of `len` bytes. The payload is
    /// uploaded in one piece where this is `len` or more.
    pub fn part_num_bytes(&self, len: u64) -> (part_len: u64)
        ensures
            part_len == self.spec_part_num_bytes(len),
            len > 0 ==> part_len > 0,
            self.max_num_parts >= 1 ==> num_chunks(len as nat, part_len as nat)
                <= self.max_num_parts,
    {
        if len == 0 || len < self.multipart_threshold_num_bytes || self.max_num_parts <= 1 {
            proof {
                if len > 0 {
                    assert((len - 1) / (len as int) == 0) by (nonlinear_arith)
                        requires
                            len > 0,
                    ;
                }
            }
            return len;
        }
        let min_part_len: u64 = 1 + (len - 1) / self.max_num_parts;
        let part_len = if min_part_len >= self.target_part_num_bytes {
            min_part_len
        } else {
            self.target_part_num_bytes
        };
        proof {
            lemma_parts_fit(len as int, self.max_num_parts as int, part_len as int);
        }
        part_len
    }

    /// The largest number of parts that are uploaded at the same time.
    pub fn max_concurrent_upload(&self) -> (limit: usize)
        ensures
            limit == self.max_concurrent_uploads,
    {
        self.max_concurrent_uploads
    }
}

/// With parts at least as large as the smallest size for `max_parts` parts,
/// a payload has no more than `max_parts` parts.
proof fn lemma_parts_fit(len: int, max_parts: int, part_len: int)
    requires
        len > 0,
        max_parts > 0,
        part_len >= 1 + (len - 1) / max_parts,
    ensures
        (len - 1) / part_len + 1 <= max_parts,
{
    let q = (len - 1) / max_parts;
    vstd::arithmetic::div_mod::lemma_fundamental_div_mod(len - 1, max_parts);
    vstd::arithmetic::div_mod::lemma_mod_bound(len - 1, max_parts);
    assert(len - 1 < max_parts * part_len) by (nonlinear_arith)
        requires
            len - 1 == max_parts * q + (len - 1) % max_parts,
            0 <= (len - 1) % max_parts < max_parts,
            part_len >= 1 + q,
            max_parts > 0,
    ;
    let p = (len - 1) / part_len;
    vstd::arithmetic::div_mod::lemma_fundamental_div_mod(len - 1, part_len);
    vstd::arithmetic::div_mod::lemma_mod_bound(len - 1, part_len);
    assert(p < max_parts) by (nonlinear_arith)
        requires
            len - 1 == part_len * p + (len - 1) % part_len,
            0 <= (len - 1) % part_len < part_len,
            len - 1 < max_parts * part_len,
            part_len > 0,
    ;
}

/// The identifier that the remote side gave to a multipart upload.
#[derive(Clone, Debug)]
pub struct MultipartUploadId(pub String);

/// One part of a multipart upload: its number, the bytes of the payload that
/// it holds, and the digest of these bytes.
#[derive(Debug)]
pub struct Part {
    /// The number of the part. The first part has the number one.
    pub part_number: usize,
    /// The bytes of the payload that the part holds.
    pub range: Range<u64>,
    /// The MD5 digest of these bytes.
    pub md5: [u8; 16],
}

impl Clone for Part {
    fn clone(&self) -> (copy: Part)
        ensures
            copy == *self,
    {
        Part {
            part_number: self.part_number,
            range: self.range.start..self.range.end,
            md5: self.md5,
        }
    }
}

impl Part {
    /// The number of bytes of the part.
    pub open spec fn spec_len(&self) -> int {
        self.range.end - self.range.start
    }

    /// The number of bytes of the part.
    pub fn len(&self) -> (len: u64)
        requires
            self.range.start <= self.range.end,
        ensures
            len == self.spec_len(),
    {
        self.range.end - self.range.start
    }
}

/// The parts of a payload of `len` bytes in parts of `part_len` bytes, given
/// the digest of each part: the parts hold the chunks of the payload in order
/// and are numbered from one, without gaps.
pub open spec fn parts_of(len: u64, part_len: u64, digests: Seq<Seq<u8>>) -> Seq<PartView> {
    Seq::new(
        num_chunks(len as nat, part_len as nat),
        |i: int|
            PartView {
                part_number: i + 1,
                range: chunks_of(0..len, part_len)[i],
                md5: digests[i],
            },
    )
}

/// What a [`Part`] holds, as plain values.
pub struct PartView {
    pub part_number: int,
    pub range: Range<u64>,
    pub md5: Seq<u8>,
}

impl View for Part {
    type V = PartView;

    open spec fn view(&self) -> PartView {
        PartView { part_number: self.part_number as int, range: self.range, md5: self.md5@ }
    }
}

/// The views of a list of parts.
pub open spec fn part_views(parts: Seq<Part>) -> Seq<PartView> {
    Seq::new(parts.len(), |i: int| parts[i]@)
}

/// The digests of the chunks of `payload`, in order.
pub open spec fn chunk_digests(payload: Seq<u8>, part_len: u64) -> Seq<Seq<u8>> {
    Seq::new(
        num_chunks(payload.len(), part_len as nat),
        |i: int|
            {
                let chunk = chunks_of(0..(payload.len() as u64), part_len)[i];
                md5_digest(payload.subrange(chunk.start as int, chunk.end as int))
            },
    )
}

/// The parts of a payload in the making: the ranges come from here, the
/// digest of each range comes from whoever reads the payload.
pub struct PartsBuilder {
    ranges: Vec<Range<u64>>,
    parts: Vec<Part>,
    len: u64,
    part_len: u64,
}

impl PartsBuilder {
    /// The builder is one that [`PartsBuilder::new`] made and
    /// [`PartsBuilder::push_digest`] filled.
    pub closed spec fn well_formed(&self) -> bool {
        &&& self.part_len > 0
        &&& self.ranges@ == chunks_of(0..self.len, self.part_len)
        &&& self.parts@.len() <= self.ranges@.len()
        &&& forall|i: int|
            0 <= i < self.parts@.len() ==> (#[trigger] self.parts@[i]).part_number == i + 1
                && self.parts@[i].range == self.ranges@[i]
    }

    /// The number of bytes of the payload.
    pub closed spec fn payload_len(&self) -> u64 {
        self.len
    }

    /// The number of bytes of a part that is not the last.
    pub closed spec fn part_len(&self) -> u64 {
        self.part_len
    }

    /// The digests handed in so far, in order.
    pub closed spec fn digests(&self) -> Seq<Seq<u8>> {
        Seq::new(self.parts@.len(), |i: int| self.parts@[i].md5@)
    }

    /// Whether the digest of every part was handed in.
    pub open spec fn is_complete(&self) -> bool {
        self.digests().len() == num_chunks(self.payload_len() as nat, self.part_len() as nat)
    }

    /// Starts the parts of a payload of `len` bytes, in parts of `part_len`
    /// bytes.
    pub fn new(len: u64, part_len: u64) -> (builder: PartsBuilder)
        requires
            part_len > 0,
        ensures
            builder.well_formed(),
            builder.payload_len() == len,
            builder.part_len() == part_len,
            builder.digests() == Seq::<Seq<u8>>::empty(),
    {
        let builder = PartsBuilder {
            ranges: chunk_range(0..len, part_len),
            parts: Vec::new(),
            len,
            part_len,
        };
        assert(builder.digests() =~= Seq::<Seq<u8>>::empty());
        builder
    }

    /// The range of the payload whose digest is due next; none when the digest
    /// of every part was handed in.
    pub fn next_range(&self) -> (range: Option<Range<u64>>)
        requires
            self.well_formed(),
        ensures
            range is None <==> self.is_complete(),
            range matches Some(r) ==> r == chunks_of(0..self.payload_len(), self.part_len())[self.digests().len() as int]
                && r.start < r.end <= self.payload_len(),
    {
        let done = self.parts.len();
        if done < self.ranges.len() {
            proof {
                lemma_chunk_bounds(0..self.len, self.part_len, done as int);
            }
            Some(self.ranges[done].start..self.ranges[done].end)
        } else {
            None
        }
    }

    /// Takes in the digest of the range that was due, which makes the next
    /// part.
    pub fn push_digest(&mut self, md5: [u8; 16])
        requires
            old(self).well_formed(),
            !old(self).is_complete(),
        ensures
            final(self).well_formed(),
            final(self).payload_len() == old(self).payload_len(),
            final(self).part_len() == old(self).part_len(),
            final(self).digests() == old(self).digests().push(md5@),
    {
        let done = self.parts.len();
        let total = self.ranges.len();
        assert(self.digests().len() == done);
        assert(done < total);
        let range = self.ranges[done].start..self.ranges[done].end;
        self.parts.push(Part { part_number: done + 1, range, md5 });
        assert(self.digests() =~= old(self).digests().push(md5@));
    }

    /// The parts, once the digest of every part was handed in.
    pub fn into_parts(self) -> (parts: Vec<Part>)
        requires
            self.well_formed(),
            self.is_complete(),
        ensures
            part_views(parts@) == parts_of(self.payload_len(), self.part_len(), self.digests()),
    {
        assert(part_views(self.parts@) =~= parts_of(self.len, self.part_len, self.digests()));
        self.parts
    }
}

/// Cuts a payload that is held in memory into parts of `part_len` bytes and
/// computes the digest of each part.
pub fn create_multipart_requests(payload: &[u8], part_len: u64) -> (parts: Vec<Part>)
    requires
        part_len > 0,
    ensures
        part_views(parts@) == parts_of(
            payload@.len() as u64,
            part_len,
            chunk_digests(payload@, part_len),
        ),
{
    let size = payload.len();
    let len = size as u64;
    let mut builder = PartsBuilder::new(len, part_len);
    loop
        invariant
            size == payload@.len(),
            len == size,
            builder.well_formed(),
            builder.payload_len() == len,
            builder.part_len() == part_len,
            builder.digests().len() <= num_chunks(len as nat, part_len as nat),
            forall|i: int|
                0 <= i < builder.digests().len() ==> #[trigger] builder.digests()[i]
                    == chunk_digests(payload@, part_len)[i],
        ensures
            builder.is_complete(),
        decreases num_chunks(len as nat, part_len as nat) - builder.digests().len(),
    {
        let ghost done = builder.digests();
        match builder.next_range() {
            Some(range) => {
                let bytes = slice_subrange(payload, range.start as usize, range.end as usize);
                let md5 = compute_md5(bytes);
                builder.push_digest(md5);
                assert(builder.digests()[done.len() as int] == chunk_digests(payload@, part_len)[done.len() as int]);
                assert forall|i: int| 0 <= i < builder.digests().len() implies #[trigger] builder.digests()[i]
                    == chunk_digests(payload@, part_len)[i] by {
                    if i < done.len() {
                        assert(builder.digests()[i] == done[i]);
                    }
                }
            },
            None => {
                break ;
            },
        }
    }
    assert(builder.digests() =~= chunk_digests(payload@, part_len));
    builder.into_parts()
}

/// The text of sixteen bytes in standard base64, with padding: what the
/// `encode` method of `base64::prelude::BASE64_STANDARD` returns for them.
pub uninterp spec fn base64_standard(bytes: Seq<u8>) -> Seq<char>;

/// `base64::Engine::encode` on `BASE64_STANDARD`: the digest as base64 text.
/// The text is a function of the bytes alone. For sixteen bytes the size of the
/// text cannot overflow, which is the one thing the call panics on.
#[verifier::external_body]
fn base64_encode_digest(digest: &[u8; 16]) -> (text: String)
    ensures
        text@ == base64_standard(digest@),
{
    base64::Engine::encode(&base64::prelude::BASE64_STANDARD, digest)
}

/// What is sent to upload one part.
#[derive(Debug)]
pub struct UploadPartRequest {
    pub bucket: String,
    pub key: String,
    pub upload_id: String,
    /// The number of the part within the upload.
    pub part_number: usize,
    /// The bytes of the payload to send as the body.
    pub range: Range<u64>,
    /// The number of bytes of the body.
    pub content_length: u64,
    /// The MD5 digest of the body, in base64, by which the remote side
    /// checks what it received.
    pub content_md5: String,
}

/// What an [`UploadPartRequest`] holds, as plain values.
pub struct UploadPartRequestView {
    pub bucket: Seq<char>,
    pub key: Seq<char>,
    pub upload_id: Seq<char>,
    pub part_number: int,
    pub range: Range<u64>,
    pub content_length: int,
    pub content_md5: Seq<char>,
}

impl View for UploadPartRequest {
    type V = UploadPartRequestView;

    open spec fn view(&self) -> UploadPartRequestView {
        UploadPartRequestView {
            bucket: self.bucket@,
            key: self.key@,
            upload_id: self.upload_id@,
            part_number: self.part_number as int,
            range: self.range,
            content_length: self.content_length as int,
            content_md5: self.content_md5@,
        }
    }
}

/// The request that uploads `part` of the object `key` in `bucket`, within the
/// upload `upload_id`.
pub fn upload_part_request(bucket: &str, key: &str, upload_id: &MultipartUploadId, part: &Part) -> (request:
    UploadPartRequest)
    requires
        part.range.start <= part.range.end,
    ensures
        request@ == (UploadPartRequestView {
            bucket: bucket@,
            key: key@,
            upload_id: upload_id.0@,
            part_number: part.part_number as int,
            range: part.range,
            content_length: part.spec_len(),
            content_md5: base64_standard(part.md5@),
        }),
{
    UploadPartRequest {
        bucket: String::from_str(bucket),
        key: String::from_str(key),
        upload_id: upload_id.0.clone(),
        part_number: part.part_number,
        range: part.range.start..part.range.end,
        content_length: part.len(),
        content_md5: base64_encode_digest(&part.md5),
    }
}

/// A part that the remote side has acknowledged: its number and the tag that
/// the remote side gave it.
#[derive(Debug)]
pub struct CompletedPart {
    pub part_number: usize,
    pub e_tag: Option<String>,
}

/// What came of one attempt to upload a part.
#[derive(Debug)]
pub enum UploadPartOutcome {
    /// The remote side took the part and gave it this tag.
    Uploaded { e_tag: Option<String> },
    /// The bytes of the part could not be read from the payload.
    PayloadUnreadable(StorageError),
    /// The call failed; `retryable` says whether the failure may pass.
    CallFailed { error: StorageError, retryable: bool },
}

/// Turns what came of one attempt to upload `part` into what the retry engine
/// is to see: the acknowledged part, or the failure with its mark. A payload
/// that cannot be read is a permanent failure; a failed call is marked as the
/// caller found it.
pub fn on_upload_part_outcome(part: &Part, outcome: UploadPartOutcome) -> (result: Result<
    CompletedPart,
    Retry<StorageError>,
>)
    ensures
        result == match outcome {
            UploadPartOutcome::Uploaded { e_tag } => Ok::<CompletedPart, Retry<StorageError>>(
                CompletedPart { part_number: part.part_number, e_tag },
            ),
            UploadPartOutcome::PayloadUnreadable(error) => Err(Retry::Permanent(error)),
            UploadPartOutcome::CallFailed { error, retryable } => Err(
                if retryable {
                    Retry::Transient(error)
                } else {
                    Retry::Permanent(error)
                },
            ),
        },
{
    match outcome {
        UploadPartOutcome::Uploaded { e_tag } => Ok(
            CompletedPart { part_number: part.part_number, e_tag },
        ),
        UploadPartOutcome::PayloadUnreadable(error) => Err(Retry::Permanent(error)),
        UploadPartOutcome::CallFailed { error, retryable } => Err(classify(error, retryable)),
    }
}

/// Where a multipart upload stands.
#[derive(Clone, Copy, Debug, PartialEq, Eq, Structural)]
pub enum MultipartState {
    /// The session is being created on the remote side.
    Created,
    /// The session exists and its parts are being uploaded.
    PartsUploading,
    /// Every part arrived: the session is to be completed.
    Completed,
    /// A part did not arrive: the session is to be aborted.
    Aborted,
}

/// The call that follows once the parts are resolved.
#[derive(Debug)]
pub enum MultipartAction {
    /// Complete the session with these parts.
    Complete { parts: Vec<CompletedPart> },
    /// Abort the session, so that the remote side lets go of what it holds.
    Abort,
}

/// The message of the error that a session without an identifier gives.
pub open spec fn missing_upload_id_message() -> Seq<char> {
    "The returned multipart upload id was null."@
}

/// Whether every part arrived.
pub open spec fn all_uploaded(results: Seq<Result<CompletedPart, StorageError>>) -> bool {
    forall|i: int| 0 <= i < results.len() ==> (#[trigger] results[i]) is Ok
}

/// The parts that arrived, where every part arrived: one for each result, in
/// the order of the results.
pub open spec fn uploaded_parts(results: Seq<Result<CompletedPart, StorageError>>) -> Seq<CompletedPart> {
    Seq::new(results.len(), |i: int| results[i]->Ok_0)
}

/// The position of the first part that did not arrive; the number of results
/// where every part arrived.
pub open spec fn first_failure(results: Seq<Result<CompletedPart, StorageError>>) -> int
    decreases results.len(),
{
    if results.len() == 0 || results[0] is Err {
        0
    } else {
        1 + first_failure(results.drop_first())
    }
}

/// The first failure is a failure, and every part before it arrived.
pub proof fn lemma_first_failure(results: Seq<Result<CompletedPart, StorageError>>)
    ensures
        0 <= first_failure(results) <= results.len(),
        forall|i: int| 0 <= i < first_failure(results) ==> (#[trigger] results[i]) is Ok,
        first_failure(results) < results.len() ==> results[first_failure(results)] is Err,
        first_failure(results) == results.len() <==> all_uploaded(results),
    decreases results.len(),
{
    if results.len() == 0 || results[0] is Err {
    } else {
        let rest = results.drop_first();
        lemma_first_failure(rest);
        assert forall|i: int| 0 <= i < first_failure(results) implies (#[trigger] results[i]) is Ok by {
            if i > 0 {
                assert(results[i] == rest[i - 1]);
            }
        }
        if first_failure(results) < results.len() {
            assert(results[first_failure(results)] == rest[first_failure(rest)]);
        }
        if all_uploaded(results) {
            assert forall|i: int| 0 <= i < rest.len() implies (#[trigger] rest[i]) is Ok by {
                assert(rest[i] == results[i + 1]);
            }
        }
    }
}

/// What follows from the parts, once every upload has ended.
pub enum Resolution {
    /// Every part arrived: the session is completed with these parts.
    Complete { parts: Seq<CompletedPart> },
    /// A part did not arrive: the session is aborted, and this is the error
    /// of the upload.
    Abort { error: StorageError },
}

/// What follows from the results of the parts, given in the order of the
/// parts. Where every part arrived the session is completed with exactly one
/// record for each part, in the order of the parts. Where a part did not
/// arrive the session is aborted, and the error of the upload is that of the
/// first part that did not arrive.
pub open spec fn resolve_parts(results: Seq<Result<CompletedPart, StorageError>>) -> Resolution {
    if all_uploaded(results) {
        Resolution::Complete { parts: uploaded_parts(results) }
    } else {
        Resolution::Abort { error: results[first_failure(results)]->Err_0 }
    }
}

/// How the upload ends, given what came of the call that followed the
/// resolution. A completed session ends as the call that completes it did. An
/// aborted session ends with the error of the upload, whatever came of the
/// call that aborts it.
pub open spec fn upload_result(resolution: Resolution, last_call: Result<(), StorageError>) -> Result<
    (),
    StorageError,
> {
    match resolution {
        Resolution::Complete { .. } => last_call,
        Resolution::Abort { error } => Err(error),
    }
}

/// Where any part did not arrive, the session is aborted and not completed,
/// however many parts failed and whatever came of the others, and the upload
/// ends with the error of the first part that did not arrive, whether the
/// abort succeeded or not.
pub proof fn lemma_failed_part_aborts_upload(
    results: Seq<Result<CompletedPart, StorageError>>,
    failed: int,
    abort_outcome: Result<(), StorageError>,
)
    requires
        0 <= failed < results.len(),
        results[failed] is Err,
    ensures
        resolve_parts(results) is Abort,
        0 <= first_failure(results) <= failed,
        results[first_failure(results)] is Err,
        upload_result(resolve_parts(results), abort_outcome) == Err::<(), StorageError>(
            results[first_failure(results)]->Err_0,
        ),
{
    lemma_first_failure(results);
}

/// Where every part arrived, the session is completed and not aborted, with
/// one record for each part and in the order of the parts, and the upload ends
/// as the call that completes the session does.
pub proof fn lemma_uploaded_parts_complete_upload(
    results: Seq<Result<CompletedPart, StorageError>>,
    complete_outcome: Result<(), StorageError>,
)
    requires
        all_uploaded(results),
    ensures
        resolve_parts(results) matches Resolution::Complete { parts } && parts.len()
            == results.len() && (forall|i: int|
            0 <= i < results.len() ==> results[i] == Ok::<CompletedPart, StorageError>(
                #[trigger] parts[i],
            )),
        upload_result(resolve_parts(results), complete_outcome) == complete_outcome,
{
}

/// Where every part arrived under its own number, the session is completed
/// with exactly one record for each part of the payload: the records carry the
/// numbers from one up to the number of parts, in order, none twice and none
/// left out.
pub proof fn lemma_manifest_has_every_part_once(
    len: u64,
    part_len: u64,
    digests: Seq<Seq<u8>>,
    results: Seq<Result<CompletedPart, StorageError>>,
)
    requires
        results.len() == parts_of(len, part_len, digests).len(),
        all_uploaded(results),
        forall|i: int|
            0 <= i < results.len() ==> (#[trigger] results[i])->Ok_0.part_number == parts_of(
                len,
                part_len,
                digests,
            )[i].part_number,
    ensures
        resolve_parts(results) matches Resolution::Complete { parts } && parts.len() == num_chunks(
            len as nat,
            part_len as nat,
        ) && (forall|i: int| 0 <= i < parts.len() ==> (#[trigger] parts[i]).part_number == i + 1),
{
    let parts = uploaded_parts(results);
    assert forall|i: int| 0 <= i < parts.len() implies (#[trigger] parts[i]).part_number == i
        + 1 by {
        assert(parts[i] == results[i]->Ok_0);
    }
}

/// A multipart upload: the session on the remote side and where it stands.
pub struct MultipartUpload {
    key: String,
    state: MultipartState,
    upload_id: Option<MultipartUploadId>,
    error: Option<StorageError>,
}

impl MultipartUpload {
    /// The key of the object that is uploaded.
    pub closed spec fn key(&self) -> Seq<char> {
        self.key@
    }

    /// Where the upload stands.
    pub closed spec fn state(&self) -> MultipartState {
        self.state
    }

    /// The identifier of the session, once the remote side gave one.
    pub closed spec fn session(&self) -> Option<Seq<char>> {
        match self.upload_id {
            Some(id) => Some(id.0@),
            None => None,
        }
    }

    /// The error of the part that made the upload fail.
    pub closed spec fn failure(&self) -> Option<StorageError> {
        self.error
    }

    /// The upload is in a state that it can reach: a session exists from the
    /// upload of the parts on, and an aborted upload knows why.
    pub closed spec fn well_formed(&self) -> bool {
        &&& self.state != MultipartState::Created ==> self.upload_id is Some
        &&& self.state == MultipartState::Aborted <==> self.error is Some
    }

    /// An upload of the object `key`, for which a session is to be created.
    pub fn new(key: &str) -> (upload: MultipartUpload)
        ensures
            upload.well_formed(),
            upload.key() == key@,
            upload.state() == MultipartState::Created,
            upload.session() is None,
            upload.failure() is None,
    {
        MultipartUpload {
            key: String::from_str(key),
            state: MultipartState::Created,
            upload_id: None,
            error: None,
        }
    }

    /// The key of the object that is uploaded.
    pub fn object_key(&self) -> (key: &str)
        ensures
            key@ == self.key(),
    {
        self.key.as_str()
    }

    /// Where the upload stands.
    pub fn current_state(&self) -> (state: MultipartState)
        ensures
            state == self.state(),
    {
        self.state
    }

    /// The identifier of the session, once the remote side gave one.
    pub fn upload_id(&self) -> (id: Option<&MultipartUploadId>)
        ensures
            self.session() == match id {
                Some(id) => Some(id.0@),
                None => None,
            },
    {
        self.upload_id.as_ref()
    }

    /// Takes in the answer to the call that creates the session. With an
    /// identifier the parts can be uploaded. An answer without one is an
    /// internal error: the upload is over, and nothing is left to clean up.
    pub fn on_created(&mut self, upload_id: Option<String>) -> (result: Result<(), StorageError>)
        requires
            old(self).well_formed(),
            old(self).state() == MultipartState::Created,
        ensures
            final(self).well_formed(),
            final(self).key() == old(self).key(),
            final(self).failure() is None,
            match upload_id {
                Some(id) => result is Ok && final(self).state() == MultipartState::PartsUploading
                    && final(self).session() == Some(id@),
                None => final(self).state() == MultipartState::Created && final(self).session()
                    == old(self).session() && (result matches Err(error) && error@.kind
                    == StorageErrorKind::InternalError && error@.message
                    == missing_upload_id_message()),
            },
    {
        match upload_id {
            Some(id) => {
                self.upload_id = Some(MultipartUploadId(id));
                self.state = MultipartState::PartsUploading;
                Ok(())
            },
            None => Err(
                StorageErrorKind::InternalError.with_error(
                    String::from_str("The returned multipart upload id was null."),
                ),
            ),
        }
    }

    /// Takes in what came of the parts, once every upload has ended, each
    /// after its own retries, and says which call follows: see
    /// [`resolve_parts`]. The call is asked for once; the upload is then ended
    /// by [`MultipartUpload::finish`].
    pub fn on_parts_resolved(&mut self, results: Vec<Result<CompletedPart, StorageError>>) -> (action:
        MultipartAction)
        requires
            old(self).well_formed(),
            old(self).state() == MultipartState::PartsUploading,
        ensures
            final(self).well_formed(),
            final(self).key() == old(self).key(),
            final(self).session() == old(self).session(),
            match resolve_parts(results@) {
                Resolution::Complete { parts } => final(self).state() == MultipartState::Completed
                    && final(self).failure() is None && (action matches MultipartAction::Complete {
                    parts: manifest,
                } && manifest@ == parts),
                Resolution::Abort { error } => final(self).state() == MultipartState::Aborted
                    && final(self).failure() == Some(error) && action is Abort,
            },
    {
        let mut pending = results;
        let mut parts: Vec<CompletedPart> = Vec::new();
        proof {
            lemma_first_failure(results@);
        }
        while pending.len() > 0
            invariant
                self.well_formed(),
                self.state() == MultipartState::PartsUploading,
                self.key() == old(self).key(),
                self.session() == old(self).session(),
                parts@.len() + pending@.len() == results@.len(),
                pending@ == results@.skip(parts@.len() as int),
                forall|i: int| 0 <= i < parts@.len() ==> (#[trigger] results@[i]) is Ok,
                parts@ == uploaded_parts(results@.take(parts@.len() as int)),
                parts@.len() <= first_failure(results@),
            decreases pending.len(),
        {
            let ghost done = parts@.len() as int;
            let result = pending.remove(0);
            proof {
                lemma_first_failure(results@);
            }
            assert(result == results@[done]);
            assert(pending@ =~= results@.skip(done + 1));
            match result {
                Ok(part) => {
                    parts.push(part);
                    assert(parts@ =~= uploaded_parts(results@.take(done + 1)));
                    assert(done < first_failure(results@));
                },
                Err(error) => {
                    assert(first_failure(results@) == done);
                    self.error = Some(error);
                    self.state = MultipartState::Aborted;
                    return MultipartAction::Abort;
                },
            }
        }
        assert(results@.take(results@.len() as int) =~= results@);
        proof {
            lemma_first_failure(results@);
        }
        self.state = MultipartState::Completed;
        MultipartAction::Complete { parts }
    }

    /// Ends the upload with what came of the call that followed the
    /// resolution: see [`upload_result`]. The failure of the call that aborts
    /// a session is for the caller to log; it never takes the place of the
    /// error of the upload.
    pub fn finish(self, last_call: Result<(), StorageError>) -> (result: Result<(), StorageError>)
        requires
            self.well_formed(),
            self.state() == MultipartState::Completed || self.state() == MultipartState::Aborted,
        ensures
            result == match self.failure() {
                Some(error) => Err::<(), StorageError>(error),
                None => last_call,
            },
            self.state() == MultipartState::Completed ==> result == last_call,
    {
        match self.error {
            Some(error) => Err(error),
            None => last_call,
        }
    }
}

} // verus!
