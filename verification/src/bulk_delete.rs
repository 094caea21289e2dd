//! Deleting many objects in batches, and sorting what the remote side answers.
//!
//! The paths are sent batch by batch, strictly in order. Every answer is
//! sorted into successes and failures, path by path. The first batch call that
//! fails as a whole ends the run: its paths and those of all later batches are
//! reported as unattempted.

use crate::error::{StorageError, StorageErrorView};
use crate::keys::{carries_prefix, join_key, join_spec, key_carries_prefix, strip_key_prefix, strip_spec};
use crate::text::{copy_text, lemma_texts_of_push, same_text, text_of, texts_of};
use vstd::prelude::*;
use vstd::string::*;

verus! {

/// The largest number of keys that one batch call may carry.
pub const MAX_NUM_KEYS: usize = 1_000;

/// The error code by which the remote side says that an object was absent
/// already.
pub open spec fn no_such_key() -> Seq<char> {
    "NoSuchKey"@
}

/// An object that the remote side reports as deleted.
#[derive(Debug)]
pub struct DeletedObject {
    pub key: Option<String>,
}

/// An object that the remote side reports as not deleted, and why.
#[derive(Debug)]
pub struct ObjectError {
    pub key: Option<String>,
    pub code: Option<String>,
    pub message: Option<String>,
}

/// What an [`ObjectError`] holds, as plain values.
pub struct ObjectErrorView {
    pub key: Option<Seq<char>>,
    pub code: Option<Seq<char>>,
    pub message: Option<Seq<char>>,
}

impl View for ObjectError {
    type V = ObjectErrorView;

    open spec fn view(&self) -> ObjectErrorView {
        ObjectErrorView {
            key: text_of(self.key),
            code: text_of(self.code),
            message: text_of(self.message),
        }
    }
}

/// The answer of the remote side to one batch call.
#[derive(Debug)]
pub struct DeleteObjectsOutput {
    pub deleted: Option<Vec<DeletedObject>>,
    pub errors: Option<Vec<ObjectError>>,
}

/// What a [`DeleteObjectsOutput`] holds, as plain values: the keys reported
/// as deleted and the reported errors, each in the order of the answer. A list
/// that the answer leaves out is empty.
pub struct DeleteObjectsOutputView {
    pub deleted: Seq<Option<Seq<char>>>,
    pub errors: Seq<ObjectErrorView>,
}

/// The keys of a list of deleted objects.
pub open spec fn deleted_keys(deleted: Seq<DeletedObject>) -> Seq<Option<Seq<char>>> {
    Seq::new(deleted.len(), |i: int| text_of(deleted[i].key))
}

/// The views of a list of reported errors.
pub open spec fn error_views(errors: Seq<ObjectError>) -> Seq<ObjectErrorView> {
    Seq::new(errors.len(), |i: int| errors[i]@)
}

impl View for DeleteObjectsOutput {
    type V = DeleteObjectsOutputView;

    open spec fn view(&self) -> DeleteObjectsOutputView {
        DeleteObjectsOutputView {
            deleted: match self.deleted {
                Some(deleted) => deleted_keys(deleted@),
                None => Seq::empty(),
            },
            errors: match self.errors {
                Some(errors) => error_views(errors@),
                None => Seq::empty(),
            },
        }
    }
}

impl DeleteObjectsOutputView {
    /// Every key that the answer names carries the prefix, so that its
    /// logical path can be recovered.
    pub open spec fn keys_carry_prefix(self, prefix: Seq<char>) -> bool {
        &&& forall|i: int|
            0 <= i < self.deleted.len() ==> ((#[trigger] self.deleted[i]) matches Some(key)
                ==> carries_prefix(prefix, key))
        &&& forall|i: int|
            0 <= i < self.errors.len() ==> ((#[trigger] self.errors[i]).key matches Some(key)
                ==> carries_prefix(prefix, key))
    }
}

impl DeleteObjectsOutput {
    /// Whether every key that the answer names carries `prefix`.
    pub fn keys_carry_prefix(&self, prefix: &str) -> (carried: bool)
        ensures
            carried == self@.keys_carry_prefix(prefix@),
    {
        if let Some(deleted) = &self.deleted {
            let mut i: usize = 0;
            while i < deleted.len()
                invariant
                    i <= deleted.len(),
                    self.deleted == Some(*deleted),
                    forall|j: int|
                        0 <= j < i ==> ((#[trigger] self@.deleted[j]) matches Some(key)
                            ==> carries_prefix(prefix@, key)),
                decreases deleted.len() - i,
            {
                if let Some(key) = &deleted[i].key {
                    if !key_carries_prefix(prefix, key.as_str()) {
                        assert(self@.deleted[i as int] == Some(key@));
                        return false;
                    }
                }
                i += 1;
            }
        }
        if let Some(errors) = &self.errors {
            let mut i: usize = 0;
            while i < errors.len()
                invariant
                    i <= errors.len(),
                    self.errors == Some(*errors),
                    forall|j: int|
                        0 <= j < i ==> ((#[trigger] self@.errors[j]).key matches Some(key)
                            ==> carries_prefix(prefix@, key)),
                decreases errors.len() - i,
            {
                if let Some(key) = &errors[i].key {
                    if !key_carries_prefix(prefix, key.as_str()) {
                        assert(self@.errors[i as int].key == Some(key@));
                        return false;
                    }
                }
                i += 1;
            }
        }
        true
    }
}

/// Why one object could not be deleted.
#[derive(Debug)]
pub struct DeleteFailure {
    /// The error of the call, where the failure is not one of the object alone.
    pub error: Option<StorageError>,
    /// The error code that the remote side gave for the object.
    pub code: Option<String>,
    /// The message that the remote side gave for the object.
    pub message: Option<String>,
}

/// What a [`DeleteFailure`] holds, as plain values.
pub struct DeleteFailureView {
    pub error: Option<StorageErrorView>,
    pub code: Option<Seq<char>>,
    pub message: Option<Seq<char>>,
}

impl View for DeleteFailure {
    type V = DeleteFailureView;

    open spec fn view(&self) -> DeleteFailureView {
        DeleteFailureView {
            error: match self.error {
                Some(error) => Some(error@),
                None => None,
            },
            code: text_of(self.code),
            message: text_of(self.message),
        }
    }
}

/// The map that a list of entries stands for: a later entry for a path
/// replaces an earlier one.
spec fn failures_of(entries: Seq<(Seq<char>, DeleteFailureView)>) -> Map<Seq<char>, DeleteFailureView>
    decreases entries.len(),
{
    if entries.len() == 0 {
        Map::empty()
    } else {
        failures_of(entries.drop_last()).insert(entries.last().0, entries.last().1)
    }
}

/// No two entries are for the same path.
spec fn distinct_paths(entries: Seq<(Seq<char>, DeleteFailureView)>) -> bool {
    forall|i: int, j: int|
        0 <= i < entries.len() && 0 <= j < entries.len() && i != j ==> (#[trigger] entries[i]).0 != (
        #[trigger] entries[j]).0
}

/// Whether a list of entries has an entry for `path`.
spec fn has_entry(entries: Seq<(Seq<char>, DeleteFailureView)>, path: Seq<char>) -> bool {
    exists|i: int| 0 <= i < entries.len() && (#[trigger] entries[i]).0 == path
}

/// The map of a list of entries holds the paths of the entries, and for a
/// path that has one entry only, the failure of that entry.
proof fn lemma_failures_of(entries: Seq<(Seq<char>, DeleteFailureView)>)
    ensures
        forall|path: Seq<char>| #[trigger]
            failures_of(entries).contains_key(path) <==> has_entry(entries, path),
        distinct_paths(entries) ==> forall|i: int|
            0 <= i < entries.len() ==> failures_of(entries)[(#[trigger] entries[i]).0]
                == entries[i].1,
    decreases entries.len(),
{
    if entries.len() > 0 {
        let rest = entries.drop_last();
        let last = entries.last();
        lemma_failures_of(rest);
        assert forall|path: Seq<char>| #[trigger]
            failures_of(entries).contains_key(path) <==> has_entry(entries, path) by {
            assert(failures_of(rest).contains_key(path) <==> has_entry(rest, path));
            if has_entry(rest, path) {
                let i = choose|i: int| 0 <= i < rest.len() && (#[trigger] rest[i]).0 == path;
                assert(entries[i].0 == path);
            }
            if path == last.0 {
                assert(entries[entries.len() - 1].0 == path);
            }
            if has_entry(entries, path) {
                let i = choose|i: int| 0 <= i < entries.len() && (#[trigger] entries[i]).0 == path;
                if i < rest.len() {
                    assert(rest[i].0 == path);
                }
            }
        }
        if distinct_paths(entries) {
            assert(distinct_paths(rest)) by {
                assert forall|i: int, j: int|
                    0 <= i < rest.len() && 0 <= j < rest.len() && i != j implies (
                #[trigger] rest[i]).0 != (#[trigger] rest[j]).0 by {
                    assert(rest[i] == entries[i] && rest[j] == entries[j]);
                }
            }
            assert forall|i: int| 0 <= i < entries.len() implies failures_of(entries)[(
            #[trigger] entries[i]).0] == entries[i].1 by {
                if i < rest.len() {
                    assert(rest[i] == entries[i]);
                    assert(entries[i].0 != entries[entries.len() - 1].0);
                }
            }
        }
    }
}

/// Putting a failure in the place of the entry for its path is recording it.
proof fn lemma_failures_of_update(
    entries: Seq<(Seq<char>, DeleteFailureView)>,
    at: int,
    failure: DeleteFailureView,
)
    requires
        0 <= at < entries.len(),
        distinct_paths(entries),
    ensures
        distinct_paths(entries.update(at, (entries[at].0, failure))),
        failures_of(entries.update(at, (entries[at].0, failure))) == failures_of(entries).insert(
            entries[at].0,
            failure,
        ),
{
    let path = entries[at].0;
    let updated = entries.update(at, (path, failure));
    assert(distinct_paths(updated)) by {
        assert forall|i: int, j: int|
            0 <= i < updated.len() && 0 <= j < updated.len() && i != j implies (
        #[trigger] updated[i]).0 != (#[trigger] updated[j]).0 by {
            assert(updated[i].0 == entries[i].0 && updated[j].0 == entries[j].0);
        }
    }
    lemma_failures_of(entries);
    lemma_failures_of(updated);
    let expected = failures_of(entries).insert(path, failure);
    assert forall|other: Seq<char>| failures_of(updated).contains_key(other)
        <==> expected.contains_key(other) by {
        assert(failures_of(entries).contains_key(other) <==> has_entry(entries, other));
        if has_entry(updated, other) {
            let i = choose|i: int| 0 <= i < updated.len() && (#[trigger] updated[i]).0 == other;
            assert(entries[i].0 == other);
        }
        if has_entry(entries, other) {
            let i = choose|i: int| 0 <= i < entries.len() && (#[trigger] entries[i]).0 == other;
            assert(updated[i].0 == other);
        }
        if other == path {
            assert(updated[at].0 == other);
        }
    }
    assert forall|other: Seq<char>| failures_of(updated).contains_key(other) implies failures_of(
        updated,
    )[other] == expected[other] by {
        assert(has_entry(updated, other));
        let i = choose|i: int| 0 <= i < updated.len() && (#[trigger] updated[i]).0 == other;
        assert(failures_of(updated)[updated[i].0] == updated[i].1);
        assert(entries[i].0 == other);
        if i != at {
            assert(failures_of(entries)[entries[i].0] == entries[i].1);
            assert(updated[i] == entries[i]);
            assert(other != path);
        }
    }
    assert(failures_of(updated) =~= expected);
}

/// The failures of a bulk delete, by logical path.
#[derive(Debug)]
pub struct DeleteFailures {
    entries: Vec<(String, DeleteFailure)>,
}

impl View for DeleteFailures {
    type V = Map<Seq<char>, DeleteFailureView>;

    closed spec fn view(&self) -> Map<Seq<char>, DeleteFailureView> {
        failures_of(self.entry_views())
    }
}

impl DeleteFailures {
    /// The entries as plain values.
    spec fn entry_views(&self) -> Seq<(Seq<char>, DeleteFailureView)> {
        Seq::new(self.entries@.len(), |i: int| (self.entries@[i].0@, self.entries@[i].1@))
    }

    /// Every path has one entry at most.
    pub closed spec fn well_formed(&self) -> bool {
        distinct_paths(self.entry_views())
    }

    /// No failures.
    pub fn new() -> (failures: DeleteFailures)
        ensures
            failures.well_formed(),
            failures@ == Map::<Seq<char>, DeleteFailureView>::empty(),
    {
        DeleteFailures { entries: Vec::new() }
    }

    /// Where the entry for `path` is, if there is one.
    fn position(&self, path: &str) -> (found: Option<usize>)
        ensures
            match found {
                Some(at) => at < self.entries@.len() && self.entries@[at as int].0@ == path@,
                None => forall|i: int| 0 <= i < self.entries@.len() ==> self.entries@[i].0@ != path@,
            },
    {
        let mut i: usize = 0;
        while i < self.entries.len()
            invariant
                i <= self.entries@.len(),
                forall|j: int| 0 <= j < i ==> self.entries@[j].0@ != path@,
            decreases self.entries@.len() - i,
        {
            if same_text(self.entries[i].0.as_str(), path) {
                return Some(i);
            }
            i += 1;
        }
        None
    }

    /// Records the failure of `path`, in place of an earlier one if there is
    /// one.
    pub fn insert(&mut self, path: String, failure: DeleteFailure)
        requires
            old(self).well_formed(),
        ensures
            final(self).well_formed(),
            final(self)@ == old(self)@.insert(path@, failure@),
    {
        let ghost before = self.entry_views();
        match self.position(path.as_str()) {
            Some(at) => {
                proof {
                    lemma_failures_of_update(before, at as int, failure@);
                }
                self.entries.set(at, (path, failure));
                assert(self.entry_views() =~= before.update(at as int, (before[at as int].0, failure@)));
            },
            None => {
                self.entries.push((path, failure));
                assert(self.entry_views().drop_last() =~= before);
                assert(distinct_paths(self.entry_views())) by {
                    let after = self.entry_views();
                    assert forall|i: int, j: int|
                        0 <= i < after.len() && 0 <= j < after.len() && i != j implies (
                    #[trigger] after[i]).0 != (#[trigger] after[j]).0 by {
                        if i < before.len() {
                            assert(after[i] == before[i]);
                        }
                        if j < before.len() {
                            assert(after[j] == before[j]);
                        }
                    }
                }
            },
        }
    }

    /// Whether no failure was recorded.
    pub fn is_empty(&self) -> (empty: bool)
        ensures
            empty == (self@ == Map::<Seq<char>, DeleteFailureView>::empty()),
    {
        let empty = self.entries.len() == 0;
        proof {
            if !empty {
                let last = self.entry_views().last();
                assert(self@.contains_key(last.0));
                assert(!Map::<Seq<char>, DeleteFailureView>::empty().contains_key(last.0));
            }
        }
        empty
    }

    /// The failure recorded for `path`, if there is one.
    pub fn get(&self, path: &str) -> (found: Option<&DeleteFailure>)
        requires
            self.well_formed(),
        ensures
            match found {
                Some(failure) => self@.contains_key(path@) && self@[path@] == failure@,
                None => !self@.contains_key(path@),
            },
    {
        proof {
            lemma_failures_of(self.entry_views());
        }
        match self.position(path) {
            Some(at) => {
                assert(self.entry_views()[at as int].0 == path@);
                Some(&self.entries[at].1)
            },
            None => {
                assert(!has_entry(self.entry_views(), path@));
                None
            },
        }
    }

    /// The paths for which a failure was recorded, each once, in the order in
    /// which they failed first.
    pub fn paths(&self) -> (paths: Vec<String>)
        requires
            self.well_formed(),
        ensures
            texts_of(paths@).no_duplicates(),
            forall|path: Seq<char>| #[trigger] texts_of(paths@).contains(path) <==> self@.contains_key(path),
    {
        let mut paths: Vec<String> = Vec::new();
        let mut i: usize = 0;
        while i < self.entries.len()
            invariant
                i <= self.entries@.len(),
                paths@.len() == i,
                forall|j: int| 0 <= j < i ==> (#[trigger] paths@[j])@ == self.entries@[j].0@,
            decreases self.entries@.len() - i,
        {
            paths.push(self.entries[i].0.clone());
            i += 1;
        }
        proof {
            let entries = self.entry_views();
            let listed = texts_of(paths@);
            lemma_failures_of(entries);
            assert forall|j: int| 0 <= j < listed.len() implies #[trigger] listed[j] == entries[j].0 by {
                assert(paths@[j]@ == self.entries@[j].0@);
            }
            assert forall|path: Seq<char>| #[trigger] listed.contains(path) <==> self@.contains_key(path) by {
                if listed.contains(path) {
                    let j = choose|j: int| 0 <= j < listed.len() && listed[j] == path;
                    assert(entries[j].0 == path);
                }
                if self@.contains_key(path) {
                    assert(has_entry(entries, path));
                    let j = choose|j: int| 0 <= j < entries.len() && (#[trigger] entries[j]).0 == path;
                    assert(listed[j] == path);
                }
            }
            assert forall|j: int, k: int|
                0 <= j < listed.len() && 0 <= k < listed.len() && j != k implies listed[j]
                != listed[k] by {
                assert(entries[j].0 != entries[k].0);
            }
        }
        paths
    }
}

/// The outcome of a bulk delete: which paths were deleted or absent already,
/// which could not be deleted and why, which were never sent, and the error of
/// the batch call that failed as a whole, if one did.
pub struct BulkDeleteOutcome {
    pub error: Option<StorageErrorView>,
    pub successes: Seq<Seq<char>>,
    pub failures: Map<Seq<char>, DeleteFailureView>,
    pub unattempted: Seq<Seq<char>>,
}

impl BulkDeleteOutcome {
    /// The outcome before anything was sent.
    pub open spec fn empty() -> BulkDeleteOutcome {
        BulkDeleteOutcome {
            error: None,
            successes: Seq::empty(),
            failures: Map::empty(),
            unattempted: Seq::empty(),
        }
    }

    /// Nothing failed: no batch call as a whole, and no single object.
    pub open spec fn is_success(self) -> bool {
        self.error is None && self.failures == Map::<Seq<char>, DeleteFailureView>::empty()
    }

    /// The outcome after the keys reported as deleted were sorted in: each
    /// one that is named is a success, under its logical path.
    pub open spec fn with_deleted(self, prefix: Seq<char>, deleted: Seq<Option<Seq<char>>>) -> BulkDeleteOutcome
        decreases deleted.len(),
    {
        if deleted.len() == 0 {
            self
        } else {
            let before = self.with_deleted(prefix, deleted.drop_last());
            match deleted.last() {
                Some(key) => BulkDeleteOutcome {
                    successes: before.successes.push(strip_spec(prefix, key)),
                    ..before
                },
                None => before,
            }
        }
    }

    /// The outcome after one reported error was sorted in. An error without a
    /// key changes nothing. An object that was absent already is a success.
    /// Any other error is a failure of the object's logical path, with the
    /// code and the message as reported.
    pub open spec fn with_error(self, prefix: Seq<char>, error: ObjectErrorView) -> BulkDeleteOutcome {
        match error.key {
            Some(key) => {
                let path = strip_spec(prefix, key);
                if error.code == Some(no_such_key()) {
                    BulkDeleteOutcome { successes: self.successes.push(path), ..self }
                } else {
                    BulkDeleteOutcome {
                        failures: self.failures.insert(
                            path,
                            DeleteFailureView { error: None, code: error.code, message: error.message },
                        ),
                        ..self
                    }
                }
            },
            None => self,
        }
    }

    /// The outcome after the reported errors were sorted in, in order.
    pub open spec fn with_errors(self, prefix: Seq<char>, errors: Seq<ObjectErrorView>) -> BulkDeleteOutcome
        decreases errors.len(),
    {
        if errors.len() == 0 {
            self
        } else {
            self.with_errors(prefix, errors.drop_last()).with_error(prefix, errors.last())
        }
    }

    /// The outcome after the answer to a batch call was sorted in: first the
    /// objects reported as deleted, then the reported errors.
    pub open spec fn with_answer(self, prefix: Seq<char>, output: DeleteObjectsOutputView) -> BulkDeleteOutcome {
        self.with_deleted(prefix, output.deleted).with_errors(prefix, output.errors)
    }

    /// The outcome after a batch call failed as a whole: the error is kept
    /// and the paths that were not answered are unattempted.
    pub open spec fn with_failed_call(self, error: StorageErrorView, remaining: Seq<Seq<char>>) -> BulkDeleteOutcome {
        BulkDeleteOutcome {
            error: Some(error),
            unattempted: self.unattempted + remaining,
            ..self
        }
    }
}

/// What a bulk delete reports when anything failed.
#[derive(Debug)]
pub struct BulkDeleteError {
    /// The error of the batch call that failed as a whole.
    pub error: Option<StorageError>,
    /// The paths that were deleted or absent already.
    pub successes: Vec<String>,
    /// The paths that could not be deleted, and why.
    pub failures: DeleteFailures,
    /// The paths that were never sent.
    pub unattempted: Vec<String>,
}

impl View for BulkDeleteError {
    type V = BulkDeleteOutcome;

    open spec fn view(&self) -> BulkDeleteOutcome {
        BulkDeleteOutcome {
            error: match self.error {
                Some(error) => Some(error@),
                None => None,
            },
            successes: texts_of(self.successes@),
            failures: self.failures@,
            unattempted: texts_of(self.unattempted@),
        }
    }
}

/// The state of a bulk delete, as plain values.
pub struct BulkDeleteView {
    /// The key prefix of the storage.
    pub prefix: Seq<char>,
    /// The paths to delete, in the order given.
    pub paths: Seq<Seq<char>>,
    /// The number of paths that one batch call carries at most.
    pub batch_size: nat,
    /// The number of paths that are dealt with: answered or given up.
    pub next: nat,
    /// What is known of the paths dealt with.
    pub outcome: BulkDeleteOutcome,
}

impl BulkDeleteView {
    /// The state before anything was sent.
    pub open spec fn start(prefix: Seq<char>, paths: Seq<Seq<char>>, batch_size: nat) -> BulkDeleteView {
        BulkDeleteView { prefix, paths, batch_size, next: 0, outcome: BulkDeleteOutcome::empty() }
    }

    /// Every path is dealt with.
    pub open spec fn is_done(self) -> bool {
        self.next >= self.paths.len()
    }

    /// Where the batch that is due ends.
    pub open spec fn batch_end(self) -> nat {
        if self.next + self.batch_size <= self.paths.len() {
            self.next + self.batch_size
        } else {
            self.paths.len()
        }
    }

    /// The paths of the batch that is due.
    pub open spec fn batch(self) -> Seq<Seq<char>> {
        self.paths.subrange(self.next as int, self.batch_end() as int)
    }

    /// The keys to send for the batch that is due.
    pub open spec fn batch_keys(self) -> Seq<Seq<char>> {
        Seq::new(self.batch().len(), |i: int| join_spec(self.prefix, self.batch()[i]))
    }

    /// The state after the batch call was answered.
    pub open spec fn answered(self, output: DeleteObjectsOutputView) -> BulkDeleteView {
        BulkDeleteView {
            next: self.batch_end(),
            outcome: self.outcome.with_answer(self.prefix, output),
            ..self
        }
    }

    /// The state after the batch call failed as a whole: nothing more is
    /// sent, and the paths of this batch and of all later ones are
    /// unattempted.
    pub open spec fn failed(self, error: StorageErrorView) -> BulkDeleteView {
        BulkDeleteView {
            next: self.paths.len(),
            outcome: self.outcome.with_failed_call(
                error,
                self.paths.subrange(self.next as int, self.paths.len() as int),
            ),
            ..self
        }
    }
}

/// A bulk delete in progress. The caller asks for the keys of the next batch,
/// makes the batch call and hands the answer back, until no batch is left.
pub struct BulkDelete {
    prefix: String,
    paths: Vec<String>,
    batch_size: usize,
    next: usize,
    error: Option<StorageError>,
    successes: Vec<String>,
    failures: DeleteFailures,
    unattempted: Vec<String>,
}

impl View for BulkDelete {
    type V = BulkDeleteView;

    closed spec fn view(&self) -> BulkDeleteView {
        BulkDeleteView {
            prefix: self.prefix@,
            paths: texts_of(self.paths@),
            batch_size: self.batch_size as nat,
            next: self.next as nat,
            outcome: BulkDeleteOutcome {
                error: match self.error {
                    Some(error) => Some(error@),
                    None => None,
                },
                successes: texts_of(self.successes@),
                failures: self.failures@,
                unattempted: texts_of(self.unattempted@),
            },
        }
    }
}

impl BulkDelete {
    /// The state is one that a run can be in: batches are not empty, and no
    /// more paths are dealt with than there are.
    pub closed spec fn well_formed(&self) -> bool {
        self.batch_size > 0 && self.next <= self.paths@.len() && self.failures.well_formed()
    }

    /// Starts a bulk delete of `paths` under `prefix`, in batches of
    /// `batch_size` paths.
    pub fn new(prefix: &str, paths: Vec<String>, batch_size: usize) -> (run: BulkDelete)
        requires
            batch_size > 0,
        ensures
            run.well_formed(),
            run@ == BulkDeleteView::start(prefix@, texts_of(paths@), batch_size as nat),
    {
        let run = BulkDelete {
            prefix: String::from_str(prefix),
            paths,
            batch_size,
            next: 0,
            error: None,
            successes: Vec::new(),
            failures: DeleteFailures::new(),
            unattempted: Vec::new(),
        };
        assert(run@.outcome.successes =~= Seq::empty());
        assert(run@.outcome.unattempted =~= Seq::empty());
        run
    }

    /// Whether every path is dealt with.
    pub fn is_done(&self) -> (done: bool)
        ensures
            done == self@.is_done(),
    {
        self.next >= self.paths.len()
    }

    /// The keys to send next: those of the batch that is due, in the order of
    /// its paths; none when every path is dealt with.
    pub fn next_request(&self) -> (keys: Option<Vec<String>>)
        requires
            self.well_formed(),
        ensures
            self@.is_done() <==> keys is None,
            keys matches Some(k) ==> texts_of(k@) == self@.batch_keys() && k@.len() > 0,
    {
        let len = self.paths.len();
        if self.next >= len {
            return None;
        }
        let end = if len - self.next <= self.batch_size {
            len
        } else {
            self.next + self.batch_size
        };
        let mut keys: Vec<String> = Vec::new();
        let mut i: usize = self.next;
        while i < end
            invariant
                self.next <= i <= end <= self.paths@.len(),
                end == self@.batch_end(),
                keys@.len() == i - self.next,
                forall|j: int|
                    0 <= j < keys@.len() ==> (#[trigger] keys@[j])@ == join_spec(
                        self.prefix@,
                        self.paths@[self.next + j]@,
                    ),
            decreases end - i,
        {
            keys.push(join_key(self.prefix.as_str(), self.paths[i].as_str()));
            i += 1;
        }
        assert(texts_of(keys@) =~= self@.batch_keys());
        Some(keys)
    }

    /// Takes in what came of the batch call that was due. An answer is sorted
    /// into successes and failures and the next batch becomes due. A call that
    /// failed as a whole ends the run.
    pub fn on_response(&mut self, response: Result<DeleteObjectsOutput, StorageError>)
        requires
            old(self).well_formed(),
            !old(self)@.is_done(),
            response matches Ok(output) ==> output@.keys_carry_prefix(old(self)@.prefix),
        ensures
            final(self).well_formed(),
            match response {
                Ok(output) => final(self)@ == old(self)@.answered(output@),
                Err(error) => final(self)@ == old(self)@.failed(error@),
            },
    {
        let len = self.paths.len();
        match response {
            Ok(output) => {
                self.record_deleted(&output);
                self.record_errors(&output);
                let end = if len - self.next <= self.batch_size {
                    len
                } else {
                    self.next + self.batch_size
                };
                self.next = end;
            },
            Err(error) => {
                let ghost before = self.unattempted@;
                let mut i: usize = self.next;
                while i < len
                    invariant
                        len == self.paths@.len(),
                        self.next <= i <= len,
                        self.batch_size > 0,
                        texts_of(self.unattempted@) == texts_of(before) + texts_of(
                            self.paths@,
                        ).subrange(self.next as int, i as int),
                        self.prefix == old(self).prefix,
                        self.paths == old(self).paths,
                        self.batch_size == old(self).batch_size,
                        self.next == old(self).next,
                        self.error == old(self).error,
                        self.successes == old(self).successes,
                        self.failures == old(self).failures,
                    decreases len - i,
                {
                    let ghost list = self.unattempted@;
                    let path = self.paths[i].clone();
                    self.unattempted.push(path);
                    proof {
                        lemma_texts_of_push(list, path);
                        assert(texts_of(self.paths@).subrange(self.next as int, i + 1) =~= texts_of(
                            self.paths@,
                        ).subrange(self.next as int, i as int).push(path@));
                    }
                    i += 1;
                }
                self.error = Some(error);
                self.next = len;
            },
        }
    }

    /// Sorts in the objects that an answer reports as deleted.
    fn record_deleted(&mut self, output: &DeleteObjectsOutput)
        requires
            old(self).well_formed(),
            output@.keys_carry_prefix(old(self)@.prefix),
        ensures
            final(self).well_formed(),
            final(self)@ == (BulkDeleteView {
                outcome: old(self)@.outcome.with_deleted(old(self)@.prefix, output@.deleted),
                ..old(self)@
            }),
    {
        if let Some(deleted) = &output.deleted {
            let ghost keys = output@.deleted;
            let mut i: usize = 0;
            assert(keys.take(0) =~= Seq::empty());
            while i < deleted.len()
                invariant
                    i <= deleted.len(),
                    output.deleted == Some(*deleted),
                    keys == output@.deleted,
                    output@.keys_carry_prefix(self@.prefix),
                    self.well_formed(),
                    self@ == (BulkDeleteView {
                        outcome: old(self)@.outcome.with_deleted(old(self)@.prefix, keys.take(i as int)),
                        ..old(self)@
                    }),
                decreases deleted.len() - i,
            {
                assert(keys.take(i + 1).drop_last() =~= keys.take(i as int));
                assert(keys.take(i + 1).last() == keys[i as int]);
                if let Some(key) = &deleted[i].key {
                    assert(keys[i as int] == Some(key@));
                    let path = strip_key_prefix(self.prefix.as_str(), key.as_str());
                    let ghost list = self.successes@;
                    self.successes.push(path);
                    proof {
                        lemma_texts_of_push(list, path);
                    }
                }
                i += 1;
            }
            assert(keys.take(deleted.len() as int) =~= keys);
        }
    }

    /// Sorts in the errors that an answer reports.
    fn record_errors(&mut self, output: &DeleteObjectsOutput)
        requires
            old(self).well_formed(),
            output@.keys_carry_prefix(old(self)@.prefix),
        ensures
            final(self).well_formed(),
            final(self)@ == (BulkDeleteView {
                outcome: old(self)@.outcome.with_errors(old(self)@.prefix, output@.errors),
                ..old(self)@
            }),
    {
        if let Some(errors) = &output.errors {
            let ghost reported = output@.errors;
            let mut i: usize = 0;
            assert(reported.take(0) =~= Seq::empty());
            while i < errors.len()
                invariant
                    i <= errors.len(),
                    output.errors == Some(*errors),
                    reported == output@.errors,
                    output@.keys_carry_prefix(self@.prefix),
                    self.well_formed(),
                    self@ == (BulkDeleteView {
                        outcome: old(self)@.outcome.with_errors(
                            old(self)@.prefix,
                            reported.take(i as int),
                        ),
                        ..old(self)@
                    }),
                decreases errors.len() - i,
            {
                assert(reported.take(i + 1).drop_last() =~= reported.take(i as int));
                assert(reported.take(i + 1).last() == reported[i as int]);
                let error = &errors[i];
                assert(reported[i as int] == error@);
                if let Some(key) = &error.key {
                    let path = strip_key_prefix(self.prefix.as_str(), key.as_str());
                    let absent = match &error.code {
                        Some(code) => same_text(code.as_str(), "NoSuchKey"),
                        None => false,
                    };
                    if absent {
                        let ghost list = self.successes@;
                        self.successes.push(path);
                        proof {
                            lemma_texts_of_push(list, path);
                        }
                    } else {
                        let failure = DeleteFailure {
                            error: None,
                            code: copy_text(&error.code),
                            message: copy_text(&error.message),
                        };
                        self.failures.insert(path, failure);
                    }
                }
                i += 1;
            }
            assert(reported.take(errors.len() as int) =~= reported);
        }
    }

    /// Ends the run: nothing to report when no batch call and no object
    /// failed, the full outcome otherwise.
    pub fn finish(self) -> (result: Result<(), BulkDeleteError>)
        requires
            self.well_formed(),
            self@.is_done(),
        ensures
            result is Ok <==> self@.outcome.is_success(),
            result matches Err(report) ==> report@ == self@.outcome && report.failures.well_formed(),
    {
        if self.error.is_none() && self.failures.is_empty() {
            Ok(())
        } else {
            Err(
                BulkDeleteError {
                    error: self.error,
                    successes: self.successes,
                    failures: self.failures,
                    unattempted: self.unattempted,
                },
            )
        }
    }
}

} // verus!
