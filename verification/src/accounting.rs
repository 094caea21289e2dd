//! Every path of a bulk delete is accounted for exactly once.
//!
//! Where the paths given are all different and every answer names each path
//! of its batch once, the successes, the failures and the unattempted paths
//! are disjoint, and together they are the paths dealt with so far.

use crate::bulk_delete::{
    no_such_key, BulkDeleteOutcome, BulkDeleteView, DeleteObjectsOutputView, ObjectErrorView,
};
use crate::error::StorageErrorView;
use crate::keys::strip_spec;
use vstd::prelude::*;
use vstd::seq_lib::lemma_no_dup_in_concat;

verus! {

/// The paths of the objects that an answer reports as deleted, in order.
pub open spec fn deleted_paths(prefix: Seq<char>, deleted: Seq<Option<Seq<char>>>) -> Seq<Seq<char>>
    decreases deleted.len(),
{
    if deleted.len() == 0 {
        Seq::empty()
    } else {
        let before = deleted_paths(prefix, deleted.drop_last());
        match deleted.last() {
            Some(key) => before.push(strip_spec(prefix, key)),
            None => before,
        }
    }
}

/// Whether a reported error says that the object was absent already.
pub open spec fn is_absent(error: ObjectErrorView) -> bool {
    error.code == Some(no_such_key())
}

/// The paths of the objects that the errors of an answer name, in order.
pub open spec fn error_paths(prefix: Seq<char>, errors: Seq<ObjectErrorView>) -> Seq<Seq<char>>
    decreases errors.len(),
{
    if errors.len() == 0 {
        Seq::empty()
    } else {
        let before = error_paths(prefix, errors.drop_last());
        match errors.last().key {
            Some(key) => before.push(strip_spec(prefix, key)),
            None => before,
        }
    }
}

/// The paths of the objects that the errors of an answer report as absent
/// already, in order.
pub open spec fn absent_paths(prefix: Seq<char>, errors: Seq<ObjectErrorView>) -> Seq<Seq<char>>
    decreases errors.len(),
{
    if errors.len() == 0 {
        Seq::empty()
    } else {
        let before = absent_paths(prefix, errors.drop_last());
        match errors.last().key {
            Some(key) if is_absent(errors.last()) => before.push(strip_spec(prefix, key)),
            _ => before,
        }
    }
}

/// The paths of the objects that the errors of an answer report as not
/// deleted, in order.
pub open spec fn failed_paths(prefix: Seq<char>, errors: Seq<ObjectErrorView>) -> Seq<Seq<char>>
    decreases errors.len(),
{
    if errors.len() == 0 {
        Seq::empty()
    } else {
        let before = failed_paths(prefix, errors.drop_last());
        match errors.last().key {
            Some(key) if !is_absent(errors.last()) => before.push(strip_spec(prefix, key)),
            _ => before,
        }
    }
}

/// The paths that an answer names: those of the objects reported as deleted,
/// then those of the reported errors.
pub open spec fn answered_paths(prefix: Seq<char>, output: DeleteObjectsOutputView) -> Seq<Seq<char>> {
    deleted_paths(prefix, output.deleted) + error_paths(prefix, output.errors)
}

/// An answer answers a batch exactly: it names every path of the batch, each
/// once, and no other path.
pub open spec fn answers_exactly(prefix: Seq<char>, batch: Seq<Seq<char>>, output: DeleteObjectsOutputView) -> bool {
    &&& answered_paths(prefix, output).no_duplicates()
    &&& forall|path: Seq<char>|
        #[trigger] answered_paths(prefix, output).contains(path) <==> batch.contains(path)
}

/// The outcome accounts for the paths `handled`, each exactly once: every one
/// of them is a success, a failure or unattempted, no path is more than one of
/// these or listed twice, and nothing else is listed.
pub open spec fn accounts_for(outcome: BulkDeleteOutcome, handled: Seq<Seq<char>>) -> bool {
    &&& outcome.successes.no_duplicates()
    &&& outcome.unattempted.no_duplicates()
    &&& forall|path: Seq<char>|
        #[trigger] handled.contains(path) <==> (outcome.successes.contains(path)
            || outcome.failures.contains_key(path) || outcome.unattempted.contains(path))
    &&& forall|path: Seq<char>|
        !(#[trigger] outcome.successes.contains(path) && outcome.failures.contains_key(path))
    &&& forall|path: Seq<char>|
        !(#[trigger] outcome.successes.contains(path) && outcome.unattempted.contains(path))
    &&& forall|path: Seq<char>|
        !(#[trigger] outcome.unattempted.contains(path) && outcome.failures.contains_key(path))
}

/// Before anything is sent, nothing is to account for.
pub proof fn lemma_start_accounts_for_nothing(prefix: Seq<char>, paths: Seq<Seq<char>>, batch_size: nat)
    ensures
        accounts_for(
            BulkDeleteView::start(prefix, paths, batch_size).outcome,
            paths.take(BulkDeleteView::start(prefix, paths, batch_size).next as int),
        ),
{
    let handled = paths.take(0);
    assert(handled =~= Seq::empty());
    assert forall|path: Seq<char>| !(#[trigger] handled.contains(path)) by {}
}

/// An answer that answers its batch exactly keeps the account: afterwards
/// every path up to the end of the batch is a success or a failure, or was
/// unattempted before, and none is more than one of these.
pub proof fn lemma_answer_keeps_account(run: BulkDeleteView, output: DeleteObjectsOutputView)
    requires
        run.paths.no_duplicates(),
        run.next < run.paths.len(),
        accounts_for(run.outcome, run.paths.take(run.next as int)),
        answers_exactly(run.prefix, run.batch(), output),
    ensures
        accounts_for(
            run.answered(output).outcome,
            run.paths.take(run.answered(output).next as int),
        ),
{
    let prefix = run.prefix;
    let before = run.outcome;
    let after = run.answered(output).outcome;
    let handled = run.paths.take(run.next as int);
    let batch = run.batch();
    let end = run.batch_end() as int;
    let deleted = deleted_paths(prefix, output.deleted);
    let named = error_paths(prefix, output.errors);
    let absent = absent_paths(prefix, output.errors);
    let failed = failed_paths(prefix, output.errors);
    let answered = answered_paths(prefix, output);

    lemma_with_deleted(before, prefix, output.deleted);
    lemma_with_errors(before.with_deleted(prefix, output.deleted), prefix, output.errors);
    lemma_error_paths_split(prefix, output.errors);
    lemma_parts_of_no_dup_concat(deleted, named);
    lemma_split_at(run.paths, run.next as int, end);
    assert(after.successes == before.successes + deleted + absent);
    assert(after.unattempted == before.unattempted);

    assert forall|path: Seq<char>| answered.contains(path) <==> (deleted.contains(path)
        || absent.contains(path) || failed.contains(path)) by {
        lemma_concat_contains(deleted, named, path);
    }
    assert forall|path: Seq<char>| #[trigger] batch.contains(path) implies !handled.contains(path)
        && !before.successes.contains(path) && !before.failures.contains_key(path)
        && !before.unattempted.contains(path) by {}
    assert forall|path: Seq<char>| deleted.contains(path) || absent.contains(path)
        || failed.contains(path) implies #[trigger] batch.contains(path) by {
        assert(answered.contains(path));
    }

    assert((before.successes + deleted).no_duplicates()) by {
        assert forall|i: int, j: int|
            0 <= i < before.successes.len() && 0 <= j < deleted.len() implies before.successes[i]
            != deleted[j] by {
            assert(before.successes.contains(before.successes[i]));
            assert(deleted.contains(deleted[j]));
            assert(batch.contains(deleted[j]));
        }
        lemma_no_dup_in_concat(before.successes, deleted);
    }
    assert(after.successes.no_duplicates()) by {
        let first = before.successes + deleted;
        assert forall|i: int, j: int| 0 <= i < first.len() && 0 <= j < absent.len() implies first[i]
            != absent[j] by {
            assert(absent.contains(absent[j]));
            assert(batch.contains(absent[j]));
            assert(named.contains(absent[j]));
            lemma_concat_contains(before.successes, deleted, first[i]);
            assert(first.contains(first[i]));
        }
        lemma_no_dup_in_concat(first, absent);
    }

    let handled_after = run.paths.take(end);
    assert forall|path: Seq<char>| #[trigger] handled_after.contains(path) <==> (
    after.successes.contains(path) || after.failures.contains_key(path)
        || after.unattempted.contains(path)) by {
        lemma_concat_contains(handled, batch, path);
        lemma_concat_contains(before.successes, deleted, path);
        lemma_concat_contains(before.successes + deleted, absent, path);
        assert(answered.contains(path) <==> batch.contains(path));
        assert(handled.contains(path) <==> (before.successes.contains(path)
            || before.failures.contains_key(path) || before.unattempted.contains(path)));
    }
    assert forall|path: Seq<char>|
        !(#[trigger] after.successes.contains(path) && after.failures.contains_key(path)) by {
        lemma_concat_contains(before.successes, deleted, path);
        lemma_concat_contains(before.successes + deleted, absent, path);
        if after.successes.contains(path) && after.failures.contains_key(path) {
            if before.successes.contains(path) {
                assert(!before.failures.contains_key(path));
                assert(failed.contains(path));
                assert(batch.contains(path));
            } else {
                assert(batch.contains(path));
                assert(!before.failures.contains_key(path));
                assert(failed.contains(path));
                assert(named.contains(path));
            }
        }
    }
    assert forall|path: Seq<char>|
        !(#[trigger] after.successes.contains(path) && after.unattempted.contains(path)) by {
        lemma_concat_contains(before.successes, deleted, path);
        lemma_concat_contains(before.successes + deleted, absent, path);
        if after.successes.contains(path) && after.unattempted.contains(path) {
            if !before.successes.contains(path) {
                assert(batch.contains(path));
            }
        }
    }
    assert forall|path: Seq<char>|
        !(#[trigger] after.unattempted.contains(path) && after.failures.contains_key(path)) by {
        if after.unattempted.contains(path) && after.failures.contains_key(path) {
            assert(failed.contains(path));
            assert(batch.contains(path));
        }
    }
}

/// A batch call that fails as a whole keeps the account: afterwards every
/// path given is accounted for, those of the failed batch and of all later
/// batches as unattempted.
pub proof fn lemma_failed_call_keeps_account(run: BulkDeleteView, error: StorageErrorView)
    requires
        run.paths.no_duplicates(),
        run.next < run.paths.len(),
        accounts_for(run.outcome, run.paths.take(run.next as int)),
    ensures
        run.failed(error).is_done(),
        accounts_for(run.failed(error).outcome, run.paths),
{
    let before = run.outcome;
    let after = run.failed(error).outcome;
    let handled = run.paths.take(run.next as int);
    let len = run.paths.len() as int;
    let remaining = run.paths.subrange(run.next as int, len);
    lemma_split_at(run.paths, run.next as int, len);
    assert(run.paths.take(len) =~= run.paths);
    assert forall|path: Seq<char>| #[trigger] remaining.contains(path) implies !handled.contains(path)
        && !before.successes.contains(path) && !before.failures.contains_key(path)
        && !before.unattempted.contains(path) by {}
    assert(after.unattempted.no_duplicates()) by {
        assert forall|i: int, j: int|
            0 <= i < before.unattempted.len() && 0 <= j < remaining.len() implies before.unattempted[i]
            != remaining[j] by {
            assert(before.unattempted.contains(before.unattempted[i]));
            assert(remaining.contains(remaining[j]));
        }
        lemma_no_dup_in_concat(before.unattempted, remaining);
    }
    assert forall|path: Seq<char>| #[trigger] run.paths.contains(path) <==> (after.successes.contains(
        path,
    ) || after.failures.contains_key(path) || after.unattempted.contains(path)) by {
        lemma_concat_contains(handled, remaining, path);
        lemma_concat_contains(before.unattempted, remaining, path);
        assert(handled.contains(path) <==> (before.successes.contains(path)
            || before.failures.contains_key(path) || before.unattempted.contains(path)));
    }
    assert forall|path: Seq<char>|
        !(#[trigger] after.successes.contains(path) && after.unattempted.contains(path)) by {
        lemma_concat_contains(before.unattempted, remaining, path);
    }
    assert forall|path: Seq<char>|
        !(#[trigger] after.unattempted.contains(path) && after.failures.contains_key(path)) by {
        lemma_concat_contains(before.unattempted, remaining, path);
    }
}

/// The state of a run after the given batch calls, in order. Calls beyond the
/// end of the run are not made.
pub open spec fn after_calls(
    run: BulkDeleteView,
    calls: Seq<Result<DeleteObjectsOutputView, StorageErrorView>>,
) -> BulkDeleteView
    decreases calls.len(),
{
    if calls.len() == 0 || run.is_done() {
        run
    } else {
        let next = match calls[0] {
            Ok(output) => run.answered(output),
            Err(error) => run.failed(error),
        };
        after_calls(next, calls.drop_first())
    }
}

/// Every answer among the given batch calls answers exactly the batch that is
/// due when it comes.
pub open spec fn answers_every_batch(
    run: BulkDeleteView,
    calls: Seq<Result<DeleteObjectsOutputView, StorageErrorView>>,
) -> bool
    decreases calls.len(),
{
    if calls.len() == 0 || run.is_done() {
        true
    } else {
        match calls[0] {
            Ok(output) => answers_exactly(run.prefix, run.batch(), output) && answers_every_batch(
                run.answered(output),
                calls.drop_first(),
            ),
            Err(error) => answers_every_batch(run.failed(error), calls.drop_first()),
        }
    }
}

/// However a bulk delete of different paths goes, the paths dealt with are
/// accounted for, each exactly once, as long as every answer answers its batch
/// exactly. At the end of the run these are all the paths given.
pub proof fn lemma_run_accounts_for_every_path(
    prefix: Seq<char>,
    paths: Seq<Seq<char>>,
    batch_size: nat,
    calls: Seq<Result<DeleteObjectsOutputView, StorageErrorView>>,
)
    requires
        paths.no_duplicates(),
        batch_size > 0,
        answers_every_batch(BulkDeleteView::start(prefix, paths, batch_size), calls),
    ensures
        ({
            let end = after_calls(BulkDeleteView::start(prefix, paths, batch_size), calls);
            &&& end.paths == paths
            &&& end.next <= paths.len()
            &&& accounts_for(end.outcome, paths.take(end.next as int))
            &&& end.is_done() ==> accounts_for(end.outcome, paths)
        }),
{
    let start = BulkDeleteView::start(prefix, paths, batch_size);
    lemma_start_accounts_for_nothing(prefix, paths, batch_size);
    lemma_calls_keep_account(start, calls);
    let end = after_calls(start, calls);
    if end.is_done() {
        assert(paths.take(end.next as int) =~= paths);
    }
}

/// Batch calls keep the account, one after the other.
proof fn lemma_calls_keep_account(
    run: BulkDeleteView,
    calls: Seq<Result<DeleteObjectsOutputView, StorageErrorView>>,
)
    requires
        run.paths.no_duplicates(),
        run.batch_size > 0,
        run.next <= run.paths.len(),
        accounts_for(run.outcome, run.paths.take(run.next as int)),
        answers_every_batch(run, calls),
    ensures
        after_calls(run, calls).paths == run.paths,
        after_calls(run, calls).next <= run.paths.len(),
        accounts_for(
            after_calls(run, calls).outcome,
            run.paths.take(after_calls(run, calls).next as int),
        ),
    decreases calls.len(),
{
    if calls.len() == 0 || run.is_done() {
    } else {
        match calls[0] {
            Ok(output) => {
                lemma_answer_keeps_account(run, output);
                lemma_calls_keep_account(run.answered(output), calls.drop_first());
            },
            Err(error) => {
                lemma_failed_call_keeps_account(run, error);
                assert(run.paths.take(run.paths.len() as int) =~= run.paths);
                lemma_calls_keep_account(run.failed(error), calls.drop_first());
            },
        }
    }
}

/// Sorting in the objects reported as deleted adds their paths to the
/// successes, in order, and changes nothing else.
pub proof fn lemma_with_deleted(outcome: BulkDeleteOutcome, prefix: Seq<char>, deleted: Seq<Option<Seq<char>>>)
    ensures
        outcome.with_deleted(prefix, deleted) == (BulkDeleteOutcome {
            successes: outcome.successes + deleted_paths(prefix, deleted),
            ..outcome
        }),
    decreases deleted.len(),
{
    if deleted.len() == 0 {
        assert(outcome.successes + deleted_paths(prefix, deleted) =~= outcome.successes);
    } else {
        lemma_with_deleted(outcome, prefix, deleted.drop_last());
        let before = deleted_paths(prefix, deleted.drop_last());
        match deleted.last() {
            Some(key) => {
                assert((outcome.successes + before).push(strip_spec(prefix, key))
                    =~= outcome.successes + before.push(strip_spec(prefix, key)));
            },
            None => {},
        }
    }
}

/// Sorting in the reported errors adds the paths of the objects that were
/// absent already to the successes, in order, makes every other path that is
/// named a failure, and changes nothing else.
pub proof fn lemma_with_errors(outcome: BulkDeleteOutcome, prefix: Seq<char>, errors: Seq<ObjectErrorView>)
    ensures
        outcome.with_errors(prefix, errors).successes == outcome.successes + absent_paths(
            prefix,
            errors,
        ),
        outcome.with_errors(prefix, errors).unattempted == outcome.unattempted,
        outcome.with_errors(prefix, errors).error == outcome.error,
        forall|path: Seq<char>|
            #[trigger] outcome.with_errors(prefix, errors).failures.contains_key(path) <==> (
            outcome.failures.contains_key(path) || failed_paths(prefix, errors).contains(path)),
    decreases errors.len(),
{
    if errors.len() == 0 {
        assert(outcome.successes + absent_paths(prefix, errors) =~= outcome.successes);
    } else {
        let rest = errors.drop_last();
        lemma_with_errors(outcome, prefix, rest);
        let folded = outcome.with_errors(prefix, rest);
        let absent = absent_paths(prefix, rest);
        let failed = failed_paths(prefix, rest);
        match errors.last().key {
            Some(key) => {
                let path = strip_spec(prefix, key);
                if is_absent(errors.last()) {
                    assert((outcome.successes + absent).push(path) =~= outcome.successes
                        + absent.push(path));
                } else {
                    assert forall|other: Seq<char>|
                        #[trigger] folded.with_error(prefix, errors.last()).failures.contains_key(
                            other,
                        ) <==> (outcome.failures.contains_key(other) || failed.push(path).contains(
                            other,
                        )) by {
                        lemma_push_contains(failed, path, other);
                    }
                }
            },
            None => {},
        }
    }
}

/// Every path that the errors name is that of an object absent already or of
/// one not deleted. Where no path is named twice, none is both, and none is
/// absent twice.
pub proof fn lemma_error_paths_split(prefix: Seq<char>, errors: Seq<ObjectErrorView>)
    ensures
        forall|path: Seq<char>|
            #[trigger] error_paths(prefix, errors).contains(path) <==> (absent_paths(
                prefix,
                errors,
            ).contains(path) || failed_paths(prefix, errors).contains(path)),
        error_paths(prefix, errors).no_duplicates() ==> absent_paths(prefix, errors).no_duplicates()
            && forall|path: Seq<char>|
            !(#[trigger] absent_paths(prefix, errors).contains(path) && failed_paths(
                prefix,
                errors,
            ).contains(path)),
    decreases errors.len(),
{
    let named = error_paths(prefix, errors);
    let absent = absent_paths(prefix, errors);
    let failed = failed_paths(prefix, errors);
    if errors.len() == 0 {
        assert forall|path: Seq<char>| !named.contains(path) && !absent.contains(path)
            && !failed.contains(path) by {}
    } else {
        let rest = errors.drop_last();
        lemma_error_paths_split(prefix, rest);
        let named_rest = error_paths(prefix, rest);
        let absent_rest = absent_paths(prefix, rest);
        let failed_rest = failed_paths(prefix, rest);
        match errors.last().key {
            Some(key) => {
                let new = strip_spec(prefix, key);
                assert forall|path: Seq<char>| #[trigger] named.contains(path) <==> (absent.contains(
                    path,
                ) || failed.contains(path)) by {
                    lemma_push_contains(named_rest, new, path);
                    lemma_push_contains(absent_rest, new, path);
                    lemma_push_contains(failed_rest, new, path);
                }
                if named.no_duplicates() {
                    lemma_push_no_dup(named_rest, new);
                    assert(!absent_rest.contains(new) && !failed_rest.contains(new));
                    if is_absent(errors.last()) {
                        lemma_push_no_dup(absent_rest, new);
                    }
                    assert forall|path: Seq<char>|
                        !(#[trigger] absent.contains(path) && failed.contains(path)) by {
                        lemma_push_contains(absent_rest, new, path);
                        lemma_push_contains(failed_rest, new, path);
                    }
                }
            },
            None => {},
        }
    }
}

/// What a sequence holds after a push: what it held, and the value pushed.
proof fn lemma_push_contains<A>(s: Seq<A>, value: A, other: A)
    ensures
        s.push(value).contains(other) <==> (s.contains(other) || other == value),
{
    if s.contains(other) {
        let i = choose|i: int| 0 <= i < s.len() && s[i] == other;
        assert(s.push(value)[i] == other);
    }
    if other == value {
        assert(s.push(value)[s.len() as int] == other);
    }
    if s.push(value).contains(other) {
        let i = choose|i: int| 0 <= i < s.push(value).len() && s.push(value)[i] == other;
        if i < s.len() {
            assert(s[i] == other);
        }
    }
}

/// What a concatenation holds: what either part holds.
proof fn lemma_concat_contains<A>(a: Seq<A>, b: Seq<A>, value: A)
    ensures
        (a + b).contains(value) <==> (a.contains(value) || b.contains(value)),
{
    if a.contains(value) {
        let i = choose|i: int| 0 <= i < a.len() && a[i] == value;
        assert((a + b)[i] == value);
    }
    if b.contains(value) {
        let i = choose|i: int| 0 <= i < b.len() && b[i] == value;
        assert((a + b)[a.len() + i] == value);
    }
    if (a + b).contains(value) {
        let i = choose|i: int| 0 <= i < (a + b).len() && (a + b)[i] == value;
        if i < a.len() {
            assert(a[i] == value);
        } else {
            assert(b[i - a.len()] == value);
        }
    }
}

/// A sequence without duplicates stays so after a push exactly when it did
/// not hold the value pushed.
proof fn lemma_push_no_dup<A>(s: Seq<A>, value: A)
    ensures
        s.push(value).no_duplicates() <==> (s.no_duplicates() && !s.contains(value)),
{
    let pushed = s.push(value);
    if pushed.no_duplicates() {
        assert forall|i: int, j: int| 0 <= i < s.len() && 0 <= j < s.len() && i != j implies s[i]
            != s[j] by {
            assert(pushed[i] == s[i] && pushed[j] == s[j]);
        }
        if s.contains(value) {
            let i = choose|i: int| 0 <= i < s.len() && s[i] == value;
            assert(pushed[i] == pushed[s.len() as int]);
        }
    }
    if s.no_duplicates() && !s.contains(value) {
        assert forall|i: int, j: int|
            0 <= i < pushed.len() && 0 <= j < pushed.len() && i != j implies pushed[i]
            != pushed[j] by {
            if i < s.len() {
                assert(s.contains(s[i]));
            }
            if j < s.len() {
                assert(s.contains(s[j]));
            }
        }
    }
}

/// Where a concatenation has no duplicates, neither part has, and the parts
/// share no value.
proof fn lemma_parts_of_no_dup_concat<A>(a: Seq<A>, b: Seq<A>)
    requires
        (a + b).no_duplicates(),
    ensures
        a.no_duplicates(),
        b.no_duplicates(),
        forall|value: A| !(#[trigger] a.contains(value) && b.contains(value)),
{
    let whole = a + b;
    assert forall|i: int, j: int| 0 <= i < a.len() && 0 <= j < a.len() && i != j implies a[i]
        != a[j] by {
        assert(whole[i] == a[i] && whole[j] == a[j]);
    }
    assert forall|i: int, j: int| 0 <= i < b.len() && 0 <= j < b.len() && i != j implies b[i]
        != b[j] by {
        assert(whole[a.len() + i] == b[i] && whole[a.len() + j] == b[j]);
    }
    assert forall|value: A| !(#[trigger] a.contains(value) && b.contains(value)) by {
        if a.contains(value) && b.contains(value) {
            let i = choose|i: int| 0 <= i < a.len() && a[i] == value;
            let j = choose|j: int| 0 <= j < b.len() && b[j] == value;
            assert(whole[i] == whole[a.len() + j]);
        }
    }
}

/// A sequence without duplicates, cut in two: what comes before the cut and
/// what comes after it, up to `end`, make up what comes before `end`, and share
/// no value.
proof fn lemma_split_at<A>(s: Seq<A>, cut: int, end: int)
    requires
        s.no_duplicates(),
        0 <= cut <= end <= s.len(),
    ensures
        s.take(end) == s.take(cut) + s.subrange(cut, end),
        forall|value: A| !(#[trigger] s.subrange(cut, end).contains(value) && s.take(cut).contains(value)),
{
    assert(s.take(end) =~= s.take(cut) + s.subrange(cut, end));
    assert forall|value: A|
        !(#[trigger] s.subrange(cut, end).contains(value) && s.take(cut).contains(value)) by {
        if s.subrange(cut, end).contains(value) && s.take(cut).contains(value) {
            let i = choose|i: int| 0 <= i < end - cut && s.subrange(cut, end)[i] == value;
            let j = choose|j: int| 0 <= j < cut && s.take(cut)[j] == value;
            assert(s[cut + i] == s[j]);
        }
    }
}

} // verus!
