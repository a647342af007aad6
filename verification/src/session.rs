//! What the protocol of an engine comes to, from the making of the working
//! file to the end of a commit, in the model of files of [`crate::store`].
//!
//! A commit is run against the outcomes of its renames: a rename that
//! succeeds moves the working file onto the target, one that fails leaves
//! every file as it was.

use vstd::prelude::*;
use crate::engine::{writer_options, AttemptView, PhazerView, StepView};
use crate::path::lemma_working_paths_distinct;
use crate::store::{entry, opened, removed, renamed, written, Store};
use crate::strategy::{
    base_sleep,
    lemma_base_sleep,
    lemma_retry_while_denied,
    triangle,
    CommitStrategy,
    RenameError,
    RenameWithRetryStrategy,
    Verdict,
};

verus! {

/// How far a commit has come.
pub struct Run<S> {
    /// The step that is due: a rename if the outcomes ran out before the
    /// commit was over, else the step on which the commit ended.
    pub step: StepView<S>,
    /// The files as the commit has left them.
    pub store: Store,
    /// The number of renames that were made.
    pub renames: nat,
    /// The time that was spent waiting between them, in milliseconds.
    pub waited_ms: nat,
}

/// Carries out `step` and the steps that follow it, for as long as
/// `outcomes` says how the renames end.
///
/// Before each rename the wait of its step passes. The working file of an
/// engine that is given up is removed.
pub open spec fn run<S: CommitStrategy>(
    step: StepView<S>,
    store: Store,
    outcomes: Seq<Result<(), RenameError>>,
) -> Run<S>
    decreases outcomes.len(),
{
    match step {
        StepView::Rename { wait_ms, attempt } => if outcomes.len() == 0 {
            Run { step, store, renames: 0, waited_ms: 0 }
        } else {
            let after = match outcomes[0] {
                Ok(_) => renamed(store, attempt.phazer.working_path, attempt.phazer.target_path),
                Err(_) => store,
            };
            let rest = run(attempt.report(outcomes[0]), after, outcomes.drop_first());
            Run {
                step: rest.step,
                store: rest.store,
                renames: rest.renames + 1,
                waited_ms: rest.waited_ms + wait_ms as nat,
            }
        },
        StepView::Abandoned { working_path, error } => Run {
            step,
            store: removed(store, working_path),
            renames: 0,
            waited_ms: 0,
        },
        _ => Run { step, store, renames: 0, waited_ms: 0 },
    }
}

/// The commit of an engine that no writer was ever asked of succeeds at
/// once, without a rename and without a change to any file.
pub proof fn lemma_commit_without_writer<S: CommitStrategy>(
    phazer: PhazerView<S>,
    recoverable: bool,
    store: Store,
    outcomes: Seq<Result<(), RenameError>>,
)
    requires
        !phazer.file_created,
    ensures
        run(phazer.begin(recoverable), store, outcomes) == (Run {
            step: StepView::<S>::Committed,
            store,
            renames: 0,
            waited_ms: 0,
        }),
{
}

/// The files after one writer after the other has opened the file at `path`
/// and left it with the next of `contents`; the first of them is the first
/// writer of its engine if `first` says so.
pub open spec fn worked(store: Store, path: Seq<u8>, first: bool, contents: Seq<Seq<u8>>) -> Store
    decreases contents.len(),
{
    if contents.len() == 0 {
        store
    } else {
        written(
            opened(
                worked(store, path, first, contents.drop_last()),
                path,
                writer_options(first && contents.len() == 1),
            ),
            path,
            contents.last(),
        )
    }
}

/// Writers leave the file at their path with what the last of them wrote,
/// and every other file as it was.
pub proof fn lemma_worked(store: Store, path: Seq<u8>, first: bool, contents: Seq<Seq<u8>>)
    ensures
        contents.len() == 0 ==> worked(store, path, first, contents) == store,
        contents.len() > 0 ==> worked(store, path, first, contents) == store.insert(
            path,
            contents.last(),
        ),
    decreases contents.len(),
{
    if contents.len() > 0 {
        lemma_worked(store, path, first, contents.drop_last());
        assert(worked(store, path, first, contents) =~= store.insert(path, contents.last()));
    }
}

/// Writing through a writer touches the working file alone: what stands at
/// the target stays as it is, and so does what stands at any third path.
pub proof fn lemma_writing_is_private<S: CommitStrategy>(
    phazer: PhazerView<S>,
    store: Store,
    content: Seq<u8>,
)
    requires
        phazer.wf(),
    ensures
        ({
            let working = phazer.working_path;
            let open = opened(store, working, writer_options(!phazer.file_created));
            let full = written(store, working, content);
            &&& entry(open, phazer.target_path) == entry(store, phazer.target_path)
            &&& entry(full, phazer.target_path) == entry(store, phazer.target_path)
            &&& forall|other: Seq<u8>|
                other != working ==> #[trigger] entry(open, other) == entry(store, other)
            &&& forall|other: Seq<u8>|
                other != working ==> #[trigger] entry(full, other) == entry(store, other)
        }),
{
    phazer.lemma_paths_differ();
}

/// An engine that is given up leaves no trace, however many writers it
/// handed out and whatever they wrote: the working file is gone, the target
/// is as it was, neither made nor changed, and so is every other file. With
/// a working path that was free before, the files are what they were before
/// the engine came.
pub proof fn lemma_abandonment_leaves_no_trace<S: CommitStrategy>(
    phazer: PhazerView<S>,
    store: Store,
    contents: Seq<Seq<u8>>,
)
    requires
        phazer.wf(),
    ensures
        ({
            let working = phazer.working_path;
            let made = worked(store, working, !phazer.file_created, contents);
            let end = removed(made, working);
            &&& end == removed(store, working)
            &&& entry(end, working) is None
            &&& entry(end, phazer.target_path) == entry(store, phazer.target_path)
            &&& forall|other: Seq<u8>|
                other != working ==> #[trigger] entry(end, other) == entry(store, other)
            &&& !store.dom().contains(working) ==> end == store
        }),
{
    phazer.lemma_paths_differ();
    let working = phazer.working_path;
    lemma_worked(store, working, !phazer.file_created, contents);
    let made = worked(store, working, !phazer.file_created, contents);
    assert(removed(made, working) =~= removed(store, working));
    if !store.dom().contains(working) {
        assert(removed(store, working) =~= store);
    }
}

/// The round trip: after a first writer has left the working file with
/// `content` and the rename of the commit has succeeded, the target holds
/// exactly `content`, the working file is gone, and no third file has
/// changed.
pub proof fn lemma_round_trip<S: CommitStrategy>(
    phazer: PhazerView<S>,
    recoverable: bool,
    store: Store,
    content: Seq<u8>,
    outcomes: Seq<Result<(), RenameError>>,
)
    requires
        phazer.wf(),
        outcomes.len() >= 1,
        outcomes[0] is Ok,
    ensures
        ({
            let working = phazer.working_path;
            let made = written(
                opened(store, working, writer_options(!phazer.file_created)),
                working,
                content,
            );
            let end = run(phazer.written().begin(recoverable), made, outcomes);
            &&& end.step == StepView::<S>::Committed
            &&& end.renames == 1
            &&& end.waited_ms == 0
            &&& entry(end.store, phazer.target_path) == Some(content)
            &&& entry(end.store, working) is None
            &&& end.store == store.remove(working).insert(phazer.target_path, content)
        }),
{
    phazer.lemma_paths_differ();
    let working = phazer.working_path;
    let made = written(
        opened(store, working, writer_options(!phazer.file_created)),
        working,
        content,
    );
    let attempt = AttemptView { phazer: phazer.written(), tries: 1, recoverable };
    assert(attempt.report(outcomes[0]) == StepView::<S>::Committed);
    let after = renamed(made, working, phazer.target_path);
    assert(run(StepView::<S>::Committed, after, outcomes.drop_first()).store == after);
    assert(after =~= store.remove(working).insert(phazer.target_path, content));
}

/// Two round trips in a row: when a second engine for the same target
/// publishes `later` after a first has published `earlier`, the target holds
/// exactly `later`, and the working file of neither engine is left.
pub proof fn lemma_two_round_trips<S: CommitStrategy>(
    first: PhazerView<S>,
    second: PhazerView<S>,
    store: Store,
    earlier: Seq<u8>,
    later: Seq<u8>,
)
    requires
        first.wf(),
        second.wf(),
        second.target_path == first.target_path,
        second.process_id != first.process_id || second.phazer_id != first.phazer_id,
    ensures
        ({
            let once = seq![Ok::<(), RenameError>(())];
            let made = written(
                opened(store, first.working_path, writer_options(!first.file_created)),
                first.working_path,
                earlier,
            );
            let between = run(first.written().begin(false), made, once).store;
            let made_again = written(
                opened(between, second.working_path, writer_options(!second.file_created)),
                second.working_path,
                later,
            );
            let end = run(second.written().begin(false), made_again, once).store;
            &&& entry(between, first.target_path) == Some(earlier)
            &&& entry(end, first.target_path) == Some(later)
            &&& entry(end, first.working_path) is None
            &&& entry(end, second.working_path) is None
        }),
{
    let once = seq![Ok::<(), RenameError>(())];
    lemma_round_trip(first, false, store, earlier, once);
    let made = written(
        opened(store, first.working_path, writer_options(!first.file_created)),
        first.working_path,
        earlier,
    );
    let between = run(first.written().begin(false), made, once).store;
    lemma_round_trip(second, false, between, later, once);
    first.lemma_paths_differ();
    lemma_working_paths_distinct(
        first.target_path,
        first.process_id,
        first.phazer_id,
        second.process_id,
        second.phazer_id,
    );
}

/// The number of renames that a commit can still make when rename number
/// `tries` is due, under a strategy that gives up after `max_tries`.
pub open spec fn renames_left(max_tries: u64, tries: u64) -> nat {
    if tries < max_tries {
        (max_tries - tries + 1) as nat
    } else {
        1
    }
}

/// Every commit comes to an end: from the step at which rename number
/// `tries` is due it makes no more renames than the strategy allows, and
/// once that many outcomes are known no rename is left to do.
pub proof fn lemma_commit_ends<S: CommitStrategy>(
    wait_ms: u64,
    attempt: AttemptView<S>,
    store: Store,
    outcomes: Seq<Result<(), RenameError>>,
)
    ensures
        ({
            let end = run(StepView::Rename { wait_ms, attempt }, store, outcomes);
            let left = renames_left(attempt.phazer.commit_strategy.max_tries(), attempt.tries);
            &&& end.renames <= left
            &&& end.renames <= outcomes.len()
            &&& outcomes.len() >= left ==> !(end.step is Rename)
        }),
    decreases outcomes.len(),
{
    reveal_with_fuel(run, 2);
    if outcomes.len() > 0 {
        let strategy = attempt.phazer.commit_strategy;
        match outcomes[0] {
            Ok(_) => {},
            Err(error) => {
                match strategy.verdict(attempt.phazer.phazer_id, attempt.tries, error) {
                    Verdict::RetryAfter(next_wait) => {
                        if attempt.tries >= strategy.max_tries() {
                            strategy.lemma_gives_up(attempt.phazer.phazer_id, attempt.tries, error);
                        }
                        let next = AttemptView { tries: (attempt.tries + 1) as u64, ..attempt };
                        lemma_commit_ends(next_wait, next, store, outcomes.drop_first());
                    },
                    Verdict::Fail => {},
                }
            },
        }
    }
}

/// At every point of a commit the target holds either what it held before
/// the commit, or the whole of what the working file held: there is no
/// point at which it holds a part of it, or is missing where it was there
/// before. As `outcomes` may stop anywhere, this speaks of every moment
/// between two renames.
pub proof fn lemma_target_is_old_or_new<S: CommitStrategy>(
    wait_ms: u64,
    attempt: AttemptView<S>,
    store: Store,
    outcomes: Seq<Result<(), RenameError>>,
)
    requires
        attempt.phazer.wf(),
        store.dom().contains(attempt.phazer.working_path),
    ensures
        ({
            let end = run(StepView::Rename { wait_ms, attempt }, store, outcomes);
            let target = attempt.phazer.target_path;
            ||| entry(end.store, target) == entry(store, target)
            ||| entry(end.store, target) == Some(store[attempt.phazer.working_path])
        }),
    decreases outcomes.len(),
{
    reveal_with_fuel(run, 2);
    attempt.phazer.lemma_paths_differ();
    if outcomes.len() > 0 {
        match outcomes[0] {
            Ok(_) => {},
            Err(error) => {
                match attempt.phazer.commit_strategy.verdict(
                    attempt.phazer.phazer_id,
                    attempt.tries,
                    error,
                ) {
                    Verdict::RetryAfter(next_wait) => {
                        let next = AttemptView { tries: (attempt.tries + 1) as u64, ..attempt };
                        lemma_target_is_old_or_new(next_wait, next, store, outcomes.drop_first());
                    },
                    Verdict::Fail => {},
                }
            },
        }
    }
}

/// A recoverable commit never gives the engine up, and where it fails it
/// hands back the very engine it was started on and has changed no file:
/// the working file is still there, byte for byte. The error it fails with
/// is the error of the last rename.
pub proof fn lemma_failure_keeps_everything<S: CommitStrategy>(
    wait_ms: u64,
    attempt: AttemptView<S>,
    store: Store,
    outcomes: Seq<Result<(), RenameError>>,
)
    requires
        attempt.recoverable,
    ensures
        ({
            let end = run(StepView::Rename { wait_ms, attempt }, store, outcomes);
            &&& !(end.step is Abandoned)
            &&& end.step matches StepView::Failed { phazer, error } ==> {
                &&& phazer == attempt.phazer
                &&& end.store == store
                &&& 1 <= end.renames <= outcomes.len()
                &&& outcomes[end.renames - 1] == Err::<(), RenameError>(error)
            }
        }),
    decreases outcomes.len(),
{
    reveal_with_fuel(run, 2);
    if outcomes.len() > 0 {
        match outcomes[0] {
            Ok(_) => {},
            Err(error) => {
                match attempt.phazer.commit_strategy.verdict(
                    attempt.phazer.phazer_id,
                    attempt.tries,
                    error,
                ) {
                    Verdict::RetryAfter(next_wait) => {
                        let next = AttemptView { tries: (attempt.tries + 1) as u64, ..attempt };
                        let rest = outcomes.drop_first();
                        lemma_failure_keeps_everything(next_wait, next, store, rest);
                        let end = run(StepView::Rename { wait_ms: next_wait, attempt: next }, store, rest);
                        if end.step is Failed {
                            assert(rest[end.renames - 1] == outcomes[end.renames as int]);
                        }
                    },
                    Verdict::Fail => {},
                }
            },
        }
    }
}

/// A commit that has failed can be made again: once whatever stood in the
/// way is gone and the rename succeeds, the engine that came back publishes
/// what the first commit would have published, had its first rename
/// succeeded. What was done to other files in between does not matter.
pub proof fn lemma_commit_after_failure<S: CommitStrategy>(
    phazer: PhazerView<S>,
    store: Store,
    failing: Seq<Result<(), RenameError>>,
    recovered: Store,
    recoverable: bool,
    succeeding: Seq<Result<(), RenameError>>,
)
    requires
        phazer.wf(),
        phazer.file_created,
        store.dom().contains(phazer.working_path),
        run(phazer.begin(true), store, failing).step is Failed,
        entry(recovered, phazer.working_path) == entry(store, phazer.working_path),
        succeeding.len() >= 1,
        succeeding[0] is Ok,
    ensures
        ({
            let first = run(phazer.begin(true), store, failing);
            let second = run(first.step->Failed_phazer.begin(recoverable), recovered, succeeding);
            let at_once = run(phazer.begin(true), store, seq![Ok(())]);
            &&& first.step->Failed_phazer == phazer
            &&& first.store == store
            &&& second.step == StepView::<S>::Committed
            &&& entry(second.store, phazer.target_path) == Some(store[phazer.working_path])
            &&& entry(second.store, phazer.target_path) == entry(at_once.store, phazer.target_path)
            &&& entry(second.store, phazer.working_path) is None
        }),
{
    phazer.lemma_paths_differ();
    let attempt = AttemptView { phazer, tries: 1, recoverable: true };
    lemma_failure_keeps_everything(0, attempt, store, failing);
    let again = AttemptView { phazer, tries: 1, recoverable };
    assert(again.report(succeeding[0]) == StepView::<S>::Committed);
    let after = renamed(recovered, phazer.working_path, phazer.target_path);
    assert(run(StepView::<S>::Committed, after, succeeding.drop_first()).store == after);
    let once = seq![Ok::<(), RenameError>(())];
    assert(attempt.report(once[0]) == StepView::<S>::Committed);
    let direct = renamed(store, phazer.working_path, phazer.target_path);
    assert(run(StepView::<S>::Committed, direct, once.drop_first()).store == direct);
}

/// While the target stays denied, a commit under [`RenameWithRetryStrategy`]
/// that is about to make rename number `tries` makes every rename up to the
/// seventh, waits the first wait times its number after each but the last,
/// and then fails.
pub proof fn lemma_denied_from(
    phazer: PhazerView<RenameWithRetryStrategy>,
    recoverable: bool,
    tries: u64,
    wait_ms: u64,
    store: Store,
    outcomes: Seq<Result<(), RenameError>>,
)
    requires
        1 <= tries <= 7,
        outcomes.len() >= 8 - tries,
        forall|i: int| 0 <= i < 8 - tries ==> outcomes[i] == Err::<(), RenameError>(
            RenameError::PermissionDenied,
        ),
    ensures
        ({
            let attempt = AttemptView { phazer, tries, recoverable };
            let end = run(StepView::Rename { wait_ms, attempt }, store, outcomes);
            &&& end.renames == 8 - tries
            &&& end.waited_ms == wait_ms + base_sleep(phazer.phazer_id) * (triangle(6) - triangle(
                (tries - 1) as nat,
            ))
            &&& recoverable ==> end.step == (StepView::Failed {
                phazer,
                error: RenameError::PermissionDenied,
            }) && end.store == store
            &&& !recoverable ==> end.step == (StepView::<RenameWithRetryStrategy>::Abandoned {
                working_path: phazer.working_path,
                error: RenameError::PermissionDenied,
            }) && end.store == removed(store, phazer.working_path)
        }),
    decreases 7 - tries,
{
    reveal_with_fuel(run, 2);
    let base = base_sleep(phazer.phazer_id);
    let attempt = AttemptView { phazer, tries, recoverable };
    lemma_retry_while_denied(phazer.phazer_id, tries);
    assert(outcomes[0] == Err::<(), RenameError>(RenameError::PermissionDenied));
    if tries < 7 {
        let next_wait = (base * tries) as u64;
        let rest = outcomes.drop_first();
        assert forall|i: int| 0 <= i < 8 - (tries + 1) implies rest[i] == Err::<(), RenameError>(
            RenameError::PermissionDenied,
        ) by {
            assert(rest[i] == outcomes[i + 1]);
        }
        lemma_denied_from(phazer, recoverable, (tries + 1) as u64, next_wait, store, rest);
        assert(triangle(tries as nat) == tries + triangle((tries - 1) as nat));
        let all = triangle(6) as int;
        let upto = triangle(tries as nat) as int;
        let before = triangle((tries - 1) as nat) as int;
        assert(base * tries + base * (all - upto) == base * (all - before)) by (nonlinear_arith)
            requires
                upto == tries + before,
        ;
    } else {
        assert(triangle(6) - triangle(6) == 0);
        assert(base * 0 == 0);
    }
}

/// A denial that clears in time: when the renames of a commit under
/// [`RenameWithRetryStrategy`] are denied `denials` times, from rename number
/// `tries` on, and the next one succeeds before the seventh is over, the
/// commit succeeds. The working file is then at the target, and the commit
/// has waited the first wait times its number after each denial.
pub proof fn lemma_cleared_from(
    phazer: PhazerView<RenameWithRetryStrategy>,
    recoverable: bool,
    tries: u64,
    wait_ms: u64,
    store: Store,
    outcomes: Seq<Result<(), RenameError>>,
    denials: nat,
)
    requires
        1 <= tries,
        tries + denials <= 7,
        outcomes.len() > denials,
        forall|i: int| 0 <= i < denials ==> outcomes[i] == Err::<(), RenameError>(
            RenameError::PermissionDenied,
        ),
        outcomes[denials as int] is Ok,
    ensures
        ({
            let attempt = AttemptView { phazer, tries, recoverable };
            let end = run(StepView::Rename { wait_ms, attempt }, store, outcomes);
            &&& end.step == StepView::<RenameWithRetryStrategy>::Committed
            &&& end.renames == denials + 1
            &&& end.waited_ms == wait_ms + base_sleep(phazer.phazer_id) * (triangle(
                (tries + denials - 1) as nat,
            ) - triangle((tries - 1) as nat))
            &&& end.store == renamed(store, phazer.working_path, phazer.target_path)
        }),
    decreases denials,
{
    reveal_with_fuel(run, 2);
    let base = base_sleep(phazer.phazer_id);
    if denials > 0 {
        lemma_retry_while_denied(phazer.phazer_id, tries);
        assert(outcomes[0] == Err::<(), RenameError>(RenameError::PermissionDenied));
        let next_wait = (base * tries) as u64;
        let rest = outcomes.drop_first();
        let fewer = (denials - 1) as nat;
        assert forall|i: int| 0 <= i < fewer implies rest[i] == Err::<(), RenameError>(
            RenameError::PermissionDenied,
        ) by {
            assert(rest[i] == outcomes[i + 1]);
        }
        assert(rest[fewer as int] == outcomes[denials as int]);
        lemma_cleared_from(phazer, recoverable, (tries + 1) as u64, next_wait, store, rest, fewer);
        assert(triangle(tries as nat) == tries + triangle((tries - 1) as nat));
        let all = triangle((tries + denials - 1) as nat) as int;
        let upto = triangle(tries as nat) as int;
        let before = triangle((tries - 1) as nat) as int;
        assert(base * tries + base * (all - upto) == base * (all - before)) by (nonlinear_arith)
            requires
                upto == tries + before,
        ;
    } else {
        assert(base * 0 == 0);
    }
}

/// A denial that clears: a commit under [`RenameWithRetryStrategy`] whose
/// renames are denied up to six times and then succeed ends in success,
/// after one rename more than there were denials. The target then holds what
/// the working file held, and the working file is gone.
pub proof fn lemma_denial_that_clears(
    phazer: PhazerView<RenameWithRetryStrategy>,
    recoverable: bool,
    store: Store,
    outcomes: Seq<Result<(), RenameError>>,
    denials: nat,
)
    requires
        phazer.wf(),
        phazer.file_created,
        store.dom().contains(phazer.working_path),
        denials <= 6,
        outcomes.len() > denials,
        forall|i: int| 0 <= i < denials ==> outcomes[i] == Err::<(), RenameError>(
            RenameError::PermissionDenied,
        ),
        outcomes[denials as int] is Ok,
    ensures
        ({
            let end = run(phazer.begin(recoverable), store, outcomes);
            &&& end.step == StepView::<RenameWithRetryStrategy>::Committed
            &&& end.renames == denials + 1
            &&& end.waited_ms == base_sleep(phazer.phazer_id) * triangle(denials)
            &&& end.waited_ms <= 1176
            &&& entry(end.store, phazer.target_path) == Some(store[phazer.working_path])
            &&& entry(end.store, phazer.working_path) is None
        }),
{
    lemma_cleared_from(phazer, recoverable, 1, 0, store, outcomes, denials);
    phazer.lemma_paths_differ();
    lemma_base_sleep(phazer.phazer_id);
    assert(triangle(0) == 0);
    lemma_triangle_grows(denials, 6);
    assert(triangle(6) == 21) by {
        reveal_with_fuel(triangle, 7);
    }
    let base = base_sleep(phazer.phazer_id) as int;
    let sum = triangle(denials) as int;
    assert(base * sum <= 56 * 21) by (nonlinear_arith)
        requires
            0 <= base <= 56,
            0 <= sum <= 21,
    ;
}

/// The sums `1 + 2 + ... + n` grow with `n`.
pub proof fn lemma_triangle_grows(fewer: nat, more: nat)
    requires
        fewer <= more,
    ensures
        triangle(fewer) <= triangle(more),
    decreases more,
{
    if fewer < more {
        lemma_triangle_grows(fewer, (more - 1) as nat);
    }
}

/// A denial that never clears: a commit under [`RenameWithRetryStrategy`]
/// makes exactly seven renames and then fails. Between them it waits 21
/// times its first wait in all, which is between 231 and 1176 milliseconds,
/// as its jitter has it. No file has changed by then, but for the working
/// file of an engine that was given up.
pub proof fn lemma_denied_forever(
    phazer: PhazerView<RenameWithRetryStrategy>,
    recoverable: bool,
    store: Store,
    outcomes: Seq<Result<(), RenameError>>,
)
    requires
        phazer.file_created,
        outcomes.len() >= 7,
        forall|i: int| 0 <= i < 7 ==> outcomes[i] == Err::<(), RenameError>(
            RenameError::PermissionDenied,
        ),
    ensures
        ({
            let end = run(phazer.begin(recoverable), store, outcomes);
            &&& end.renames == 7
            &&& end.waited_ms == 21 * base_sleep(phazer.phazer_id)
            &&& 231 <= end.waited_ms <= 1176
            &&& recoverable ==> end.step == (StepView::Failed {
                phazer,
                error: RenameError::PermissionDenied,
            }) && end.store == store
            &&& !recoverable ==> end.step == (StepView::<RenameWithRetryStrategy>::Abandoned {
                working_path: phazer.working_path,
                error: RenameError::PermissionDenied,
            }) && end.store == removed(store, phazer.working_path)
        }),
{
    lemma_denied_from(phazer, recoverable, 1, 0, store, outcomes);
    lemma_base_sleep(phazer.phazer_id);
    assert(triangle(6) == 21) by {
        reveal_with_fuel(triangle, 7);
    }
    assert(triangle(0) == 0);
    let base = base_sleep(phazer.phazer_id);
    assert(base * (21 - 0) == 21 * base) by (nonlinear_arith);
}

/// What a commit that gives its engine up on failure comes to does not
/// depend on the files: the same outcomes lead to the same last step. If
/// that step is success, the working file has been renamed onto the target;
/// if the engine was given up, its working file has been removed; and as
/// long as a rename is due, no file has changed.
pub proof fn lemma_commit_changes<S: CommitStrategy>(
    wait_ms: u64,
    attempt: AttemptView<S>,
    store: Store,
    outcomes: Seq<Result<(), RenameError>>,
)
    requires
        !attempt.recoverable,
    ensures
        ({
            let step = StepView::Rename { wait_ms, attempt };
            let end = run(step, store, outcomes);
            let working = attempt.phazer.working_path;
            &&& end.step == run(step, Map::empty(), outcomes).step
            &&& !(end.step is Failed)
            &&& end.step is Committed ==> end.store == renamed(
                store,
                working,
                attempt.phazer.target_path,
            )
            &&& end.step is Abandoned ==> end.store == removed(store, working)
            &&& end.step is Rename ==> end.store == store
        }),
    decreases outcomes.len(),
{
    reveal_with_fuel(run, 2);
    if outcomes.len() > 0 {
        match outcomes[0] {
            Ok(_) => {},
            Err(error) => {
                match attempt.phazer.commit_strategy.verdict(
                    attempt.phazer.phazer_id,
                    attempt.tries,
                    error,
                ) {
                    Verdict::RetryAfter(next_wait) => {
                        let next = AttemptView { tries: (attempt.tries + 1) as u64, ..attempt };
                        lemma_commit_changes(next_wait, next, store, outcomes.drop_first());
                        lemma_commit_changes(next_wait, next, Map::empty(), outcomes.drop_first());
                    },
                    Verdict::Fail => {},
                }
            },
        }
    }
}

/// Whether the commit of `engine` succeeds when its renames end as
/// `outcomes` say.
pub open spec fn succeeds<S: CommitStrategy>(
    engine: PhazerView<S>,
    outcomes: Seq<Result<(), RenameError>>,
) -> bool {
    run(engine.begin(false), Map::empty(), outcomes).step is Committed
}

/// Whether the commit of `engine` is over when its renames have ended as
/// `outcomes` say.
pub open spec fn resolves<S: CommitStrategy>(
    engine: PhazerView<S>,
    outcomes: Seq<Result<(), RenameError>>,
) -> bool {
    !(run(engine.begin(false), Map::empty(), outcomes).step is Rename)
}

/// The files after the engines of `engines` have committed, each with the
/// outcomes that `outcomes` holds for it, the engines taken in the order in
/// which their last renames came.
pub open spec fn raced<S: CommitStrategy>(
    engines: Seq<PhazerView<S>>,
    outcomes: Seq<Seq<Result<(), RenameError>>>,
    store: Store,
) -> Store
    decreases engines.len(),
{
    if engines.len() == 0 {
        store
    } else {
        run(
            engines.last().begin(false),
            raced(engines.drop_last(), outcomes.drop_last(), store),
            outcomes.last(),
        ).store
    }
}

/// The engine whose commit succeeded last, if any did.
pub open spec fn winner<S: CommitStrategy>(
    engines: Seq<PhazerView<S>>,
    outcomes: Seq<Seq<Result<(), RenameError>>>,
) -> Option<int>
    decreases engines.len(),
{
    if engines.len() == 0 {
        None
    } else if succeeds(engines.last(), outcomes.last()) {
        Some(engines.len() - 1)
    } else {
        winner(engines.drop_last(), outcomes.drop_last())
    }
}

/// Whether `engines` are engines for `target`, each with its working file
/// in `store`, no two of them with the same process and serial number, and
/// `outcomes` takes the commit of each to its end.
pub open spec fn contenders<S: CommitStrategy>(
    engines: Seq<PhazerView<S>>,
    outcomes: Seq<Seq<Result<(), RenameError>>>,
    target: Seq<u8>,
    store: Store,
) -> bool {
    &&& outcomes.len() == engines.len()
    &&& forall|i: int|
        0 <= i < engines.len() ==> {
            &&& (#[trigger] engines[i]).wf()
            &&& engines[i].target_path == target
            &&& engines[i].file_created
            &&& store.dom().contains(engines[i].working_path)
            &&& resolves(engines[i], outcomes[i])
        }
    &&& forall|i: int, j: int|
        0 <= i < j < engines.len() ==> (#[trigger] engines[i]).process_id != (
        #[trigger] engines[j]).process_id || engines[i].phazer_id != engines[j].phazer_id
}

/// A race has one winner. When any number of engines for one target have
/// committed, some with success and some without, the target holds exactly
/// what the working file of the engine held whose rename succeeded last. If
/// no two engines wrote the same, it holds the content of that engine and of
/// no other. Where no commit succeeded the target is as it was. In every
/// case all the working files are gone, and no other file has changed.
pub proof fn lemma_race_has_one_winner<S: CommitStrategy>(
    engines: Seq<PhazerView<S>>,
    outcomes: Seq<Seq<Result<(), RenameError>>>,
    target: Seq<u8>,
    store: Store,
)
    requires
        contenders(engines, outcomes, target, store),
    ensures
        match winner(engines, outcomes) {
            Some(first) => {
                &&& 0 <= first < engines.len()
                &&& succeeds(engines[first], outcomes[first])
                &&& entry(raced(engines, outcomes, store), target) == Some(
                    store[engines[first].working_path],
                )
                &&& (forall|i: int, j: int|
                    0 <= i < j < engines.len() ==> store[(#[trigger] engines[i]).working_path]
                        != store[(#[trigger] engines[j]).working_path]) ==> forall|i: int|
                    0 <= i < engines.len() && i != first ==> entry(
                        raced(engines, outcomes, store),
                        target,
                    ) != Some(store[(#[trigger] engines[i]).working_path])
            },
            None => entry(raced(engines, outcomes, store), target) == entry(store, target),
        },
        forall|i: int|
            0 <= i < engines.len() ==> !raced(engines, outcomes, store).dom().contains(
                (#[trigger] engines[i]).working_path,
            ),
        forall|path: Seq<u8>|
            path != target && (forall|i: int|
                0 <= i < engines.len() ==> path != (#[trigger] engines[i]).working_path)
                ==> #[trigger] entry(raced(engines, outcomes, store), path) == entry(store, path),
    decreases engines.len(),
{
    if engines.len() > 0 {
        let earlier = engines.drop_last();
        let earlier_outcomes = outcomes.drop_last();
        let last = engines.last();
        let n = engines.len() - 1;
        assert(engines[n] == last);
        assert(outcomes[n] == outcomes.last());
        assert forall|i: int| 0 <= i < earlier.len() implies (#[trigger] earlier[i]).wf()
            && earlier[i].target_path == target && earlier[i].file_created && store.dom().contains(
            earlier[i].working_path,
        ) && resolves(earlier[i], earlier_outcomes[i]) by {
            assert(earlier[i] == engines[i]);
            assert(earlier_outcomes[i] == outcomes[i]);
        }
        assert forall|i: int, j: int| 0 <= i < j < earlier.len() implies (
        #[trigger] earlier[i]).process_id != (#[trigger] earlier[j]).process_id
            || earlier[i].phazer_id != earlier[j].phazer_id by {
            assert(earlier[i] == engines[i]);
            assert(earlier[j] == engines[j]);
        }
        lemma_race_has_one_winner(earlier, earlier_outcomes, target, store);
        let before = raced(earlier, earlier_outcomes, store);
        last.lemma_paths_differ();
        assert forall|i: int| 0 <= i < earlier.len() implies last.working_path != (
        #[trigger] earlier[i]).working_path by {
            assert(earlier[i] == engines[i]);
            lemma_working_paths_distinct(
                target,
                engines[i].process_id,
                engines[i].phazer_id,
                last.process_id,
                last.phazer_id,
            );
        }
        assert(entry(before, last.working_path) == entry(store, last.working_path));
        let attempt = AttemptView { phazer: last, tries: 1, recoverable: false };
        lemma_commit_changes(0, attempt, before, outcomes.last());
        let after = raced(engines, outcomes, store);
        assert(after == run(last.begin(false), before, outcomes.last()).store);
        assert(after == if succeeds(last, outcomes.last()) {
            renamed(before, last.working_path, target)
        } else {
            removed(before, last.working_path)
        });
        assert forall|i: int| 0 <= i < engines.len() implies !after.dom().contains(
            (#[trigger] engines[i]).working_path,
        ) by {
            if i < n {
                assert(earlier[i] == engines[i]);
                engines[i].lemma_paths_differ();
            }
        }
        assert forall|path: Seq<u8>|
            path != target && (forall|i: int|
                0 <= i < engines.len() ==> path != (#[trigger] engines[i]).working_path)
                implies #[trigger] entry(after, path) == entry(store, path) by {
            assert(path != engines[n].working_path);
            assert forall|i: int| 0 <= i < earlier.len() implies path != (
            #[trigger] earlier[i]).working_path by {
                assert(earlier[i] == engines[i]);
            }
            assert(entry(before, path) == entry(store, path));
        }
        if succeeds(last, outcomes.last()) {
            assert(winner(engines, outcomes) == Some(n));
        } else {
            assert(winner(engines, outcomes) == winner(earlier, earlier_outcomes));
            match winner(earlier, earlier_outcomes) {
                Some(first) => {
                    assert(earlier[first] == engines[first]);
                    assert(earlier_outcomes[first] == outcomes[first]);
                    if forall|i: int, j: int|
                        0 <= i < j < engines.len() ==> store[(#[trigger] engines[i]).working_path]
                            != store[(#[trigger] engines[j]).working_path] {
                        assert forall|i: int, j: int| 0 <= i < j < earlier.len() implies store[(
                        #[trigger] earlier[i]).working_path] != store[(
                        #[trigger] earlier[j]).working_path] by {
                            assert(earlier[i] == engines[i]);
                            assert(earlier[j] == engines[j]);
                        }
                        assert forall|i: int| 0 <= i < engines.len() && i != first implies entry(
                            after,
                            target,
                        ) != Some(store[(#[trigger] engines[i]).working_path]) by {
                            if i < n {
                                assert(earlier[i] == engines[i]);
                            } else {
                                assert(engines[first].working_path == earlier[first].working_path);
                            }
                        }
                    }
                },
                None => {},
            }
        }
    }
}

} // verus!
