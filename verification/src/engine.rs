//! The publish engine: one target path, its working path, and the protocol
//! that takes the working file to the target.
//!
//! The engine performs no I/O. [`Phazer::writer`] says how the working file
//! is to be opened; [`Phazer::commit`] and [`Phazer::commit2`] start a commit
//! and hand out its steps, each of which the caller carries out and reports
//! on with [`CommitAttempt::report`]; [`Phazer::abandon`] names the file to
//! remove when an engine is given up.

use vstd::prelude::*;
use crate::path::{lemma_working_path_differs, make_working_path, working_path};
use crate::strategy::{
    CommitDetails,
    CommitStrategy,
    RenameError,
    SimpleRenameStrategy,
    Verdict,
    SIMPLE_RENAME_STRATEGY,
};

verus! {

/// How the working file is to be opened for a writer.
#[derive(Clone, Copy, Debug, PartialEq, Eq, Structural)]
pub struct WriterOptions {
    /// Open for reading.
    pub read: bool,
    /// Open for writing.
    pub write: bool,
    /// Empty the file if it exists.
    pub truncate: bool,
    /// Create the file if it does not exist.
    pub create: bool,
}

/// The options for a writer: always read and write; for the first writer of
/// an engine also create and truncate.
pub open spec fn writer_options(first: bool) -> WriterOptions {
    WriterOptions { read: true, write: true, truncate: first, create: first }
}

/// An engine as a value of mathematics.
pub struct PhazerView<S> {
    /// Whether a writer has been handed out, and so a working file made.
    pub file_created: bool,
    /// The strategy that governs the commit.
    pub commit_strategy: S,
    /// The path of the working file.
    pub working_path: Seq<u8>,
    /// The path of the target file.
    pub target_path: Seq<u8>,
    /// The process that the engine was made in.
    pub process_id: u32,
    /// The serial number of the engine in its process; also its jitter.
    pub phazer_id: usize,
}

/// A commit under way, as a value of mathematics.
pub struct AttemptView<S> {
    /// The engine that is being committed.
    pub phazer: PhazerView<S>,
    /// The number of the rename that is due or under way, counted from 1.
    pub tries: u64,
    /// Whether a failure hands the engine back.
    pub recoverable: bool,
}

/// A step of a commit, as a value of mathematics.
pub enum StepView<S> {
    /// See [`CommitStep::Committed`].
    Committed,
    /// See [`CommitStep::Rename`].
    Rename { wait_ms: u64, attempt: AttemptView<S> },
    /// See [`CommitStep::Failed`].
    Failed { phazer: PhazerView<S>, error: RenameError },
    /// See [`CommitStep::Abandoned`].
    Abandoned { working_path: Seq<u8>, error: RenameError },
}

impl<S: CommitStrategy> PhazerView<S> {
    /// The working path is the one that belongs to the target path, the
    /// process and the serial number.
    pub open spec fn wf(self) -> bool {
        self.working_path == working_path(self.target_path, self.process_id, self.phazer_id)
    }

    /// The working path of an engine is another path than its target.
    pub proof fn lemma_paths_differ(self)
        requires
            self.wf(),
        ensures
            self.working_path != self.target_path,
    {
        lemma_working_path_differs(self.target_path, self.process_id, self.phazer_id);
    }

    /// The engine as it is made: nothing written yet.
    pub open spec fn fresh(
        target_path: Seq<u8>,
        commit_strategy: S,
        process_id: u32,
        phazer_id: usize,
    ) -> Self {
        PhazerView {
            file_created: false,
            commit_strategy,
            working_path: working_path(target_path, process_id, phazer_id),
            target_path,
            process_id,
            phazer_id,
        }
    }

    /// The engine after a writer was handed out.
    pub open spec fn written(self) -> Self {
        PhazerView { file_created: true, ..self }
    }

    /// The first step of a commit: nothing to do where no working file was
    /// made, else the first rename, with no wait before it.
    pub open spec fn begin(self, recoverable: bool) -> StepView<S> {
        if self.file_created {
            StepView::Rename {
                wait_ms: 0,
                attempt: AttemptView { phazer: self, tries: 1, recoverable },
            }
        } else {
            StepView::Committed
        }
    }
}

impl<S: CommitStrategy> AttemptView<S> {
    /// The step that follows when the rename has ended with `outcome`.
    ///
    /// Success ends the commit. After a failure the strategy decides: it
    /// either asks for another rename after a wait, or the commit has failed
    /// with the error of this rename. Then a recoverable commit hands the
    /// engine back as it was, and any other gives the engine up and names
    /// its working file for removal.
    pub open spec fn report(self, outcome: Result<(), RenameError>) -> StepView<S> {
        match outcome {
            Ok(_) => StepView::Committed,
            Err(error) => match self.phazer.commit_strategy.verdict(
                self.phazer.phazer_id,
                self.tries,
                error,
            ) {
                Verdict::RetryAfter(wait_ms) => StepView::Rename {
                    wait_ms,
                    attempt: AttemptView { tries: (self.tries + 1) as u64, ..self },
                },
                Verdict::Fail => if self.recoverable {
                    StepView::Failed { phazer: self.phazer, error }
                } else {
                    StepView::Abandoned { working_path: self.phazer.working_path, error }
                },
            },
        }
    }
}

/// The publish engine for one target path.
pub struct Phazer<S: CommitStrategy> {
    file_created: bool,
    commit_strategy: S,
    working_path: Vec<u8>,
    target_path: Vec<u8>,
    process_id: u32,
    phazer_id: usize,
}

impl<S: CommitStrategy> View for Phazer<S> {
    type V = PhazerView<S>;

    closed spec fn view(&self) -> PhazerView<S> {
        PhazerView {
            file_created: self.file_created,
            commit_strategy: self.commit_strategy,
            working_path: self.working_path@,
            target_path: self.target_path@,
            process_id: self.process_id,
            phazer_id: self.phazer_id,
        }
    }
}

/// A commit under way: the engine, and the count of its renames.
pub struct CommitAttempt<S: CommitStrategy> {
    phazer: Phazer<S>,
    tries: u64,
    recoverable: bool,
}

impl<S: CommitStrategy> View for CommitAttempt<S> {
    type V = AttemptView<S>;

    closed spec fn view(&self) -> AttemptView<S> {
        AttemptView { phazer: self.phazer@, tries: self.tries, recoverable: self.recoverable }
    }
}

/// What the caller of a commit has to do next.
pub enum CommitStep<S: CommitStrategy> {
    /// The commit has succeeded, or there was nothing to publish. Nothing is
    /// left to do.
    Committed,
    /// Wait `wait_ms` milliseconds, rename the working path of `attempt` onto
    /// its target path, and hand the outcome to [`CommitAttempt::report`].
    Rename { wait_ms: u64, attempt: CommitAttempt<S> },
    /// The commit has failed with `error`, the error of the last rename. The
    /// engine comes back as it was, its working file untouched.
    Failed { phazer: Phazer<S>, error: RenameError },
    /// The commit has failed with `error`, the error of the last rename, and
    /// the engine is given up: remove the file at `working_path`.
    Abandoned { working_path: Vec<u8>, error: RenameError },
}

impl<S: CommitStrategy> View for CommitStep<S> {
    type V = StepView<S>;

    open spec fn view(&self) -> StepView<S> {
        match self {
            CommitStep::Committed => StepView::Committed,
            CommitStep::Rename { wait_ms, attempt } => StepView::Rename {
                wait_ms: *wait_ms,
                attempt: attempt@,
            },
            CommitStep::Failed { phazer, error } => StepView::Failed {
                phazer: phazer@,
                error: *error,
            },
            CommitStep::Abandoned { working_path, error } => StepView::Abandoned {
                working_path: working_path@,
                error: *error,
            },
        }
    }
}

impl Phazer<SimpleRenameStrategy> {
    /// Makes the engine for the target `path`, as engine number `phazer_id`
    /// of process `process_id`. It commits by a single rename.
    pub fn new(path: Vec<u8>, process_id: u32, phazer_id: usize) -> (phazer: Self)
        ensures
            phazer@ == PhazerView::fresh(path@, SimpleRenameStrategy, process_id, phazer_id),
            phazer@.working_path != phazer@.target_path,
    {
        Self::inner_new(path, SIMPLE_RENAME_STRATEGY, process_id, phazer_id)
    }
}

impl<S: CommitStrategy> Phazer<S> {
    #[verifier::type_invariant]
    spec fn valid(self) -> bool {
        self@.wf()
    }

    /// Makes the engine for `target_path` that commits as `commit_strategy`
    /// says. Its working path is the target path with the extension replaced
    /// by `{extension}.phazer-working-{process_id}-{phazer_id}`, or, without
    /// an extension, set to `phazer-working-{process_id}-{phazer_id}`. It is
    /// never the target path itself.
    pub fn inner_new(
        target_path: Vec<u8>,
        commit_strategy: S,
        process_id: u32,
        phazer_id: usize,
    ) -> (phazer: Self)
        ensures
            phazer@ == PhazerView::fresh(target_path@, commit_strategy, process_id, phazer_id),
            phazer@.working_path != phazer@.target_path,
    {
        let working_path = make_working_path(&target_path, process_id, phazer_id);
        proof {
            lemma_working_path_differs(target_path@, process_id, phazer_id);
        }
        Phazer {
            file_created: false,
            commit_strategy,
            working_path,
            target_path,
            process_id,
            phazer_id,
        }
    }

    /// Says whether this is the first request for a writer, and records the
    /// request. It answers `true` once in the life of an engine.
    pub fn first_writer(&mut self) -> (first: bool)
        ensures
            first == !old(self)@.file_created,
            final(self)@ == old(self)@.written(),
    {
        proof {
            use_type_invariant(&*self);
        }
        let first = !self.file_created;
        self.file_created = true;
        first
    }

    /// Says how to open the working file for a writer, and records that a
    /// working file exists from now on. The first writer creates the file and
    /// empties it; every later one opens what is there.
    pub fn writer(&mut self) -> (options: WriterOptions)
        ensures
            options == writer_options(!old(self)@.file_created),
            final(self)@ == old(self)@.written(),
    {
        let first = self.first_writer();
        let mut options = WriterOptions { read: true, write: true, truncate: false, create: false };
        if first {
            options.truncate = true;
            options.create = true;
        }
        options
    }

    /// Starts a commit that gives the engine up if it fails.
    ///
    /// Without a working file there is nothing to publish and the commit is
    /// over at once. Otherwise the first rename is due.
    pub fn commit(self) -> (step: CommitStep<S>)
        ensures
            step@ == self@.begin(false),
    {
        self.start(false)
    }

    /// Starts a commit that hands the engine back if it fails, so that the
    /// caller can remove what stood in the way and commit again.
    ///
    /// Without a working file there is nothing to publish and the commit is
    /// over at once. Otherwise the first rename is due.
    pub fn commit2(self) -> (step: CommitStep<S>)
        ensures
            step@ == self@.begin(true),
    {
        self.start(true)
    }

    fn start(self, recoverable: bool) -> (step: CommitStep<S>)
        ensures
            step@ == self@.begin(recoverable),
    {
        if self.file_created {
            CommitStep::Rename {
                wait_ms: 0,
                attempt: CommitAttempt { phazer: self, tries: 1, recoverable },
            }
        } else {
            CommitStep::Committed
        }
    }

    /// Gives the engine up without a commit, and names the file to remove:
    /// the working file, whether or not it exists.
    pub fn abandon(self) -> (path: Vec<u8>)
        ensures
            path@ == self@.working_path,
    {
        self.working_path
    }

    /// The path of the working file: the one that belongs to the target
    /// path, the process and the serial number of the engine, and never the
    /// target path.
    pub fn working_path(&self) -> (path: &Vec<u8>)
        ensures
            path@ == self@.working_path,
            self@.wf(),
            path@ != self@.target_path,
    {
        proof {
            use_type_invariant(self);
            self@.lemma_paths_differ();
        }
        &self.working_path
    }

    /// The path of the target file.
    pub fn target_path(&self) -> (path: &Vec<u8>)
        ensures
            path@ == self@.target_path,
    {
        &self.target_path
    }

    /// Whether a writer has been handed out.
    pub fn file_created(&self) -> (created: bool)
        ensures
            created == self@.file_created,
    {
        self.file_created
    }
}

impl<S: CommitStrategy> CommitDetails for Phazer<S> {
    open spec fn working(&self) -> Seq<u8> {
        self@.working_path
    }

    open spec fn target(&self) -> Seq<u8> {
        self@.target_path
    }

    open spec fn jitter(&self) -> usize {
        self@.phazer_id
    }

    fn get_working_path(&self) -> (path: &Vec<u8>) {
        &self.working_path
    }

    fn get_target_path(&self) -> (path: &Vec<u8>) {
        &self.target_path
    }

    fn get_jitter(&self) -> (jitter: usize) {
        self.phazer_id
    }
}

impl<S: CommitStrategy> CommitAttempt<S> {
    /// The path to rename from.
    pub fn working_path(&self) -> (path: &Vec<u8>)
        ensures
            path@ == self@.phazer.working_path,
    {
        &self.phazer.working_path
    }

    /// The path to rename onto.
    pub fn target_path(&self) -> (path: &Vec<u8>)
        ensures
            path@ == self@.phazer.target_path,
    {
        &self.phazer.target_path
    }

    /// The number of the rename that is due, counted from 1.
    pub fn tries(&self) -> (tries: u64)
        ensures
            tries == self@.tries,
    {
        self.tries
    }

    /// Takes the outcome of the rename that was due and says what follows.
    pub fn report(self, outcome: Result<(), RenameError>) -> (step: CommitStep<S>)
        ensures
            step@ == self@.report(outcome),
    {
        match outcome {
            Ok(_) => CommitStep::Committed,
            Err(error) => {
                let verdict = self.phazer.commit_strategy.commit(&self.phazer, self.tries, error);
                match verdict {
                    Verdict::RetryAfter(wait_ms) => {
                        proof {
                            if self.tries >= self.phazer.commit_strategy.max_tries() {
                                self.phazer.commit_strategy.lemma_gives_up(
                                    self.phazer.phazer_id,
                                    self.tries,
                                    error,
                                );
                            }
                        }
                        CommitStep::Rename {
                            wait_ms,
                            attempt: CommitAttempt {
                                phazer: self.phazer,
                                tries: self.tries + 1,
                                recoverable: self.recoverable,
                            },
                        }
                    },
                    Verdict::Fail => if self.recoverable {
                        CommitStep::Failed { phazer: self.phazer, error }
                    } else {
                        CommitStep::Abandoned { working_path: self.phazer.abandon(), error }
                    },
                }
            },
        }
    }
}

} // verus!
