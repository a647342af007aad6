//! Commit strategies: what to do when the rename of the working file onto
//! the target did not succeed.
//!
//! A strategy performs no rename itself. It is asked after each rename that
//! failed, and answers with a [`Verdict`]: give up, or wait and try again.

use vstd::prelude::*;

verus! {

/// Why a rename did not succeed, as far as a strategy needs to know.
#[derive(Clone, Copy, Debug, PartialEq, Eq, Structural)]
pub enum RenameError {
    /// The target could not be replaced because something holds or protects
    /// it. This is the one kind of failure that may clear by itself.
    PermissionDenied,
    /// Any other failure.
    Other,
}

/// What a strategy decides after a rename that failed.
#[derive(Clone, Copy, Debug, PartialEq, Eq, Structural)]
pub enum Verdict {
    /// The commit has failed: the error of the last rename is its result.
    Fail,
    /// Wait this many milliseconds, then rename again.
    RetryAfter(u64),
}

/// What a strategy may read of the engine whose commit it governs.
pub trait CommitDetails {
    /// The working path, as a byte string.
    spec fn working(&self) -> Seq<u8>;

    /// The target path, as a byte string.
    spec fn target(&self) -> Seq<u8>;

    /// The jitter of the engine.
    spec fn jitter(&self) -> usize;

    /// The path that a commit renames from.
    fn get_working_path(&self) -> (path: &Vec<u8>)
        ensures
            path@ == self.working(),
    ;

    /// The path that a commit renames onto.
    fn get_target_path(&self) -> (path: &Vec<u8>)
        ensures
            path@ == self.target(),
    ;

    /// A small number that differs from engine to engine, by which engines
    /// that contend for one target keep their retries apart.
    fn get_jitter(&self) -> (jitter: usize)
        ensures
            jitter == self.jitter(),
    ;
}

/// A policy for the renames of one commit. It has no state and may be shared
/// by any number of engines.
pub trait CommitStrategy: Sized {
    /// The number of renames after which the strategy gives up at the latest.
    spec fn max_tries(&self) -> u64;

    /// The decision after rename number `tries` (counted from 1) of an engine
    /// with this `jitter` has failed with `error`.
    spec fn verdict(&self, jitter: usize, tries: u64, error: RenameError) -> Verdict;

    /// From rename number `max_tries` on, every failure is final.
    proof fn lemma_gives_up(&self, jitter: usize, tries: u64, error: RenameError)
        requires
            tries >= self.max_tries(),
        ensures
            self.verdict(jitter, tries, error) == Verdict::Fail,
    ;

    /// Decides what follows rename number `tries` of `phazer`, which has
    /// failed with `error`.
    fn commit<D: CommitDetails>(&self, phazer: &D, tries: u64, error: RenameError) -> (verdict:
        Verdict)
        ensures
            verdict == self.verdict(phazer.jitter(), tries, error),
    ;
}

/// Renames once, and returns whatever error that rename gave.
#[derive(Clone, Copy, Debug, PartialEq, Eq, Structural)]
pub struct SimpleRenameStrategy;

impl CommitStrategy for SimpleRenameStrategy {
    open spec fn max_tries(&self) -> u64 {
        1
    }

    open spec fn verdict(&self, jitter: usize, tries: u64, error: RenameError) -> Verdict {
        Verdict::Fail
    }

    proof fn lemma_gives_up(&self, jitter: usize, tries: u64, error: RenameError) {
    }

    fn commit<D: CommitDetails>(&self, phazer: &D, tries: u64, error: RenameError) -> (verdict:
        Verdict) {
        Verdict::Fail
    }
}

impl Default for SimpleRenameStrategy {
    fn default() -> (strategy: Self)
        ensures
            strategy == SimpleRenameStrategy,
    {
        SimpleRenameStrategy
    }
}

/// A ready-to-use [`SimpleRenameStrategy`].
pub const SIMPLE_RENAME_STRATEGY: SimpleRenameStrategy = SimpleRenameStrategy;

/// The number of renames that [`RenameWithRetryStrategy`] makes at most.
pub const MAX_TRIES: u64 = 7;

/// The wait after the first failed rename of an engine without jitter, in
/// milliseconds.
pub const BASE_SLEEP_MS: u64 = 11;

/// What each unit of jitter adds to that wait, in milliseconds.
pub const JITTER_STEP_MS: u64 = 3;

/// The bits of an engine's jitter that count.
pub const JITTER_MASK: u64 = 0xF;

/// The wait after the first failed rename of an engine with this `jitter`,
/// in milliseconds: 11, and 3 more for each unit of the low four bits of
/// `jitter`.
pub open spec fn base_sleep(jitter: usize) -> u64 {
    (BASE_SLEEP_MS + JITTER_STEP_MS * ((jitter as u64) & JITTER_MASK)) as u64
}

/// The sum `1 + 2 + ... + n`.
pub open spec fn triangle(n: nat) -> nat
    decreases n,
{
    if n == 0 {
        0
    } else {
        n + triangle((n - 1) as nat)
    }
}

/// Renames up to seven times. A rename that fails with
/// [`RenameError::PermissionDenied`] is tried again after a wait that grows
/// with each try; any other failure is final at once.
#[derive(Clone, Copy, Debug, PartialEq, Eq, Structural)]
pub struct RenameWithRetryStrategy;

impl CommitStrategy for RenameWithRetryStrategy {
    open spec fn max_tries(&self) -> u64 {
        MAX_TRIES
    }

    open spec fn verdict(&self, jitter: usize, tries: u64, error: RenameError) -> Verdict {
        match error {
            RenameError::PermissionDenied => if tries >= MAX_TRIES {
                Verdict::Fail
            } else {
                Verdict::RetryAfter((base_sleep(jitter) * tries) as u64)
            },
            RenameError::Other => Verdict::Fail,
        }
    }

    proof fn lemma_gives_up(&self, jitter: usize, tries: u64, error: RenameError) {
    }

    fn commit<D: CommitDetails>(&self, phazer: &D, tries: u64, error: RenameError) -> (verdict:
        Verdict) {
        let id: u64 = phazer.get_jitter() as u64;
        let jitter: u64 = id & JITTER_MASK;
        assert(id & 0xF <= 15) by (bit_vector);
        let base_sleep: u64 = BASE_SLEEP_MS + JITTER_STEP_MS * jitter;
        match error {
            RenameError::PermissionDenied => if tries >= MAX_TRIES {
                Verdict::Fail
            } else {
                assert(base_sleep * tries <= 56 * 6) by (nonlinear_arith)
                    requires
                        base_sleep <= 56,
                        tries < 7,
                ;
                Verdict::RetryAfter(base_sleep * tries)
            },
            RenameError::Other => Verdict::Fail,
        }
    }
}

impl Default for RenameWithRetryStrategy {
    fn default() -> (strategy: Self)
        ensures
            strategy == RenameWithRetryStrategy,
    {
        RenameWithRetryStrategy
    }
}

/// A ready-to-use [`RenameWithRetryStrategy`].
pub const RENAME_WITH_RETRY_STRATEGY: RenameWithRetryStrategy = RenameWithRetryStrategy;

/// The first wait of an engine lies between 11 and 56 milliseconds, and is 11
/// and three times the low four bits of its jitter.
pub proof fn lemma_base_sleep(jitter: usize)
    ensures
        11 <= base_sleep(jitter) <= 56,
        base_sleep(jitter) == 11 + 3 * (jitter % 16),
{
    let id = jitter as u64;
    assert(id & 0xF == id % 16) by (bit_vector);
    assert(id & 0xF <= 15) by (bit_vector);
}

/// As long as the target stays denied, [`RenameWithRetryStrategy`] answers
/// each of the first six renames with a wait of the first wait times the
/// number of the rename, and the seventh with failure.
pub proof fn lemma_retry_while_denied(jitter: usize, tries: u64)
    requires
        1 <= tries,
    ensures
        tries < 7 ==> RenameWithRetryStrategy.verdict(jitter, tries, RenameError::PermissionDenied)
            == Verdict::RetryAfter((base_sleep(jitter) * tries) as u64),
        tries < 7 ==> 11 * tries <= base_sleep(jitter) * tries <= 56 * tries,
        tries >= 7 ==> RenameWithRetryStrategy.verdict(jitter, tries, RenameError::PermissionDenied)
            == Verdict::Fail,
{
    lemma_base_sleep(jitter);
    if tries < 7 {
        assert(11 * tries <= base_sleep(jitter) * tries <= 56 * tries) by (nonlinear_arith)
            requires
                11 <= base_sleep(jitter) <= 56,
                1 <= tries < 7,
        ;
    }
}

} // verus!
