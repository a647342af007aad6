use phazer::{
    CommitDetails, CommitStep, CommitStrategy, Phazer, PhazerBuilder, PhazerIds, RenameError,
    RenameWithRetryStrategy, SimpleRenameStrategy, Verdict, RENAME_WITH_RETRY_STRATEGY,
    SIMPLE_RENAME_STRATEGY,
};

fn engine(jitter: usize) -> Phazer<SimpleRenameStrategy> {
    Phazer::new(b"some/target.txt".to_vec(), 77, jitter)
}

#[test]
fn simple_rename_always_gives_up() {
    for tries in [0u64, 1, 2, 7, u64::MAX] {
        for error in [RenameError::PermissionDenied, RenameError::Other] {
            assert_eq!(SIMPLE_RENAME_STRATEGY.commit(&engine(3), tries, error), Verdict::Fail);
        }
    }
}

#[test]
fn retry_waits_the_base_sleep_times_the_try() {
    let denied = RenameError::PermissionDenied;
    let strategy = RENAME_WITH_RETRY_STRATEGY;
    // The jitter is 1, so the base sleep is 11 + 3 * 1 = 14.
    assert_eq!(strategy.commit(&engine(1), 1, denied), Verdict::RetryAfter(14));
    assert_eq!(strategy.commit(&engine(1), 2, denied), Verdict::RetryAfter(28));
    assert_eq!(strategy.commit(&engine(1), 6, denied), Verdict::RetryAfter(84));
    assert_eq!(strategy.commit(&engine(0), 1, denied), Verdict::RetryAfter(11));
    assert_eq!(strategy.commit(&engine(15), 1, denied), Verdict::RetryAfter(56));
    assert_eq!(strategy.commit(&engine(15), 6, denied), Verdict::RetryAfter(336));
}

#[test]
fn retry_reads_the_low_four_bits_of_the_jitter() {
    let denied = RenameError::PermissionDenied;
    let strategy = RENAME_WITH_RETRY_STRATEGY;
    assert_eq!(strategy.commit(&engine(16), 1, denied), Verdict::RetryAfter(11));
    assert_eq!(strategy.commit(&engine(17), 1, denied), Verdict::RetryAfter(14));
    assert_eq!(strategy.commit(&engine(0x1234_5678), 1, denied), Verdict::RetryAfter(35));
    assert_eq!(strategy.commit(&engine(usize::MAX), 3, denied), Verdict::RetryAfter(168));
    for jitter in 0..48usize {
        let expected = 11 + 3 * (jitter as u64 & 0xF);
        assert_eq!(strategy.commit(&engine(jitter), 1, denied), Verdict::RetryAfter(expected));
    }
}

#[test]
fn retry_gives_up_at_the_seventh_try() {
    let denied = RenameError::PermissionDenied;
    let strategy = RENAME_WITH_RETRY_STRATEGY;
    assert_eq!(strategy.commit(&engine(5), 6, denied), Verdict::RetryAfter(156));
    assert_eq!(strategy.commit(&engine(5), 7, denied), Verdict::Fail);
    assert_eq!(strategy.commit(&engine(5), 8, denied), Verdict::Fail);
    assert_eq!(strategy.commit(&engine(5), u64::MAX, denied), Verdict::Fail);
}

#[test]
fn retry_gives_up_on_any_other_error() {
    for tries in [1u64, 2, 6, 7] {
        assert_eq!(
            RENAME_WITH_RETRY_STRATEGY.commit(&engine(9), tries, RenameError::Other),
            Verdict::Fail
        );
    }
}

#[test]
fn the_worst_case_sleeps_stay_within_the_stated_bound() {
    let mut total = 0;
    for tries in 1..7u64 {
        match RENAME_WITH_RETRY_STRATEGY.commit(&engine(15), tries, RenameError::PermissionDenied) {
            Verdict::RetryAfter(wait_ms) => total += wait_ms,
            Verdict::Fail => panic!("gave up at try {}", tries),
        }
    }
    assert_eq!(total, 1176);
    assert!(total <= 1568);
}

#[test]
fn default_strategies_are_the_ready_ones() {
    assert_eq!(SimpleRenameStrategy::default(), SIMPLE_RENAME_STRATEGY);
    assert_eq!(RenameWithRetryStrategy::default(), RENAME_WITH_RETRY_STRATEGY);
    assert_eq!(SimpleRenameStrategy {}, SIMPLE_RENAME_STRATEGY);
    assert_eq!(RenameWithRetryStrategy {}, RENAME_WITH_RETRY_STRATEGY);
}

#[test]
fn an_engine_shows_its_details() {
    let p = Phazer::new(b"a/b.c".to_vec(), 8, 123);
    assert_eq!(p.get_target_path(), &b"a/b.c".to_vec());
    assert_eq!(p.get_working_path(), &b"a/b.c.phazer-working-8-123".to_vec());
    assert_eq!(p.get_jitter(), 123);
}

fn first_denial<S: CommitStrategy>(engine: Phazer<S>) -> Verdict {
    let mut engine = engine;
    engine.writer();
    match engine.commit2() {
        CommitStep::Rename { wait_ms, attempt } => {
            assert_eq!(wait_ms, 0);
            assert_eq!(attempt.tries(), 1);
            match attempt.report(Err(RenameError::PermissionDenied)) {
                CommitStep::Rename { wait_ms, attempt } => {
                    assert_eq!(attempt.tries(), 2);
                    Verdict::RetryAfter(wait_ms)
                }
                CommitStep::Failed { phazer, error } => {
                    assert!(phazer.file_created());
                    assert_eq!(error, RenameError::PermissionDenied);
                    Verdict::Fail
                }
                _ => panic!("a recoverable commit neither succeeds nor gives the engine up here"),
            }
        }
        _ => panic!("an engine with a working file has a rename to make"),
    }
}

#[test]
fn the_builder_commits_by_a_single_rename_unless_told_otherwise() {
    let target = b"built.txt".to_vec();
    assert_eq!(first_denial(PhazerBuilder::new().target(target.clone()).build(1, 2)), Verdict::Fail);
    assert_eq!(first_denial(PhazerBuilder::with_target(target.clone()).build(1, 2)), Verdict::Fail);
    assert_eq!(first_denial(Phazer::new(target.clone(), 1, 2)), Verdict::Fail);
    assert_eq!(
        first_denial(
            PhazerBuilder::new()
                .commit_strategy(RENAME_WITH_RETRY_STRATEGY)
                .target(target.clone())
                .build(1, 2)
        ),
        Verdict::RetryAfter(17)
    );
    assert_eq!(
        first_denial(
            PhazerBuilder::with_target(target.clone())
                .commit_strategy(RENAME_WITH_RETRY_STRATEGY)
                .build(1, 2)
        ),
        Verdict::RetryAfter(17)
    );
    assert_eq!(
        first_denial(
            PhazerBuilder::new()
                .commit_strategy(RENAME_WITH_RETRY_STRATEGY)
                .commit_strategy(SIMPLE_RENAME_STRATEGY)
                .target(target.clone())
                .build(1, 2)
        ),
        Verdict::Fail
    );
}

#[test]
fn the_builder_takes_target_and_strategy_in_either_order() {
    let a = PhazerBuilder::new()
        .target(b"x/first.txt".to_vec())
        .commit_strategy(RENAME_WITH_RETRY_STRATEGY)
        .target(b"x/second.txt".to_vec())
        .build(5, 6);
    let b = PhazerBuilder::new()
        .commit_strategy(RENAME_WITH_RETRY_STRATEGY)
        .target(b"x/second.txt".to_vec())
        .build(5, 6);
    assert_eq!(a.target_path(), b.target_path());
    assert_eq!(a.working_path(), b.working_path());
    assert_eq!(a.working_path(), &b"x/second.txt.phazer-working-5-6".to_vec());
    assert_eq!(a.get_jitter(), 6);
    assert!(!a.file_created());
    assert_eq!(first_denial(a), first_denial(b));
}

#[test]
fn a_commit_without_a_writer_is_over_at_once() {
    assert!(matches!(engine(0).commit(), CommitStep::Committed));
    assert!(matches!(engine(0).commit2(), CommitStep::Committed));
    let retrying = PhazerBuilder::with_target(b"t".to_vec())
        .commit_strategy(RENAME_WITH_RETRY_STRATEGY)
        .build(1, 1);
    assert!(matches!(retrying.commit(), CommitStep::Committed));
}

#[test]
fn a_rename_that_succeeds_ends_the_commit() {
    let mut p = engine(0);
    p.writer();
    match p.commit() {
        CommitStep::Rename { wait_ms, attempt } => {
            assert_eq!(wait_ms, 0);
            assert_eq!(attempt.target_path(), &b"some/target.txt".to_vec());
            assert_eq!(attempt.working_path(), &b"some/target.txt.phazer-working-77-0".to_vec());
            assert!(matches!(attempt.report(Ok(())), CommitStep::Committed));
        }
        _ => panic!("a rename is due"),
    }
}

#[test]
fn a_failed_commit_gives_the_engine_up_and_names_its_working_file() {
    let mut p = engine(4);
    p.writer();
    match p.commit() {
        CommitStep::Rename { attempt, .. } => match attempt.report(Err(RenameError::Other)) {
            CommitStep::Abandoned { working_path, error } => {
                assert_eq!(working_path, b"some/target.txt.phazer-working-77-4".to_vec());
                assert_eq!(error, RenameError::Other);
            }
            _ => panic!("the engine is given up"),
        },
        _ => panic!("a rename is due"),
    }
}

#[test]
fn serial_numbers_count_up_from_zero() {
    let mut ids = PhazerIds::new();
    for expected in 0..100usize {
        assert_eq!(ids.current_phazer_id(), expected);
    }
    let mut other = PhazerIds::new();
    assert_eq!(other.current_phazer_id(), 0);
    assert_eq!(ids.current_phazer_id(), 100);
}

/// A strategy of a caller's own: up to three renames, whatever the error,
/// with a wait of a second each.
struct ThreeTimes;

impl CommitStrategy for ThreeTimes {
    fn max_tries(&self) -> u64 {
        3
    }

    fn verdict(&self, _jitter: usize, tries: u64, _error: RenameError) -> Verdict {
        if tries < 3 {
            Verdict::RetryAfter(1000)
        } else {
            Verdict::Fail
        }
    }

    fn lemma_gives_up(&self, _jitter: usize, _tries: u64, _error: RenameError) {}

    fn commit<D: CommitDetails>(&self, phazer: &D, tries: u64, error: RenameError) -> Verdict {
        self.verdict(phazer.get_jitter(), tries, error)
    }
}

#[test]
fn a_strategy_of_ones_own_governs_the_commit() {
    let mut p = PhazerBuilder::with_target(b"own.txt".to_vec()).commit_strategy(ThreeTimes).build(9, 9);
    p.writer();
    let mut step = p.commit2();
    let mut waits = Vec::new();
    loop {
        match step {
            CommitStep::Rename { wait_ms, attempt } => {
                waits.push(wait_ms);
                step = attempt.report(Err(RenameError::Other));
            }
            CommitStep::Failed { phazer, error } => {
                assert_eq!(phazer.working_path(), &b"own.txt.phazer-working-9-9".to_vec());
                assert_eq!(error, RenameError::Other);
                break;
            }
            _ => panic!("every rename fails, and the commit is recoverable"),
        }
    }
    assert_eq!(waits, vec![0, 1000, 1000]);
}
