//! Assembly of an engine from a target path and, where the default will not
//! do, a commit strategy, given in either order.

use vstd::prelude::*;
use crate::engine::{Phazer, PhazerView};
use crate::strategy::{CommitStrategy, SimpleRenameStrategy, SIMPLE_RENAME_STRATEGY};

verus! {

/// A builder that has no target path yet.
pub struct PhazerBuilder<S: CommitStrategy> {
    commit_strategy: S,
}

/// A builder that has its target path, and so can build.
pub struct PhazerBuilderWithTarget<S: CommitStrategy> {
    commit_strategy: S,
    target_path: Vec<u8>,
}

/// A [`PhazerBuilder`] as a value of mathematics.
pub struct BuilderView<S> {
    /// The strategy that the engine will commit by.
    pub commit_strategy: S,
}

/// A [`PhazerBuilderWithTarget`] as a value of mathematics.
pub struct BuilderWithTargetView<S> {
    /// The strategy that the engine will commit by.
    pub commit_strategy: S,
    /// The target path of the engine.
    pub target_path: Seq<u8>,
}

impl<S: CommitStrategy> View for PhazerBuilder<S> {
    type V = BuilderView<S>;

    closed spec fn view(&self) -> BuilderView<S> {
        BuilderView { commit_strategy: self.commit_strategy }
    }
}

impl<S: CommitStrategy> View for PhazerBuilderWithTarget<S> {
    type V = BuilderWithTargetView<S>;

    closed spec fn view(&self) -> BuilderWithTargetView<S> {
        BuilderWithTargetView {
            commit_strategy: self.commit_strategy,
            target_path: self.target_path@,
        }
    }
}

impl PhazerBuilder<SimpleRenameStrategy> {
    /// A builder without a target path, set to commit by a single rename.
    pub fn new() -> (builder: Self)
        ensures
            builder@ == (BuilderView { commit_strategy: SimpleRenameStrategy }),
    {
        PhazerBuilder { commit_strategy: SIMPLE_RENAME_STRATEGY }
    }

    /// A builder for the target `path`, set to commit by a single rename.
    pub fn with_target(path: Vec<u8>) -> (builder: PhazerBuilderWithTarget<SimpleRenameStrategy>)
        ensures
            builder@ == (BuilderWithTargetView {
                commit_strategy: SimpleRenameStrategy,
                target_path: path@,
            }),
    {
        PhazerBuilderWithTarget { commit_strategy: SIMPLE_RENAME_STRATEGY, target_path: path }
    }
}

impl<S: CommitStrategy> PhazerBuilder<S> {
    /// Adds the target path `value`. The strategy stays as it was set.
    pub fn target(self, value: Vec<u8>) -> (builder: PhazerBuilderWithTarget<S>)
        ensures
            builder@ == (BuilderWithTargetView {
                commit_strategy: self@.commit_strategy,
                target_path: value@,
            }),
    {
        PhazerBuilderWithTarget { commit_strategy: self.commit_strategy, target_path: value }
    }

    /// Sets the strategy that the engine will commit by.
    pub fn commit_strategy<T: CommitStrategy>(self, value: T) -> (builder: PhazerBuilder<T>)
        ensures
            builder@ == (BuilderView { commit_strategy: value }),
    {
        PhazerBuilder { commit_strategy: value }
    }
}

impl<S: CommitStrategy> PhazerBuilderWithTarget<S> {
    /// Replaces the target path by `value`. The strategy stays as it was set.
    pub fn target(self, value: Vec<u8>) -> (builder: Self)
        ensures
            builder@ == (BuilderWithTargetView {
                commit_strategy: self@.commit_strategy,
                target_path: value@,
            }),
    {
        PhazerBuilderWithTarget { commit_strategy: self.commit_strategy, target_path: value }
    }

    /// Sets the strategy that the engine will commit by. The target path
    /// stays as it was set.
    pub fn commit_strategy<T: CommitStrategy>(self, value: T) -> (builder: PhazerBuilderWithTarget<
        T,
    >)
        ensures
            builder@ == (BuilderWithTargetView {
                commit_strategy: value,
                target_path: self@.target_path,
            }),
    {
        PhazerBuilderWithTarget { commit_strategy: value, target_path: self.target_path }
    }

    /// Builds the engine for the target path and the strategy that were set,
    /// as engine number `phazer_id` of process `process_id`.
    pub fn build(self, process_id: u32, phazer_id: usize) -> (phazer: Phazer<S>)
        ensures
            phazer@ == PhazerView::fresh(
                self@.target_path,
                self@.commit_strategy,
                process_id,
                phazer_id,
            ),
            phazer@.working_path != phazer@.target_path,
    {
        let PhazerBuilderWithTarget { commit_strategy, target_path } = self;
        Phazer::inner_new(target_path, commit_strategy, process_id, phazer_id)
    }
}

} // verus!
