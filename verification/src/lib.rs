//! Atomic publication of a single file.
//!
//! Content is built in a private working file and becomes visible at its
//! target path in one rename. This crate is the decision-making core of that
//! protocol: it derives the working path, says how the working file is to be
//! opened, and drives a commit from one rename outcome to the next. It
//! performs no I/O itself; the caller carries out each step it is handed and
//! reports how the step ended.

pub mod decimal;
pub mod path;
pub mod strategy;
pub mod engine;
pub mod builder;
pub mod serial;
pub mod store;
pub mod session;

pub use crate::builder::{PhazerBuilder, PhazerBuilderWithTarget};
pub use crate::engine::{CommitAttempt, CommitStep, Phazer, WriterOptions};
pub use crate::serial::PhazerIds;
pub use crate::strategy::{
    CommitDetails, CommitStrategy, RenameError, RenameWithRetryStrategy, SimpleRenameStrategy,
    Verdict, RENAME_WITH_RETRY_STRATEGY, SIMPLE_RENAME_STRATEGY,
};
