//! Utilities for writing integration tests: test cases with a runner that
//! stops at, or summarizes, failures; assertion helpers that yield `Result`s;
//! and the policy for releasing file descriptors after a test body.

pub mod assertions;
pub mod descriptors;
pub mod errno;
pub mod runner;
