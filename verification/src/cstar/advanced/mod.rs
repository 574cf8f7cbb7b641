//! Backend logic of the `@pipeline`, `@patch`, `@isr_group`, `@prefetch` and
//! `@repo` annotations.

pub mod isr;
pub mod patch;
pub mod pipeline;
pub mod prefetch;
pub mod repo;
