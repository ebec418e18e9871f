//! A harness that measures what the benchmarks of a set of projects cost.
//!
//! The harness finds the benchmarks of each project, builds them, sets
//! probes on the iteration loop of the benchmark harness, runs every
//! benchmark under a profiler in a random order, and reduces the samples to
//! statistics.
//!
//! This library is the part of the harness that decides and computes. It
//! starts no process and reads no file: it says which command is to run,
//! reads what a tool printed, and keeps the state of what is under way. The
//! program around it runs the commands and hands back what came of them.

pub mod collect;
pub mod command;
pub mod compile;
pub mod coverage;
pub mod features;
pub mod ident;
pub mod paths;
pub mod perf_files;
pub mod probe;
pub mod project;
pub mod scanner;
pub mod schedule;
pub mod stats;
pub mod text;
