//! Host-based security-monitoring agent core.
//!
//! Kernel-event records are drained from a shared ring buffer, decoded into
//! typed events, and routed through an actor pipeline: a scanner normalizes
//! process-lifecycle events, collectors contribute per-process "phenotype"
//! data, a controller owns the pid-to-phenotype table and fans updates out to
//! receptors, and receptors score processes and report verdicts back.
//! Heterogeneous phenotype data travels as a compact, self-describing binary
//! encoding (the "boxable" substrate).

pub mod bpf;
pub mod collector;
pub mod controller;
pub mod receptor;
pub mod phenotype;
pub mod scanner;
pub mod utils;
