//! Rewrite traces of equality-saturation programs.
//!
//! A trace runs a program for a growing number of iterations, extracts the seed
//! expression `$expr` after each round, and reports how its cost falls. With proofs
//! on, each round also reports the rules that bring the cost down, as a compressed
//! chain such as `A x2 -> (B -> C) x2 -> D`.

pub mod catalog;
pub mod catalog_laws;
pub mod chain;
pub mod chain_laws;
pub mod command;
pub mod command_laws;
pub mod engine;
pub mod engine_laws;
pub mod error;
pub mod paths;
pub mod program;
pub mod program_laws;
pub mod report_laws;
pub mod text;
pub mod text_laws;
pub mod trace;
pub mod trace_laws;

pub use crate::catalog::{build_repeated_motif_catalog, RepeatedMotifSummary, RoundMotifInput};
pub use crate::chain::{compress_rule_trace, format_compressed_rule_chain, CompressedChainItem};
pub use crate::command::{
    extract_default_ruleset, extract_seed_expr, is_runtime_command, ruleset_is_declared, Action,
    Command, CommandKind, Schedule,
};
pub use crate::engine::{
    configured_egraph, extract_best_output, extract_rule_trace_from_outputs, run_program,
    CommandOutput, DefaultCost, EngineRequest, EngineSettings, ReportLevel, RewriteTraceConfig,
};
pub use crate::error::Error;
pub use crate::program::{
    anchor_path, build_extract_program, build_initial_extract_program, build_proof_program,
    render_base_program, render_include,
};
pub use crate::trace::{
    check_config, run_rewrite_trace, run_rewrite_trace_checked, PlannedRun, RewriteTraceReport,
    RewriteTraceRound, TraceSession,
};
