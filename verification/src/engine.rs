//! What a trace asks of the engine, and what it reads from the replies.

use std::path::PathBuf;

use vstd::prelude::*;

use crate::error::Error;

verus! {

/// `std::path::PathBuf`, carried through unread.
#[verifier::external_type_specification]
#[verifier::external_body]
pub struct ExPathBuf(std::path::PathBuf);

/// `std::path::PathBuf::clone` returns a duplicate of the path.
pub assume_specification[ <PathBuf as Clone>::clone ](path: &PathBuf) -> (copy: PathBuf)
    ensures
        copy == *path,
;

/// The cost of an extracted expression.
pub type DefaultCost = u64;

/// How much detail the engine records about a run.
#[derive(Clone, Copy, Debug, PartialEq, Eq)]
pub enum ReportLevel {
    TimeOnly,
    WithPlan,
    StageInfo,
}

/// How to trace a program: `max_rounds` rounds of `round_iters` iterations each.
#[derive(Clone, Debug)]
pub struct RewriteTraceConfig {
    /// Iterations that each round adds.
    pub round_iters: usize,
    /// Number of rounds.
    pub max_rounds: usize,
    /// The ruleset to run; if absent, that of the first plain run in the program.
    pub ruleset: Option<String>,
    /// Whether to prove each extracted expression equal to the seed.
    pub with_proofs: bool,
    pub strict_mode: bool,
    pub seminaive: bool,
    pub report_level: ReportLevel,
    /// The directory that input facts are read from.
    pub fact_directory: Option<PathBuf>,
    pub term_encoding: bool,
}

/// How a fresh engine is set up for one program.
#[derive(Clone, Debug)]
pub struct EngineSettings {
    pub term_encoding: bool,
    pub proofs: bool,
    /// Whether a proof is reported by the trace of its rules alone.
    pub proof_rule_trace_only: bool,
    pub fact_directory: Option<PathBuf>,
    pub seminaive: bool,
    pub report_level: ReportLevel,
    pub strict_mode: bool,
}

/// One program for a fresh engine.
#[derive(Clone, Debug)]
pub struct EngineRequest {
    pub program: String,
    /// The file that the program comes from, for messages.
    pub filename: Option<String>,
    pub settings: EngineSettings,
}

/// One output of the engine, with the parts that a trace depends on.
#[derive(Clone, Debug)]
pub enum CommandOutput {
    /// An extraction: the printed term, and its cost.
    ExtractBest { term: String, cost: DefaultCost },
    /// A proof, given by the trace of its rules.
    ProveExistsRuleTrace(Vec<String>),
    /// A full proof, with the trace of its rules.
    ProveExists { rule_trace: Vec<String> },
    Other,
}

/// How the engine is set up for a configuration. Proofs are on if the
/// configuration or the caller wants them, and are then reported by their rules.
pub open spec fn settings_for(config: RewriteTraceConfig, force_proofs: bool) -> EngineSettings {
    EngineSettings {
        term_encoding: config.term_encoding,
        proofs: config.with_proofs || force_proofs,
        proof_rule_trace_only: config.with_proofs || force_proofs,
        fact_directory: config.fact_directory,
        seminaive: config.seminaive,
        report_level: config.report_level,
        strict_mode: config.strict_mode,
    }
}

/// Sets up a fresh engine.
pub fn configured_egraph(config: &RewriteTraceConfig, force_proofs: bool) -> (settings:
    EngineSettings)
    ensures
        settings == settings_for(*config, force_proofs),
{
    let proofs = config.with_proofs || force_proofs;
    EngineSettings {
        term_encoding: config.term_encoding,
        proofs,
        proof_rule_trace_only: proofs,
        fact_directory: config.fact_directory.clone(),
        seminaive: config.seminaive,
        report_level: config.report_level,
        strict_mode: config.strict_mode,
    }
}

/// Whether `run` may reply with `reply` to the given program, run under the given
/// file name by a fresh engine with the given settings.
pub open spec fn engine_replies<
    R: Fn(EngineRequest) -> Result<Vec<CommandOutput>, Error>,
>(
    run: R,
    program: Seq<char>,
    filename: Option<Seq<char>>,
    settings: EngineSettings,
    reply: Result<Vec<CommandOutput>, Error>,
) -> bool {
    exists|request: EngineRequest|
        {
            &&& request.program@ == program
            &&& request.filename.deep_view() == filename
            &&& request.settings == settings
            &&& #[trigger] run.ensures((request,), reply)
        }
}

/// Runs a program on a fresh engine, set up for the configuration.
pub fn run_program<R: Fn(EngineRequest) -> Result<Vec<CommandOutput>, Error>>(
    program: String,
    filename: Option<String>,
    config: &RewriteTraceConfig,
    force_proofs: bool,
    run: &R,
) -> (reply: Result<Vec<CommandOutput>, Error>)
    requires
        forall|request: EngineRequest| #[trigger] run.requires((request,)),
    ensures
        engine_replies(
            *run,
            program@,
            filename.deep_view(),
            settings_for(*config, force_proofs),
            reply,
        ),
{
    let request = EngineRequest {
        program,
        filename,
        settings: configured_egraph(config, force_proofs),
    };
    run(request)
}

/// The last extraction among the outputs: its printed term and its cost.
pub open spec fn best_output(outputs: Seq<CommandOutput>) -> Option<(Seq<char>, DefaultCost)>
    decreases outputs.len(),
{
    if outputs.len() == 0 {
        None
    } else {
        match outputs.last() {
            CommandOutput::ExtractBest { term, cost } => Some((term@, cost)),
            _ => best_output(outputs.drop_last()),
        }
    }
}

/// The rules of the last proof among the outputs, or none if there is no proof.
pub open spec fn rule_trace(outputs: Seq<CommandOutput>) -> Seq<Seq<char>>
    decreases outputs.len(),
{
    if outputs.len() == 0 {
        Seq::empty()
    } else {
        match outputs.last() {
            CommandOutput::ProveExistsRuleTrace(rules) => rules.deep_view(),
            CommandOutput::ProveExists { rule_trace } => rule_trace.deep_view(),
            _ => rule_trace(outputs.drop_last()),
        }
    }
}

/// The message for outputs without an extraction.
pub open spec fn no_extract_message() -> Seq<char> {
    "rewrite trace expected an extract result but none was produced"@
}

/// The last extraction among the outputs: its printed term and its cost.
pub fn extract_best_output(outputs: &[CommandOutput]) -> (best: Result<
    (String, DefaultCost),
    Error,
>)
    ensures
        match best_output(outputs@) {
            Some((term, cost)) => best matches Ok(found) && found.0@ == term && found.1 == cost,
            None => best matches Err(Error::BackendError(message)) && message@
                == no_extract_message(),
        },
{
    let mut k: usize = outputs.len();
    proof {
        assert(outputs@.take(k as int) =~= outputs@);
    }
    while k > 0
        invariant
            k <= outputs.len(),
            best_output(outputs@) == best_output(outputs@.take(k as int)),
        decreases k,
    {
        proof {
            assert(outputs@.take(k as int).last() == outputs@[k - 1]);
            assert(outputs@.take(k as int).drop_last() =~= outputs@.take(k - 1));
        }
        if let CommandOutput::ExtractBest { term, cost } = &outputs[k - 1] {
            return Ok((term.clone(), *cost));
        }
        k = k - 1;
    }
    Err(
        Error::BackendError(
            "rewrite trace expected an extract result but none was produced".to_owned(),
        ),
    )
}

/// The rules of the last proof among the outputs.
pub fn extract_rule_trace_from_outputs(outputs: &[CommandOutput]) -> (rules: Vec<String>)
    ensures
        rules.deep_view() == rule_trace(outputs@),
{
    let mut k: usize = outputs.len();
    proof {
        assert(outputs@.take(k as int) =~= outputs@);
    }
    while k > 0
        invariant
            k <= outputs.len(),
            rule_trace(outputs@) == rule_trace(outputs@.take(k as int)),
        decreases k,
    {
        proof {
            assert(outputs@.take(k as int).last() == outputs@[k - 1]);
            assert(outputs@.take(k as int).drop_last() =~= outputs@.take(k - 1));
        }
        match &outputs[k - 1] {
            CommandOutput::ProveExistsRuleTrace(rules) => {
                let found = rules.clone();
                proof {
                    assert(found.deep_view() =~= rules.deep_view());
                }
                return found;
            },
            CommandOutput::ProveExists { rule_trace } => {
                let found = rule_trace.clone();
                proof {
                    assert(found.deep_view() =~= rule_trace.deep_view());
                }
                return found;
            },
            _ => {},
        }
        k = k - 1;
    }
    let none: Vec<String> = Vec::new();
    proof {
        assert(none.deep_view() =~= Seq::empty());
    }
    none
}

} // verus!
