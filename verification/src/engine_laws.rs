//! What holds of every set-up, request and reply.

use vstd::prelude::*;

use crate::engine::{
    CommandOutput, DefaultCost, EngineRequest, EngineSettings, RewriteTraceConfig,
};
use crate::error::Error;

verus! {

/// The best output is the last extraction: its term and its cost, whatever stands
/// before it and whatever other output follows.
pub proof fn law_last_extraction_is_the_best(
    outputs: Seq<CommandOutput>,
    k: int,
    term: String,
    cost: DefaultCost,
)
    requires
        0 <= k < outputs.len(),
        outputs[k] == (CommandOutput::ExtractBest { term, cost }),
        forall|j: int| k < j < outputs.len() ==> !((#[trigger] outputs[j]) is ExtractBest),
    ensures
        crate::engine::best_output(outputs) == Some((term@, cost)),
    decreases outputs.len(),
{
    if k < outputs.len() - 1 {
        assert(!(outputs[outputs.len() - 1] is ExtractBest));
        law_last_extraction_is_the_best(outputs.drop_last(), k, term, cost);
    }
}

/// Without an extraction there is no best output.
pub proof fn law_no_extraction_no_best(outputs: Seq<CommandOutput>)
    requires
        forall|j: int| 0 <= j < outputs.len() ==> !((#[trigger] outputs[j]) is ExtractBest),
    ensures
        crate::engine::best_output(outputs) is None,
    decreases outputs.len(),
{
    if outputs.len() > 0 {
        assert(!(outputs[outputs.len() - 1] is ExtractBest));
        law_no_extraction_no_best(outputs.drop_last());
    }
}


/// The rules that are read are those of the last proof, all of them and in their own
/// order.
pub proof fn law_last_proof_gives_its_rules_in_order(
    outputs: Seq<CommandOutput>,
    k: int,
    rules: Vec<String>,
)
    requires
        0 <= k < outputs.len(),
        outputs[k] == CommandOutput::ProveExistsRuleTrace(rules) || outputs[k] == (
        CommandOutput::ProveExists { rule_trace: rules }),
        forall|j: int|
            k < j < outputs.len() ==> !((#[trigger] outputs[j]) is ProveExistsRuleTrace) && !(
            outputs[j] is ProveExists),
    ensures
        crate::engine::rule_trace(outputs).len() == rules@.len(),
        forall|m: int|
            0 <= m < rules@.len() ==> (#[trigger] crate::engine::rule_trace(outputs)[m])
                == rules@[m]@,
    decreases outputs.len(),
{
    if k < outputs.len() - 1 {
        let last = outputs[outputs.len() - 1];
        assert(!(last is ProveExistsRuleTrace) && !(last is ProveExists));
        law_last_proof_gives_its_rules_in_order(outputs.drop_last(), k, rules);
    }
}

/// Without a proof there are no rules.
pub proof fn law_no_proof_no_rules(outputs: Seq<CommandOutput>)
    requires
        forall|j: int|
            0 <= j < outputs.len() ==> !((#[trigger] outputs[j]) is ProveExistsRuleTrace) && !(
            outputs[j] is ProveExists),
    ensures
        crate::engine::rule_trace(outputs).len() == 0,
    decreases outputs.len(),
{
    if outputs.len() > 0 {
        let last = outputs[outputs.len() - 1];
        assert(!(last is ProveExistsRuleTrace) && !(last is ProveExists));
        law_no_proof_no_rules(outputs.drop_last());
    }
}

/// The message for outputs without an extraction.
pub proof fn law_message_without_an_extraction()
    ensures
        crate::engine::no_extract_message()
            == "rewrite trace expected an extract result but none was produced"@,
{
}

/// Settings pass every switch of the configuration on, each by itself; proofs are on
/// if the configuration or the caller wants them, and are then reported by their rules
/// alone.
pub proof fn law_settings_pass_the_configuration_on(
    config: RewriteTraceConfig,
    force_proofs: bool,
)
    ensures
        ({
            let settings = crate::engine::settings_for(config, force_proofs);
            &&& settings.term_encoding == config.term_encoding
            &&& settings.fact_directory == config.fact_directory
            &&& settings.seminaive == config.seminaive
            &&& settings.report_level == config.report_level
            &&& settings.strict_mode == config.strict_mode
            &&& settings.proofs <==> config.with_proofs || force_proofs
            &&& settings.proof_rule_trace_only == settings.proofs
        }),
{
}

/// The ruleset, the rounds and their iterations are no business of the engine's
/// set-up.
pub proof fn law_settings_ignore_the_plan(
    config: RewriteTraceConfig,
    force_proofs: bool,
    round_iters: usize,
    max_rounds: usize,
    ruleset: Option<String>,
)
    ensures
        crate::engine::settings_for(
            RewriteTraceConfig { round_iters, max_rounds, ruleset, ..config },
            force_proofs,
        ) == crate::engine::settings_for(config, force_proofs),
{
}

/// A reply of the engine is a reply to a request with exactly the given program, file
/// name and settings.
pub proof fn law_replies_answer_their_request<
    R: Fn(EngineRequest) -> Result<Vec<CommandOutput>, Error>,
>(
    run: R,
    program: Seq<char>,
    filename: Option<Seq<char>>,
    settings: EngineSettings,
    reply: Result<Vec<CommandOutput>, Error>,
)
    ensures
        crate::engine::engine_replies(run, program, filename, settings, reply) <==> exists|
            request: EngineRequest,
        |
            {
                &&& #[trigger] run.ensures((request,), reply)
                &&& request.program@ == program
                &&& request.filename.deep_view() == filename
                &&& request.settings == settings
            },
{
}

} // verus!
