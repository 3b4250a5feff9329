//! What a trace and its report say, in terms of the program, the configuration and the
//! replies of the engine.

use vstd::prelude::*;

use crate::command::Command;
use crate::engine::{CommandOutput, DefaultCost, EngineRequest, RewriteTraceConfig};
use crate::error::{Error, Failure};
use crate::trace::{
    Reply, Report, RewriteTraceReport, RewriteTraceRound, Round, Stage, TraceState,
};

verus! {

/// A configuration is refused for want of iterations, then for want of rounds, and for
/// nothing else.
pub proof fn law_refused_configurations(config: RewriteTraceConfig)
    ensures
        config.round_iters == 0 ==> crate::trace::config_failure(config) == Some(
            Failure::Backend("rewrite trace requires --rewrite-trace-iters > 0"@),
        ),
        config.round_iters > 0 && config.max_rounds == 0 ==> crate::trace::config_failure(config)
            == Some(Failure::Backend("rewrite trace requires --rewrite-trace-rounds > 0"@)),
        config.round_iters > 0 && config.max_rounds > 0 ==> crate::trace::config_failure(
            config,
        ) is None,
{
}

/// A trace of a parsed program starts exactly if the program has a seed.
pub proof fn law_only_a_missing_seed_prevents_a_start(
    filename: Option<Seq<char>>,
    commands: Seq<Command>,
    config: RewriteTraceConfig,
)
    ensures
        crate::command::seed_expr(commands) is Some <==> crate::trace::started(
            filename,
            commands,
            config,
        ) is Ok,
        crate::command::seed_expr(commands) is None ==> crate::trace::started(
            filename,
            commands,
            config,
        ) == Err::<TraceState, Failure>(
            Failure::Backend(
                "rewrite trace requires a global `(let $expr ...)` seed expression"@,
            ),
        ),
{
}

/// A configured ruleset is the one that runs, whatever the program runs itself.
pub proof fn law_configured_ruleset_runs(
    filename: Option<Seq<char>>,
    commands: Seq<Command>,
    config: RewriteTraceConfig,
    ruleset: String,
    start: TraceState,
)
    requires
        config.ruleset == Some(ruleset),
        crate::trace::started(filename, commands, config) == Ok::<TraceState, Failure>(start),
    ensures
        start.ruleset == ruleset@,
{
}

/// Without a configured ruleset, that of the first plain run in the program runs, or
/// the default one if there is no plain run.
pub proof fn law_unconfigured_ruleset_is_read_from_the_program(
    filename: Option<Seq<char>>,
    commands: Seq<Command>,
    config: RewriteTraceConfig,
    start: TraceState,
)
    requires
        config.ruleset is None,
        crate::trace::started(filename, commands, config) == Ok::<TraceState, Failure>(start),
    ensures
        crate::command::default_ruleset(commands) matches Some(ruleset) ==> start.ruleset
            == ruleset,
        crate::command::default_ruleset(commands) is None ==> start.ruleset.len() == 0,
{
}

/// A trace starts from the base program. A ruleset with a name that the program does not
/// declare is declared in front; no other is.
pub proof fn law_trace_starts_from_the_base_program(
    filename: Option<Seq<char>>,
    commands: Seq<Command>,
    config: RewriteTraceConfig,
    start: TraceState,
)
    requires
        crate::trace::started(filename, commands, config) == Ok::<TraceState, Failure>(start),
    ensures
        start.ruleset.len() == 0 || crate::command::ruleset_declared(commands, start.ruleset)
            ==> start.base_program == crate::program::base_program(commands, filename),
        start.ruleset.len() > 0 && !crate::command::ruleset_declared(commands, start.ruleset)
            ==> start.base_program == "(ruleset "@ + start.ruleset + ")\n"@
            + crate::program::base_program(commands, filename),
{
}

/// A trace starts with the given configuration and file name, before the first program,
/// and without rounds.
pub proof fn law_trace_starts_at_the_beginning(
    filename: Option<Seq<char>>,
    commands: Seq<Command>,
    config: RewriteTraceConfig,
    start: TraceState,
)
    requires
        crate::trace::started(filename, commands, config) == Ok::<TraceState, Failure>(start),
    ensures
        start.config == config,
        start.filename == filename,
        start.stage is Initial,
        start.rounds.len() == 0,
{
}

proof fn lemma_seed_ignores_runtime_command(
    before: Seq<Command>,
    command: Command,
    after: Seq<Command>,
)
    requires
        crate::command::runtime_command(command),
    ensures
        crate::command::seed_expr(before + (seq![command] + after)) == crate::command::seed_expr(
            before + after,
        ),
    decreases before.len(),
{
    if before.len() == 0 {
        assert(before + (seq![command] + after) =~= seq![command] + after);
        assert(before + after =~= after);
        assert((seq![command] + after).drop_first() =~= after);
        assert((seq![command] + after)[0] == command);
    } else {
        lemma_seed_ignores_runtime_command(before.drop_first(), command, after);
        assert((before + (seq![command] + after)).drop_first() =~= before.drop_first() + (
        seq![command] + after));
        assert((before + after).drop_first() =~= before.drop_first() + after);
    }
}

proof fn lemma_declaration_ignores_runtime_command(
    before: Seq<Command>,
    command: Command,
    after: Seq<Command>,
    ruleset: Seq<char>,
)
    requires
        crate::command::runtime_command(command),
    ensures
        crate::command::ruleset_declared(before + (seq![command] + after), ruleset)
            == crate::command::ruleset_declared(before + after, ruleset),
{
    let longer = before + (seq![command] + after);
    let shorter = before + after;
    let place = before.len() as int;
    assert(longer[place] == command);
    if crate::command::ruleset_declared(longer, ruleset) {
        let k = choose|k: int|
            0 <= k < longer.len() && crate::command::declares_ruleset(
                #[trigger] longer[k],
                ruleset,
            );
        if k < place {
            assert(shorter[k] == longer[k]);
        } else {
            assert(k > place);
            assert(shorter[k - 1] == longer[k]);
        }
    }
    if crate::command::ruleset_declared(shorter, ruleset) {
        let k = choose|k: int|
            0 <= k < shorter.len() && crate::command::declares_ruleset(
                #[trigger] shorter[k],
                ruleset,
            );
        if k < place {
            assert(longer[k] == shorter[k]);
        } else {
            assert(longer[k + 1] == shorter[k]);
        }
    }
}

/// With a configured ruleset, runtime commands in the program make no difference to the
/// trace: one may stand anywhere, or be left out.
pub proof fn law_runtime_commands_make_no_difference(
    filename: Option<Seq<char>>,
    before: Seq<Command>,
    command: Command,
    after: Seq<Command>,
    config: RewriteTraceConfig,
)
    requires
        config.ruleset is Some,
        crate::command::runtime_command(command),
    ensures
        crate::trace::started(filename, before + (seq![command] + after), config)
            == crate::trace::started(filename, before + after, config),
{
    lemma_seed_ignores_runtime_command(before, command, after);
    lemma_declaration_ignores_runtime_command(before, command, after, config.ruleset->0@);
    crate::program_laws::law_runtime_command_can_be_left_out(before, command, after, filename);
}

/// The replies behind a report: one before the first round, one for each round, and with
/// proofs another for each round; and the term and the cost that each round extracts.
pub struct Evidence {
    pub initial: Reply,
    pub snapshots: Seq<Reply>,
    pub proofs: Seq<Reply>,
    pub terms: Seq<Seq<char>>,
    pub costs: Seq<DefaultCost>,
}

/// Whether the snapshot of round `k` is a reply of the engine to the program of that
/// round, with the term and the cost of the evidence.
pub open spec fn snapshot_explained<R: Fn(EngineRequest) -> Reply>(
    run: R,
    start: TraceState,
    evidence: Evidence,
    k: int,
) -> bool {
    &&& crate::engine::engine_replies(
        run,
        crate::program::extract_program(
            start.base_program,
            start.ruleset,
            ((k + 1) * start.config.round_iters) as nat,
        ),
        start.filename,
        crate::engine::settings_for(start.config, false),
        evidence.snapshots[k],
    )
    &&& evidence.snapshots[k] matches Ok(outputs) && crate::engine::best_output(outputs@) == Some(
        (evidence.terms[k], evidence.costs[k]),
    )
}

/// Whether round `k` says what the evidence does: its place, the fall of the cost since
/// the round before, and the chain of the rules of its proof.
pub open spec fn round_explained<R: Fn(EngineRequest) -> Reply>(
    run: R,
    start: TraceState,
    evidence: Evidence,
    initial_cost: DefaultCost,
    round: Round,
    k: int,
) -> bool {
    &&& round.round_index == k + 1
    &&& round.cost_delta == if k == 0 {
        initial_cost - evidence.costs[k]
    } else {
        evidence.costs[k - 1] - evidence.costs[k]
    }
    &&& if start.config.with_proofs {
        &&& crate::engine::engine_replies(
            run,
            crate::program::proof_program(
                start.base_program,
                start.ruleset,
                ((k + 1) * start.config.round_iters) as nat,
                evidence.terms[k],
            ),
            start.filename,
            crate::engine::settings_for(start.config, true),
            evidence.proofs[k],
        )
        &&& round.chain_text == crate::chain::chain_text(
            crate::chain::compressed(
                match evidence.proofs[k] {
                    Ok(outputs) => crate::engine::rule_trace(outputs@),
                    Err(_) => Seq::empty(),
                },
                4,
            ),
        )
    } else {
        round.chain_text == Seq::<char>::empty()
    }
}

/// Whether the evidence stands behind a state.
spec fn stands_behind<R: Fn(EngineRequest) -> Reply>(
    run: R,
    start: TraceState,
    evidence: Evidence,
    state: TraceState,
) -> bool {
    let done = state.rounds.len() as int;
    let seen: int = if state.stage is Proof {
        done + 1
    } else {
        done
    };
    &&& state.config == start.config
    &&& state.filename == start.filename
    &&& state.base_program == start.base_program
    &&& state.ruleset == start.ruleset
    &&& evidence.snapshots.len() == seen
    &&& evidence.terms.len() == seen
    &&& evidence.costs.len() == seen
    &&& start.config.with_proofs ==> evidence.proofs.len() == done
    &&& state.stage is Proof ==> start.config.with_proofs
    &&& state.stage is Initial ==> done == 0
    &&& !(state.stage is Initial) ==> {
        &&& crate::engine::engine_replies(
            run,
            crate::program::initial_extract_program(start.base_program),
            start.filename,
            crate::engine::settings_for(start.config, false),
            evidence.initial,
        )
        &&& evidence.initial matches Ok(outputs) && crate::engine::best_output(
            outputs@,
        ) matches Some(best) && best.1 == state.initial_cost
        &&& state.previous_cost == if done == 0 {
            state.initial_cost
        } else {
            evidence.costs[done - 1]
        }
    }
    &&& state.stage matches Stage::Proof { best_expr, best_cost } ==> best_expr
        == evidence.terms[done] && best_cost == evidence.costs[done]
    &&& forall|k: int| 0 <= k < seen ==> #[trigger] snapshot_explained(run, start, evidence, k)
    &&& forall|k: int|
        0 <= k < done ==> round_explained(
            run,
            start,
            evidence,
            state.initial_cost,
            #[trigger] state.rounds[k],
            k,
        )
}

proof fn lemma_snapshots_kept<R: Fn(EngineRequest) -> Reply>(
    run: R,
    start: TraceState,
    old_evidence: Evidence,
    evidence: Evidence,
    k: int,
)
    requires
        0 <= k < old_evidence.snapshots.len(),
        k < old_evidence.terms.len(),
        k < old_evidence.costs.len(),
        old_evidence.snapshots.is_prefix_of(evidence.snapshots),
        old_evidence.terms.is_prefix_of(evidence.terms),
        old_evidence.costs.is_prefix_of(evidence.costs),
        snapshot_explained(run, start, old_evidence, k),
    ensures
        snapshot_explained(run, start, evidence, k),
{
    assert(evidence.snapshots[k] == old_evidence.snapshots[k]);
    assert(evidence.terms[k] == old_evidence.terms[k]);
    assert(evidence.costs[k] == old_evidence.costs[k]);
}

/// A snapshot adds a reply, a term and a cost.
proof fn lemma_snapshot_added<R: Fn(EngineRequest) -> Reply>(
    run: R,
    start: TraceState,
    earlier: Evidence,
    state: TraceState,
    reply: Reply,
) -> (evidence: Evidence)
    requires
        stands_behind(run, start, earlier, state),
        state.stage is Snapshot,
        crate::trace::engine_replies_in(run, state, reply),
        crate::trace::extraction(reply) is Ok,
    ensures
        evidence == (Evidence {
            snapshots: earlier.snapshots.push(reply),
            terms: earlier.terms.push(crate::trace::extraction(reply)->Ok_0.0),
            costs: earlier.costs.push(crate::trace::extraction(reply)->Ok_0.1),
            ..earlier
        }),
        forall|k: int|
            0 <= k <= state.rounds.len() ==> #[trigger] snapshot_explained(
                run,
                start,
                evidence,
                k,
            ),
{
    let evidence = Evidence {
        snapshots: earlier.snapshots.push(reply),
        terms: earlier.terms.push(crate::trace::extraction(reply)->Ok_0.0),
        costs: earlier.costs.push(crate::trace::extraction(reply)->Ok_0.1),
        ..earlier
    };
    assert forall|k: int| 0 <= k <= state.rounds.len() implies #[trigger] snapshot_explained(
        run,
        start,
        evidence,
        k,
    ) by {
        if k < state.rounds.len() {
            assert(snapshot_explained(run, start, earlier, k));
            lemma_snapshots_kept(run, start, earlier, evidence, k);
        }
    }
    evidence
}

/// Whether the evidence stands behind a state whose current round is still to be
/// recorded, with its snapshot taken.
spec fn ready_to_record<R: Fn(EngineRequest) -> Reply>(
    run: R,
    start: TraceState,
    evidence: Evidence,
    state: TraceState,
) -> bool {
    let done = state.rounds.len() as int;
    &&& state.config == start.config
    &&& state.filename == start.filename
    &&& state.base_program == start.base_program
    &&& state.ruleset == start.ruleset
    &&& !(state.stage is Initial)
    &&& evidence.snapshots.len() == done + 1
    &&& evidence.terms.len() == done + 1
    &&& evidence.costs.len() == done + 1
    &&& crate::engine::engine_replies(
        run,
        crate::program::initial_extract_program(start.base_program),
        start.filename,
        crate::engine::settings_for(start.config, false),
        evidence.initial,
    )
    &&& evidence.initial matches Ok(outputs) && crate::engine::best_output(
        outputs@,
    ) matches Some(best) && best.1 == state.initial_cost
    &&& state.previous_cost == if done == 0 {
        state.initial_cost
    } else {
        evidence.costs[done - 1]
    }
    &&& forall|k: int| 0 <= k <= done ==> #[trigger] snapshot_explained(run, start, evidence, k)
    &&& forall|k: int|
        0 <= k < done ==> round_explained(
            run,
            start,
            evidence,
            state.initial_cost,
            #[trigger] state.rounds[k],
            k,
        )
}

/// Recording a round without proofs.
proof fn lemma_plain_round_recorded<R: Fn(EngineRequest) -> Reply>(
    run: R,
    start: TraceState,
    evidence: Evidence,
    state: TraceState,
)
    requires
        ready_to_record(run, start, evidence, state),
        !start.config.with_proofs,
    ensures
        stands_behind(
            run,
            start,
            evidence,
            crate::trace::recorded(state, evidence.costs[state.rounds.len() as int], Seq::empty()),
        ),
{
    let done = state.rounds.len() as int;
    let next = crate::trace::recorded(state, evidence.costs[done], Seq::empty());
    crate::chain_laws::law_empty_trace_has_an_empty_chain(4);
    crate::chain_laws::law_empty_chain_reads_empty();
    assert(next.rounds[done].chain_text == Seq::<char>::empty());
    assert forall|k: int| 0 <= k < next.rounds.len() implies round_explained(
        run,
        start,
        evidence,
        next.initial_cost,
        #[trigger] next.rounds[k],
        k,
    ) by {
        if k < done {
            assert(next.rounds[k] == state.rounds[k]);
        }
    }
}

/// Recording a round with the reply to its proof.
proof fn lemma_proved_round_recorded<R: Fn(EngineRequest) -> Reply>(
    run: R,
    start: TraceState,
    earlier: Evidence,
    state: TraceState,
    reply: Reply,
) -> (evidence: Evidence)
    requires
        stands_behind(run, start, earlier, state),
        state.stage is Proof,
        crate::trace::engine_replies_in(run, state, reply),
    ensures
        stands_behind(
            run,
            start,
            evidence,
            crate::trace::recorded(
                state,
                state.stage->best_cost,
                crate::trace::proof_rules(reply),
            ),
        ),
{
    let done = state.rounds.len() as int;
    let evidence = Evidence { proofs: earlier.proofs.push(reply), ..earlier };
    let next = crate::trace::recorded(
        state,
        state.stage->best_cost,
        crate::trace::proof_rules(reply),
    );
    assert forall|k: int| 0 <= k <= done implies #[trigger] snapshot_explained(
        run,
        start,
        evidence,
        k,
    ) by {
        assert(snapshot_explained(run, start, earlier, k));
    }
    assert(evidence.proofs[done] == reply);
    assert forall|k: int| 0 <= k < next.rounds.len() implies round_explained(
        run,
        start,
        evidence,
        next.initial_cost,
        #[trigger] next.rounds[k],
        k,
    ) by {
        if k < done {
            assert(next.rounds[k] == state.rounds[k]);
            assert(round_explained(run, start, earlier, state.initial_cost, state.rounds[k], k));
            assert(start.config.with_proofs ==> evidence.proofs[k] == earlier.proofs[k]);
        }
    }
    evidence
}

/// What the evidence says of a round does not change when more is added to it.
proof fn lemma_rounds_kept<R: Fn(EngineRequest) -> Reply>(
    run: R,
    start: TraceState,
    earlier: Evidence,
    evidence: Evidence,
    initial_cost: DefaultCost,
    round: Round,
    k: int,
)
    requires
        0 <= k < earlier.terms.len(),
        k < earlier.costs.len(),
        earlier.terms.is_prefix_of(evidence.terms),
        earlier.costs.is_prefix_of(evidence.costs),
        earlier.proofs == evidence.proofs,
        round_explained(run, start, earlier, initial_cost, round, k),
    ensures
        round_explained(run, start, evidence, initial_cost, round, k),
{
    assert(evidence.terms[k] == earlier.terms[k]);
    assert(evidence.costs[k] == earlier.costs[k]);
    if k > 0 {
        assert(evidence.costs[k - 1] == earlier.costs[k - 1]);
    }
}

proof fn lemma_evidence<R: Fn(EngineRequest) -> Reply>(
    run: R,
    start: TraceState,
    replies: Seq<Reply>,
    state: TraceState,
) -> (evidence: Evidence)
    requires
        start.stage is Initial,
        start.rounds.len() == 0,
        crate::trace::replies_from(run, start, replies),
        crate::trace::after(start, replies) == Ok::<TraceState, Failure>(state),
    ensures
        stands_behind(run, start, evidence, state),
    decreases replies.len(),
{
    if replies.len() == 0 {
        Evidence {
            initial: arbitrary(),
            snapshots: Seq::empty(),
            proofs: Seq::empty(),
            terms: Seq::empty(),
            costs: Seq::empty(),
        }
    } else {
        let fewer = replies.drop_last();
        let last = replies.len() - 1;
        let reply = replies[last];
        let before = crate::trace::after(start, fewer)->Ok_0;
        assert forall|k: int| 0 <= k < fewer.len() implies #[trigger] crate::trace::reply_fits(
            run,
            start,
            fewer,
            k,
        ) by {
            assert(crate::trace::reply_fits(run, start, replies, k));
            assert(fewer.take(k) =~= replies.take(k));
        }
        assert(crate::trace::reply_fits(run, start, replies, last));
        assert(replies.take(last) =~= fewer);
        let earlier = lemma_evidence(run, start, fewer, before);
        match before.stage {
            Stage::Initial => {
                let evidence = Evidence { initial: reply, ..earlier };
                assert(stands_behind(run, start, evidence, state));
                evidence
            },
            Stage::Snapshot => {
                let evidence = lemma_snapshot_added(run, start, earlier, before, reply);
                assert forall|k: int| 0 <= k < before.rounds.len() implies round_explained(
                    run,
                    start,
                    evidence,
                    before.initial_cost,
                    #[trigger] before.rounds[k],
                    k,
                ) by {
                    lemma_rounds_kept(
                        run,
                        start,
                        earlier,
                        evidence,
                        before.initial_cost,
                        before.rounds[k],
                        k,
                    );
                }
                assert(ready_to_record(run, start, evidence, before));
                if !start.config.with_proofs {
                    lemma_plain_round_recorded(run, start, evidence, before);
                }
                evidence
            },
            Stage::Proof { .. } => {
                lemma_proved_round_recorded(run, start, earlier, before, reply)
            },
            Stage::Finished => earlier,
        }
    }
}

/// What a report says. Its initial cost is that of the last extraction in a reply to the
/// base program with the query alone. Each round goes by the last extraction in a reply
/// to the program that runs the iterations of all rounds so far: its delta is the cost of
/// the round before less that cost. With proofs, its chain is the compressed chain, with
/// motifs of at most four rules, of the rules in a reply to the program that proves the
/// seed equal to the extracted term; without, it is empty.
pub proof fn law_report_says_what_the_engine_replied<R: Fn(EngineRequest) -> Reply>(
    run: R,
    filename: Option<Seq<char>>,
    commands: Seq<Command>,
    config: RewriteTraceConfig,
    start: TraceState,
    report: Report,
) -> (evidence: Evidence)
    requires
        crate::trace::config_failure(config) is None,
        crate::trace::started(filename, commands, config) == Ok::<TraceState, Failure>(start),
        crate::trace::traced(run, filename, commands, config, Ok(report)),
    ensures
        crate::engine::engine_replies(
            run,
            start.base_program + "\n(extract $expr)\n"@,
            filename,
            crate::engine::settings_for(config, false),
            evidence.initial,
        ),
        evidence.initial matches Ok(outputs) && crate::engine::best_output(outputs@) matches Some(
            best,
        ) && best.1 == report.initial_cost,
        report.rounds.len() == config.max_rounds,
        forall|k: int|
            0 <= k < config.max_rounds ==> #[trigger] snapshot_explained(run, start, evidence, k),
        forall|k: int|
            0 <= k < config.max_rounds ==> round_explained(
                run,
                start,
                evidence,
                report.initial_cost,
                #[trigger] report.rounds[k],
                k,
            ),
{
    crate::trace_laws::law_report_has_every_round(run, filename, commands, config, report);
    let outcome = Ok::<Report, Failure>(report);
    let replies = choose|replies: Seq<Reply>|
        #[trigger] crate::trace::replies_from(run, start, replies) && crate::trace::ends_with(
            start,
            replies,
            outcome,
        );
    let state = crate::trace::after(start, replies)->Ok_0;
    lemma_evidence(run, start, replies, state)
}

/// Whether `program` is one that a trace extracts from: the program before the first
/// round, or that of one of the rounds.
pub open spec fn extracts(start: TraceState, program: Seq<char>) -> bool {
    ||| program == start.base_program + "\n(extract $expr)\n"@
    ||| exists|round: int|
        1 <= round <= start.config.max_rounds && program
            == #[trigger] crate::program::extract_program(
            start.base_program,
            start.ruleset,
            (round * start.config.round_iters) as nat,
        )
}

/// Why a trace fails once it has started: the engine failed on a program that the trace
/// extracts from, and the trace fails with what the engine said; or the outputs hold no
/// extraction. Proofs never fail a trace.
pub proof fn law_failure_is_that_of_an_extraction<R: Fn(EngineRequest) -> Reply>(
    run: R,
    filename: Option<Seq<char>>,
    commands: Seq<Command>,
    config: RewriteTraceConfig,
    start: TraceState,
    failure: Failure,
) -> (cause: (Seq<char>, Reply))
    requires
        crate::trace::config_failure(config) is None,
        crate::trace::started(filename, commands, config) == Ok::<TraceState, Failure>(start),
        crate::trace::traced(run, filename, commands, config, Err(failure)),
    ensures
        extracts(start, cause.0),
        crate::engine::engine_replies(
            run,
            cause.0,
            filename,
            crate::engine::settings_for(config, false),
            cause.1,
        ),
        match cause.1 {
            Ok(outputs) => {
                &&& forall|j: int|
                    0 <= j < outputs@.len() ==> !((#[trigger] outputs@[j]) is ExtractBest)
                &&& failure == Failure::Backend(
                    "rewrite trace expected an extract result but none was produced"@,
                )
            },
            Err(error) => failure == error.deep_view(),
        },
{
    let outcome = Err::<Report, Failure>(failure);
    let replies = choose|replies: Seq<Reply>|
        #[trigger] crate::trace::replies_from(run, start, replies) && crate::trace::ends_with(
            start,
            replies,
            outcome,
        );
    assert(replies.len() > 0);
    let fewer = replies.drop_last();
    let last = replies.len() - 1;
    let reply = replies[last];
    assert forall|k: int| 0 <= k < fewer.len() implies #[trigger] crate::trace::reply_fits(
        run,
        start,
        fewer,
        k,
    ) by {
        assert(crate::trace::reply_fits(run, start, replies, k));
        assert(fewer.take(k) =~= replies.take(k));
    }
    assert(crate::trace::reply_fits(run, start, replies, last));
    assert(replies.take(last) =~= fewer);
    let before = crate::trace::after(start, fewer)->Ok_0;
    let earlier = lemma_evidence(run, start, fewer, before);
    crate::trace_laws::law_rounds_are_left(filename, commands, config, fewer, before);
    let planned = crate::trace::next_program(before)->0;
    let program = planned.0;
    match before.stage {
        Stage::Snapshot => {
            let round = before.rounds.len() + 1;
            assert(program == crate::program::extract_program(
                start.base_program,
                start.ruleset,
                (round * start.config.round_iters) as nat,
            ));
        },
        _ => {},
    }
    if let Ok(outputs) = reply {
        lemma_no_best_no_extraction(outputs@);
    }
    (program, reply)
}

proof fn lemma_no_best_no_extraction(outputs: Seq<CommandOutput>)
    requires
        crate::engine::best_output(outputs) is None,
    ensures
        forall|j: int| 0 <= j < outputs.len() ==> !((#[trigger] outputs[j]) is ExtractBest),
    decreases outputs.len(),
{
    if outputs.len() > 0 {
        lemma_no_best_no_extraction(outputs.drop_last());
        assert forall|j: int| 0 <= j < outputs.len() implies !((
        #[trigger] outputs[j]) is ExtractBest) by {
            if j < outputs.len() - 1 {
                assert(outputs.drop_last()[j] == outputs[j]);
            }
        }
    }
}

/// A trace of a program text fails as its configuration or its parser does, and is
/// otherwise the trace of the commands that the parser gave for this very text and file
/// name.
pub proof fn law_trace_is_that_of_the_parsed_program<
    P: Fn(Option<String>, &str) -> Result<Vec<Command>, Error>,
    R: Fn(EngineRequest) -> Reply,
>(
    filename: Option<String>,
    program_text: &str,
    config: RewriteTraceConfig,
    parse: P,
    run: R,
    outcome: Result<Report, Failure>,
)
    requires
        crate::trace::trace_ends(filename, program_text, config, parse, run, outcome),
    ensures
        crate::trace::config_failure(config) matches Some(failure) ==> outcome == Err::<
            Report,
            Failure,
        >(failure),
        crate::trace::config_failure(config) is None ==> exists|
            name: Option<String>,
            parsed: Result<Vec<Command>, Error>,
        |
            {
                &&& #[trigger] parse.ensures((name, program_text), parsed)
                &&& name.deep_view() == filename.deep_view()
                &&& parsed matches Err(error) ==> outcome == Err::<Report, Failure>(
                    error.deep_view(),
                )
                &&& parsed matches Ok(commands) ==> crate::trace::traced(
                    run,
                    filename.deep_view(),
                    commands@,
                    config,
                    outcome,
                )
            },
{
}

/// A program without a seed fails the trace before the engine runs at all.
pub proof fn law_program_without_a_seed_fails<R: Fn(EngineRequest) -> Reply>(
    run: R,
    filename: Option<Seq<char>>,
    commands: Seq<Command>,
    config: RewriteTraceConfig,
    outcome: Result<Report, Failure>,
)
    requires
        crate::command::seed_expr(commands) is None,
        crate::trace::traced(run, filename, commands, config, outcome),
    ensures
        outcome == Err::<Report, Failure>(
            Failure::Backend(
                "rewrite trace requires a global `(let $expr ...)` seed expression"@,
            ),
        ),
{
}

/// What can be counted: all rounds together, or those up to the current one.
pub proof fn law_what_can_be_counted(config: RewriteTraceConfig, state: TraceState)
    ensures
        crate::trace::iterations_fit(config) <==> config.max_rounds * config.round_iters
            <= usize::MAX,
        !crate::trace::round_fits(state) ==> {
            &&& state.stage is Snapshot || state.stage is Proof
            &&& (state.rounds.len() + 1) * state.config.round_iters > usize::MAX
        },
{
    let round = state.rounds.len() as int + 1;
    let iters = state.config.round_iters as int;
    assert(0 <= round * iters) by (nonlinear_arith)
        requires
            0 <= round,
            0 <= iters,
    ;
}

/// If the rounds of a trace do not all fit, the trace of some commands that the parser
/// gives for the text comes, along replies of the engine, to a round whose iterations
/// cannot be counted.
pub proof fn law_uncountable_round_is_reached<
    P: Fn(Option<String>, &str) -> Result<Vec<Command>, Error>,
    R: Fn(EngineRequest) -> Reply,
>(
    filename: Option<String>,
    program_text: &str,
    config: RewriteTraceConfig,
    parse: P,
    run: R,
) -> (found: (Option<String>, Vec<Command>, TraceState, Seq<Reply>, TraceState))
    requires
        !crate::trace::rounds_fit(filename, program_text, config, parse, run),
    ensures
        found.0.deep_view() == filename.deep_view(),
        parse.ensures((found.0, program_text), Ok(found.1)),
        crate::trace::started(filename.deep_view(), found.1@, config) == Ok::<
            TraceState,
            Failure,
        >(found.2),
        crate::trace::replies_from(run, found.2, found.3),
        crate::trace::after(found.2, found.3) == Ok::<TraceState, Failure>(found.4),
        found.4.stage is Snapshot || found.4.stage is Proof,
        (found.4.rounds.len() + 1) * config.round_iters > usize::MAX,
{
    let (name, commands, start) = choose|
        name: Option<String>,
        commands: Vec<Command>,
        start: TraceState,
    |
        {
            &&& name.deep_view() == filename.deep_view()
            &&& parse.ensures((name, program_text), Ok(commands))
            &&& crate::trace::started(filename.deep_view(), commands@, config) == Ok::<
                TraceState,
                Failure,
            >(start)
            &&& !(#[trigger] crate::trace::every_round_fits(run, start))
            &&& #[trigger] parse.ensures((name, program_text), Ok(commands))
        };
    let (replies, state) = choose|replies: Seq<Reply>, state: TraceState|
        {
            &&& #[trigger] crate::trace::replies_from(run, start, replies)
            &&& crate::trace::after(start, replies) == Ok::<TraceState, Failure>(state)
            &&& !(#[trigger] crate::trace::round_fits(state))
        };
    let evidence = lemma_evidence(run, start, replies, state);
    law_what_can_be_counted(config, state);
    (name, commands, start, replies, state)
}

/// Each step of a trace hands out the program of its stage: the query alone, that of the
/// current round, or the proof for the current round, for which proofs are on; and
/// nothing once every round is there.
pub proof fn law_next_program(state: TraceState)
    ensures
        ({
            let iterations = ((state.rounds.len() + 1) * state.config.round_iters) as nat;
            match state.stage {
                Stage::Initial => crate::trace::next_program(state) == Some(
                    (state.base_program + "\n(extract $expr)\n"@, false),
                ),
                Stage::Snapshot => crate::trace::next_program(state) == Some(
                    (
                        crate::program::extract_program(
                            state.base_program,
                            state.ruleset,
                            iterations,
                        ),
                        false,
                    ),
                ),
                Stage::Proof { best_expr, .. } => crate::trace::next_program(state) == Some(
                    (
                        crate::program::proof_program(
                            state.base_program,
                            state.ruleset,
                            iterations,
                            best_expr,
                        ),
                        true,
                    ),
                ),
                Stage::Finished => crate::trace::next_program(state) is None,
            }
        }),
{
}

/// A reply never changes what a trace works on, nor the rounds that are there; only the
/// reply before the first round sets the initial cost; and a complete trace is left as it
/// is.
pub proof fn law_replies_change_nothing_behind(state: TraceState, reply: Reply, next: TraceState)
    requires
        crate::trace::advanced(state, reply) == Ok::<TraceState, Failure>(next),
    ensures
        next.config == state.config,
        next.filename == state.filename,
        next.base_program == state.base_program,
        next.ruleset == state.ruleset,
        state.rounds.is_prefix_of(next.rounds),
        !(state.stage is Initial) ==> next.initial_cost == state.initial_cost,
        state.stage is Finished ==> next == state,
        !(next.stage is Initial),
{
    assert(state.rounds =~= next.rounds.take(state.rounds.len() as int));
}

/// A report, its rounds and an error are read by their fields.
pub proof fn law_report_is_read_by_its_fields(
    report: RewriteTraceReport,
    round: RewriteTraceRound,
    message: String,
)
    ensures
        report.deep_view().initial_cost == report.initial_cost,
        report.deep_view().rounds.len() == report.rounds@.len(),
        forall|k: int|
            0 <= k < report.rounds@.len() ==> #[trigger] report.deep_view().rounds[k]
                == report.rounds@[k].deep_view(),
        round.deep_view().round_index == round.round_index,
        round.deep_view().cost_delta == round.cost_delta,
        round.deep_view().chain_text == round.compressed_rule_chain_text@,
        Error::BackendError(message).deep_view() == Failure::Backend(message@),
        Error::EngineError(message).deep_view() == Failure::Engine(message@),
        crate::trace::outcome_of(Ok(report)) == Ok::<Report, Failure>(report.deep_view()),
        crate::trace::outcome_of(Err(Error::BackendError(message))) == Err::<Report, Failure>(
            Failure::Backend(message@),
        ),
        crate::trace::outcome_of(Err(Error::EngineError(message))) == Err::<Report, Failure>(
            Failure::Engine(message@),
        ),
{
}

/// The report of a state holds its initial cost and its rounds.
pub proof fn law_report_of_a_state(state: TraceState)
    ensures
        crate::trace::report_of(state).initial_cost == state.initial_cost,
        crate::trace::report_of(state).rounds == state.rounds,
{
}

} // verus!
