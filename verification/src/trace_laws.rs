//! What holds of every trace.

use vstd::prelude::*;

use crate::command::Command;
use crate::engine::{DefaultCost, EngineRequest, RewriteTraceConfig};
use crate::error::Failure;
use crate::trace::{Reply, Report, Round, Stage, TraceState};

verus! {

/// By how much the cost falls over a number of rounds.
pub open spec fn total_delta(rounds: Seq<Round>) -> int
    decreases rounds.len(),
{
    if rounds.len() == 0 {
        0
    } else {
        total_delta(rounds.drop_last()) + rounds.last().cost_delta
    }
}

/// Whether `state` is one that the trace of some program under a sound
/// configuration comes to with `replies`.
pub open spec fn reached(
    filename: Option<Seq<char>>,
    commands: Seq<Command>,
    config: RewriteTraceConfig,
    replies: Seq<Reply>,
    state: TraceState,
) -> bool {
    &&& crate::trace::config_failure(config) is None
    &&& crate::trace::started(filename, commands, config) matches Ok(start)
        && crate::trace::after(start, replies) == Ok::<TraceState, Failure>(state)
}

/// What every reached state satisfies.
spec fn sound(config: RewriteTraceConfig, state: TraceState) -> bool {
    &&& state.config == config
    &&& state.rounds.len() <= config.max_rounds
    &&& state.stage is Finished <==> state.rounds.len() == config.max_rounds
    &&& state.stage is Initial ==> state.rounds.len() == 0 && state.previous_cost
        == state.initial_cost
    &&& state.stage is Proof ==> config.with_proofs
    &&& forall|k: int|
        0 <= k < state.rounds.len() ==> (#[trigger] state.rounds[k]).round_index == k + 1
    &&& !config.with_proofs ==> forall|k: int|
        0 <= k < state.rounds.len() ==> (#[trigger] state.rounds[k]).chain_text == Seq::<
            char,
        >::empty()
    &&& total_delta(state.rounds) == state.initial_cost - state.previous_cost
}

proof fn lemma_recorded_sound(
    config: RewriteTraceConfig,
    state: TraceState,
    cost: DefaultCost,
    rules: Seq<Seq<char>>,
)
    requires
        sound(config, state),
        !(state.stage is Finished),
        !(state.stage is Initial),
        !config.with_proofs ==> rules.len() == 0,
    ensures
        sound(config, crate::trace::recorded(state, cost, rules)),
{
    let next = crate::trace::recorded(state, cost, rules);
    assert(next.rounds.drop_last() =~= state.rounds);
    if !config.with_proofs {
        assert(crate::chain::compressed(rules, crate::trace::CHAIN_WINDOW as int) =~= Seq::empty());
        crate::chain_laws::law_empty_chain_reads_empty();
    }
    assert forall|k: int| 0 <= k < next.rounds.len() implies (
    #[trigger] next.rounds[k]).round_index == k + 1 && (!config.with_proofs
        ==> next.rounds[k].chain_text == Seq::<char>::empty()) by {
        if k < state.rounds.len() {
            assert(next.rounds[k] == state.rounds[k]);
        }
    }
}

proof fn lemma_reached_sound(
    filename: Option<Seq<char>>,
    commands: Seq<Command>,
    config: RewriteTraceConfig,
    replies: Seq<Reply>,
    state: TraceState,
)
    requires
        reached(filename, commands, config, replies, state),
    ensures
        sound(config, state),
    decreases replies.len(),
{
    let start = crate::trace::started(filename, commands, config)->Ok_0;
    if replies.len() > 0 {
        let before = crate::trace::after(start, replies.drop_last())->Ok_0;
        lemma_reached_sound(filename, commands, config, replies.drop_last(), before);
        match before.stage {
            Stage::Snapshot => {
                if !config.with_proofs {
                    let cost = crate::trace::extraction(replies.last())->Ok_0.1;
                    lemma_recorded_sound(config, before, cost, Seq::empty());
                }
            },
            Stage::Proof { best_cost, .. } => {
                lemma_recorded_sound(
                    config,
                    before,
                    best_cost,
                    crate::trace::proof_rules(replies.last()),
                );
            },
            _ => {},
        }
    }
}

/// A trace that is not complete has rounds left to run, and none before its first
/// program.
pub proof fn law_rounds_are_left(
    filename: Option<Seq<char>>,
    commands: Seq<Command>,
    config: RewriteTraceConfig,
    replies: Seq<Reply>,
    state: TraceState,
)
    requires
        reached(filename, commands, config, replies, state),
    ensures
        !(state.stage is Finished) ==> state.rounds.len() < config.max_rounds,
        state.stage is Finished ==> state.rounds.len() == config.max_rounds,
        state.stage is Initial ==> state.rounds.len() == 0,
{
    lemma_reached_sound(filename, commands, config, replies, state);
}

/// Every report has exactly the wanted number of rounds, numbered from one.
pub proof fn law_report_has_every_round<R: Fn(EngineRequest) -> Reply>(
    run: R,
    filename: Option<Seq<char>>,
    commands: Seq<Command>,
    config: RewriteTraceConfig,
    report: Report,
)
    requires
        crate::trace::config_failure(config) is None,
        crate::trace::traced(run, filename, commands, config, Ok(report)),
    ensures
        report.rounds.len() == config.max_rounds,
        forall|k: int|
            0 <= k < config.max_rounds ==> (#[trigger] report.rounds[k]).round_index == k + 1,
{
    let (replies, state) = lemma_report_reached(run, filename, commands, config, report);
    lemma_reached_sound(filename, commands, config, replies, state);
}

proof fn lemma_report_reached<R: Fn(EngineRequest) -> Reply>(
    run: R,
    filename: Option<Seq<char>>,
    commands: Seq<Command>,
    config: RewriteTraceConfig,
    report: Report,
) -> (end: (Seq<Reply>, TraceState))
    requires
        crate::trace::config_failure(config) is None,
        crate::trace::traced(run, filename, commands, config, Ok(report)),
    ensures
        reached(filename, commands, config, end.0, end.1),
        end.1.stage is Finished,
        report == crate::trace::report_of(end.1),
        crate::trace::replies_from(
            run,
            crate::trace::started(filename, commands, config)->Ok_0,
            end.0,
        ),
{
    let start = crate::trace::started(filename, commands, config)->Ok_0;
    let outcome = Ok::<Report, Failure>(report);
    let replies = choose|replies: Seq<Reply>|
        #[trigger] crate::trace::replies_from(run, start, replies) && crate::trace::ends_with(
            start,
            replies,
            outcome,
        );
    (replies, crate::trace::after(start, replies)->Ok_0)
}

/// The cost deltas add up: at any point they sum to the cost before the first round
/// less the cost after the last.
pub proof fn law_cost_deltas_add_up(
    filename: Option<Seq<char>>,
    commands: Seq<Command>,
    config: RewriteTraceConfig,
    replies: Seq<Reply>,
    state: TraceState,
)
    requires
        reached(filename, commands, config, replies, state),
    ensures
        total_delta(crate::trace::report_of(state).rounds) == crate::trace::report_of(
            state,
        ).initial_cost - state.previous_cost,
{
    lemma_reached_sound(filename, commands, config, replies, state);
}

/// Without proofs, no round of a report has a chain.
pub proof fn law_without_proofs_no_chains<R: Fn(EngineRequest) -> Reply>(
    run: R,
    filename: Option<Seq<char>>,
    commands: Seq<Command>,
    config: RewriteTraceConfig,
    report: Report,
    k: int,
)
    requires
        crate::trace::config_failure(config) is None,
        crate::trace::traced(run, filename, commands, config, Ok(report)),
        !config.with_proofs,
        0 <= k < report.rounds.len(),
    ensures
        report.rounds[k].chain_text == Seq::<char>::empty(),
{
    let (replies, state) = lemma_report_reached(run, filename, commands, config, report);
    lemma_reached_sound(filename, commands, config, replies, state);
}

/// The cost never falls by more than there was: the deltas of a report sum to at most
/// the cost before the first round.
pub proof fn law_total_delta_is_bounded<R: Fn(EngineRequest) -> Reply>(
    run: R,
    filename: Option<Seq<char>>,
    commands: Seq<Command>,
    config: RewriteTraceConfig,
    report: Report,
)
    requires
        crate::trace::config_failure(config) is None,
        crate::trace::traced(run, filename, commands, config, Ok(report)),
    ensures
        total_delta(report.rounds) <= report.initial_cost,
{
    let (replies, state) = lemma_report_reached(run, filename, commands, config, report);
    lemma_reached_sound(filename, commands, config, replies, state);
}

/// Every program of a trace runs under the same settings: those of the
/// configuration.
pub proof fn law_settings_never_change(
    filename: Option<Seq<char>>,
    commands: Seq<Command>,
    config: RewriteTraceConfig,
    replies: Seq<Reply>,
    state: TraceState,
    program: Seq<char>,
    force_proofs: bool,
)
    requires
        reached(filename, commands, config, replies, state),
        crate::trace::next_program(state) == Some((program, force_proofs)),
    ensures
        crate::engine::settings_for(state.config, force_proofs) == crate::engine::settings_for(
            config,
            false,
        ),
{
    lemma_reached_sound(filename, commands, config, replies, state);
}

/// A trace fails only where an extraction is due and there is none. A failed proof
/// is no failure: its round is recorded with the same cost as for any other reply,
/// and an empty chain.
pub proof fn law_only_extractions_fail(state: TraceState, reply: Reply)
    ensures
        crate::trace::advanced(state, reply) is Err <==> (state.stage is Initial
            || state.stage is Snapshot) && crate::trace::extraction(reply) is Err,
        state.stage is Proof && reply is Err ==> {
            let next = crate::trace::advanced(state, reply)->Ok_0;
            &&& next.rounds.drop_last() == state.rounds
            &&& next.rounds.last().cost_delta == state.previous_cost - state.stage->best_cost
            &&& next.rounds.last().chain_text == Seq::<char>::empty()
        },
{
    if state.stage is Proof && reply is Err {
        let next = crate::trace::advanced(state, reply)->Ok_0;
        assert(next.rounds.drop_last() =~= state.rounds);
        assert(crate::chain::compressed(
            Seq::empty(),
            crate::trace::CHAIN_WINDOW as int,
        ) =~= Seq::empty());
        crate::chain_laws::law_empty_chain_reads_empty();
    }
}

/// With proofs on, the program after a snapshot proves the seed equal to the very
/// expression that the snapshot extracted, after the same iterations.
pub proof fn law_proof_follows_its_snapshot(state: TraceState, reply: Reply)
    requires
        state.stage is Snapshot,
        state.config.with_proofs,
        crate::trace::extraction(reply) is Ok,
    ensures
        crate::trace::advanced(state, reply) matches Ok(next) && crate::trace::next_program(next)
            == Some(
            (
                crate::program::proof_program(
                    state.base_program,
                    state.ruleset,
                    crate::trace::cumulative_iterations(state),
                    crate::trace::extraction(reply)->Ok_0.0,
                ),
                true,
            ),
        ),
{
}

/// Each round runs the iterations of a round more than the round before.
pub proof fn law_rounds_accumulate_iterations(
    state: TraceState,
    best_cost: DefaultCost,
    rules: Seq<Seq<char>>,
)
    ensures
        crate::trace::cumulative_iterations(crate::trace::recorded(state, best_cost, rules))
            == crate::trace::cumulative_iterations(state) + state.config.round_iters,
{
    let rounds = state.rounds.len() as int;
    let iters = state.config.round_iters as int;
    assert((rounds + 1 + 1) * iters == (rounds + 1) * iters + iters) by (nonlinear_arith);
    assert(0 <= (rounds + 1) * iters) by (nonlinear_arith)
        requires
            0 <= rounds,
            0 <= iters,
    ;
    assert(0 <= (rounds + 2) * iters) by (nonlinear_arith)
        requires
            0 <= rounds,
            0 <= iters,
    ;
}

/// How many programs have run when a state is reached.
spec fn runs_done(state: TraceState) -> int {
    let per_round: int = if state.config.with_proofs {
        2
    } else {
        1
    };
    match state.stage {
        Stage::Initial => 0,
        Stage::Snapshot => 1 + per_round * state.rounds.len(),
        Stage::Proof { .. } => 2 + per_round * state.rounds.len(),
        Stage::Finished => 1 + per_round * state.rounds.len(),
    }
}

proof fn lemma_runs_counted<R: Fn(EngineRequest) -> Reply>(
    run: R,
    filename: Option<Seq<char>>,
    commands: Seq<Command>,
    config: RewriteTraceConfig,
    replies: Seq<Reply>,
    state: TraceState,
)
    requires
        reached(filename, commands, config, replies, state),
        crate::trace::replies_from(
            run,
            crate::trace::started(filename, commands, config)->Ok_0,
            replies,
        ),
    ensures
        replies.len() == runs_done(state),
    decreases replies.len(),
{
    let start = crate::trace::started(filename, commands, config)->Ok_0;
    if replies.len() > 0 {
        let fewer = replies.drop_last();
        let before = crate::trace::after(start, fewer)->Ok_0;
        lemma_reached_sound(filename, commands, config, fewer, before);
        assert forall|k: int| 0 <= k < fewer.len() implies #[trigger] crate::trace::reply_fits(
            run,
            start,
            fewer,
            k,
        ) by {
            assert(crate::trace::reply_fits(run, start, replies, k));
            assert(fewer.take(k) =~= replies.take(k));
        }
        lemma_runs_counted(run, filename, commands, config, fewer, before);
        let last = replies.len() - 1;
        assert(crate::trace::reply_fits(run, start, replies, last));
        assert(replies.take(last) =~= fewer);
    }
}

/// A complete trace runs one program before the first round, and one for each round,
/// or two with proofs.
pub proof fn law_number_of_runs<R: Fn(EngineRequest) -> Reply>(
    run: R,
    filename: Option<Seq<char>>,
    commands: Seq<Command>,
    config: RewriteTraceConfig,
    replies: Seq<Reply>,
    state: TraceState,
)
    requires
        reached(filename, commands, config, replies, state),
        crate::trace::replies_from(
            run,
            crate::trace::started(filename, commands, config)->Ok_0,
            replies,
        ),
        state.stage is Finished,
    ensures
        !config.with_proofs ==> replies.len() == 1 + config.max_rounds,
        config.with_proofs ==> replies.len() == 1 + 2 * config.max_rounds,
{
    lemma_reached_sound(filename, commands, config, replies, state);
    lemma_runs_counted(run, filename, commands, config, replies, state);
}

/// Whether the engine, given the same program under the same file name and settings,
/// always gives replies in which a trace reads the same: the same extraction, and the
/// same rules.
pub open spec fn repeatable<R: Fn(EngineRequest) -> Reply>(run: R) -> bool {
    forall|
        program: Seq<char>,
        filename: Option<Seq<char>>,
        settings: crate::engine::EngineSettings,
        one: Reply,
        other: Reply,
    |
        #[trigger] crate::engine::engine_replies(run, program, filename, settings, one)
            && #[trigger] crate::engine::engine_replies(run, program, filename, settings, other)
            ==> crate::trace::extraction(one) == crate::trace::extraction(other)
            && crate::trace::proof_rules(one) == crate::trace::proof_rules(other)
}

proof fn lemma_states_agree<R: Fn(EngineRequest) -> Reply>(
    run: R,
    start: TraceState,
    one: Seq<Reply>,
    other: Seq<Reply>,
    k: int,
)
    requires
        repeatable(run),
        crate::trace::replies_from(run, start, one),
        crate::trace::replies_from(run, start, other),
        0 <= k <= one.len(),
        k <= other.len(),
    ensures
        crate::trace::after(start, one.take(k)) == crate::trace::after(start, other.take(k)),
    decreases k,
{
    if k > 0 {
        lemma_states_agree(run, start, one, other, k - 1);
        assert(crate::trace::reply_fits(run, start, one, k - 1));
        assert(crate::trace::reply_fits(run, start, other, k - 1));
        assert(one.take(k).drop_last() =~= one.take(k - 1));
        assert(other.take(k).drop_last() =~= other.take(k - 1));
    } else {
        assert(one.take(k) =~= other.take(k));
    }
}

proof fn lemma_no_reply_after_the_end<R: Fn(EngineRequest) -> Reply>(
    run: R,
    start: TraceState,
    one: Seq<Reply>,
    other: Seq<Reply>,
    outcome: Result<Report, Failure>,
)
    requires
        repeatable(run),
        crate::trace::replies_from(run, start, one),
        crate::trace::replies_from(run, start, other),
        crate::trace::ends_with(start, one, outcome),
    ensures
        other.len() <= one.len(),
{
    if other.len() > one.len() {
        let end = one.len() as int;
        lemma_states_agree(run, start, one, other, end);
        assert(one.take(end) =~= one);
        assert(crate::trace::reply_fits(run, start, other, end));
    }
}

/// If a trace reads the same in every reply of the engine to the same program, a
/// program and a configuration determine their trace.
pub proof fn law_trace_is_determined<R: Fn(EngineRequest) -> Reply>(
    run: R,
    filename: Option<Seq<char>>,
    commands: Seq<Command>,
    config: RewriteTraceConfig,
    one: Result<Report, Failure>,
    other: Result<Report, Failure>,
)
    requires
        repeatable(run),
        crate::trace::traced(run, filename, commands, config, one),
        crate::trace::traced(run, filename, commands, config, other),
    ensures
        one == other,
{
    match crate::trace::started(filename, commands, config) {
        Ok(start) => {
            let first = choose|replies: Seq<Reply>|
                #[trigger] crate::trace::replies_from(run, start, replies)
                    && crate::trace::ends_with(start, replies, one);
            let second = choose|replies: Seq<Reply>|
                #[trigger] crate::trace::replies_from(run, start, replies)
                    && crate::trace::ends_with(start, replies, other);
            lemma_no_reply_after_the_end(run, start, first, second, one);
            lemma_no_reply_after_the_end(run, start, second, first, other);
            lemma_states_agree(run, start, first, second, first.len() as int);
            assert(first.take(first.len() as int) =~= first);
            assert(second.take(second.len() as int) =~= second);
        },
        Err(_) => {},
    }
}

/// The state with another configuration.
spec fn under(state: TraceState, config: RewriteTraceConfig) -> TraceState {
    TraceState { config, ..state }
}

proof fn lemma_ruleset_field_not_read(
    start: TraceState,
    ruleset: Option<String>,
    replies: Seq<Reply>,
)
    ensures
        ({
            let config = RewriteTraceConfig { ruleset, ..start.config };
            crate::trace::after(under(start, config), replies) == match crate::trace::after(
                start,
                replies,
            ) {
                Ok(state) => Ok(under(state, config)),
                Err(failure) => Err(failure),
            }
        }),
        crate::trace::after(start, replies) matches Ok(state) ==> state.config == start.config,
    decreases replies.len(),
{
    if replies.len() > 0 {
        lemma_ruleset_field_not_read(start, ruleset, replies.drop_last());
    }
}

proof fn lemma_same_replies_under<R: Fn(EngineRequest) -> Reply>(
    run: R,
    start: TraceState,
    ruleset: Option<String>,
    replies: Seq<Reply>,
)
    requires
        crate::trace::replies_from(run, start, replies),
    ensures
        crate::trace::replies_from(
            run,
            under(start, RewriteTraceConfig { ruleset, ..start.config }),
            replies,
        ),
{
    let config = RewriteTraceConfig { ruleset, ..start.config };
    assert forall|k: int| 0 <= k < replies.len() implies #[trigger] crate::trace::reply_fits(
        run,
        under(start, config),
        replies,
        k,
    ) by {
        assert(crate::trace::reply_fits(run, start, replies, k));
        lemma_ruleset_field_not_read(start, ruleset, replies.take(k));
        let state = crate::trace::after(start, replies.take(k))->Ok_0;
        assert(crate::trace::next_program(under(state, config)) == crate::trace::next_program(
            state,
        ));
        assert(crate::engine::settings_for(config, true) == crate::engine::settings_for(
            state.config,
            true,
        ));
        assert(crate::engine::settings_for(config, false) == crate::engine::settings_for(
            state.config,
            false,
        ));
    }
}

proof fn lemma_traced_under<R: Fn(EngineRequest) -> Reply>(
    run: R,
    filename: Option<Seq<char>>,
    commands: Seq<Command>,
    config: RewriteTraceConfig,
    ruleset: Option<String>,
    outcome: Result<Report, Failure>,
)
    requires
        crate::trace::traced_ruleset(config.ruleset.deep_view(), commands)
            == crate::trace::traced_ruleset(ruleset.deep_view(), commands),
        crate::trace::traced(run, filename, commands, config, outcome),
    ensures
        crate::trace::traced(
            run,
            filename,
            commands,
            RewriteTraceConfig { ruleset, ..config },
            outcome,
        ),
{
    match crate::trace::started(filename, commands, config) {
        Ok(start) => {
            let other = RewriteTraceConfig { ruleset, ..config };
            let replies = choose|replies: Seq<Reply>|
                #[trigger] crate::trace::replies_from(run, start, replies)
                    && crate::trace::ends_with(start, replies, outcome);
            assert(crate::trace::started(filename, commands, other) == Ok::<TraceState, Failure>(
                under(start, other),
            ));
            lemma_same_replies_under(run, start, ruleset, replies);
            lemma_ruleset_field_not_read(start, ruleset, replies);
            assert(crate::trace::ends_with(under(start, other), replies, outcome));
        },
        Err(_) => {},
    }
}

/// A configuration without a ruleset traces as one that spells out the ruleset of the
/// first plain run in the program, or the empty name if there is no such run.
pub proof fn law_absent_ruleset_is_the_default<R: Fn(EngineRequest) -> Reply>(
    run: R,
    filename: Option<Seq<char>>,
    commands: Seq<Command>,
    config: RewriteTraceConfig,
    spelled: String,
    outcome: Result<Report, Failure>,
)
    requires
        config.ruleset is None,
        match crate::command::default_ruleset(commands) {
            Some(ruleset) => spelled@ == ruleset,
            None => spelled@ == Seq::<char>::empty(),
        },
    ensures
        crate::trace::traced(run, filename, commands, config, outcome) <==> crate::trace::traced(
            run,
            filename,
            commands,
            RewriteTraceConfig { ruleset: Some(spelled), ..config },
            outcome,
        ),
{
    let other = RewriteTraceConfig { ruleset: Some(spelled), ..config };
    if crate::trace::traced(run, filename, commands, config, outcome) {
        lemma_traced_under(run, filename, commands, config, Some(spelled), outcome);
    }
    if crate::trace::traced(run, filename, commands, other, outcome) {
        lemma_traced_under(run, filename, commands, other, None, outcome);
        assert(RewriteTraceConfig { ruleset: None, ..other } == config);
    }
}

/// Follows a trace with fewer rounds along the replies to a trace with more: the
/// number of replies after which it stands where the longer trace stands, or has
/// ended.
proof fn lemma_shorter_trace_follows<R: Fn(EngineRequest) -> Reply>(
    run: R,
    start: TraceState,
    fewer: usize,
    replies: Seq<Reply>,
    k: int,
) -> (j: int)
    requires
        start.stage is Initial,
        start.rounds.len() == 0,
        0 < fewer <= start.config.max_rounds,
        crate::trace::replies_from(run, start, replies),
        0 <= k <= replies.len(),
        crate::trace::after(start, replies.take(k)) is Ok,
    ensures
        0 <= j <= k,
        ({
            let short = under(start, RewriteTraceConfig { max_rounds: fewer, ..start.config });
            let there = crate::trace::after(start, replies.take(k))->Ok_0;
            &&& there.config == start.config
            &&& there.stage is Initial ==> there.rounds.len() == 0
            &&& crate::trace::replies_from(run, short, replies.take(j))
            &&& crate::trace::after(short, replies.take(j)) matches Ok(here)
            &&& if here.stage is Finished {
                &&& there.rounds.len() >= fewer
                &&& here.rounds == there.rounds.take(fewer as int)
                &&& here.initial_cost == there.initial_cost
            } else {
                &&& j == k
                &&& here.rounds.len() < fewer
                &&& here == under(there, short.config)
            }
        }),
    decreases k,
{
    let config = RewriteTraceConfig { max_rounds: fewer, ..start.config };
    let short = under(start, config);
    if k == 0 {
        assert(replies.take(0) =~= Seq::empty());
        0
    } else {
        let upto = replies.take(k);
        let reply = replies[k - 1];
        assert(upto.drop_last() =~= replies.take(k - 1));
        let j = lemma_shorter_trace_follows(run, start, fewer, replies, k - 1);
        let before = crate::trace::after(start, replies.take(k - 1))->Ok_0;
        let there = crate::trace::after(start, upto)->Ok_0;
        let here = crate::trace::after(short, replies.take(j))->Ok_0;
        assert(crate::trace::advanced(before, reply) == Ok::<TraceState, Failure>(there));
        assert(crate::trace::reply_fits(run, start, replies, k - 1));
        if here.stage is Finished {
            assert(there.rounds.take(fewer as int) =~= before.rounds.take(fewer as int));
            j
        } else {
            assert(crate::trace::next_program(here) == crate::trace::next_program(before));
            assert(crate::engine::settings_for(config, true) == crate::engine::settings_for(
                start.config,
                true,
            ));
            assert(crate::engine::settings_for(config, false) == crate::engine::settings_for(
                start.config,
                false,
            ));
            crate::trace::lemma_one_more_reply(run, short, replies.take(j), here, reply);
            assert(upto =~= replies.take(j).push(reply));
            let now = crate::trace::after(short, upto)->Ok_0;
            assert(now.rounds =~= there.rounds);
            assert(there.rounds.len() == fewer ==> there.rounds.take(fewer as int)
                =~= there.rounds);
            k
        }
    }
}

/// A shorter trace is a prefix of a longer one: cut off after fewer rounds, the report
/// of a trace is one that the trace with fewer rounds ends with.
pub proof fn law_shorter_trace_is_a_prefix<R: Fn(EngineRequest) -> Reply>(
    run: R,
    filename: Option<Seq<char>>,
    commands: Seq<Command>,
    config: RewriteTraceConfig,
    fewer: usize,
    report: Report,
)
    requires
        crate::trace::config_failure(config) is None,
        crate::trace::traced(run, filename, commands, config, Ok(report)),
        0 < fewer <= config.max_rounds,
    ensures
        crate::trace::traced(
            run,
            filename,
            commands,
            RewriteTraceConfig { max_rounds: fewer, ..config },
            Ok(Report { rounds: report.rounds.take(fewer as int), ..report }),
        ),
{
    let (replies, state) = lemma_report_reached(run, filename, commands, config, report);
    lemma_reached_sound(filename, commands, config, replies, state);
    let start = crate::trace::started(filename, commands, config)->Ok_0;
    let all = replies.len() as int;
    assert(replies.take(all) =~= replies);
    let j = lemma_shorter_trace_follows(run, start, fewer, replies, all);
    let shorter = RewriteTraceConfig { max_rounds: fewer, ..config };
    let short = under(start, shorter);
    assert(crate::trace::started(filename, commands, shorter) == Ok::<TraceState, Failure>(short));
    assert(crate::trace::ends_with(
        short,
        replies.take(j),
        Ok(Report { rounds: report.rounds.take(fewer as int), ..report }),
    ));
}

} // verus!
