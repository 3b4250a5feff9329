//! Rewrite traces: how the cost of the seed expression falls round by round, and
//! which rules bring it down.

use vstd::prelude::*;

use crate::chain::{compress_rule_trace, format_compressed_rule_chain};
use crate::command::{
    extract_default_ruleset, extract_seed_expr, ruleset_is_declared, Command,
};
use crate::engine::{
    extract_best_output, extract_rule_trace_from_outputs, run_program, CommandOutput,
    DefaultCost, EngineRequest, RewriteTraceConfig,
};
use crate::error::{Error, Failure};
use crate::program::{
    build_extract_program, build_initial_extract_program, build_proof_program,
    render_base_program,
};

verus! {

/// The widest motif that the chain of a round looks for.
pub const CHAIN_WINDOW: usize = 4;

/// One round: by how much the cost fell since the round before, and the compressed
/// chain of the rules that prove the extracted expression equal to the seed.
#[derive(Clone, Debug)]
pub struct RewriteTraceRound {
    pub round_index: usize,
    pub cost_delta: i128,
    pub compressed_rule_chain_text: String,
}

/// A trace: the cost before the first round, and the rounds.
#[derive(Clone, Debug)]
pub struct RewriteTraceReport {
    pub initial_cost: DefaultCost,
    pub rounds: Vec<RewriteTraceRound>,
}

/// What a [`RewriteTraceRound`] holds.
pub struct Round {
    pub round_index: nat,
    pub cost_delta: int,
    pub chain_text: Seq<char>,
}

/// What a [`RewriteTraceReport`] holds.
pub struct Report {
    pub initial_cost: DefaultCost,
    pub rounds: Seq<Round>,
}

impl DeepView for RewriteTraceRound {
    type V = Round;

    open spec fn deep_view(&self) -> Round {
        Round {
            round_index: self.round_index as nat,
            cost_delta: self.cost_delta as int,
            chain_text: self.compressed_rule_chain_text@,
        }
    }
}

impl DeepView for RewriteTraceReport {
    type V = Report;

    open spec fn deep_view(&self) -> Report {
        Report { initial_cost: self.initial_cost, rounds: self.rounds.deep_view() }
    }
}

/// What a trace waits for: the cost of the seed, the cost after the current round,
/// the proof for the current round, or nothing more.
pub enum Stage {
    Initial,
    Snapshot,
    Proof { best_expr: Seq<char>, best_cost: DefaultCost },
    Finished,
}

/// How far a trace has come.
pub struct TraceState {
    pub config: RewriteTraceConfig,
    pub filename: Option<Seq<char>>,
    pub base_program: Seq<char>,
    pub ruleset: Seq<char>,
    pub stage: Stage,
    pub initial_cost: DefaultCost,
    pub previous_cost: DefaultCost,
    pub rounds: Seq<Round>,
}

/// A reply of the engine.
pub type Reply = Result<Vec<CommandOutput>, Error>;

/// Why a configuration is refused, if it is.
pub open spec fn config_failure(config: RewriteTraceConfig) -> Option<Failure> {
    if config.round_iters == 0 {
        Some(Failure::Backend("rewrite trace requires --rewrite-trace-iters > 0"@))
    } else if config.max_rounds == 0 {
        Some(Failure::Backend("rewrite trace requires --rewrite-trace-rounds > 0"@))
    } else {
        None
    }
}

/// The ruleset that a trace runs: that of the configuration, else that of the first
/// plain run in the program, else the default one, which has the empty name.
pub open spec fn traced_ruleset(configured: Option<Seq<char>>, commands: Seq<Command>) -> Seq<
    char,
> {
    match configured {
        Some(ruleset) => ruleset,
        None => match crate::command::default_ruleset(commands) {
            Some(ruleset) => ruleset,
            None => Seq::empty(),
        },
    }
}

/// The base program with a declaration of the ruleset in front, if it has a name
/// and the program does not declare it.
pub open spec fn with_ruleset(
    base: Seq<char>,
    ruleset: Seq<char>,
    commands: Seq<Command>,
) -> Seq<char> {
    if ruleset.len() > 0 && !crate::command::ruleset_declared(commands, ruleset) {
        "(ruleset "@ + ruleset + ")\n"@ + base
    } else {
        base
    }
}

/// The state in which the trace of a parsed program starts, or why it cannot.
pub open spec fn started(
    filename: Option<Seq<char>>,
    commands: Seq<Command>,
    config: RewriteTraceConfig,
) -> Result<TraceState, Failure> {
    if crate::command::seed_expr(commands) is None {
        Err(Failure::Backend(crate::command::no_seed_message()))
    } else {
        let ruleset = traced_ruleset(config.ruleset.deep_view(), commands);
        Ok(
            TraceState {
                config,
                filename,
                base_program: with_ruleset(
                    crate::program::base_program(commands, filename),
                    ruleset,
                    commands,
                ),
                ruleset,
                stage: Stage::Initial,
                initial_cost: 0,
                previous_cost: 0,
                rounds: Seq::empty(),
            },
        )
    }
}

/// The iterations up to and with the current round.
pub open spec fn cumulative_iterations(state: TraceState) -> nat {
    ((state.rounds.len() + 1) * state.config.round_iters) as nat
}

/// Whether the iterations of all rounds together can be counted.
pub open spec fn iterations_fit(config: RewriteTraceConfig) -> bool {
    config.max_rounds * config.round_iters <= usize::MAX
}

/// Whether the iterations up to and with the current round can be counted.
pub open spec fn round_fits(state: TraceState) -> bool {
    state.stage is Snapshot || state.stage is Proof ==> cumulative_iterations(state) <= usize::MAX
}

/// The next program to run, and whether proofs are forced for it.
pub open spec fn next_program(state: TraceState) -> Option<(Seq<char>, bool)> {
    match state.stage {
        Stage::Initial => Some(
            (crate::program::initial_extract_program(state.base_program), false),
        ),
        Stage::Snapshot => Some(
            (
                crate::program::extract_program(
                    state.base_program,
                    state.ruleset,
                    cumulative_iterations(state),
                ),
                false,
            ),
        ),
        Stage::Proof { best_expr, .. } => Some(
            (
                crate::program::proof_program(
                    state.base_program,
                    state.ruleset,
                    cumulative_iterations(state),
                    best_expr,
                ),
                true,
            ),
        ),
        Stage::Finished => None,
    }
}

/// The state after the current round, given its cost and the rules of its proof.
pub open spec fn recorded(
    state: TraceState,
    best_cost: DefaultCost,
    rules: Seq<Seq<char>>,
) -> TraceState {
    let rounds = state.rounds.push(
        Round {
            round_index: state.rounds.len() + 1,
            cost_delta: state.previous_cost - best_cost,
            chain_text: crate::chain::chain_text(
                crate::chain::compressed(rules, CHAIN_WINDOW as int),
            ),
        },
    );
    TraceState {
        stage: if rounds.len() < state.config.max_rounds {
            Stage::Snapshot
        } else {
            Stage::Finished
        },
        previous_cost: best_cost,
        rounds,
        ..state
    }
}

/// The extraction that a reply holds, or why it holds none.
pub open spec fn extraction(reply: Reply) -> Result<(Seq<char>, DefaultCost), Failure> {
    match reply {
        Ok(outputs) => match crate::engine::best_output(outputs@) {
            Some(best) => Ok(best),
            None => Err(Failure::Backend(crate::engine::no_extract_message())),
        },
        Err(error) => Err(error.deep_view()),
    }
}

/// The rules that a reply to a proof program holds: none if the proof failed.
pub open spec fn proof_rules(reply: Reply) -> Seq<Seq<char>> {
    match reply {
        Ok(outputs) => crate::engine::rule_trace(outputs@),
        Err(_) => Seq::empty(),
    }
}

/// The state after a reply to the next program, or why the trace fails.
pub open spec fn advanced(state: TraceState, reply: Reply) -> Result<TraceState, Failure> {
    match state.stage {
        Stage::Initial => match extraction(reply) {
            Ok((_, cost)) => Ok(
                TraceState {
                    stage: Stage::Snapshot,
                    initial_cost: cost,
                    previous_cost: cost,
                    ..state
                },
            ),
            Err(failure) => Err(failure),
        },
        Stage::Snapshot => match extraction(reply) {
            Ok((term, cost)) => if state.config.with_proofs {
                Ok(
                    TraceState {
                        stage: Stage::Proof { best_expr: term, best_cost: cost },
                        ..state
                    },
                )
            } else {
                Ok(recorded(state, cost, Seq::empty()))
            },
            Err(failure) => Err(failure),
        },
        Stage::Proof { best_cost, .. } => Ok(recorded(state, best_cost, proof_rules(reply))),
        Stage::Finished => Ok(state),
    }
}

/// The report of a state.
pub open spec fn report_of(state: TraceState) -> Report {
    Report { initial_cost: state.initial_cost, rounds: state.rounds }
}

/// What a result says.
pub open spec fn outcome_of(result: Result<RewriteTraceReport, Error>) -> Result<
    Report,
    Failure,
> {
    match result {
        Ok(report) => Ok(report.deep_view()),
        Err(error) => Err(error.deep_view()),
    }
}

/// The state after a sequence of replies, or why the trace failed on the way.
pub open spec fn after(start: TraceState, replies: Seq<Reply>) -> Result<TraceState, Failure>
    decreases replies.len(),
{
    if replies.len() == 0 {
        Ok(start)
    } else {
        match after(start, replies.drop_last()) {
            Ok(state) => advanced(state, replies.last()),
            Err(failure) => Err(failure),
        }
    }
}

/// Whether `reply` is one that `run` may give in the given state.
pub open spec fn engine_replies_in<R: Fn(EngineRequest) -> Reply>(
    run: R,
    state: TraceState,
    reply: Reply,
) -> bool {
    match next_program(state) {
        Some((program, force_proofs)) => crate::engine::engine_replies(
            run,
            program,
            state.filename,
            crate::engine::settings_for(state.config, force_proofs),
            reply,
        ),
        None => false,
    }
}

/// Whether the reply at `k` is one that `run` may give to the program that the trace
/// hands it after the replies before.
pub open spec fn reply_fits<R: Fn(EngineRequest) -> Reply>(
    run: R,
    start: TraceState,
    replies: Seq<Reply>,
    k: int,
) -> bool {
    match after(start, replies.take(k)) {
        Ok(state) => engine_replies_in(run, state, replies[k]),
        Err(_) => false,
    }
}

/// Whether each of `replies` is one that `run` may give at that point.
pub open spec fn replies_from<R: Fn(EngineRequest) -> Reply>(
    run: R,
    start: TraceState,
    replies: Seq<Reply>,
) -> bool {
    forall|k: int| 0 <= k < replies.len() ==> #[trigger] reply_fits(run, start, replies, k)
}

/// Whether a trace that got `replies` ends with `outcome`.
pub open spec fn ends_with(
    start: TraceState,
    replies: Seq<Reply>,
    outcome: Result<Report, Failure>,
) -> bool {
    match after(start, replies) {
        Ok(state) => state.stage is Finished && outcome == Ok::<Report, Failure>(
            report_of(state),
        ),
        Err(failure) => outcome == Err::<Report, Failure>(failure),
    }
}

/// Whether tracing the parsed program can end with `outcome`.
pub open spec fn traced<R: Fn(EngineRequest) -> Reply>(
    run: R,
    filename: Option<Seq<char>>,
    commands: Seq<Command>,
    config: RewriteTraceConfig,
    outcome: Result<Report, Failure>,
) -> bool {
    match started(filename, commands, config) {
        Ok(start) => exists|replies: Seq<Reply>|
            #[trigger] replies_from(run, start, replies) && ends_with(start, replies, outcome),
        Err(failure) => outcome == Err::<Report, Failure>(failure),
    }
}

/// The next program of a trace.
#[derive(Clone, Debug)]
pub struct PlannedRun {
    pub program: String,
    /// Whether the engine has to record proofs, whatever the configuration says.
    pub force_proofs: bool,
}

/// What a session waits for.
enum SessionStage {
    Initial,
    Snapshot,
    Proof { best_expr: String, best_cost: DefaultCost },
    Finished,
}

/// A trace under way: it says which program to run next, and takes the reply.
pub struct TraceSession<'a> {
    config: &'a RewriteTraceConfig,
    filename: Option<String>,
    base_program: String,
    ruleset: String,
    stage: SessionStage,
    initial_cost: DefaultCost,
    previous_cost: DefaultCost,
    rounds: Vec<RewriteTraceRound>,
}

impl<'a> TraceSession<'a> {
    /// A session has a sound configuration, no more rounds than wanted, and is
    /// finished exactly when it has them all.
    #[verifier::type_invariant]
    spec fn well_formed(self) -> bool {
        &&& config_failure(*self.config) is None
        &&& self.rounds@.len() <= self.config.max_rounds
        &&& self.stage is Finished <==> self.rounds@.len() == self.config.max_rounds
        &&& self.stage is Initial ==> self.rounds@.len() == 0
    }

    /// How far the session has come.
    pub closed spec fn state(self) -> TraceState {
        TraceState {
            config: *self.config,
            filename: self.filename.deep_view(),
            base_program: self.base_program@,
            ruleset: self.ruleset@,
            stage: match self.stage {
                SessionStage::Initial => Stage::Initial,
                SessionStage::Snapshot => Stage::Snapshot,
                SessionStage::Proof { best_expr, best_cost } => Stage::Proof {
                    best_expr: best_expr@,
                    best_cost,
                },
                SessionStage::Finished => Stage::Finished,
            },
            initial_cost: self.initial_cost,
            previous_cost: self.previous_cost,
            rounds: self.rounds.deep_view(),
        }
    }

    /// Starts the trace of a parsed program.
    pub fn start(
        filename: Option<String>,
        commands: &[Command],
        config: &'a RewriteTraceConfig,
    ) -> (session: Result<TraceSession<'a>, Error>)
        requires
            config_failure(*config) is None,
        ensures
            match started(filename.deep_view(), commands@, *config) {
                Ok(state) => session matches Ok(begun) && begun.state() == state,
                Err(failure) => session matches Err(error) && error.deep_view() == failure,
            },
    {
        match extract_seed_expr(commands) {
            Ok(_) => {},
            Err(error) => {
                return Err(error);
            },
        }
        let ruleset = match &config.ruleset {
            Some(ruleset) => ruleset.clone(),
            None => match extract_default_ruleset(commands) {
                Some(ruleset) => ruleset,
                None => String::new(),
            },
        };
        let base = match &filename {
            Some(path) => render_base_program(commands, Some(path.as_str())),
            None => render_base_program(commands, None),
        };
        let base_program = if !ruleset.as_str().is_empty() && !ruleset_is_declared(
            commands,
            ruleset.as_str(),
        ) {
            "(ruleset ".to_owned().concat(ruleset.as_str()).concat(")\n").concat(base.as_str())
        } else {
            base
        };
        let rounds: Vec<RewriteTraceRound> = Vec::new();
        proof {
            assert(rounds.deep_view() =~= Seq::empty());
        }
        Ok(
            TraceSession {
                config,
                filename,
                base_program,
                ruleset,
                stage: SessionStage::Initial,
                initial_cost: 0,
                previous_cost: 0,
                rounds,
            },
        )
    }

    /// The iterations up to and with the current round.
    fn cumulative_iters(&self) -> (iterations: usize)
        requires
            cumulative_iterations(self.state()) <= usize::MAX,
        ensures
            iterations == cumulative_iterations(self.state()),
    {
        proof {
            use_type_invariant(self);
            let round = self.rounds@.len() + 1;
            let iters = self.config.round_iters as int;
            assert(round <= round * iters) by (nonlinear_arith)
                requires
                    1 <= round,
                    1 <= iters,
            ;
        }
        (self.rounds.len() + 1) * self.config.round_iters
    }

    /// Whether the iterations up to and with the current round can be counted.
    pub fn can_run(&self) -> (fits: bool)
        ensures
            fits == round_fits(self.state()),
    {
        proof {
            use_type_invariant(self);
        }
        match &self.stage {
            SessionStage::Snapshot | SessionStage::Proof { .. } => {
                let product = (self.rounds.len() + 1).checked_mul(self.config.round_iters);
                product.is_some()
            },
            _ => true,
        }
    }

    /// The next program to run, or none when the trace is complete. The iterations up
    /// to the current round must not exceed `usize::MAX`.
    pub fn next_run(&self) -> (planned: Option<PlannedRun>)
        requires
            round_fits(self.state()),
        ensures
            match next_program(self.state()) {
                Some((program, force_proofs)) => planned matches Some(run) && run.program@
                    == program && run.force_proofs == force_proofs,
                None => planned is None,
            },
    {
        match &self.stage {
            SessionStage::Initial => Some(
                PlannedRun {
                    program: build_initial_extract_program(self.base_program.as_str()),
                    force_proofs: false,
                },
            ),
            SessionStage::Snapshot => Some(
                PlannedRun {
                    program: build_extract_program(
                        self.base_program.as_str(),
                        self.ruleset.as_str(),
                        self.cumulative_iters(),
                    ),
                    force_proofs: false,
                },
            ),
            SessionStage::Proof { best_expr, .. } => Some(
                PlannedRun {
                    program: build_proof_program(
                        self.base_program.as_str(),
                        self.ruleset.as_str(),
                        self.cumulative_iters(),
                        best_expr.as_str(),
                    ),
                    force_proofs: true,
                },
            ),
            SessionStage::Finished => None,
        }
    }

    /// Adds the current round, given its cost and the rules of its proof.
    fn record(self, best_cost: DefaultCost, rules: &[String]) -> (session: TraceSession<'a>)
        requires
            self.state().stage is Snapshot || self.state().stage is Proof,
        ensures
            session.state() == recorded(self.state(), best_cost, rules.deep_view()),
    {
        proof {
            use_type_invariant(&self);
        }
        let ghost before = self.state();
        let chain = compress_rule_trace(rules, CHAIN_WINDOW);
        let chain = chain.as_slice();
        proof {
            assert(chain.deep_view() =~= crate::chain::compressed(
                rules.deep_view(),
                CHAIN_WINDOW as int,
            ));
        }
        let round = RewriteTraceRound {
            round_index: self.rounds.len() + 1,
            cost_delta: self.previous_cost as i128 - best_cost as i128,
            compressed_rule_chain_text: format_compressed_rule_chain(chain),
        };
        let TraceSession {
            config,
            filename,
            base_program,
            ruleset,
            stage: _,
            initial_cost,
            previous_cost: _,
            mut rounds,
        } = self;
        rounds.push(round);
        proof {
            assert(rounds.deep_view() =~= before.rounds.push(round.deep_view()));
        }
        let stage = if rounds.len() < config.max_rounds {
            SessionStage::Snapshot
        } else {
            SessionStage::Finished
        };
        TraceSession {
            config,
            filename,
            base_program,
            ruleset,
            stage,
            initial_cost,
            previous_cost: best_cost,
            rounds,
        }
    }

    /// Takes the reply to the next program. A failed proof leaves the chain of its
    /// round empty; any other failure ends the trace.
    pub fn accept(self, reply: Reply) -> (session: Result<TraceSession<'a>, Error>)
        ensures
            match advanced(self.state(), reply) {
                Ok(state) => session matches Ok(next) && next.state() == state,
                Err(failure) => session matches Err(error) && error.deep_view() == failure,
            },
    {
        proof {
            use_type_invariant(&self);
        }
        match &self.stage {
            SessionStage::Initial => {
                let (_, cost) = match read_extraction(reply) {
                    Ok(best) => best,
                    Err(error) => {
                        return Err(error);
                    },
                };
                Ok(
                    TraceSession {
                        stage: SessionStage::Snapshot,
                        initial_cost: cost,
                        previous_cost: cost,
                        ..self
                    },
                )
            },
            SessionStage::Snapshot => {
                let (term, cost) = match read_extraction(reply) {
                    Ok(best) => best,
                    Err(error) => {
                        return Err(error);
                    },
                };
                if self.config.with_proofs {
                    Ok(
                        TraceSession {
                            stage: SessionStage::Proof { best_expr: term, best_cost: cost },
                            ..self
                        },
                    )
                } else {
                    let none: Vec<String> = Vec::new();
                    let rules = none.as_slice();
                    proof {
                        assert(rules.deep_view() =~= Seq::empty());
                    }
                    Ok(self.record(cost, rules))
                }
            },
            SessionStage::Proof { best_cost, .. } => {
                let cost = *best_cost;
                let found = read_proof_rules(reply);
                let rules = found.as_slice();
                proof {
                    assert(rules.deep_view() =~= found.deep_view());
                }
                Ok(self.record(cost, rules))
            },
            SessionStage::Finished => Ok(self),
        }
    }

    /// The report of the rounds so far.
    pub fn into_report(self) -> (report: RewriteTraceReport)
        ensures
            report.deep_view() == report_of(self.state()),
    {
        RewriteTraceReport { initial_cost: self.initial_cost, rounds: self.rounds }
    }
}

/// The extraction that a reply holds.
fn read_extraction(reply: Reply) -> (best: Result<(String, DefaultCost), Error>)
    ensures
        match extraction(reply) {
            Ok((term, cost)) => best matches Ok(found) && found.0@ == term && found.1 == cost,
            Err(failure) => best matches Err(error) && error.deep_view() == failure,
        },
{
    match reply {
        Ok(outputs) => extract_best_output(outputs.as_slice()),
        Err(error) => Err(error),
    }
}

/// The rules that a reply to a proof program holds.
fn read_proof_rules(reply: Reply) -> (rules: Vec<String>)
    ensures
        rules.deep_view() == proof_rules(reply),
{
    match reply {
        Ok(outputs) => extract_rule_trace_from_outputs(outputs.as_slice()),
        Err(_) => {
            let none: Vec<String> = Vec::new();
            proof {
                assert(none.deep_view() =~= Seq::empty());
            }
            none
        },
    }
}

/// Refuses a configuration without iterations or without rounds.
pub fn check_config(config: &RewriteTraceConfig) -> (checked: Result<(), Error>)
    ensures
        match config_failure(*config) {
            Some(failure) => checked matches Err(error) && error.deep_view() == failure,
            None => checked is Ok,
        },
{
    if config.round_iters == 0 {
        return Err(
            Error::BackendError("rewrite trace requires --rewrite-trace-iters > 0".to_owned()),
        );
    }
    if config.max_rounds == 0 {
        return Err(
            Error::BackendError("rewrite trace requires --rewrite-trace-rounds > 0".to_owned()),
        );
    }
    Ok(())
}

/// How many programs a state has still to run at most.
spec fn runs_left(state: TraceState) -> int {
    let rounds_left = state.config.max_rounds - state.rounds.len();
    match state.stage {
        Stage::Initial => 2 * rounds_left + 1,
        Stage::Snapshot => 2 * rounds_left,
        Stage::Proof { .. } => 2 * rounds_left - 1,
        Stage::Finished => 0,
    }
}

/// One more reply of the engine takes the trace one step on.
pub proof fn lemma_one_more_reply<R: Fn(EngineRequest) -> Reply>(
    run: R,
    start: TraceState,
    replies: Seq<Reply>,
    state: TraceState,
    reply: Reply,
)
    requires
        replies_from(run, start, replies),
        after(start, replies) == Ok::<TraceState, Failure>(state),
        engine_replies_in(run, state, reply),
    ensures
        replies_from(run, start, replies.push(reply)),
        after(start, replies.push(reply)) == advanced(state, reply),
{
    let longer = replies.push(reply);
    assert(longer.drop_last() =~= replies);
    assert forall|k: int| 0 <= k < longer.len() implies #[trigger] reply_fits(
        run,
        start,
        longer,
        k,
    ) by {
        if k < replies.len() {
            assert(reply_fits(run, start, replies, k));
            assert(longer.take(k) =~= replies.take(k));
        } else {
            assert(longer.take(k) =~= replies);
        }
    }
}

/// A reply leaves fewer programs to run.
proof fn lemma_runs_left_decrease(state: TraceState, reply: Reply)
    requires
        state.rounds.len() < state.config.max_rounds,
        !(state.stage is Finished),
    ensures
        advanced(state, reply) matches Ok(next) ==> 0 <= runs_left(next) < runs_left(state),
{
}

/// Whether no round of the trace runs more iterations than can be counted, whatever
/// the engine replies.
pub open spec fn every_round_fits<R: Fn(EngineRequest) -> Reply>(
    run: R,
    start: TraceState,
) -> bool {
    forall|replies: Seq<Reply>, state: TraceState|
        #![trigger replies_from(run, start, replies), round_fits(state)]
        replies_from(run, start, replies) && after(start, replies) == Ok::<TraceState, Failure>(
            state,
        ) ==> round_fits(state)
}

/// If the iterations of all rounds together can be counted, so can those of each
/// round.
proof fn lemma_round_fits(state: TraceState)
    requires
        iterations_fit(state.config),
        state.rounds.len() < state.config.max_rounds,
    ensures
        round_fits(state),
{
    let round = state.rounds.len() + 1;
    let iters = state.config.round_iters as int;
    let rounds = state.config.max_rounds as int;
    assert(0 <= round * iters <= rounds * iters) by (nonlinear_arith)
        requires
            0 <= round <= rounds,
            0 <= iters,
    ;
}

/// Traces a parsed program, unless a round needs more iterations than can be counted.
fn trace_commands<R: Fn(EngineRequest) -> Result<Vec<CommandOutput>, Error>>(
    filename: Option<String>,
    commands: &[Command],
    config: &RewriteTraceConfig,
    run: &R,
) -> (outcome: Option<Result<RewriteTraceReport, Error>>)
    requires
        config_failure(*config) is None,
        forall|request: EngineRequest| #[trigger] run.requires((request,)),
    ensures
        match outcome {
            Some(result) => traced(
                *run,
                filename.deep_view(),
                commands@,
                *config,
                outcome_of(result),
            ),
            None => {
                &&& !iterations_fit(*config)
                &&& started(filename.deep_view(), commands@, *config) matches Ok(start)
                    && !every_round_fits(*run, start)
            },
        },
{
    let mut session = match TraceSession::start(filename.clone(), commands, config) {
        Ok(session) => session,
        Err(error) => {
            return Some(Err(error));
        },
    };
    let ghost start = session.state();
    let ghost mut replies: Seq<Reply> = Seq::empty();
    loop
        invariant
            session.state().filename == filename.deep_view(),
            session.state().config == *config,
            forall|request: EngineRequest| #[trigger] run.requires((request,)),
            started(filename.deep_view(), commands@, *config) == Ok::<TraceState, Failure>(start),
            after(start, replies) == Ok::<TraceState, Failure>(session.state()),
            replies_from(*run, start, replies),
        ensures
            session.state().stage is Finished,
        decreases runs_left(session.state()),
    {
        proof {
            use_type_invariant(&session);
        }
        if !session.can_run() {
            proof {
                if iterations_fit(*config) {
                    lemma_round_fits(session.state());
                }
                assert(!round_fits(session.state()));
            }
            return None;
        }
        let planned = match session.next_run() {
            Some(planned) => planned,
            None => {
                break;
            },
        };
        let ghost state = session.state();
        let reply = run_program(
            planned.program,
            filename.clone(),
            config,
            planned.force_proofs,
            run,
        );
        proof {
            lemma_one_more_reply(*run, start, replies, state, reply);
            lemma_runs_left_decrease(state, reply);
            replies = replies.push(reply);
        }
        session =
        match session.accept(reply) {
            Ok(next) => next,
            Err(error) => {
                proof {
                    assert(ends_with(start, replies, outcome_of(Err(error))));
                }
                return Some(Err(error));
            },
        };
    }
    let report = session.into_report();
    proof {
        assert(ends_with(start, replies, outcome_of(Ok(report))));
    }
    Some(Ok(report))
}

/// Whether the trace can end with `outcome`: the configuration is refused, or
/// `parse` gives the commands of the program (or fails, and the trace with it) and
/// the trace of the commands ends so.
pub open spec fn trace_ends<
    P: Fn(Option<String>, &str) -> Result<Vec<Command>, Error>,
    R: Fn(EngineRequest) -> Reply,
>(
    filename: Option<String>,
    program_text: &str,
    config: RewriteTraceConfig,
    parse: P,
    run: R,
    outcome: Result<Report, Failure>,
) -> bool {
    match config_failure(config) {
        Some(failure) => outcome == Err::<Report, Failure>(failure),
        None => exists|name: Option<String>, parsed: Result<Vec<Command>, Error>|
            {
                &&& name.deep_view() == filename.deep_view()
                &&& #[trigger] parse.ensures((name, program_text), parsed)
                &&& match parsed {
                    Ok(commands) => traced(
                        run,
                        filename.deep_view(),
                        commands@,
                        config,
                        outcome,
                    ),
                    Err(error) => outcome == Err::<Report, Failure>(error.deep_view()),
                }
            },
    }
}

/// Whether no round runs more iterations than can be counted, whatever `parse` and
/// `run` reply.
pub open spec fn rounds_fit<
    P: Fn(Option<String>, &str) -> Result<Vec<Command>, Error>,
    R: Fn(EngineRequest) -> Reply,
>(
    filename: Option<String>,
    program_text: &str,
    config: RewriteTraceConfig,
    parse: P,
    run: R,
) -> bool {
    forall|name: Option<String>, commands: Vec<Command>, start: TraceState|
        #![trigger parse.ensures((name, program_text), Ok(commands)), every_round_fits(run, start)]
        {
            &&& name.deep_view() == filename.deep_view()
            &&& parse.ensures((name, program_text), Ok(commands))
            &&& started(filename.deep_view(), commands@, config) == Ok::<TraceState, Failure>(
                start,
            )
        } ==> every_round_fits(run, start)
}

/// Traces a program as [`run_rewrite_trace`] does, whatever the configuration. Comes
/// back with nothing if the trace comes to a round that needs more than `usize::MAX`
/// iterations.
pub fn run_rewrite_trace_checked<
    P: Fn(Option<String>, &str) -> Result<Vec<Command>, Error>,
    R: Fn(EngineRequest) -> Result<Vec<CommandOutput>, Error>,
>(
    filename: Option<String>,
    program_text: &str,
    config: &RewriteTraceConfig,
    parse: P,
    run: R,
) -> (outcome: Option<Result<RewriteTraceReport, Error>>)
    requires
        forall|name: Option<String>, text: &str| #[trigger] parse.requires((name, text)),
        forall|request: EngineRequest| #[trigger] run.requires((request,)),
    ensures
        match outcome {
            Some(result) => trace_ends(
                filename,
                program_text,
                *config,
                parse,
                run,
                outcome_of(result),
            ),
            None => {
                &&& config_failure(*config) is None
                &&& !iterations_fit(*config)
                &&& !rounds_fit(filename, program_text, *config, parse, run)
            },
        },
{
    match check_config(config) {
        Ok(()) => {},
        Err(error) => {
            return Some(Err(error));
        },
    }
    let parsed = parse(filename.clone(), program_text);
    match parsed {
        Ok(commands) => trace_commands(filename, commands.as_slice(), config, &run),
        Err(error) => Some(Err(error)),
    }
}

/// Traces a program: extracts the seed expression `$expr` before the first round
/// and after each one, every time from a fresh engine that runs the iterations of
/// all rounds so far, and records how the cost falls. If the configuration wants
/// proofs, each round also records the compressed chain of the rules that prove the
/// extracted expression equal to the seed.
///
/// `parse` parses a program, and `run` runs one on a fresh engine. No round that the
/// trace comes to may need more than `usize::MAX` iterations.
pub fn run_rewrite_trace<
    P: Fn(Option<String>, &str) -> Result<Vec<Command>, Error>,
    R: Fn(EngineRequest) -> Result<Vec<CommandOutput>, Error>,
>(
    filename: Option<String>,
    program_text: &str,
    config: &RewriteTraceConfig,
    parse: P,
    run: R,
) -> (outcome: Result<RewriteTraceReport, Error>)
    requires
        iterations_fit(*config) || rounds_fit(filename, program_text, *config, parse, run),
        forall|name: Option<String>, text: &str| #[trigger] parse.requires((name, text)),
        forall|request: EngineRequest| #[trigger] run.requires((request,)),
    ensures
        trace_ends(filename, program_text, *config, parse, run, outcome_of(outcome)),
{
    run_rewrite_trace_checked(filename, program_text, config, parse, run).unwrap()
}

} // verus!
