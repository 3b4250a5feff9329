//! Parsed commands, and what a trace reads from them.

use vstd::prelude::*;

use crate::error::Error;

verus! {

/// One command of a program: what it is, and how it reads when printed.
#[derive(Clone, Debug)]
pub struct Command {
    pub kind: CommandKind,
    pub text: String,
}

/// What a command is, with the parts that a trace depends on.
#[derive(Clone, Debug)]
pub enum CommandKind {
    Action(Action),
    RunSchedule(Schedule),
    /// The path of another source file to read at this place.
    Include(String),
    /// The name of a new ruleset.
    AddRuleset(String),
    /// The name of a ruleset made of others.
    UnstableCombinedRuleset(String),
    Extract,
    PrintOverallStatistics,
    Check,
    Prove,
    ProveExists,
    PrintFunction,
    PrintSize,
    Output,
    Push,
    Pop,
    Fail,
    /// Any other declaration: sorts, functions, rules, rewrites, inputs.
    Other,
}

/// A top-level action.
#[derive(Clone, Debug)]
pub enum Action {
    /// A global binding: the name, and the printed expression.
    Let(String, String),
    Other,
}

/// A schedule.
#[derive(Clone, Debug)]
pub enum Schedule {
    /// A plain run of the ruleset with this name (empty for the default ruleset).
    Run(String),
    Other,
}

/// The expression that a command binds to `$expr`, if it does.
pub open spec fn seed_of(command: Command) -> Option<Seq<char>> {
    match command.kind {
        CommandKind::Action(Action::Let(name, expr)) => if name@ == "$expr"@ {
            Some(expr@)
        } else {
            None
        },
        _ => None,
    }
}

/// The expression that the first binding of `$expr` gives.
pub open spec fn seed_expr(commands: Seq<Command>) -> Option<Seq<char>>
    decreases commands.len(),
{
    if commands.len() == 0 {
        None
    } else if seed_of(commands[0]) is Some {
        seed_of(commands[0])
    } else {
        seed_expr(commands.drop_first())
    }
}

/// The ruleset that a command runs, if it is a plain run.
pub open spec fn run_ruleset_of(command: Command) -> Option<Seq<char>> {
    match command.kind {
        CommandKind::RunSchedule(Schedule::Run(ruleset)) => Some(ruleset@),
        _ => None,
    }
}

/// The ruleset of the first plain run.
pub open spec fn default_ruleset(commands: Seq<Command>) -> Option<Seq<char>>
    decreases commands.len(),
{
    if commands.len() == 0 {
        None
    } else if run_ruleset_of(commands[0]) is Some {
        run_ruleset_of(commands[0])
    } else {
        default_ruleset(commands.drop_first())
    }
}

/// Whether a command declares a ruleset with the name `ruleset`.
pub open spec fn declares_ruleset(command: Command, ruleset: Seq<char>) -> bool {
    match command.kind {
        CommandKind::AddRuleset(name) => name@ == ruleset,
        CommandKind::UnstableCombinedRuleset(name) => name@ == ruleset,
        _ => false,
    }
}

/// Whether some command declares a ruleset with the name `ruleset`.
pub open spec fn ruleset_declared(commands: Seq<Command>, ruleset: Seq<char>) -> bool {
    exists|k: int| 0 <= k < commands.len() && declares_ruleset(#[trigger] commands[k], ruleset)
}

/// Whether a command runs, queries or prints something, rather than declares it.
pub open spec fn runtime_command(command: Command) -> bool {
    match command.kind {
        CommandKind::Action(_) => false,
        CommandKind::Include(_) => false,
        CommandKind::AddRuleset(_) => false,
        CommandKind::UnstableCombinedRuleset(_) => false,
        CommandKind::Other => false,
        _ => true,
    }
}

/// The message for a program without a seed expression.
pub open spec fn no_seed_message() -> Seq<char> {
    "rewrite trace requires a global `(let $expr ...)` seed expression"@
}

/// The printed expression of the first global binding of `$expr`.
pub fn extract_seed_expr(commands: &[Command]) -> (seed: Result<String, Error>)
    ensures
        match seed_expr(commands@) {
            Some(expr) => seed matches Ok(text) && text@ == expr,
            None => seed matches Err(Error::BackendError(message)) && message@
                == no_seed_message(),
        },
{
    let seed_name = "$expr".to_owned();
    let mut k: usize = 0;
    proof {
        assert(commands@.skip(0) =~= commands@);
    }
    while k < commands.len()
        invariant
            k <= commands.len(),
            seed_name@ == "$expr"@,
            seed_expr(commands@) == seed_expr(commands@.skip(k as int)),
        decreases commands.len() - k,
    {
        if let CommandKind::Action(Action::Let(name, expr)) = &commands[k].kind {
            if *name == seed_name {
                return Ok(expr.clone());
            }
        }
        proof {
            assert(commands@.skip(k as int).drop_first() =~= commands@.skip(k + 1));
        }
        k = k + 1;
    }
    Err(
        Error::BackendError(
            "rewrite trace requires a global `(let $expr ...)` seed expression".to_owned(),
        ),
    )
}

/// The ruleset of the first plain run in the program.
pub fn extract_default_ruleset(commands: &[Command]) -> (ruleset: Option<String>)
    ensures
        ruleset.deep_view() == default_ruleset(commands@),
{
    let mut k: usize = 0;
    proof {
        assert(commands@.skip(0) =~= commands@);
    }
    while k < commands.len()
        invariant
            k <= commands.len(),
            default_ruleset(commands@) == default_ruleset(commands@.skip(k as int)),
        decreases commands.len() - k,
    {
        if let CommandKind::RunSchedule(Schedule::Run(ruleset)) = &commands[k].kind {
            return Some(ruleset.clone());
        }
        proof {
            assert(commands@.skip(k as int).drop_first() =~= commands@.skip(k + 1));
        }
        k = k + 1;
    }
    None
}

/// Whether the program declares a ruleset with the name `ruleset`.
pub fn ruleset_is_declared(commands: &[Command], ruleset: &str) -> (declared: bool)
    ensures
        declared == ruleset_declared(commands@, ruleset@),
{
    let wanted = ruleset.to_owned();
    let mut k: usize = 0;
    while k < commands.len()
        invariant
            k <= commands.len(),
            wanted@ == ruleset@,
            forall|m: int| 0 <= m < k ==> !declares_ruleset(#[trigger] commands@[m], ruleset@),
        decreases commands.len() - k,
    {
        let declares = match &commands[k].kind {
            CommandKind::AddRuleset(name) => *name == wanted,
            CommandKind::UnstableCombinedRuleset(name) => *name == wanted,
            _ => false,
        };
        if declares {
            proof {
                assert(declares_ruleset(commands@[k as int], ruleset@));
            }
            return true;
        }
        k = k + 1;
    }
    false
}

/// Whether a command runs, queries or prints something: such commands are left out
/// of the program that a trace starts from.
pub fn is_runtime_command(command: &Command) -> (runtime: bool)
    ensures
        runtime == runtime_command(*command),
{
    match &command.kind {
        CommandKind::RunSchedule(_)
        | CommandKind::Extract
        | CommandKind::PrintOverallStatistics
        | CommandKind::Check
        | CommandKind::Prove
        | CommandKind::ProveExists
        | CommandKind::PrintFunction
        | CommandKind::PrintSize
        | CommandKind::Output
        | CommandKind::Push
        | CommandKind::Pop
        | CommandKind::Fail => true,
        _ => false,
    }
}

} // verus!
