//! What holds of everything that a trace reads from a program.

use vstd::prelude::*;

use crate::command::{Action, Command, CommandKind, Schedule};

verus! {

/// The seed is the expression of the first command that binds `$expr`.
pub proof fn law_first_binding_is_the_seed(
    commands: Seq<Command>,
    k: int,
    name: String,
    expr: String,
)
    requires
        0 <= k < commands.len(),
        commands[k].kind == CommandKind::Action(Action::Let(name, expr)),
        name@ == "$expr"@,
        forall|j: int|
            0 <= j < k ==> !((#[trigger] commands[j]).kind matches CommandKind::Action(
                Action::Let(other, _),
            ) && other@ == "$expr"@),
    ensures
        crate::command::seed_expr(commands) == Some(expr@),
    decreases commands.len(),
{
    if k > 0 {
        let rest = commands.drop_first();
        assert(!(commands[0].kind matches CommandKind::Action(Action::Let(other, _)) && other@
            == "$expr"@));
        assert forall|j: int| 0 <= j < k - 1 implies !((
        #[trigger] rest[j]).kind matches CommandKind::Action(Action::Let(other, _)) && other@
            == "$expr"@) by {
            assert(rest[j] == commands[j + 1]);
        }
        law_first_binding_is_the_seed(rest, k - 1, name, expr);
    }
}

/// Without a command that binds `$expr` there is no seed.
pub proof fn law_no_binding_no_seed(commands: Seq<Command>)
    requires
        forall|j: int|
            0 <= j < commands.len() ==> !((
            #[trigger] commands[j]).kind matches CommandKind::Action(Action::Let(other, _))
                && other@ == "$expr"@),
    ensures
        crate::command::seed_expr(commands) is None,
    decreases commands.len(),
{
    if commands.len() > 0 {
        let rest = commands.drop_first();
        assert(!(commands[0].kind matches CommandKind::Action(Action::Let(other, _)) && other@
            == "$expr"@));
        assert forall|j: int| 0 <= j < rest.len() implies !((
        #[trigger] rest[j]).kind matches CommandKind::Action(Action::Let(other, _)) && other@
            == "$expr"@) by {
            assert(rest[j] == commands[j + 1]);
        }
        law_no_binding_no_seed(rest);
    }
}

/// The default ruleset is that of the first plain run.
pub proof fn law_first_plain_run_is_the_default(
    commands: Seq<Command>,
    k: int,
    ruleset: String,
)
    requires
        0 <= k < commands.len(),
        commands[k].kind == CommandKind::RunSchedule(Schedule::Run(ruleset)),
        forall|j: int|
            0 <= j < k ==> !((#[trigger] commands[j]).kind matches CommandKind::RunSchedule(
                Schedule::Run(_),
            )),
    ensures
        crate::command::default_ruleset(commands) == Some(ruleset@),
    decreases commands.len(),
{
    if k > 0 {
        let rest = commands.drop_first();
        assert(!(commands[0].kind matches CommandKind::RunSchedule(Schedule::Run(_))));
        assert forall|j: int| 0 <= j < k - 1 implies !((
        #[trigger] rest[j]).kind matches CommandKind::RunSchedule(Schedule::Run(_))) by {
            assert(rest[j] == commands[j + 1]);
        }
        law_first_plain_run_is_the_default(rest, k - 1, ruleset);
    }
}

/// Without a plain run there is no default ruleset.
pub proof fn law_no_plain_run_no_default(commands: Seq<Command>)
    requires
        forall|j: int|
            0 <= j < commands.len() ==> !((
            #[trigger] commands[j]).kind matches CommandKind::RunSchedule(Schedule::Run(_))),
    ensures
        crate::command::default_ruleset(commands) is None,
    decreases commands.len(),
{
    if commands.len() > 0 {
        let rest = commands.drop_first();
        assert(!(commands[0].kind matches CommandKind::RunSchedule(Schedule::Run(_))));
        assert forall|j: int| 0 <= j < rest.len() implies !((
        #[trigger] rest[j]).kind matches CommandKind::RunSchedule(Schedule::Run(_))) by {
            assert(rest[j] == commands[j + 1]);
        }
        law_no_plain_run_no_default(rest);
    }
}

/// A ruleset is declared exactly if some command adds it, by itself or as a
/// combination of others.
pub proof fn law_declared_rulesets_are_added(commands: Seq<Command>, ruleset: Seq<char>)
    ensures
        crate::command::ruleset_declared(commands, ruleset) <==> exists|k: int|
            0 <= k < commands.len() && match (#[trigger] commands[k]).kind {
                CommandKind::AddRuleset(name) => name@ == ruleset,
                CommandKind::UnstableCombinedRuleset(name) => name@ == ruleset,
                _ => false,
            },
{
    if crate::command::ruleset_declared(commands, ruleset) {
        let k = choose|k: int|
            0 <= k < commands.len() && crate::command::declares_ruleset(
                #[trigger] commands[k],
                ruleset,
            );
        assert(match commands[k].kind {
            CommandKind::AddRuleset(name) => name@ == ruleset,
            CommandKind::UnstableCombinedRuleset(name) => name@ == ruleset,
            _ => false,
        });
    }
    assert forall|k: int|
        0 <= k < commands.len() && match (#[trigger] commands[k]).kind {
            CommandKind::AddRuleset(name) => name@ == ruleset,
            CommandKind::UnstableCombinedRuleset(name) => name@ == ruleset,
            _ => false,
        } implies crate::command::ruleset_declared(commands, ruleset) by {
        assert(crate::command::declares_ruleset(commands[k], ruleset));
    }
}

/// Whether a command is a runtime command depends on what it is alone, never on its
/// parts or its text: actions, declarations and commands that read other files in are
/// not, all others are.
pub proof fn law_runtime_commands(command: Command)
    ensures
        crate::command::runtime_command(command) <==> {
            ||| command.kind is RunSchedule
            ||| command.kind is Extract
            ||| command.kind is PrintOverallStatistics
            ||| command.kind is Check
            ||| command.kind is Prove
            ||| command.kind is ProveExists
            ||| command.kind is PrintFunction
            ||| command.kind is PrintSize
            ||| command.kind is Output
            ||| command.kind is Push
            ||| command.kind is Pop
            ||| command.kind is Fail
        },
{
}

/// The message for a program without a seed.
pub proof fn law_message_without_a_seed()
    ensures
        crate::command::no_seed_message()
            == "rewrite trace requires a global `(let $expr ...)` seed expression"@,
{
}

} // verus!
