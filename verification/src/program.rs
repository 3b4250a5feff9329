//! The programs that a trace hands to the engine.

use vstd::prelude::*;

use crate::command::{is_runtime_command, Command, CommandKind};
use crate::paths::{is_absolute, join, parent_of, quoted};
use crate::text::{decimal_text, join_strings};

verus! {

/// The directory that relative paths in a file are taken from.
pub open spec fn source_directory(filename: Option<Seq<char>>) -> Option<Seq<char>> {
    match filename {
        Some(path) => crate::paths::path_parent(path),
        None => None,
    }
}

/// The path that stands for `path` once the program no longer lies in its file: an
/// absolute path as it is, a relative one under the directory of the file. Without
/// a directory there is none.
pub open spec fn anchored_path(path: Seq<char>, directory: Option<Seq<char>>) -> Option<
    Seq<char>,
> {
    if crate::paths::path_is_absolute(path) {
        Some(path)
    } else {
        match directory {
            Some(parent) => Some(crate::paths::path_join(parent, path)),
            None => None,
        }
    }
}

/// The command that reads another file in, given the quoted path; without one, the
/// command as it was printed.
pub open spec fn include_text(text: Seq<char>, literal: Option<Seq<char>>) -> Seq<char> {
    match literal {
        Some(path) => "(include "@ + path + ")"@,
        None => text,
    }
}

/// How a command reads in the base program.
pub open spec fn rendered(command: Command, directory: Option<Seq<char>>) -> Seq<char> {
    match command.kind {
        CommandKind::Include(path) => include_text(
            command.text@,
            match anchored_path(path@, directory) {
                Some(target) => Some(crate::paths::debug_text(target)),
                None => None,
            },
        ),
        _ => command.text@,
    }
}

/// The lines of the base program: every command but the runtime ones.
pub open spec fn base_lines(commands: Seq<Command>, directory: Option<Seq<char>>) -> Seq<
    Seq<char>,
> {
    commands.filter(|command: Command| !crate::command::runtime_command(command)).map_values(
        |command: Command| rendered(command, directory),
    )
}

/// The base program: its lines, one after the other.
pub open spec fn base_program(commands: Seq<Command>, filename: Option<Seq<char>>) -> Seq<char> {
    crate::text::joined(base_lines(commands, source_directory(filename)), "\n"@)
}

/// Chooses between an absolute path and the one joined to the directory of the file.
pub fn anchor_path(path: &str, absolute: bool, joined: Option<String>) -> (target: Option<String>)
    ensures
        target.deep_view() == if absolute {
            Some(path@)
        } else {
            joined.deep_view()
        },
{
    if absolute {
        Some(path.to_owned())
    } else {
        joined
    }
}

/// Writes the command that reads another file in, given the quoted path.
pub fn render_include(text: &str, literal: Option<String>) -> (line: String)
    ensures
        line@ == include_text(text@, literal.deep_view()),
{
    match literal {
        Some(path) => "(include ".to_owned().concat(path.as_str()).concat(")"),
        None => text.to_owned(),
    }
}

/// Writes one command of the base program.
fn render_command(command: &Command, directory: &Option<String>) -> (line: String)
    ensures
        line@ == rendered(*command, directory.deep_view()),
{
    match &command.kind {
        CommandKind::Include(path) => {
            let joined = match directory {
                Some(parent) => Some(join(parent.as_str(), path.as_str())),
                None => None,
            };
            let literal = match anchor_path(path.as_str(), is_absolute(path.as_str()), joined) {
                Some(target) => Some(quoted(target.as_str())),
                None => None,
            };
            render_include(command.text.as_str(), literal)
        },
        _ => command.text.clone(),
    }
}

/// The program without its runtime commands, and with the paths of other files
/// taken from the directory of `filename`.
pub fn render_base_program(commands: &[Command], filename: Option<&str>) -> (program: String)
    ensures
        program@ == base_program(
            commands@,
            match filename {
                Some(path) => Some(path@),
                None => None,
            },
        ),
{
    let directory = match filename {
        Some(path) => parent_of(path),
        None => None,
    };
    let mut lines: Vec<String> = Vec::new();
    let mut k: usize = 0;
    proof {
        assert(lines.deep_view() =~= base_lines(commands@.take(0), directory.deep_view()));
    }
    while k < commands.len()
        invariant
            k <= commands.len(),
            lines.deep_view() == base_lines(commands@.take(k as int), directory.deep_view()),
        decreases commands.len() - k,
    {
        let ghost before = lines.deep_view();
        proof {
            let longer = commands@.take(k + 1);
            assert(longer.drop_last() =~= commands@.take(k as int));
            assert(longer.last() == commands@[k as int]);
            reveal_with_fuel(Seq::filter, 2);
        }
        if !is_runtime_command(&commands[k]) {
            lines.push(render_command(&commands[k], &directory));
            proof {
                assert(lines.deep_view() =~= before.push(
                    rendered(commands@[k as int], directory.deep_view()),
                ));
            }
        }
        proof {
            assert(lines.deep_view() =~= base_lines(commands@.take(k + 1), directory.deep_view()));
        }
        k = k + 1;
    }
    let lines = lines.as_slice();
    proof {
        assert(commands@.take(k as int) =~= commands@);
        assert(lines.deep_view() =~= base_lines(commands@, directory.deep_view()));
    }
    join_strings(lines, "\n")
}

/// The command that runs a ruleset (the default one if the name is empty) for a
/// number of iterations.
pub open spec fn run_command(ruleset: Seq<char>, iterations: nat) -> Seq<char> {
    if ruleset.len() == 0 {
        "(run "@ + crate::text::decimal(iterations) + ")"@
    } else {
        "(run "@ + ruleset + " "@ + crate::text::decimal(iterations) + ")"@
    }
}

/// The program that extracts the seed expression after a number of iterations.
pub open spec fn extract_program(
    base: Seq<char>,
    ruleset: Seq<char>,
    iterations: nat,
) -> Seq<char> {
    base + "\n"@ + run_command(ruleset, iterations) + "\n(extract $expr)\n"@
}

/// The program that extracts the seed expression as it stands.
pub open spec fn initial_extract_program(base: Seq<char>) -> Seq<char> {
    base + "\n(extract $expr)\n"@
}

/// The program that proves, after a number of iterations, the seed expression equal
/// to `best_expr`.
pub open spec fn proof_program(
    base: Seq<char>,
    ruleset: Seq<char>,
    iterations: nat,
    best_expr: Seq<char>,
) -> Seq<char> {
    base + "\n"@ + run_command(ruleset, iterations) + "\n(let $to "@ + best_expr
        + ")\n(prove (= $expr $to))\n"@
}

/// Writes the command that runs a ruleset.
fn build_run_command(ruleset: &str, iterations: usize) -> (text: String)
    ensures
        text@ == run_command(ruleset@, iterations as nat),
{
    let mut text = "(run ".to_owned();
    if !ruleset.is_empty() {
        text.append(ruleset);
        text.append(" ");
    }
    text.append(decimal_text(iterations).as_str());
    text.append(")");
    text
}

/// Writes the program that extracts the seed expression after `cumulative_iters`
/// iterations.
pub fn build_extract_program(base_program: &str, ruleset: &str, cumulative_iters: usize) -> (text:
    String)
    ensures
        text@ == extract_program(base_program@, ruleset@, cumulative_iters as nat),
{
    let mut text = base_program.to_owned();
    text.append("\n");
    text.append(build_run_command(ruleset, cumulative_iters).as_str());
    text.append("\n(extract $expr)\n");
    text
}

/// Writes the program that extracts the seed expression as it stands.
pub fn build_initial_extract_program(base_program: &str) -> (text: String)
    ensures
        text@ == initial_extract_program(base_program@),
{
    base_program.to_owned().concat("\n(extract $expr)\n")
}

/// Writes the program that proves the seed expression equal to `best_expr` after
/// `cumulative_iters` iterations.
pub fn build_proof_program(
    base_program: &str,
    ruleset: &str,
    cumulative_iters: usize,
    best_expr: &str,
) -> (text: String)
    ensures
        text@ == proof_program(base_program@, ruleset@, cumulative_iters as nat, best_expr@),
{
    let mut text = base_program.to_owned();
    text.append("\n");
    text.append(build_run_command(ruleset, cumulative_iters).as_str());
    text.append("\n(let $to ");
    text.append(best_expr);
    text.append(")\n(prove (= $expr $to))\n");
    text
}

} // verus!
