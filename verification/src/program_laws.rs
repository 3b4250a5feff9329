//! What holds of every base program.

use vstd::prelude::*;

use crate::command::{Command, CommandKind};

verus! {

proof fn lemma_filter_twice(commands: Seq<Command>, keep: spec_fn(Command) -> bool)
    ensures
        commands.filter(keep).filter(keep) == commands.filter(keep),
    decreases commands.len(),
{
    reveal_with_fuel(Seq::filter, 2);
    if commands.len() > 0 {
        let shorter = commands.drop_last();
        lemma_filter_twice(shorter, keep);
        if keep(commands.last()) {
            let kept = shorter.filter(keep);
            assert(kept.push(commands.last()).drop_last() =~= kept);
        }
    }
}

/// Runtime commands leave no mark: the base program is that of the program without
/// them.
pub proof fn law_runtime_commands_leave_no_mark(
    commands: Seq<Command>,
    filename: Option<Seq<char>>,
)
    ensures
        crate::program::base_program(
            commands.filter(|command: Command| !crate::command::runtime_command(command)),
            filename,
        ) == crate::program::base_program(commands, filename),
{
    lemma_filter_twice(
        commands,
        |command: Command| !crate::command::runtime_command(command),
    );
}

/// A program without runtime commands and without commands that read other files in
/// is its own base program, line by line, wherever it comes from.
pub proof fn law_plain_program_is_its_own_base(
    commands: Seq<Command>,
    filename: Option<Seq<char>>,
)
    requires
        forall|k: int|
            0 <= k < commands.len() ==> !crate::command::runtime_command(#[trigger] commands[k])
                && !(commands[k].kind is Include),
    ensures
        crate::program::base_program(commands, filename) == crate::text::joined(
            commands.map_values(|command: Command| command.text@),
            "\n"@,
        ),
{
    let keep = |command: Command| !crate::command::runtime_command(command);
    lemma_all_kept(commands, keep);
    assert(crate::program::base_lines(commands, crate::program::source_directory(filename))
        =~= commands.map_values(|command: Command| command.text@));
}

/// Without a file name, a relative path in a command that reads another file in
/// stays as it was printed.
pub proof fn law_relative_path_without_file_is_kept(command: Command, path: String)
    requires
        command.kind == CommandKind::Include(path),
        !crate::paths::path_is_absolute(path@),
    ensures
        crate::program::rendered(command, crate::program::source_directory(None))
            == command.text@,
{
}

/// An absolute path does not depend on where the program comes from.
pub proof fn law_absolute_path_ignores_file(
    command: Command,
    path: String,
    one: Option<Seq<char>>,
    other: Option<Seq<char>>,
)
    requires
        command.kind == CommandKind::Include(path),
        crate::paths::path_is_absolute(path@),
    ensures
        crate::program::rendered(command, crate::program::source_directory(one))
            == crate::program::rendered(command, crate::program::source_directory(other)),
{
}

proof fn lemma_all_kept(commands: Seq<Command>, keep: spec_fn(Command) -> bool)
    requires
        forall|k: int| 0 <= k < commands.len() ==> keep(#[trigger] commands[k]),
    ensures
        commands.filter(keep) == commands,
    decreases commands.len(),
{
    reveal_with_fuel(Seq::filter, 2);
    if commands.len() > 0 {
        lemma_all_kept(commands.drop_last(), keep);
        assert(commands =~= commands.drop_last().push(commands.last()));
    } else {
        assert(commands =~= Seq::empty());
    }
}

proof fn lemma_base_of_one(command: Command, filename: Option<Seq<char>>)
    ensures
        crate::command::runtime_command(command) ==> crate::program::base_lines(
            seq![command],
            crate::program::source_directory(filename),
        ).len() == 0,
        !crate::command::runtime_command(command) ==> crate::program::base_program(
            seq![command],
            filename,
        ) == crate::program::rendered(command, crate::program::source_directory(filename)),
{
    let directory = crate::program::source_directory(filename);
    let keep = |command: Command| !crate::command::runtime_command(command);
    reveal_with_fuel(Seq::filter, 2);
    assert(seq![command].drop_last() =~= Seq::empty());
    if keep(command) {
        assert(seq![command].filter(keep) =~= seq![command]);
        assert(crate::program::base_lines(seq![command], directory) =~= seq![
            crate::program::rendered(command, directory),
        ]);
    } else {
        assert(seq![command].filter(keep) =~= Seq::empty());
    }
}

proof fn lemma_lines_of_concatenation(
    a: Seq<Command>,
    b: Seq<Command>,
    directory: Option<Seq<char>>,
)
    ensures
        crate::program::base_lines(a + b, directory) == crate::program::base_lines(a, directory)
            + crate::program::base_lines(b, directory),
{
    let keep = |command: Command| !crate::command::runtime_command(command);
    Seq::filter_distributes_over_add(a, b, keep);
    assert(crate::program::base_lines(a + b, directory) =~= crate::program::base_lines(
        a,
        directory,
    ) + crate::program::base_lines(b, directory));
}

proof fn lemma_lines_left(commands: Seq<Command>, directory: Option<Seq<char>>, k: int)
    requires
        0 <= k < commands.len(),
        !crate::command::runtime_command(commands[k]),
    ensures
        crate::program::base_lines(commands, directory).len() > 0,
    decreases commands.len(),
{
    reveal_with_fuel(Seq::filter, 2);
    if k < commands.len() - 1 {
        lemma_lines_left(commands.drop_last(), directory, k);
    }
}

proof fn lemma_no_lines(commands: Seq<Command>, directory: Option<Seq<char>>)
    requires
        forall|k: int|
            0 <= k < commands.len() ==> crate::command::runtime_command(#[trigger] commands[k]),
    ensures
        crate::program::base_lines(commands, directory).len() == 0,
    decreases commands.len(),
{
    reveal_with_fuel(Seq::filter, 2);
    if commands.len() > 0 {
        assert(crate::command::runtime_command(commands[commands.len() - 1]));
        lemma_no_lines(commands.drop_last(), directory);
    }
}

/// The base program of runtime commands alone is empty.
pub proof fn law_runtime_commands_alone_give_nothing(
    commands: Seq<Command>,
    filename: Option<Seq<char>>,
)
    requires
        forall|k: int|
            0 <= k < commands.len() ==> crate::command::runtime_command(#[trigger] commands[k]),
    ensures
        crate::program::base_program(commands, filename) == Seq::<char>::empty(),
{
    lemma_no_lines(commands, crate::program::source_directory(filename));
}

/// A runtime command may stand anywhere in a program, or be left out.
pub proof fn law_runtime_command_can_be_left_out(
    before: Seq<Command>,
    command: Command,
    after: Seq<Command>,
    filename: Option<Seq<char>>,
)
    requires
        crate::command::runtime_command(command),
    ensures
        crate::program::base_program(before + (seq![command] + after), filename)
            == crate::program::base_program(before + after, filename),
{
    let directory = crate::program::source_directory(filename);
    lemma_base_of_one(command, filename);
    lemma_lines_of_concatenation(before, seq![command] + after, directory);
    lemma_lines_of_concatenation(seq![command], after, directory);
    lemma_lines_of_concatenation(before, after, directory);
    assert(crate::program::base_lines(seq![command], directory) + crate::program::base_lines(
        after,
        directory,
    ) =~= crate::program::base_lines(after, directory));
}

/// Two programs in a row, each with something to keep, give their base programs in a
/// row, on lines of their own.
pub proof fn law_base_of_concatenation(
    a: Seq<Command>,
    i: int,
    b: Seq<Command>,
    j: int,
    filename: Option<Seq<char>>,
)
    requires
        0 <= i < a.len(),
        0 <= j < b.len(),
        !crate::command::runtime_command(a[i]),
        !crate::command::runtime_command(b[j]),
    ensures
        crate::program::base_program(a + b, filename) == crate::program::base_program(a, filename)
            + "\n"@ + crate::program::base_program(b, filename),
{
    let directory = crate::program::source_directory(filename);
    lemma_lines_of_concatenation(a, b, directory);
    lemma_lines_left(a, directory, i);
    lemma_lines_left(b, directory, j);
    crate::text_laws::law_joining_concatenation(
        crate::program::base_lines(a, directory),
        crate::program::base_lines(b, directory),
        "\n"@,
    );
}

/// A command that is kept reads as it was printed, unless it reads another file in.
pub proof fn law_kept_command_reads_as_printed(command: Command, filename: Option<Seq<char>>)
    requires
        !crate::command::runtime_command(command),
        !(command.kind is Include),
    ensures
        crate::program::base_program(seq![command], filename) == command.text@,
{
    lemma_base_of_one(command, filename);
}

/// A command that reads another file in names it by a path that does not depend on the
/// place of the program: an absolute path is kept, a relative one is joined to the
/// directory of the program's file, and without a directory the command reads as it was
/// printed.
pub proof fn law_other_files_are_named_from_the_directory(
    command: Command,
    path: String,
    filename: Seq<char>,
)
    requires
        command.kind == CommandKind::Include(path),
    ensures
        crate::paths::path_is_absolute(path@) ==> {
            let text = "(include "@ + crate::paths::debug_text(path@) + ")"@;
            &&& crate::program::base_program(seq![command], Some(filename)) == text
            &&& crate::program::base_program(seq![command], None) == text
        },
        !crate::paths::path_is_absolute(path@) ==> {
            &&& crate::program::base_program(seq![command], None) == command.text@
            &&& crate::paths::path_parent(filename) is None ==> crate::program::base_program(
                seq![command],
                Some(filename),
            ) == command.text@
            &&& crate::paths::path_parent(filename) matches Some(directory)
                ==> crate::program::base_program(seq![command], Some(filename)) == "(include "@
                + crate::paths::debug_text(crate::paths::path_join(directory, path@)) + ")"@
        },
{
    lemma_base_of_one(command, None);
    lemma_base_of_one(command, Some(filename));
}

/// The text of a command that reads another file in, for any quoted path.
pub proof fn law_include_text(text: Seq<char>, literal: Seq<char>)
    ensures
        crate::program::include_text(text, Some(literal)) == "(include "@ + literal + ")"@,
        crate::program::include_text(text, None) == text,
{
}

/// An empty name runs the default ruleset: the number of iterations stands alone.
pub proof fn law_programs_of_the_default_ruleset(
    base: Seq<char>,
    iterations: nat,
    best_expr: Seq<char>,
)
    ensures
        crate::program::extract_program(base, Seq::empty(), iterations) == base + "\n(run "@
            + crate::text::decimal(iterations) + ")\n(extract $expr)\n"@,
        crate::program::proof_program(base, Seq::empty(), iterations, best_expr) == base
            + "\n(run "@ + crate::text::decimal(iterations) + ")\n(let $to "@ + best_expr
            + ")\n(prove (= $expr $to))\n"@,
{
    reveal_strlit("\n");
    reveal_strlit("(run ");
    reveal_strlit("\n(run ");
    reveal_strlit(")");
    reveal_strlit("\n(extract $expr)\n");
    reveal_strlit(")\n(extract $expr)\n");
    reveal_strlit("\n(let $to ");
    reveal_strlit(")\n(let $to ");
    assert("\n"@ + "(run "@ =~= "\n(run "@);
    assert(")"@ + "\n(extract $expr)\n"@ =~= ")\n(extract $expr)\n"@);
    assert(")"@ + "\n(let $to "@ =~= ")\n(let $to "@);
    let numeral = crate::text::decimal(iterations);
    assert(crate::program::extract_program(base, Seq::empty(), iterations) =~= base + ("\n"@
        + "(run "@) + numeral + (")"@ + "\n(extract $expr)\n"@));
    assert(crate::program::proof_program(base, Seq::empty(), iterations, best_expr) =~= base + (
    "\n"@ + "(run "@) + numeral + (")"@ + "\n(let $to "@) + best_expr
        + ")\n(prove (= $expr $to))\n"@);
}

/// A named ruleset is run by its name: it stands before the number of iterations.
pub proof fn law_programs_of_a_named_ruleset(
    base: Seq<char>,
    ruleset: Seq<char>,
    iterations: nat,
    best_expr: Seq<char>,
)
    requires
        ruleset.len() > 0,
    ensures
        crate::program::extract_program(base, ruleset, iterations) == base + "\n(run "@ + ruleset
            + " "@ + crate::text::decimal(iterations) + ")\n(extract $expr)\n"@,
        crate::program::proof_program(base, ruleset, iterations, best_expr) == base + "\n(run "@
            + ruleset + " "@ + crate::text::decimal(iterations) + ")\n(let $to "@ + best_expr
            + ")\n(prove (= $expr $to))\n"@,
{
    reveal_strlit("\n");
    reveal_strlit("(run ");
    reveal_strlit("\n(run ");
    reveal_strlit(")");
    reveal_strlit("\n(extract $expr)\n");
    reveal_strlit(")\n(extract $expr)\n");
    reveal_strlit("\n(let $to ");
    reveal_strlit(")\n(let $to ");
    assert("\n"@ + "(run "@ =~= "\n(run "@);
    assert(")"@ + "\n(extract $expr)\n"@ =~= ")\n(extract $expr)\n"@);
    assert(")"@ + "\n(let $to "@ =~= ")\n(let $to "@);
    let numeral = crate::text::decimal(iterations);
    assert(crate::program::extract_program(base, ruleset, iterations) =~= base + ("\n"@
        + "(run "@) + ruleset + " "@ + numeral + (")"@ + "\n(extract $expr)\n"@));
    assert(crate::program::proof_program(base, ruleset, iterations, best_expr) =~= base + ("\n"@
        + "(run "@) + ruleset + " "@ + numeral + (")"@ + "\n(let $to "@) + best_expr
        + ")\n(prove (= $expr $to))\n"@);
}

/// The program before the first round runs nothing: it is the base program and the
/// query.
pub proof fn law_program_before_the_first_round(base: Seq<char>)
    ensures
        crate::program::initial_extract_program(base) == base + "\n(extract $expr)\n"@,
{
}

} // verus!
