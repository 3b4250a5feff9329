use std::path::PathBuf;

use rewrite_trace::{
    anchor_path, build_extract_program, build_initial_extract_program, build_proof_program,
    configured_egraph, extract_best_output, extract_default_ruleset,
    extract_rule_trace_from_outputs, extract_seed_expr, is_runtime_command, render_base_program,
    render_include, ruleset_is_declared, run_program, Action, Command, CommandKind,
    CommandOutput, Error, ReportLevel, RewriteTraceConfig, Schedule,
};

fn command(kind: CommandKind, text: &str) -> Command {
    Command {
        kind,
        text: text.to_string(),
    }
}

fn binding(name: &str, expr: &str) -> Command {
    command(
        CommandKind::Action(Action::Let(name.to_string(), expr.to_string())),
        "(let ...)",
    )
}

fn plain_run(ruleset: &str) -> Command {
    command(
        CommandKind::RunSchedule(Schedule::Run(ruleset.to_string())),
        "(run ...)",
    )
}

fn file(path: &str) -> Command {
    command(CommandKind::Include(path.to_string()), "(as printed)")
}

fn config() -> RewriteTraceConfig {
    RewriteTraceConfig {
        round_iters: 1,
        max_rounds: 1,
        ruleset: None,
        with_proofs: false,
        strict_mode: false,
        seminaive: true,
        report_level: ReportLevel::TimeOnly,
        fact_directory: None,
        term_encoding: false,
    }
}

#[test]
fn first_binding_of_the_seed_counts() {
    let commands = [
        binding("$other", "(Num 1)"),
        command(CommandKind::Action(Action::Other), "(set ...)"),
        binding("$expr", "(Num 2)"),
        binding("$expr", "(Num 3)"),
    ];
    assert_eq!(extract_seed_expr(&commands), Ok("(Num 2)".to_string()));
}

#[test]
fn missing_seed_is_an_error() {
    assert_eq!(
        extract_seed_expr(&[binding("expr", "(Num 2)")]),
        Err(Error::BackendError(
            "rewrite trace requires a global `(let $expr ...)` seed expression".to_string()
        ))
    );
}

#[test]
fn first_plain_run_gives_the_ruleset() {
    let schedule = command(CommandKind::RunSchedule(Schedule::Other), "(run-schedule ...)");
    assert_eq!(
        extract_default_ruleset(&[schedule.clone(), plain_run("opt"), plain_run("late")]),
        Some("opt".to_string())
    );
    assert_eq!(extract_default_ruleset(&[plain_run("")]), Some(String::new()));
    assert_eq!(extract_default_ruleset(&[schedule]), None);
}

#[test]
fn rulesets_are_declared_plain_or_combined() {
    let commands = [
        command(CommandKind::AddRuleset("opt".to_string()), "(ruleset opt)"),
        command(
            CommandKind::UnstableCombinedRuleset("all".to_string()),
            "(unstable-combined-ruleset all opt)",
        ),
        plain_run("used"),
    ];
    assert!(ruleset_is_declared(&commands, "opt"));
    assert!(ruleset_is_declared(&commands, "all"));
    assert!(!ruleset_is_declared(&commands, "used"));
    assert!(!ruleset_is_declared(&[], "opt"));
}

#[test]
fn runtime_commands_run_query_or_print() {
    let runtime = [
        CommandKind::RunSchedule(Schedule::Run("opt".to_string())),
        CommandKind::RunSchedule(Schedule::Other),
        CommandKind::Extract,
        CommandKind::PrintOverallStatistics,
        CommandKind::Check,
        CommandKind::Prove,
        CommandKind::ProveExists,
        CommandKind::PrintFunction,
        CommandKind::PrintSize,
        CommandKind::Output,
        CommandKind::Push,
        CommandKind::Pop,
        CommandKind::Fail,
    ];
    for kind in runtime {
        assert!(is_runtime_command(&command(kind, "")));
    }
    let declarations = [
        CommandKind::Action(Action::Other),
        CommandKind::Action(Action::Let("$expr".to_string(), "1".to_string())),
        CommandKind::Include("a.egg".to_string()),
        CommandKind::AddRuleset("opt".to_string()),
        CommandKind::UnstableCombinedRuleset("opt".to_string()),
        CommandKind::Other,
    ];
    for kind in declarations {
        assert!(!is_runtime_command(&command(kind, "")));
    }
}

#[test]
fn base_program_drops_runtime_commands() {
    let commands = [
        command(CommandKind::Other, "(datatype Math)"),
        plain_run("opt"),
        command(CommandKind::Extract, "(extract $expr)"),
        command(CommandKind::AddRuleset("opt".to_string()), "(ruleset opt)"),
    ];
    let kept = [commands[0].clone(), commands[3].clone()];
    assert_eq!(render_base_program(&commands, None), "(datatype Math)\n(ruleset opt)");
    assert_eq!(render_base_program(&kept, Some("/a/b.egg")), "(datatype Math)\n(ruleset opt)");
    assert_eq!(render_base_program(&[commands[1].clone()], None), "");
}

#[test]
fn relative_files_are_taken_from_the_directory_of_the_program() {
    assert_eq!(
        render_base_program(&[file("lib/math.egg")], Some("/home/me/main.egg")),
        "(include \"/home/me/lib/math.egg\")"
    );
    assert_eq!(
        render_base_program(&[file("math.egg")], Some("main.egg")),
        "(include \"math.egg\")"
    );
    assert_eq!(
        render_base_program(&[file("math.egg")], Some("dir/main.egg")),
        "(include \"dir/math.egg\")"
    );
}

#[test]
fn absolute_files_stay_where_they_are() {
    for filename in [None, Some("/home/me/main.egg"), Some("main.egg")] {
        assert_eq!(
            render_base_program(&[file("/lib/math.egg")], filename),
            "(include \"/lib/math.egg\")"
        );
    }
}

#[test]
fn relative_files_without_a_directory_stay_as_printed() {
    for filename in [None, Some(""), Some("/")] {
        assert_eq!(render_base_program(&[file("math.egg")], filename), "(as printed)");
    }
}

#[test]
fn file_names_are_quoted_with_escapes() {
    assert_eq!(
        render_base_program(&[file("/a \"b\"\\c.egg")], None),
        "(include \"/a \\\"b\\\"\\\\c.egg\")"
    );
}

#[test]
fn anchored_paths_prefer_the_absolute_path() {
    let joined = Some("/dir/a.egg".to_string());
    assert_eq!(anchor_path("/a.egg", true, joined.clone()), Some("/a.egg".to_string()));
    assert_eq!(anchor_path("a.egg", false, joined.clone()), joined);
    assert_eq!(anchor_path("a.egg", false, None), None);
    assert_eq!(render_include("text", Some("\"p\"".to_string())), "(include \"p\")");
    assert_eq!(render_include("text", None), "text");
}

#[test]
fn programs_end_with_their_query() {
    assert_eq!(build_initial_extract_program("base"), "base\n(extract $expr)\n");
    assert_eq!(
        build_extract_program("base", "", 12),
        "base\n(run 12)\n(extract $expr)\n"
    );
    assert_eq!(
        build_extract_program("base", "opt", 100),
        "base\n(run opt 100)\n(extract $expr)\n"
    );
    assert_eq!(
        build_proof_program("base", "", 7, "(Num 1)"),
        "base\n(run 7)\n(let $to (Num 1))\n(prove (= $expr $to))\n"
    );
    assert_eq!(
        build_proof_program("base", "opt", 0, "(Num 1)"),
        "base\n(run opt 0)\n(let $to (Num 1))\n(prove (= $expr $to))\n"
    );
}

#[test]
fn settings_follow_the_configuration() {
    let mut wanted = config();
    let settings = configured_egraph(&wanted, false);
    assert!(!settings.term_encoding);
    assert!(!settings.proofs);
    assert!(!settings.proof_rule_trace_only);
    assert!(settings.seminaive);
    assert!(!settings.strict_mode);
    assert_eq!(settings.report_level, ReportLevel::TimeOnly);
    assert_eq!(settings.fact_directory, None);

    assert!(configured_egraph(&wanted, true).proofs);
    assert!(configured_egraph(&wanted, true).proof_rule_trace_only);

    wanted.with_proofs = true;
    wanted.term_encoding = true;
    wanted.strict_mode = true;
    wanted.seminaive = false;
    wanted.report_level = ReportLevel::StageInfo;
    wanted.fact_directory = Some(PathBuf::from("/facts/of mine"));
    let settings = configured_egraph(&wanted, false);
    assert!(settings.term_encoding);
    assert!(settings.proofs);
    assert!(settings.proof_rule_trace_only);
    assert!(!settings.seminaive);
    assert!(settings.strict_mode);
    assert_eq!(settings.report_level, ReportLevel::StageInfo);
    assert_eq!(settings.fact_directory, Some(PathBuf::from("/facts/of mine")));
}

#[test]
fn program_reaches_the_engine_with_its_settings() {
    let reply = run_program(
        "(p)".to_string(),
        Some("f.egg".to_string()),
        &config(),
        true,
        &|request: rewrite_trace::EngineRequest| {
            assert_eq!(request.program, "(p)");
            assert_eq!(request.filename, Some("f.egg".to_string()));
            assert!(request.settings.proofs);
            Err(Error::EngineError("no".to_string()))
        },
    );
    assert_eq!(reply.unwrap_err(), Error::EngineError("no".to_string()));
}

#[test]
fn last_extraction_counts() {
    let outputs = [
        CommandOutput::ExtractBest {
            term: "(Num 1)".to_string(),
            cost: 9,
        },
        CommandOutput::ExtractBest {
            term: "(Num 2)".to_string(),
            cost: 2,
        },
        CommandOutput::Other,
        CommandOutput::ProveExistsRuleTrace(vec!["r".to_string()]),
    ];
    assert_eq!(extract_best_output(&outputs), Ok(("(Num 2)".to_string(), 2)));
    assert_eq!(
        extract_best_output(&outputs[2..]),
        Err(Error::BackendError(
            "rewrite trace expected an extract result but none was produced".to_string()
        ))
    );
}

#[test]
fn last_proof_gives_the_rules() {
    let outputs = [
        CommandOutput::ProveExistsRuleTrace(vec!["a".to_string()]),
        CommandOutput::ProveExists {
            rule_trace: vec!["b".to_string(), "c".to_string()],
        },
        CommandOutput::Other,
    ];
    assert_eq!(
        extract_rule_trace_from_outputs(&outputs),
        vec!["b".to_string(), "c".to_string()]
    );
    assert_eq!(extract_rule_trace_from_outputs(&outputs[..1]), vec!["a".to_string()]);
    assert_eq!(extract_rule_trace_from_outputs(&outputs[2..]), Vec::<String>::new());
}
