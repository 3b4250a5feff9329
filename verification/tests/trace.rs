use std::cell::RefCell;
use std::collections::HashMap;

use rewrite_trace::{
    check_config, run_rewrite_trace, run_rewrite_trace_checked, Action, Command, CommandKind, CommandOutput, EngineRequest, Error,
    ReportLevel, RewriteTraceConfig, RewriteTraceReport, Schedule, TraceSession,
};

// A small term-rewriting engine: it knows datatypes by name only, rewrites terms at
// every position, and keeps for each term the rules that lead to it.

#[derive(Clone, Debug, PartialEq)]
enum Term {
    Atom(String),
    List(Vec<Term>),
}

fn show(term: &Term) -> String {
    match term {
        Term::Atom(name) => name.clone(),
        Term::List(parts) => {
            format!("({})", parts.iter().map(show).collect::<Vec<_>>().join(" "))
        }
    }
}

fn read_terms(text: &str) -> Result<Vec<Term>, Error> {
    let spaced = text.replace('(', " ( ").replace(')', " ) ");
    let mut open: Vec<Vec<Term>> = vec![Vec::new()];
    for token in spaced.split_whitespace() {
        match token {
            "(" => open.push(Vec::new()),
            ")" => {
                let parts = open.pop().unwrap();
                match open.last_mut() {
                    Some(outer) => outer.push(Term::List(parts)),
                    None => return Err(Error::EngineError("unbalanced".to_string())),
                }
            }
            name => open.last_mut().unwrap().push(Term::Atom(name.to_string())),
        }
    }
    let terms = open.pop().unwrap();
    if open.is_empty() {
        Ok(terms)
    } else {
        Err(Error::EngineError("unbalanced".to_string()))
    }
}

fn parts_of(term: &Term) -> Vec<Term> {
    match term {
        Term::List(parts) => parts.clone(),
        Term::Atom(_) => vec![term.clone()],
    }
}

fn run_parts(parts: &[Term]) -> (String, usize) {
    if parts.len() == 3 {
        (show(&parts[1]), show(&parts[2]).parse().unwrap())
    } else {
        (String::new(), show(&parts[1]).parse().unwrap())
    }
}

fn parse_program(_filename: Option<String>, text: &str) -> Result<Vec<Command>, Error> {
    let mut commands = Vec::new();
    for term in read_terms(text)? {
        let parts = parts_of(&term);
        let kind = match show(&parts[0]).as_str() {
            "ruleset" => CommandKind::AddRuleset(show(&parts[1])),
            "let" => CommandKind::Action(Action::Let(show(&parts[1]), show(&parts[2]))),
            "run" => CommandKind::RunSchedule(Schedule::Run(run_parts(&parts).0)),
            "extract" => CommandKind::Extract,
            "prove" => CommandKind::Prove,
            "datatype" | "rewrite" => CommandKind::Other,
            other => return Err(Error::EngineError(format!("unknown command {other}"))),
        };
        commands.push(Command {
            kind,
            text: show(&term),
        });
    }
    Ok(commands)
}

fn matches_pattern(pattern: &Term, term: &Term, found: &mut HashMap<String, Term>) -> bool {
    match (pattern, term) {
        (Term::Atom(name), _) if name.starts_with('?') => match found.get(name) {
            Some(earlier) => earlier == term,
            None => {
                found.insert(name.clone(), term.clone());
                true
            }
        },
        (Term::Atom(a), Term::Atom(b)) => a == b,
        (Term::List(a), Term::List(b)) => {
            a.len() == b.len() && a.iter().zip(b).all(|(p, t)| matches_pattern(p, t, found))
        }
        _ => false,
    }
}

fn fill_in(pattern: &Term, found: &HashMap<String, Term>) -> Term {
    match pattern {
        Term::Atom(name) => found.get(name).unwrap_or(pattern).clone(),
        Term::List(parts) => Term::List(parts.iter().map(|p| fill_in(p, found)).collect()),
    }
}

fn rewrites(term: &Term, left: &Term, right: &Term) -> Vec<Term> {
    let mut results = Vec::new();
    let mut found = HashMap::new();
    if matches_pattern(left, term, &mut found) {
        results.push(fill_in(right, &found));
    }
    if let Term::List(parts) = term {
        for (place, part) in parts.iter().enumerate() {
            for changed in rewrites(part, left, right) {
                let mut copy = parts.clone();
                copy[place] = changed;
                results.push(Term::List(copy));
            }
        }
    }
    results
}

fn cost(term: &Term) -> u64 {
    match term {
        Term::Atom(_) => 1,
        Term::List(parts) => parts.iter().map(cost).sum(),
    }
}

fn run_engine(request: EngineRequest) -> Result<Vec<CommandOutput>, Error> {
    let mut rulesets = vec![String::new()];
    let mut rules: Vec<(String, Term, Term, String)> = Vec::new();
    let mut bindings: HashMap<String, Term> = HashMap::new();
    let mut runs: Vec<(String, usize)> = Vec::new();
    let mut outputs = Vec::new();
    for term in read_terms(&request.program)? {
        let parts = parts_of(&term);
        match show(&parts[0]).as_str() {
            "ruleset" => rulesets.push(show(&parts[1])),
            "rewrite" => {
                let ruleset = if parts.len() == 5 { show(&parts[4]) } else { String::new() };
                rules.push((ruleset, parts[1].clone(), parts[2].clone(), show(&term)));
            }
            "let" => {
                bindings.insert(show(&parts[1]), parts[2].clone());
            }
            "run" => {
                let (ruleset, iterations) = run_parts(&parts);
                if !rulesets.contains(&ruleset) {
                    return Err(Error::EngineError(format!("no ruleset {ruleset}")));
                }
                runs.push((ruleset, iterations));
            }
            "extract" => {
                let terms = equal_terms(&bindings[&show(&parts[1])], &rules, &runs);
                let best = terms.iter().min_by_key(|entry| cost(&entry.0)).unwrap();
                outputs.push(CommandOutput::ExtractBest {
                    term: show(&best.0),
                    cost: cost(&best.0),
                });
            }
            "prove" => {
                if !request.settings.proofs {
                    return Err(Error::EngineError("proofs are off".to_string()));
                }
                let sides = parts_of(&parts[1]);
                let goal = bindings[&show(&sides[2])].clone();
                let terms = equal_terms(&bindings[&show(&sides[1])], &rules, &runs);
                match terms.into_iter().find(|entry| entry.0 == goal) {
                    Some((_, used)) => outputs.push(CommandOutput::ProveExistsRuleTrace(used)),
                    None => return Err(Error::EngineError("not equal".to_string())),
                }
            }
            _ => {}
        }
    }
    Ok(outputs)
}

fn equal_terms(
    seed: &Term,
    rules: &[(String, Term, Term, String)],
    runs: &[(String, usize)],
) -> Vec<(Term, Vec<String>)> {
    let mut known = vec![(seed.clone(), Vec::new())];
    for (ruleset, iterations) in runs {
        for _ in 0..*iterations {
            for (term, used) in known.clone() {
                for (name, left, right, text) in rules {
                    if name == ruleset {
                        for changed in rewrites(&term, left, right) {
                            if known.iter().all(|entry| entry.0 != changed) {
                                let mut longer: Vec<String> = used.clone();
                                longer.push(text.clone());
                                known.push((changed, longer));
                            }
                        }
                    }
                }
            }
        }
    }
    known
}

fn config(with_proofs: bool) -> RewriteTraceConfig {
    RewriteTraceConfig {
        round_iters: 1,
        max_rounds: 2,
        ruleset: Some("opt".to_string()),
        with_proofs,
        strict_mode: false,
        seminaive: true,
        report_level: ReportLevel::TimeOnly,
        fact_directory: None,
        term_encoding: false,
    }
}

fn trace(program: &str, config: &RewriteTraceConfig) -> Result<RewriteTraceReport, Error> {
    run_rewrite_trace(None, program, config, parse_program, run_engine)
}

const ZERO_PROGRAM: &str = r#"
    (datatype Math
      (Num i64)
      (Add Math Math)
    )
    (ruleset opt)
    (rewrite (Add ?a (Num 0)) ?a :ruleset opt)
    (let $expr (Add (Add (Num 7) (Num 0)) (Num 0)))
"#;

#[test]
fn trace_report_extracts_round_snapshots() {
    let program = r#"
        (datatype Math
          (Num i64)
          (Add Math Math)
        )
        (ruleset opt)
        (rewrite (Add ?a (Num 0)) ?a :ruleset opt)
        (let $expr (Add (Num 7) (Num 0)))
    "#;

    let report = run_rewrite_trace(None, program, &config(false), parse_program, run_engine).unwrap();
    assert_eq!(report.initial_cost, 5);
    assert_eq!(report.rounds.len(), 2);
    assert_eq!(report.rounds[0].cost_delta, 3);
    assert_eq!(
        report.rounds[0].compressed_rule_chain_text,
        ""
    );
}

#[test]
fn trace_report_can_request_cumulative_proofs() {
    let program = r#"
        (datatype Math
          (Num i64)
          (Add Math Math)
        )
        (ruleset opt)
        (rewrite (Add ?a (Num 0)) ?a :ruleset opt)
        (let $expr (Add (Num 7) (Num 0)))
    "#;

    let report = run_rewrite_trace(None, program, &config(true), parse_program, run_engine).unwrap();
    assert_eq!(report.rounds.len(), 2);
    assert_eq!(report.initial_cost, 5);
    assert_eq!(report.rounds[0].cost_delta, 3);
    assert_eq!(
        report.rounds[0].compressed_rule_chain_text,
        "(rewrite (Add ?a (Num 0)) ?a :ruleset opt)"
    );
}

#[test]
fn rounds_are_numbered_and_deltas_add_up() {
    let mut three = config(true);
    three.max_rounds = 3;
    let report = trace(ZERO_PROGRAM, &three).unwrap();
    assert_eq!(report.initial_cost, 8);
    let indices: Vec<usize> = report.rounds.iter().map(|round| round.round_index).collect();
    assert_eq!(indices, vec![1, 2, 3]);
    let deltas: Vec<i128> = report.rounds.iter().map(|round| round.cost_delta).collect();
    assert_eq!(deltas.iter().sum::<i128>(), 8 - 2);
    assert_eq!(deltas, vec![3, 3, 0]);
    assert_eq!(
        report.rounds[1].compressed_rule_chain_text,
        "(rewrite (Add ?a (Num 0)) ?a :ruleset opt) x2"
    );
}

#[test]
fn without_proofs_there_are_no_chains() {
    let report = trace(ZERO_PROGRAM, &config(false)).unwrap();
    for round in &report.rounds {
        assert_eq!(round.compressed_rule_chain_text, "");
    }
}

#[test]
fn traces_are_repeatable() {
    let one = trace(ZERO_PROGRAM, &config(true)).unwrap();
    let other = trace(ZERO_PROGRAM, &config(true)).unwrap();
    assert_eq!(format!("{one:?}"), format!("{other:?}"));
}

#[test]
fn no_iterations_are_refused() {
    let mut wrong = config(false);
    wrong.round_iters = 0;
    wrong.max_rounds = 0;
    assert_eq!(
        trace(ZERO_PROGRAM, &wrong).unwrap_err(),
        Error::BackendError("rewrite trace requires --rewrite-trace-iters > 0".to_string())
    );
}

#[test]
fn no_rounds_are_refused() {
    let mut wrong = config(false);
    wrong.max_rounds = 0;
    assert_eq!(
        trace("(unreadable", &wrong).unwrap_err(),
        Error::BackendError("rewrite trace requires --rewrite-trace-rounds > 0".to_string())
    );
}

#[test]
fn parse_failures_end_the_trace() {
    assert_eq!(
        trace("(unreadable", &config(false)).unwrap_err(),
        Error::EngineError("unbalanced".to_string())
    );
}

#[test]
fn programs_without_a_seed_are_refused() {
    assert_eq!(
        trace("(ruleset opt)", &config(false)).unwrap_err(),
        Error::BackendError(
            "rewrite trace requires a global `(let $expr ...)` seed expression".to_string()
        )
    );
}

#[test]
fn replies_without_an_extraction_end_the_trace() {
    let outcome = run_rewrite_trace(
        None,
        "(let $expr (Num 1))",
        &config(false),
        parse_program,
        |_request: EngineRequest| Ok(vec![CommandOutput::Other]),
    );
    assert_eq!(
        outcome.unwrap_err(),
        Error::BackendError(
            "rewrite trace expected an extract result but none was produced".to_string()
        )
    );
}

#[test]
fn failed_snapshots_end_the_trace() {
    let outcome = run_rewrite_trace(
        None,
        ZERO_PROGRAM,
        &config(false),
        parse_program,
        |request: EngineRequest| {
            if request.program.contains("(run opt 2)") {
                Err(Error::EngineError("out of memory".to_string()))
            } else {
                run_engine(request)
            }
        },
    );
    assert_eq!(outcome.unwrap_err(), Error::EngineError("out of memory".to_string()));
}

#[test]
fn failed_proofs_leave_an_empty_chain() {
    let report = run_rewrite_trace(
        None,
        ZERO_PROGRAM,
        &config(true),
        parse_program,
        |request: EngineRequest| {
            if request.program.contains("(prove") && request.program.contains("(run opt 1)") {
                Err(Error::EngineError("no proof".to_string()))
            } else {
                run_engine(request)
            }
        },
    )
    .unwrap();
    assert_eq!(report.rounds[0].cost_delta, 3);
    assert_eq!(report.rounds[0].compressed_rule_chain_text, "");
    assert_eq!(report.rounds[1].cost_delta, 3);
    assert_eq!(
        report.rounds[1].compressed_rule_chain_text,
        "(rewrite (Add ?a (Num 0)) ?a :ruleset opt) x2"
    );
}

#[test]
fn rising_costs_give_negative_deltas() {
    let report = run_rewrite_trace(
        None,
        "(let $expr (Num 1))",
        &config(false),
        parse_program,
        |request: EngineRequest| {
            let cost = if request.program.contains("(run opt 1)") { u64::MAX } else { 0 };
            Ok(vec![CommandOutput::ExtractBest {
                term: "(Num 1)".to_string(),
                cost,
            }])
        },
    )
    .unwrap();
    assert_eq!(report.initial_cost, 0);
    assert_eq!(report.rounds[0].cost_delta, -(u64::MAX as i128));
    assert_eq!(report.rounds[1].cost_delta, u64::MAX as i128);
}

fn requests_of(
    filename: Option<String>,
    program: &str,
    config: &RewriteTraceConfig,
) -> Vec<EngineRequest> {
    let log = RefCell::new(Vec::new());
    run_rewrite_trace(filename, program, config, parse_program, |request: EngineRequest| {
        log.borrow_mut().push(request.clone());
        run_engine(request)
    })
    .unwrap();
    log.into_inner()
}

#[test]
fn engine_runs_each_program_from_the_start() {
    let mut wanted = config(true);
    wanted.round_iters = 5;
    let program = "(ruleset opt) (rewrite (Add ?a (Num 0)) ?a :ruleset opt) \
        (let $expr (Add (Num 7) (Num 0))) (run opt 3) (extract $expr)";
    let base = "(ruleset opt)\n(rewrite (Add ?a (Num 0)) ?a :ruleset opt)\n\
        (let $expr (Add (Num 7) (Num 0)))";
    let requests = requests_of(Some("dir/main.egg".to_string()), program, &wanted);
    let programs: Vec<String> = requests.iter().map(|request| request.program.clone()).collect();
    assert_eq!(
        programs,
        vec![
            format!("{base}\n(extract $expr)\n"),
            format!("{base}\n(run opt 5)\n(extract $expr)\n"),
            format!("{base}\n(run opt 5)\n(let $to (Num 7))\n(prove (= $expr $to))\n"),
            format!("{base}\n(run opt 10)\n(extract $expr)\n"),
            format!("{base}\n(run opt 10)\n(let $to (Num 7))\n(prove (= $expr $to))\n"),
        ]
    );
    for request in &requests {
        assert_eq!(request.filename, Some("dir/main.egg".to_string()));
        assert!(request.settings.proofs);
        assert!(request.settings.proof_rule_trace_only);
    }
}

#[test]
fn traces_without_proofs_run_one_program_a_round() {
    let requests = requests_of(None, ZERO_PROGRAM, &config(false));
    assert_eq!(requests.len(), 3);
    for request in &requests {
        assert!(!request.settings.proofs);
        assert_eq!(request.filename, None);
    }
}

#[test]
fn undeclared_ruleset_is_declared_in_front() {
    let requests = requests_of(None, "(let $expr (Num 1))", &config(false));
    assert_eq!(
        requests[1].program,
        "(ruleset opt)\n(let $expr (Num 1))\n(run opt 1)\n(extract $expr)\n"
    );
}

#[test]
fn first_run_of_the_program_gives_the_ruleset() {
    let mut open = config(false);
    open.ruleset = None;
    let requests = requests_of(None, "(ruleset r) (let $expr (Num 1)) (run r 3) (run 4)", &open);
    assert_eq!(
        requests[2].program,
        "(ruleset r)\n(let $expr (Num 1))\n(run r 2)\n(extract $expr)\n"
    );
}

#[test]
fn empty_ruleset_runs_the_default_rules() {
    let mut open = config(false);
    open.ruleset = None;
    let requests = requests_of(None, "(let $expr (Num 1))", &open);
    assert_eq!(requests[1].program, "(let $expr (Num 1))\n(run 1)\n(extract $expr)\n");
    open.ruleset = Some(String::new());
    let requests = requests_of(None, "(let $expr (Num 1)) (run r 3)", &open);
    assert_eq!(requests[1].program, "(let $expr (Num 1))\n(run 1)\n(extract $expr)\n");
}

#[test]
fn session_takes_replies_one_by_one() {
    let commands = parse_program(None, "(ruleset opt) (let $expr (Num 1))").unwrap();
    let wanted = config(true);
    assert!(check_config(&wanted).is_ok());
    let extraction = |term: &str, cost: u64| {
        Ok(vec![CommandOutput::ExtractBest {
            term: term.to_string(),
            cost,
        }])
    };
    let session = TraceSession::start(None, &commands, &wanted).unwrap();
    assert_eq!(
        session.next_run().unwrap().program,
        "(ruleset opt)\n(let $expr (Num 1))\n(extract $expr)\n"
    );
    let session = session.accept(extraction("(Num 1)", 9)).unwrap();
    assert!(!session.next_run().unwrap().force_proofs);
    let session = session.accept(extraction("(Num 2)", 4)).unwrap();
    let planned = session.next_run().unwrap();
    assert!(planned.force_proofs);
    assert_eq!(
        planned.program,
        "(ruleset opt)\n(let $expr (Num 1))\n(run opt 1)\n(let $to (Num 2))\n(prove (= $expr $to))\n"
    );
    let rules = vec!["a".to_string(), "b".to_string(), "a".to_string(), "b".to_string()];
    let session = session
        .accept(Ok(vec![CommandOutput::ProveExists { rule_trace: rules }]))
        .unwrap();
    let session = session.accept(extraction("(Num 2)", 4)).unwrap();
    let session = session.accept(Err(Error::EngineError("late".to_string()))).unwrap();
    assert!(session.next_run().is_none());
    let report = session.into_report();
    assert_eq!(report.initial_cost, 9);
    assert_eq!(report.rounds.len(), 2);
    assert_eq!(report.rounds[0].cost_delta, 5);
    assert_eq!(report.rounds[0].compressed_rule_chain_text, "(a -> b) x2");
    assert_eq!(report.rounds[1].cost_delta, 0);
    assert_eq!(report.rounds[1].compressed_rule_chain_text, "");
}

#[test]
fn session_knows_which_rounds_can_be_counted() {
    let commands = parse_program(None, "(let $expr (Num 1))").unwrap();
    let mut huge = config(false);
    huge.round_iters = usize::MAX;
    let extraction = || {
        Ok(vec![CommandOutput::ExtractBest {
            term: "(Num 1)".to_string(),
            cost: 2,
        }])
    };
    let session = TraceSession::start(None, &commands, &huge).unwrap();
    assert!(session.can_run());
    let session = session.accept(extraction()).unwrap();
    assert!(session.can_run());
    assert_eq!(
        session.next_run().unwrap().program,
        format!("(ruleset opt)\n(let $expr (Num 1))\n(run opt {})\n(extract $expr)\n", usize::MAX)
    );
    let session = session.accept(extraction()).unwrap();
    assert!(!session.can_run());
}

#[test]
fn checked_traces_stop_before_an_uncountable_round() {
    let mut huge = config(false);
    huge.round_iters = usize::MAX;
    let log = RefCell::new(Vec::new());
    let outcome = run_rewrite_trace_checked(
        None,
        "(let $expr (Num 1))",
        &huge,
        parse_program,
        |request: EngineRequest| {
            log.borrow_mut().push(request.program);
            Ok(vec![CommandOutput::ExtractBest {
                term: "(Num 1)".to_string(),
                cost: 2,
            }])
        },
    );
    assert!(outcome.is_none());
    assert_eq!(log.into_inner().len(), 2);
}

#[test]
fn checked_traces_report_errors_that_come_first() {
    let mut huge = config(false);
    huge.round_iters = usize::MAX;
    let checked = |program: &str, config: &RewriteTraceConfig| {
        run_rewrite_trace_checked(None, program, config, parse_program, run_engine)
    };
    assert_eq!(
        checked("(ruleset opt)", &huge).unwrap().unwrap_err(),
        Error::BackendError(
            "rewrite trace requires a global `(let $expr ...)` seed expression".to_string()
        )
    );
    huge.max_rounds = 0;
    assert_eq!(
        checked(ZERO_PROGRAM, &huge).unwrap().unwrap_err(),
        Error::BackendError("rewrite trace requires --rewrite-trace-rounds > 0".to_string())
    );
    let plain = trace(ZERO_PROGRAM, &config(true)).unwrap();
    let same = checked(ZERO_PROGRAM, &config(true)).unwrap().unwrap();
    assert_eq!(format!("{plain:?}"), format!("{same:?}"));
}

#[test]
fn shorter_traces_are_prefixes_of_longer_ones() {
    let mut long = config(true);
    long.max_rounds = 4;
    let whole = trace(ZERO_PROGRAM, &long).unwrap();
    for fewer in 1..4 {
        let mut short = long.clone();
        short.max_rounds = fewer;
        let part = trace(ZERO_PROGRAM, &short).unwrap();
        assert_eq!(part.initial_cost, whole.initial_cost);
        assert_eq!(format!("{:?}", part.rounds), format!("{:?}", &whole.rounds[..fewer]));
    }
}

#[test]
fn absent_ruleset_traces_as_the_default_spelled_out() {
    let program = format!("{ZERO_PROGRAM} (run opt 3)");
    let mut open = config(true);
    open.ruleset = None;
    let absent = trace(&program, &open).unwrap();
    open.ruleset = Some("opt".to_string());
    let spelled = trace(&program, &open).unwrap();
    assert_eq!(format!("{absent:?}"), format!("{spelled:?}"));
}
