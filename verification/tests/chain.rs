use rewrite_trace::{compress_rule_trace, format_compressed_rule_chain, CompressedChainItem};

fn strings(rules: &[&str]) -> Vec<String> {
    rules.iter().map(|rule| rule.to_string()).collect()
}

fn rule(name: &str, repeat: usize) -> CompressedChainItem {
    CompressedChainItem {
        kind: "rule".to_string(),
        rules: vec![name.to_string()],
        repeat,
    }
}

fn motif(rules: &[&str], repeat: usize) -> CompressedChainItem {
    CompressedChainItem {
        kind: "motif".to_string(),
        rules: strings(rules),
        repeat,
    }
}

fn written_out(items: &[CompressedChainItem]) -> Vec<String> {
    let mut trace = Vec::new();
    for item in items {
        for _ in 0..item.repeat {
            trace.extend(item.rules.iter().cloned());
        }
    }
    trace
}

#[test]
fn compress_rule_trace_collapses_repeated_rules_and_motifs() {
    let trace = vec![
        "A".to_string(),
        "A".to_string(),
        "B".to_string(),
        "C".to_string(),
        "B".to_string(),
        "C".to_string(),
        "D".to_string(),
    ];
    let compressed = compress_rule_trace(&trace, 4);
    assert_eq!(
        compressed,
        vec![
            CompressedChainItem {
                kind: "rule".to_string(),
                rules: vec!["A".to_string()],
                repeat: 2,
            },
            CompressedChainItem {
                kind: "motif".to_string(),
                rules: vec!["B".to_string(), "C".to_string()],
                repeat: 2,
            },
            CompressedChainItem {
                kind: "rule".to_string(),
                rules: vec!["D".to_string()],
                repeat: 1,
            },
        ]
    );
    assert_eq!(format_compressed_rule_chain(&compressed), "A x2 -> (B -> C) x2 -> D");
}

#[test]
fn compress_rule_trace_prefers_single_rule_runs_over_degenerate_motifs() {
    let trace = vec![
        "swap".to_string(),
        "swap".to_string(),
        "swap".to_string(),
        "swap".to_string(),
    ];
    assert_eq!(
        compress_rule_trace(&trace, 4),
        vec![CompressedChainItem {
            kind: "rule".to_string(),
            rules: vec!["swap".to_string()],
            repeat: 4,
        }]
    );
}

#[test]
fn empty_trace_gives_an_empty_chain() {
    let compressed = compress_rule_trace(&[], 4);
    assert_eq!(compressed, vec![]);
    assert_eq!(format_compressed_rule_chain(&compressed), "");
}

#[test]
fn longest_window_wins() {
    let trace = strings(&["A", "B", "A", "B", "A", "B", "A", "B"]);
    assert_eq!(compress_rule_trace(&trace, 4), vec![motif(&["A", "B", "A", "B"], 2)]);
    assert_eq!(compress_rule_trace(&trace, 3), vec![motif(&["A", "B"], 4)]);
    assert_eq!(compress_rule_trace(&trace, usize::MAX), vec![motif(&["A", "B", "A", "B"], 2)]);
}

#[test]
fn narrow_windows_find_runs_only() {
    let trace = strings(&["A", "B", "A", "B", "B"]);
    let expected = vec![rule("A", 1), rule("B", 1), rule("A", 1), rule("B", 2)];
    assert_eq!(compress_rule_trace(&trace, 0), expected);
    assert_eq!(compress_rule_trace(&trace, 1), expected);
}

#[test]
fn motif_must_follow_at_once() {
    let trace = strings(&["A", "B", "C", "A", "B"]);
    assert_eq!(
        compress_rule_trace(&trace, 2),
        vec![rule("A", 1), rule("B", 1), rule("C", 1), rule("A", 1), rule("B", 1)]
    );
}

#[test]
fn run_takes_a_rule_from_a_following_motif() {
    let trace = strings(&["A", "A", "B", "A", "B", "A", "B"]);
    assert_eq!(
        compress_rule_trace(&trace, 4),
        vec![rule("A", 2), motif(&["B", "A"], 2), rule("B", 1)]
    );
}

#[test]
fn chains_write_out_to_their_traces() {
    let traces = [
        strings(&[]),
        strings(&["A"]),
        strings(&["A", "A", "B", "C", "B", "C", "D"]),
        strings(&["A", "B", "A", "B", "A"]),
        strings(&["A", "B", "C", "D", "E", "A", "B", "C", "D", "E"]),
        strings(&["X", "X", "Y", "X", "X", "Y"]),
    ];
    for trace in &traces {
        for window in 0..8 {
            let items = compress_rule_trace(trace, window);
            assert_eq!(&written_out(&items), trace);
            assert!(items.len() <= trace.len());
            for pair in items.windows(2) {
                if pair[0].rules.len() == 1 {
                    assert_ne!(pair[0].rules[0], pair[1].rules[0]);
                }
            }
            for item in &items {
                if item.rules.len() > 1 {
                    assert_eq!(item.kind, "motif");
                    assert!(item.rules.len() <= window);
                    assert!(item.repeat >= 2);
                    assert_ne!(item.rules[0], item.rules[1]);
                } else {
                    assert_eq!(item.kind, "rule");
                    assert_eq!(item.rules.len(), 1);
                    assert!(item.repeat >= 1);
                }
            }
        }
    }
}

#[test]
fn entries_without_repeats_have_no_count() {
    assert_eq!(format_compressed_rule_chain(&[rule("A", 1)]), "A");
    assert_eq!(format_compressed_rule_chain(&[motif(&["A", "B"], 1)]), "(A -> B)");
    assert_eq!(format_compressed_rule_chain(&[motif(&[], 1)]), "()");
    assert_eq!(format_compressed_rule_chain(&[rule("A", 0)]), "A");
}

#[test]
fn counts_are_decimal() {
    assert_eq!(format_compressed_rule_chain(&[rule("A", 10)]), "A x10");
    assert_eq!(format_compressed_rule_chain(&[rule("A", 1203)]), "A x1203");
    assert_eq!(
        format_compressed_rule_chain(&[rule("A", usize::MAX)]),
        format!("A x{}", usize::MAX)
    );
}

#[test]
fn chains_in_a_row_are_joined_by_an_arrow() {
    let left = vec![rule("A", 2), motif(&["B", "C"], 2)];
    let right = vec![rule("D", 1)];
    let mut both = left.clone();
    both.extend(right.iter().cloned());
    assert_eq!(
        format_compressed_rule_chain(&both),
        format!(
            "{} -> {}",
            format_compressed_rule_chain(&left),
            format_compressed_rule_chain(&right)
        )
    );
}

#[test]
fn rest_of_a_chain_is_the_chain_of_the_rest() {
    let trace = strings(&["A", "A", "B", "C", "B", "C", "D", "B", "C"]);
    let items = compress_rule_trace(&trace, 4);
    let mut read = 0;
    for k in 0..items.len() {
        assert_eq!(compress_rule_trace(&trace[read..], 4), items[k..].to_vec());
        read += items[k].rules.len() * items[k].repeat;
    }
    assert_eq!(read, trace.len());
}

#[test]
fn windows_over_half_the_trace_agree() {
    let trace = strings(&["A", "B", "C", "A", "B", "C", "D"]);
    let expected = vec![motif(&["A", "B", "C"], 2), rule("D", 1)];
    for window in 3..9 {
        assert_eq!(compress_rule_trace(&trace, window), expected);
    }
    assert_eq!(compress_rule_trace(&trace, 2).len(), 7);
}
