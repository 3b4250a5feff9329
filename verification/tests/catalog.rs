use rewrite_trace::{
    build_repeated_motif_catalog, CompressedChainItem, RepeatedMotifSummary, RoundMotifInput,
};

fn item(rules: &[&str], repeat: usize) -> CompressedChainItem {
    CompressedChainItem {
        kind: if rules.len() == 1 { "rule" } else { "motif" }.to_string(),
        rules: rules.iter().map(|rule| rule.to_string()).collect(),
        repeat,
    }
}

fn round(round_index: usize, chain: Vec<CompressedChainItem>) -> RoundMotifInput {
    RoundMotifInput {
        round_index,
        compressed_rule_chain: chain,
    }
}

fn summary(rules: &[&str], occurrences: usize, rounds: usize) -> RepeatedMotifSummary {
    RepeatedMotifSummary {
        rules: rules.iter().map(|rule| rule.to_string()).collect(),
        occurrences,
        rounds,
    }
}

#[test]
fn repeated_motif_catalog_tracks_cross_round_support() {
    let rounds = vec![
        RoundMotifInput {
            round_index: 1,
            compressed_rule_chain: vec![
                CompressedChainItem {
                    kind: "motif".to_string(),
                    rules: vec!["B".to_string(), "C".to_string()],
                    repeat: 1,
                },
                CompressedChainItem {
                    kind: "rule".to_string(),
                    rules: vec!["D".to_string()],
                    repeat: 2,
                },
            ],
        },
        RoundMotifInput {
            round_index: 2,
            compressed_rule_chain: vec![CompressedChainItem {
                kind: "motif".to_string(),
                rules: vec!["B".to_string(), "C".to_string()],
                repeat: 2,
            }],
        },
    ];

    assert_eq!(
        build_repeated_motif_catalog(&rounds),
        vec![RepeatedMotifSummary {
            rules: vec!["B".to_string(), "C".to_string()],
            occurrences: 3,
            rounds: 2,
        }]
    );
}

#[test]
fn no_rounds_give_an_empty_catalog() {
    assert_eq!(build_repeated_motif_catalog(&[]), vec![]);
    assert_eq!(build_repeated_motif_catalog(&[round(1, vec![item(&["A"], 9)])]), vec![]);
}

#[test]
fn catalog_orders_by_rounds_then_occurrences_then_length_then_rules() {
    let rounds = vec![
        round(
            1,
            vec![
                item(&["b", "a"], 2),
                item(&["a", "b"], 2),
                item(&["x", "y", "z"], 2),
                item(&["often", "here"], 9),
                item(&["wide", "spread"], 1),
            ],
        ),
        round(2, vec![item(&["wide", "spread"], 1)]),
    ];
    assert_eq!(
        build_repeated_motif_catalog(&rounds),
        vec![
            summary(&["wide", "spread"], 2, 2),
            summary(&["often", "here"], 9, 1),
            summary(&["x", "y", "z"], 2, 1),
            summary(&["a", "b"], 2, 1),
            summary(&["b", "a"], 2, 1),
        ]
    );
}

#[test]
fn rules_are_ordered_by_code_point_and_prefix() {
    let rounds = vec![round(
        1,
        vec![
            item(&["é", "a"], 1),
            item(&["zz", "a"], 1),
            item(&["z", "b"], 1),
            item(&["z", "a"], 1),
            item(&["Z", "a"], 1),
            item(&["", "a"], 1),
        ],
    )];
    let order: Vec<String> = build_repeated_motif_catalog(&rounds)
        .into_iter()
        .map(|entry| entry.rules.join(","))
        .collect();
    assert_eq!(order, vec![",a", "Z,a", "z,a", "z,b", "zz,a", "é,a"]);
}

#[test]
fn rounds_with_the_same_index_count_once() {
    let rounds = vec![
        round(7, vec![item(&["A", "B"], 2), item(&["A", "B"], 3)]),
        round(7, vec![item(&["A", "B"], 4)]),
        round(8, vec![item(&["A", "B"], 1)]),
    ];
    assert_eq!(
        build_repeated_motif_catalog(&rounds),
        vec![summary(&["A", "B"], 10, 2)]
    );
}

#[test]
fn catalog_does_not_depend_on_the_order_of_rounds() {
    let first = round(1, vec![item(&["A", "B"], 2), item(&["C", "D"], 1)]);
    let second = round(2, vec![item(&["C", "D"], 5)]);
    let forward = build_repeated_motif_catalog(&[first.clone(), second.clone()]);
    let backward = build_repeated_motif_catalog(&[second, first]);
    assert_eq!(forward, backward);
    assert_eq!(forward, vec![summary(&["C", "D"], 6, 2), summary(&["A", "B"], 2, 1)]);
}

#[test]
fn kind_and_zero_repeats_do_not_matter() {
    let mut odd = item(&["A", "B"], 0);
    odd.kind = "rule".to_string();
    assert_eq!(
        build_repeated_motif_catalog(&[round(3, vec![odd])]),
        vec![summary(&["A", "B"], 0, 1)]
    );
}

#[test]
fn catalog_does_not_depend_on_how_entries_are_ordered_or_grouped() {
    let expected = vec![summary(&["A", "B"], 6, 2), summary(&["C", "D"], 2, 1)];
    let grouped = [
        round(1, vec![item(&["A", "B"], 2), item(&["C", "D"], 2), item(&["A", "B"], 3)]),
        round(2, vec![item(&["A", "B"], 1)]),
    ];
    let split = [
        round(1, vec![item(&["A", "B"], 3)]),
        round(2, vec![item(&["A", "B"], 1)]),
        round(3, vec![]),
        round(1, vec![item(&["C", "D"], 2), item(&["A", "B"], 2)]),
    ];
    assert_eq!(build_repeated_motif_catalog(&grouped), expected);
    assert_eq!(build_repeated_motif_catalog(&split), expected);
}
