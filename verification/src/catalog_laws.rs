//! What holds of every catalog of motifs.

use vstd::prelude::*;

use crate::catalog::{MotifSummary, RepeatedMotifSummary, RoundChain, RoundMotifInput};
use crate::chain::ChainItem;

verus! {

proof fn lemma_same_entries_same_catalog(a: Seq<MotifSummary>, b: Seq<MotifSummary>)
    requires
        crate::catalog::in_order(a),
        crate::catalog::in_order(b),
        forall|s: MotifSummary| #[trigger] a.contains(s) <==> b.contains(s),
    ensures
        a == b,
    decreases a.len(),
{
    if a.len() == 0 {
        if b.len() > 0 {
            assert(b.contains(b[0]));
            assert(a.contains(b[0]));
        }
        assert(a =~= b);
    } else {
        let end_a = a.last();
        let end_b = b.last();
        assert(a.contains(end_a));
        assert(b.contains(end_a));
        assert(b.len() > 0);
        assert(b.contains(end_b));
        assert(a.contains(end_b));
        let i = choose|i: int| 0 <= i < a.len() && a[i] == end_b;
        let j = choose|j: int| 0 <= j < b.len() && b[j] == end_a;
        if end_a != end_b {
            assert(crate::catalog::precedes(a[i], a[a.len() - 1]));
            assert(crate::catalog::precedes(b[j], b[b.len() - 1]));
            crate::catalog::lemma_precedes_transitive(end_a, end_b, end_a);
            crate::catalog::lemma_precedes_irreflexive(end_a);
        }
        let short_a = a.drop_last();
        let short_b = b.drop_last();
        assert forall|s: MotifSummary| #[trigger] short_a.contains(s) <==> short_b.contains(
            s,
        ) by {
            lemma_last_entry_is_unique(a, s);
            lemma_last_entry_is_unique(b, s);
            assert(a.contains(s) <==> b.contains(s));
        }
        lemma_same_entries_same_catalog(short_a, short_b);
        assert(a =~= short_a.push(end_a));
        assert(b =~= short_b.push(end_b));
    }
}

proof fn lemma_last_entry_is_unique(a: Seq<MotifSummary>, s: MotifSummary)
    requires
        a.len() > 0,
        crate::catalog::in_order(a),
    ensures
        a.drop_last().contains(s) <==> a.contains(s) && s != a.last(),
{
    let shorter = a.drop_last();
    if shorter.contains(s) {
        let k = choose|k: int| 0 <= k < shorter.len() && shorter[k] == s;
        assert(a[k] == s);
        assert(crate::catalog::precedes(a[k], a[a.len() - 1]));
        crate::catalog::lemma_precedes_irreflexive(s);
    }
    if a.contains(s) && s != a.last() {
        let k = choose|k: int| 0 <= k < a.len() && a[k] == s;
        assert(shorter[k] == s);
    }
}

proof fn lemma_catalog_entry_in_other(
    rounds: Seq<RoundChain>,
    a: Seq<MotifSummary>,
    b: Seq<MotifSummary>,
    s: MotifSummary,
)
    requires
        crate::catalog::is_catalog(rounds, a),
        crate::catalog::is_catalog(rounds, b),
        a.contains(s),
    ensures
        b.contains(s),
{
    let k = choose|k: int| 0 <= k < a.len() && a[k] == s;
    assert(crate::catalog::counts_match(rounds, a[k]));
    assert(crate::catalog::lists(a, s.rules));
    assert(crate::catalog::lists(b, s.rules));
    let m = choose|m: int| 0 <= m < b.len() && (#[trigger] b[m]).rules == s.rules;
    assert(crate::catalog::counts_match(rounds, b[m]));
    assert(b[m] == s);
}

/// The rounds determine their catalog: there is only one.
pub proof fn law_catalog_is_unique(
    rounds: Seq<RoundChain>,
    a: Seq<MotifSummary>,
    b: Seq<MotifSummary>,
)
    requires
        crate::catalog::is_catalog(rounds, a),
        crate::catalog::is_catalog(rounds, b),
    ensures
        a == b,
{
    assert forall|s: MotifSummary| #[trigger] a.contains(s) <==> b.contains(s) by {
        if a.contains(s) {
            lemma_catalog_entry_in_other(rounds, a, b, s);
        }
        if b.contains(s) {
            lemma_catalog_entry_in_other(rounds, b, a, s);
        }
    }
    lemma_same_entries_same_catalog(a, b);
}

/// No motif has two entries.
pub proof fn law_catalog_lists_each_motif_once(
    rounds: Seq<RoundChain>,
    summaries: Seq<MotifSummary>,
    i: int,
    j: int,
)
    requires
        crate::catalog::is_catalog(rounds, summaries),
        0 <= i < summaries.len(),
        0 <= j < summaries.len(),
        summaries[i].rules == summaries[j].rules,
    ensures
        i == j,
{
    assert(crate::catalog::counts_match(rounds, summaries[i]));
    assert(crate::catalog::counts_match(rounds, summaries[j]));
    crate::catalog::lemma_precedes_irreflexive(summaries[i]);
    if i < j {
        assert(crate::catalog::precedes(summaries[i], summaries[j]));
    } else if j < i {
        assert(crate::catalog::precedes(summaries[j], summaries[i]));
    }
}

proof fn lemma_support_bounds(rounds: Seq<RoundChain>, motif: Seq<Seq<char>>)
    ensures
        crate::catalog::supporting_rounds(rounds, motif).finite(),
        crate::catalog::supporting_rounds(rounds, motif).len() <= rounds.len(),
        crate::catalog::catalogued(rounds, motif) ==> crate::catalog::supporting_rounds(
            rounds,
            motif,
        ).len() >= 1,
    decreases rounds.len(),
{
    if rounds.len() > 0 {
        let fewer = rounds.drop_last();
        lemma_support_bounds(fewer, motif);
        if crate::catalog::catalogued(rounds, motif) && !crate::catalog::chain_holds(
            rounds.last().items,
            motif,
        ) {
            let r = choose|r: int|
                0 <= r < rounds.len() && crate::catalog::chain_holds(
                    (#[trigger] rounds[r]).items,
                    motif,
                );
            assert(crate::catalog::chain_holds(fewer[r].items, motif));
        }
    }
}

/// Every entry of a catalog is for a motif of more than one rule that runs in at
/// least one round and in no more rounds than there are.
pub proof fn law_catalog_support_bounds(
    rounds: Seq<RoundChain>,
    summaries: Seq<MotifSummary>,
    k: int,
)
    requires
        crate::catalog::is_catalog(rounds, summaries),
        0 <= k < summaries.len(),
    ensures
        summaries[k].rules.len() > 1,
        1 <= summaries[k].rounds <= rounds.len(),
{
    assert(crate::catalog::counts_match(rounds, summaries[k]));
    assert(crate::catalog::lists(summaries, summaries[k].rules));
    lemma_support_bounds(rounds, summaries[k].rules);
}

proof fn lemma_counts_of_concatenation(
    a: Seq<RoundChain>,
    b: Seq<RoundChain>,
    motif: Seq<Seq<char>>,
)
    ensures
        crate::catalog::occurrences(a + b, motif) == crate::catalog::occurrences(a, motif)
            + crate::catalog::occurrences(b, motif),
        crate::catalog::supporting_rounds(a + b, motif) == crate::catalog::supporting_rounds(
            a,
            motif,
        ).union(crate::catalog::supporting_rounds(b, motif)),
        crate::catalog::catalogued(a + b, motif) <==> crate::catalog::catalogued(a, motif)
            || crate::catalog::catalogued(b, motif),
    decreases b.len(),
{
    let whole = a + b;
    if b.len() == 0 {
        assert(whole =~= a);
    } else {
        assert(whole.drop_last() =~= a + b.drop_last());
        lemma_counts_of_concatenation(a, b.drop_last(), motif);
    }
    assert(crate::catalog::supporting_rounds(whole, motif)
        =~= crate::catalog::supporting_rounds(a, motif).union(
        crate::catalog::supporting_rounds(b, motif),
    ));
    if crate::catalog::catalogued(a, motif) {
        let r = choose|r: int|
            0 <= r < a.len() && crate::catalog::chain_holds((#[trigger] a[r]).items, motif);
        assert(crate::catalog::chain_holds(whole[r].items, motif));
    }
    if crate::catalog::catalogued(b, motif) {
        let r = choose|r: int|
            0 <= r < b.len() && crate::catalog::chain_holds((#[trigger] b[r]).items, motif);
        assert(crate::catalog::chain_holds(whole[a.len() + r].items, motif));
    }
    if crate::catalog::catalogued(whole, motif) {
        let r = choose|r: int|
            0 <= r < whole.len() && crate::catalog::chain_holds(
                (#[trigger] whole[r]).items,
                motif,
            );
        if r < a.len() {
            assert(crate::catalog::chain_holds(a[r].items, motif));
        } else {
            assert(crate::catalog::chain_holds(b[r - a.len()].items, motif));
        }
    }
}

/// The order of the rounds does not matter: two groups of rounds have the same
/// catalog whichever comes first.
pub proof fn law_catalog_ignores_round_order(
    a: Seq<RoundChain>,
    b: Seq<RoundChain>,
    summaries: Seq<MotifSummary>,
)
    requires
        crate::catalog::is_catalog(a + b, summaries),
    ensures
        crate::catalog::is_catalog(b + a, summaries),
{
    assert forall|motif: Seq<Seq<char>>| #[trigger] crate::catalog::lists(
        summaries,
        motif,
    ) <==> crate::catalog::catalogued(b + a, motif) by {
        lemma_counts_of_concatenation(a, b, motif);
        lemma_counts_of_concatenation(b, a, motif);
    }
    assert forall|k: int| 0 <= k < summaries.len() implies crate::catalog::counts_match(
        b + a,
        #[trigger] summaries[k],
    ) by {
        let motif = summaries[k].rules;
        assert(crate::catalog::counts_match(a + b, summaries[k]));
        lemma_counts_of_concatenation(a, b, motif);
        lemma_counts_of_concatenation(b, a, motif);
        assert(crate::catalog::supporting_rounds(b + a, motif)
            =~= crate::catalog::supporting_rounds(a + b, motif));
    }
}

/// The entries of all rounds, each with the index of its round.
pub open spec fn entries(rounds: Seq<RoundChain>) -> Seq<(usize, ChainItem)>
    decreases rounds.len(),
{
    if rounds.len() == 0 {
        Seq::empty()
    } else {
        entries(rounds.drop_last()) + rounds.last().items.map_values(
            |item: ChainItem| (rounds.last().round_index, item),
        )
    }
}

spec fn entry_occurrences(found: Seq<(usize, ChainItem)>, motif: Seq<Seq<char>>) -> nat
    decreases found.len(),
{
    if found.len() == 0 {
        0
    } else {
        entry_occurrences(found.drop_last(), motif) + if found.last().1.rules == motif {
            found.last().1.repeat
        } else {
            0
        }
    }
}

spec fn entry_supports(found: Seq<(usize, ChainItem)>, r: usize, motif: Seq<Seq<char>>) -> bool {
    exists|e: (usize, ChainItem)| #[trigger] found.contains(e) && e.0 == r && e.1.rules == motif
}

proof fn lemma_entries_of_round_counted(
    before: Seq<(usize, ChainItem)>,
    r: usize,
    items: Seq<ChainItem>,
    motif: Seq<Seq<char>>,
)
    ensures
        entry_occurrences(before + items.map_values(|item: ChainItem| (r, item)), motif)
            == entry_occurrences(before, motif) + crate::catalog::chain_occurrences(items, motif),
    decreases items.len(),
{
    let tagged = items.map_values(|item: ChainItem| (r, item));
    if items.len() == 0 {
        assert(before + tagged =~= before);
    } else {
        let fewer = items.drop_last();
        lemma_entries_of_round_counted(before, r, fewer, motif);
        assert((before + tagged).drop_last() =~= before + fewer.map_values(
            |item: ChainItem| (r, item),
        ));
    }
}

proof fn lemma_entries_counted(rounds: Seq<RoundChain>, motif: Seq<Seq<char>>)
    ensures
        entry_occurrences(entries(rounds), motif) == crate::catalog::occurrences(rounds, motif),
    decreases rounds.len(),
{
    if rounds.len() > 0 {
        lemma_entries_counted(rounds.drop_last(), motif);
        lemma_entries_of_round_counted(
            entries(rounds.drop_last()),
            rounds.last().round_index,
            rounds.last().items,
            motif,
        );
    }
}

proof fn lemma_entries_supported(rounds: Seq<RoundChain>, r: usize, motif: Seq<Seq<char>>)
    ensures
        entry_supports(entries(rounds), r, motif) <==> crate::catalog::supporting_rounds(
            rounds,
            motif,
        ).contains(r),
    decreases rounds.len(),
{
    if rounds.len() > 0 {
        let fewer = entries(rounds.drop_last());
        let items = rounds.last().items;
        let index = rounds.last().round_index;
        let tagged = items.map_values(|item: ChainItem| (index, item));
        let whole = entries(rounds);
        assert(whole =~= fewer + tagged);
        lemma_entries_supported(rounds.drop_last(), r, motif);
        if entry_supports(whole, r, motif) {
            let e = choose|e: (usize, ChainItem)| #[trigger]
                whole.contains(e) && e.0 == r && e.1.rules == motif;
            let k = choose|k: int| 0 <= k < whole.len() && whole[k] == e;
            if k < fewer.len() {
                assert(fewer[k] == e);
                assert(fewer.contains(e));
            } else {
                assert(tagged[k - fewer.len()] == e);
                assert(items[k - fewer.len()].rules == motif);
            }
        }
        if entry_supports(fewer, r, motif) {
            let e = choose|e: (usize, ChainItem)| #[trigger]
                fewer.contains(e) && e.0 == r && e.1.rules == motif;
            let k = choose|k: int| 0 <= k < fewer.len() && fewer[k] == e;
            assert(whole[k] == e);
            assert(whole.contains(e));
        }
        if crate::catalog::chain_holds(items, motif) && index == r {
            let k = choose|k: int| 0 <= k < items.len() && (#[trigger] items[k]).rules == motif;
            assert(tagged[k] == (index, items[k]));
            assert(whole[fewer.len() + k] == (index, items[k]));
            assert(whole.contains((index, items[k])));
        }
    }
}

proof fn lemma_catalogued_by_support(rounds: Seq<RoundChain>, motif: Seq<Seq<char>>)
    ensures
        crate::catalog::catalogued(rounds, motif) <==> motif.len() > 1
            && crate::catalog::supporting_rounds(rounds, motif) != Set::<usize>::empty(),
    decreases rounds.len(),
{
    if rounds.len() > 0 {
        let fewer = rounds.drop_last();
        lemma_catalogued_by_support(fewer, motif);
        assert(rounds =~= fewer + seq![rounds.last()]);
        lemma_counts_of_concatenation(fewer, seq![rounds.last()], motif);
        let support = crate::catalog::supporting_rounds(rounds, motif);
        if crate::catalog::chain_holds(rounds.last().items, motif) {
            assert(support.contains(rounds.last().round_index));
            assert(crate::catalog::chain_holds(rounds[rounds.len() - 1].items, motif));
        } else {
            assert(!crate::catalog::catalogued(seq![rounds.last()], motif));
        }
    }
}

proof fn lemma_count_without_one(found: Seq<(usize, ChainItem)>, i: int, motif: Seq<Seq<char>>)
    requires
        0 <= i < found.len(),
    ensures
        entry_occurrences(found, motif) == entry_occurrences(found.remove(i), motif)
            + if found[i].1.rules == motif {
            found[i].1.repeat
        } else {
            0
        },
    decreases found.len(),
{
    let fewer = found.drop_last();
    if i == found.len() - 1 {
        assert(found.remove(i) =~= fewer);
    } else {
        lemma_count_without_one(fewer, i, motif);
        assert(found.remove(i).drop_last() =~= fewer.remove(i));
        assert(found.remove(i).last() == found.last());
    }
}

proof fn lemma_count_ignores_order(
    one: Seq<(usize, ChainItem)>,
    other: Seq<(usize, ChainItem)>,
    motif: Seq<Seq<char>>,
)
    requires
        one.to_multiset() == other.to_multiset(),
    ensures
        entry_occurrences(one, motif) == entry_occurrences(other, motif),
    decreases one.len(),
{
    one.to_multiset_ensures();
    other.to_multiset_ensures();
    if one.len() > 0 {
        let last = one.len() - 1;
        let e = one[last];
        assert(one.contains(e));
        assert(other.to_multiset().count(e) > 0);
        let i = choose|i: int| 0 <= i < other.len() && other[i] == e;
        assert(one.remove(last).to_multiset() =~= one.to_multiset().remove(e));
        assert(other.remove(i).to_multiset() =~= other.to_multiset().remove(e));
        lemma_count_without_one(one, last, motif);
        lemma_count_without_one(other, i, motif);
        lemma_count_ignores_order(one.remove(last), other.remove(i), motif);
    }
}

proof fn lemma_support_ignores_order(
    a: Seq<RoundChain>,
    b: Seq<RoundChain>,
    motif: Seq<Seq<char>>,
)
    requires
        entries(a).to_multiset() == entries(b).to_multiset(),
    ensures
        crate::catalog::supporting_rounds(a, motif) == crate::catalog::supporting_rounds(b, motif),
{
    assert forall|e: (usize, ChainItem)| #[trigger] entries(a).contains(e) == entries(b).contains(
        e,
    ) by {
        vstd::seq_lib::to_multiset_contains(entries(a), e);
        vstd::seq_lib::to_multiset_contains(entries(b), e);
    }
    assert forall|r: usize| #[trigger] crate::catalog::supporting_rounds(a, motif).contains(r)
        == crate::catalog::supporting_rounds(b, motif).contains(r) by {
        lemma_entries_supported(a, r, motif);
        lemma_entries_supported(b, r, motif);
        if entry_supports(entries(b), r, motif) {
            let e = choose|e: (usize, ChainItem)| #[trigger]
                entries(b).contains(e) && e.0 == r && e.1.rules == motif;
            assert(entries(a).contains(e));
        }
    }
    assert(crate::catalog::supporting_rounds(a, motif) =~= crate::catalog::supporting_rounds(
        b,
        motif,
    ));
}

/// Only the entries and the indices of their rounds matter: rounds that hold the same
/// entries under the same indices, each as often, have the same catalog, however the
/// rounds and the entries in them are ordered or grouped.
pub proof fn law_catalog_depends_on_entries_only(
    a: Seq<RoundChain>,
    b: Seq<RoundChain>,
    summaries: Seq<MotifSummary>,
)
    requires
        entries(a).to_multiset() == entries(b).to_multiset(),
    ensures
        crate::catalog::is_catalog(a, summaries) <==> crate::catalog::is_catalog(b, summaries),
{
    assert forall|motif: Seq<Seq<char>>| #[trigger] crate::catalog::catalogued(
        a,
        motif,
    ) <==> crate::catalog::catalogued(b, motif) by {
        lemma_support_ignores_order(a, b, motif);
        lemma_catalogued_by_support(a, motif);
        lemma_catalogued_by_support(b, motif);
    }
    assert forall|summary: MotifSummary| #[trigger] crate::catalog::counts_match(
        a,
        summary,
    ) <==> crate::catalog::counts_match(b, summary) by {
        lemma_support_ignores_order(a, b, summary.rules);
        lemma_entries_counted(a, summary.rules);
        lemma_entries_counted(b, summary.rules);
        lemma_count_ignores_order(entries(a), entries(b), summary.rules);
    }
    if crate::catalog::is_catalog(a, summaries) {
        assert forall|motif: Seq<Seq<char>>| #[trigger] crate::catalog::lists(summaries, motif)
            == crate::catalog::catalogued(b, motif) by {
            assert(crate::catalog::catalogued(a, motif) == crate::catalog::catalogued(b, motif));
        }
    }
}

/// Without rounds there is no entry.
pub proof fn law_catalog_of_nothing_is_empty(summaries: Seq<MotifSummary>)
    requires
        crate::catalog::is_catalog(Seq::empty(), summaries),
    ensures
        summaries.len() == 0,
{
    if summaries.len() > 0 {
        assert(crate::catalog::lists(summaries, summaries[0].rules));
        assert(crate::catalog::catalogued(Seq::empty(), summaries[0].rules));
    }
}

/// The catalog lists exactly the motifs of more than one rule that some round holds.
pub proof fn law_catalog_lists_what_rounds_hold(
    rounds: Seq<RoundChain>,
    summaries: Seq<MotifSummary>,
    motif: Seq<Seq<char>>,
)
    requires
        crate::catalog::is_catalog(rounds, summaries),
    ensures
        (exists|i: int| 0 <= i < summaries.len() && (#[trigger] summaries[i]).rules == motif)
            <==> motif.len() > 1 && exists|r: int, k: int|
            0 <= r < rounds.len() && 0 <= k < rounds[r].items.len() && (
            #[trigger] rounds[r].items[k]).rules == motif,
{
    assert(crate::catalog::lists(summaries, motif) <==> crate::catalog::catalogued(rounds, motif));
    if crate::catalog::catalogued(rounds, motif) {
        let r = choose|r: int|
            0 <= r < rounds.len() && crate::catalog::chain_holds(
                (#[trigger] rounds[r]).items,
                motif,
            );
        let items = rounds[r].items;
        let k = choose|k: int| 0 <= k < items.len() && (#[trigger] items[k]).rules == motif;
        assert(rounds[r].items[k].rules == motif);
    }
    assert forall|r: int, k: int|
        0 <= r < rounds.len() && 0 <= k < rounds[r].items.len() && (
        #[trigger] rounds[r].items[k]).rules == motif && motif.len() > 1
        implies crate::catalog::catalogued(rounds, motif) by {
        assert(crate::catalog::chain_holds(rounds[r].items, motif));
    }
    if exists|i: int| 0 <= i < summaries.len() && (#[trigger] summaries[i]).rules == motif {
        assert(crate::catalog::lists(summaries, motif));
    }
}

/// Of two entries the first is in more rounds; or in as many, and runs more often; or as
/// often, and is longer; or as long, and its rules come first.
pub proof fn law_catalog_order(
    rounds: Seq<RoundChain>,
    summaries: Seq<MotifSummary>,
    i: int,
    j: int,
)
    requires
        crate::catalog::is_catalog(rounds, summaries),
        0 <= i < j < summaries.len(),
    ensures
        ({
            let a = summaries[i];
            let b = summaries[j];
            &&& a.rounds >= b.rounds
            &&& a.rounds == b.rounds ==> a.occurrences >= b.occurrences
            &&& a.rounds == b.rounds && a.occurrences == b.occurrences ==> a.rules.len()
                >= b.rules.len()
            &&& a.rounds == b.rounds && a.occurrences == b.occurrences && a.rules.len()
                == b.rules.len() ==> crate::text::texts_less(a.rules, b.rules)
        }),
{
    assert(crate::catalog::precedes(summaries[i], summaries[j]));
}

/// Whether a catalog says that `motif` runs `occurrences` times, in `rounds` rounds: no
/// times, in no round, if it is not listed.
pub open spec fn says(
    summaries: Seq<MotifSummary>,
    motif: Seq<Seq<char>>,
    occurrences: nat,
    rounds: nat,
) -> bool {
    if exists|i: int| 0 <= i < summaries.len() && (#[trigger] summaries[i]).rules == motif {
        summaries.contains(MotifSummary { rules: motif, occurrences, rounds })
    } else {
        occurrences == 0 && rounds == 0
    }
}

proof fn lemma_one_more_entry(
    rounds: Seq<RoundChain>,
    round_index: usize,
    item: ChainItem,
    motif: Seq<Seq<char>>,
)
    ensures
        ({
            let more = rounds.push(RoundChain { round_index, items: seq![item] });
            &&& crate::catalog::occurrences(more, motif) == crate::catalog::occurrences(
                rounds,
                motif,
            ) + if item.rules == motif {
                item.repeat
            } else {
                0
            }
            &&& crate::catalog::supporting_rounds(more, motif) == if item.rules == motif {
                crate::catalog::supporting_rounds(rounds, motif).insert(round_index)
            } else {
                crate::catalog::supporting_rounds(rounds, motif)
            }
        }),
{
    let items = seq![item];
    let more = rounds.push(RoundChain { round_index, items });
    assert(more.drop_last() =~= rounds);
    assert(items.drop_last() =~= Seq::empty());
    assert(crate::catalog::chain_occurrences(items.drop_last(), motif) == 0);
    assert(crate::catalog::chain_holds(items, motif) <==> item.rules == motif) by {
        if item.rules == motif {
            assert(items[0].rules == motif);
        }
    }
}

proof fn lemma_listed_counts(
    rounds: Seq<RoundChain>,
    summaries: Seq<MotifSummary>,
    motif: Seq<Seq<char>>,
    runs: nat,
    support: nat,
)
    requires
        crate::catalog::is_catalog(rounds, summaries),
        motif.len() > 1,
        says(summaries, motif, runs, support),
    ensures
        runs == crate::catalog::occurrences(rounds, motif),
        support == crate::catalog::supporting_rounds(rounds, motif).len(),
{
    if exists|i: int| 0 <= i < summaries.len() && (#[trigger] summaries[i]).rules == motif {
        let summary = MotifSummary { rules: motif, occurrences: runs, rounds: support };
        let k = choose|k: int| 0 <= k < summaries.len() && summaries[k] == summary;
        assert(crate::catalog::counts_match(rounds, summaries[k]));
    } else {
        assert(!crate::catalog::lists(summaries, motif));
        assert(!crate::catalog::catalogued(rounds, motif));
        lemma_nothing_counted(rounds, motif);
    }
}

proof fn lemma_nothing_counted(rounds: Seq<RoundChain>, motif: Seq<Seq<char>>)
    requires
        motif.len() > 1,
        !crate::catalog::catalogued(rounds, motif),
    ensures
        crate::catalog::occurrences(rounds, motif) == 0,
        crate::catalog::supporting_rounds(rounds, motif).len() == 0,
{
    lemma_catalogued_by_support(rounds, motif);
    lemma_entries_counted(rounds, motif);
    assert forall|e: (usize, ChainItem)| entries(rounds).contains(e) implies e.1.rules
        != motif by {
        if e.1.rules == motif {
            assert(entry_supports(entries(rounds), e.0, motif));
            lemma_entries_supported(rounds, e.0, motif);
        }
    }
    lemma_no_entry_counts(entries(rounds), motif);
}

proof fn lemma_no_entry_counts(found: Seq<(usize, ChainItem)>, motif: Seq<Seq<char>>)
    requires
        forall|e: (usize, ChainItem)| found.contains(e) ==> e.1.rules != motif,
    ensures
        entry_occurrences(found, motif) == 0,
    decreases found.len(),
{
    if found.len() > 0 {
        let fewer = found.drop_last();
        assert(found.contains(found[found.len() - 1]));
        assert forall|e: (usize, ChainItem)| fewer.contains(e) implies e.1.rules != motif by {
            let k = choose|k: int| 0 <= k < fewer.len() && fewer[k] == e;
            assert(found[k] == e);
            assert(found.contains(e));
        }
        lemma_no_entry_counts(fewer, motif);
    }
}

/// One more entry counts for its own motif and for no other. It adds as many runs as it
/// repeats, and one round, unless its motif ran under that round index before.
pub proof fn law_one_more_entry_counts_for_its_motif(
    rounds: Seq<RoundChain>,
    before: Seq<MotifSummary>,
    round_index: usize,
    item: ChainItem,
    after: Seq<MotifSummary>,
    motif: Seq<Seq<char>>,
    runs_before: nat,
    rounds_before: nat,
    runs_after: nat,
    rounds_after: nat,
)
    requires
        crate::catalog::is_catalog(rounds, before),
        crate::catalog::is_catalog(
            rounds.push(RoundChain { round_index, items: seq![item] }),
            after,
        ),
        motif.len() > 1,
        says(before, motif, runs_before, rounds_before),
        says(after, motif, runs_after, rounds_after),
    ensures
        item.rules != motif ==> runs_after == runs_before && rounds_after == rounds_before,
        item.rules == motif ==> runs_after == runs_before + item.repeat,
        item.rules == motif && (exists|r: int, k: int|
            0 <= r < rounds.len() && rounds[r].round_index == round_index && 0 <= k
                < rounds[r].items.len() && (#[trigger] rounds[r].items[k]).rules == motif)
            ==> rounds_after == rounds_before,
        item.rules == motif && !(exists|r: int, k: int|
            0 <= r < rounds.len() && rounds[r].round_index == round_index && 0 <= k
                < rounds[r].items.len() && (#[trigger] rounds[r].items[k]).rules == motif)
            ==> rounds_after == rounds_before + 1,
{
    let more = rounds.push(RoundChain { round_index, items: seq![item] });
    lemma_listed_counts(rounds, before, motif, runs_before, rounds_before);
    lemma_listed_counts(more, after, motif, runs_after, rounds_after);
    lemma_one_more_entry(rounds, round_index, item, motif);
    lemma_support_bounds(rounds, motif);
    lemma_support_contains(rounds, motif, round_index);
}

proof fn lemma_support_contains(rounds: Seq<RoundChain>, motif: Seq<Seq<char>>, index: usize)
    ensures
        crate::catalog::supporting_rounds(rounds, motif).contains(index) <==> exists|
            r: int,
            k: int,
        |
            0 <= r < rounds.len() && rounds[r].round_index == index && 0 <= k
                < rounds[r].items.len() && (#[trigger] rounds[r].items[k]).rules == motif,
    decreases rounds.len(),
{
    if rounds.len() > 0 {
        let fewer = rounds.drop_last();
        let last = rounds.len() - 1;
        lemma_support_contains(fewer, motif, index);
        if crate::catalog::supporting_rounds(rounds, motif).contains(index) {
            if crate::catalog::supporting_rounds(fewer, motif).contains(index) {
                let (r, k) = choose|r: int, k: int|
                    0 <= r < fewer.len() && fewer[r].round_index == index && 0 <= k
                        < fewer[r].items.len() && (#[trigger] fewer[r].items[k]).rules == motif;
                assert(rounds[r].items[k].rules == motif);
            } else {
                let items = rounds[last].items;
                let k = choose|k: int| 0 <= k < items.len() && (#[trigger] items[k]).rules == motif;
                assert(rounds[last].items[k].rules == motif);
            }
        }
        assert forall|r: int, k: int|
            0 <= r < rounds.len() && rounds[r].round_index == index && 0 <= k
                < rounds[r].items.len() && (#[trigger] rounds[r].items[k]).rules == motif
            implies crate::catalog::supporting_rounds(rounds, motif).contains(index) by {
            if r < last {
                assert(fewer[r].items[k].rules == motif);
            } else {
                assert(crate::catalog::chain_holds(rounds[last].items, motif));
            }
        }
    }
}

/// A round and an entry of the catalog are read by their fields.
pub proof fn law_catalog_is_read_by_its_fields(
    round: RoundMotifInput,
    summary: RepeatedMotifSummary,
)
    ensures
        round.deep_view().round_index == round.round_index,
        round.deep_view().items.len() == round.compressed_rule_chain@.len(),
        forall|k: int|
            0 <= k < round.compressed_rule_chain@.len() ==> #[trigger] round.deep_view().items[k]
                == round.compressed_rule_chain@[k].deep_view(),
        summary.deep_view().rules.len() == summary.rules@.len(),
        forall|m: int|
            0 <= m < summary.rules@.len() ==> #[trigger] summary.deep_view().rules[m]
                == summary.rules@[m]@,
        summary.deep_view().occurrences == summary.occurrences,
        summary.deep_view().rounds == summary.rounds,
{
}

} // verus!
