//! The catalog of repeated motifs: how often each motif runs, and in how many
//! rounds.

use vstd::prelude::*;

use crate::chain::{ChainItem, CompressedChainItem};
use crate::text::{strings_equal, strings_less};

verus! {

/// The compressed chain of one round.
#[derive(Clone, Debug)]
pub struct RoundMotifInput {
    pub round_index: usize,
    pub compressed_rule_chain: Vec<CompressedChainItem>,
}

/// One motif of the catalog: its rules, how often it runs in all, and the number
/// of rounds in which it runs.
#[derive(Clone, Debug, PartialEq, Eq)]
pub struct RepeatedMotifSummary {
    pub rules: Vec<String>,
    pub occurrences: usize,
    pub rounds: usize,
}

/// What a [`RoundMotifInput`] holds.
pub struct RoundChain {
    pub round_index: usize,
    pub items: Seq<ChainItem>,
}

/// What a [`RepeatedMotifSummary`] holds.
pub struct MotifSummary {
    pub rules: Seq<Seq<char>>,
    pub occurrences: nat,
    pub rounds: nat,
}

impl DeepView for RoundMotifInput {
    type V = RoundChain;

    open spec fn deep_view(&self) -> RoundChain {
        RoundChain {
            round_index: self.round_index,
            items: self.compressed_rule_chain.deep_view(),
        }
    }
}

impl DeepView for RepeatedMotifSummary {
    type V = MotifSummary;

    open spec fn deep_view(&self) -> MotifSummary {
        MotifSummary {
            rules: self.rules.deep_view(),
            occurrences: self.occurrences as nat,
            rounds: self.rounds as nat,
        }
    }
}

/// Whether some entry of a chain has the rules `motif`.
pub open spec fn chain_holds(items: Seq<ChainItem>, motif: Seq<Seq<char>>) -> bool {
    exists|k: int| 0 <= k < items.len() && (#[trigger] items[k]).rules == motif
}

/// How often `motif` runs in a chain.
pub open spec fn chain_occurrences(items: Seq<ChainItem>, motif: Seq<Seq<char>>) -> nat
    decreases items.len(),
{
    if items.len() == 0 {
        0
    } else {
        chain_occurrences(items.drop_last(), motif) + if items.last().rules == motif {
            items.last().repeat
        } else {
            0
        }
    }
}

/// How often `motif` runs in all rounds together.
pub open spec fn occurrences(rounds: Seq<RoundChain>, motif: Seq<Seq<char>>) -> nat
    decreases rounds.len(),
{
    if rounds.len() == 0 {
        0
    } else {
        occurrences(rounds.drop_last(), motif) + chain_occurrences(rounds.last().items, motif)
    }
}

/// The indices of the rounds in which `motif` runs.
pub open spec fn supporting_rounds(rounds: Seq<RoundChain>, motif: Seq<Seq<char>>) -> Set<usize>
    decreases rounds.len(),
{
    if rounds.len() == 0 {
        Set::empty()
    } else if chain_holds(rounds.last().items, motif) {
        supporting_rounds(rounds.drop_last(), motif).insert(rounds.last().round_index)
    } else {
        supporting_rounds(rounds.drop_last(), motif)
    }
}

/// Whether the catalog of `rounds` has an entry for `motif`: it is longer than one
/// rule and some round holds it.
pub open spec fn catalogued(rounds: Seq<RoundChain>, motif: Seq<Seq<char>>) -> bool {
    &&& motif.len() > 1
    &&& exists|r: int| 0 <= r < rounds.len() && chain_holds((#[trigger] rounds[r]).items, motif)
}

/// The order of the catalog: more rounds first, then more occurrences, then longer
/// motifs, then by the rules themselves.
pub open spec fn precedes(a: MotifSummary, b: MotifSummary) -> bool {
    if a.rounds != b.rounds {
        a.rounds > b.rounds
    } else if a.occurrences != b.occurrences {
        a.occurrences > b.occurrences
    } else if a.rules.len() != b.rules.len() {
        a.rules.len() > b.rules.len()
    } else {
        crate::text::texts_less(a.rules, b.rules)
    }
}

/// Whether some entry of a catalog is for `motif`.
pub open spec fn lists(summaries: Seq<MotifSummary>, motif: Seq<Seq<char>>) -> bool {
    exists|k: int| 0 <= k < summaries.len() && (#[trigger] summaries[k]).rules == motif
}

/// Whether the entry holds the counts of its motif over `rounds`.
pub open spec fn counts_match(rounds: Seq<RoundChain>, summary: MotifSummary) -> bool {
    &&& summary.occurrences == occurrences(rounds, summary.rules)
    &&& summary.rounds == supporting_rounds(rounds, summary.rules).len()
}

/// Whether `summaries` is in the order of the catalog.
pub open spec fn in_order(summaries: Seq<MotifSummary>) -> bool {
    forall|i: int, j: int|
        0 <= i < j < summaries.len() ==> precedes(#[trigger] summaries[i], #[trigger] summaries[j])
}

/// Whether `summaries` is the catalog of `rounds`: an entry for each motif that
/// some round holds and for nothing else, with its counts, in order.
pub open spec fn is_catalog(rounds: Seq<RoundChain>, summaries: Seq<MotifSummary>) -> bool {
    &&& forall|motif: Seq<Seq<char>>|
        #[trigger] lists(summaries, motif) <==> catalogued(rounds, motif)
    &&& forall|k: int|
        0 <= k < summaries.len() ==> counts_match(rounds, #[trigger] summaries[k])
    &&& in_order(summaries)
}

/// The order of the catalog is strict.
pub proof fn lemma_precedes_irreflexive(a: MotifSummary)
    ensures
        !precedes(a, a),
{
    crate::text::lemma_texts_less_irreflexive(a.rules);
}

/// The order of the catalog is transitive.
pub proof fn lemma_precedes_transitive(a: MotifSummary, b: MotifSummary, c: MotifSummary)
    requires
        precedes(a, b),
        precedes(b, c),
    ensures
        precedes(a, c),
{
    if a.rounds == b.rounds && b.rounds == c.rounds && a.occurrences == b.occurrences
        && b.occurrences == c.occurrences && a.rules.len() == b.rules.len() && b.rules.len()
        == c.rules.len() {
        crate::text::lemma_texts_less_transitive(a.rules, b.rules, c.rules);
    }
}

/// The order of the catalog is total on entries for different motifs.
pub proof fn lemma_precedes_total(a: MotifSummary, b: MotifSummary)
    requires
        a.rules != b.rules,
    ensures
        precedes(a, b) || precedes(b, a),
{
    crate::text::lemma_texts_less_total(a.rules, b.rules);
}

/// The counts of one motif so far: how often it ran, and in which rounds.
struct MotifTally {
    rules: Vec<String>,
    occurrences: usize,
    rounds: Vec<usize>,
}

/// Whether a tally holds the counts of its motif over `rounds`.
spec fn tally_matches(rounds: Seq<RoundChain>, tally: MotifTally) -> bool {
    &&& catalogued(rounds, tally.rules.deep_view())
    &&& tally.occurrences == occurrences(rounds, tally.rules.deep_view())
    &&& tally.rounds@.no_duplicates()
    &&& tally.rounds@.to_set() == supporting_rounds(rounds, tally.rules.deep_view())
}

/// Whether there is a tally for `motif`.
spec fn tallied(tallies: Seq<MotifTally>, motif: Seq<Seq<char>>) -> bool {
    exists|k: int| 0 <= k < tallies.len() && (#[trigger] tallies[k]).rules.deep_view() == motif
}

/// Whether `tallies` holds one tally for each motif of `rounds`, with its counts.
spec fn tallies_match(rounds: Seq<RoundChain>, tallies: Seq<MotifTally>) -> bool {
    &&& forall|k: int| 0 <= k < tallies.len() ==> tally_matches(rounds, #[trigger] tallies[k])
    &&& forall|i: int, j: int|
        0 <= i < j < tallies.len() ==> (#[trigger] tallies[i]).rules.deep_view() != (
        #[trigger] tallies[j]).rules.deep_view()
    &&& forall|motif: Seq<Seq<char>>|
        catalogued(rounds, motif) ==> #[trigger] tallied(tallies, motif)
}

/// What one more entry in the chain of the last round adds for a motif.
proof fn lemma_one_more_item(
    done: Seq<RoundChain>,
    round_index: usize,
    items: Seq<ChainItem>,
    item: ChainItem,
    motif: Seq<Seq<char>>,
)
    ensures
        ({
            let before = done.push(RoundChain { round_index, items });
            let after = done.push(RoundChain { round_index, items: items.push(item) });
            &&& occurrences(after, motif) == occurrences(before, motif) + if item.rules == motif {
                item.repeat
            } else {
                0
            }
            &&& supporting_rounds(after, motif) == if item.rules == motif {
                supporting_rounds(before, motif).insert(round_index)
            } else {
                supporting_rounds(before, motif)
            }
            &&& catalogued(after, motif) <==> catalogued(before, motif) || (motif.len() > 1
                && item.rules == motif)
        }),
{
    let longer = items.push(item);
    let before = done.push(RoundChain { round_index, items });
    let after = done.push(RoundChain { round_index, items: longer });
    assert(before.drop_last() =~= done);
    assert(after.drop_last() =~= done);
    assert(longer.drop_last() =~= items);
    assert(chain_holds(longer, motif) <==> chain_holds(items, motif) || item.rules == motif) by {
        if item.rules == motif {
            assert(longer[items.len() as int].rules == motif);
        }
        if chain_holds(items, motif) {
            let k = choose|k: int| 0 <= k < items.len() && (#[trigger] items[k]).rules == motif;
            assert(longer[k].rules == motif);
        }
    }
    assert(supporting_rounds(after, motif) =~= if item.rules == motif {
        supporting_rounds(before, motif).insert(round_index)
    } else {
        supporting_rounds(before, motif)
    });
    let last = done.len() as int;
    if catalogued(before, motif) {
        let r = choose|r: int|
            0 <= r < before.len() && chain_holds((#[trigger] before[r]).items, motif);
        assert(chain_holds(after[r].items, motif));
    }
    if motif.len() > 1 && item.rules == motif {
        assert(chain_holds(after[last].items, motif));
    }
    if catalogued(after, motif) {
        let r = choose|r: int| 0 <= r < after.len() && chain_holds((#[trigger] after[r]).items, motif);
        if r < last || chain_holds(items, motif) {
            assert(chain_holds(before[r].items, motif));
        }
    }
}

/// An entry leaves the tally of every other motif as it is.
proof fn lemma_other_tally_kept(
    done: Seq<RoundChain>,
    round_index: usize,
    items: Seq<ChainItem>,
    item: ChainItem,
    tally: MotifTally,
)
    requires
        tally_matches(done.push(RoundChain { round_index, items }), tally),
        item.rules != tally.rules.deep_view() || item.rules.len() <= 1,
    ensures
        tally_matches(done.push(RoundChain { round_index, items: items.push(item) }), tally),
{
    lemma_one_more_item(done, round_index, items, item, tally.rules.deep_view());
}

/// A motif that no round holds has no occurrences and no rounds.
proof fn lemma_absent_motif(rounds: Seq<RoundChain>, motif: Seq<Seq<char>>)
    requires
        motif.len() > 1,
        !catalogued(rounds, motif),
    ensures
        occurrences(rounds, motif) == 0,
        supporting_rounds(rounds, motif) == Set::<usize>::empty(),
    decreases rounds.len(),
{
    if rounds.len() > 0 {
        let fewer = rounds.drop_last();
        if catalogued(fewer, motif) {
            let r = choose|r: int|
                0 <= r < fewer.len() && chain_holds((#[trigger] fewer[r]).items, motif);
            assert(chain_holds(rounds[r].items, motif));
        }
        lemma_absent_motif(fewer, motif);
        assert(!chain_holds(rounds[rounds.len() - 1].items, motif));
        lemma_absent_from_chain(rounds.last().items, motif);
    }
}

proof fn lemma_absent_from_chain(items: Seq<ChainItem>, motif: Seq<Seq<char>>)
    requires
        !chain_holds(items, motif),
    ensures
        chain_occurrences(items, motif) == 0,
    decreases items.len(),
{
    if items.len() > 0 {
        let fewer = items.drop_last();
        if chain_holds(fewer, motif) {
            let k = choose|k: int| 0 <= k < fewer.len() && (#[trigger] fewer[k]).rules == motif;
            assert(items[k].rules == motif);
        }
        assert(items[items.len() - 1].rules != motif);
        lemma_absent_from_chain(fewer, motif);
    }
}

/// Whether `rounds` holds `round_index`.
fn has_round(rounds: &Vec<usize>, round_index: usize) -> (found: bool)
    ensures
        found == rounds@.contains(round_index),
{
    let mut k: usize = 0;
    while k < rounds.len()
        invariant
            k <= rounds.len(),
            forall|m: int| 0 <= m < k ==> rounds@[m] != round_index,
        decreases rounds.len() - k,
    {
        if rounds[k] == round_index {
            return true;
        }
        k = k + 1;
    }
    false
}

/// The place of the tally for the motif `rules`, if there is one.
fn find_tally(tallies: &Vec<MotifTally>, rules: &[String]) -> (place: Option<usize>)
    ensures
        match place {
            Some(k) => k < tallies.len() && tallies@[k as int].rules.deep_view()
                == rules.deep_view(),
            None => !tallied(tallies@, rules.deep_view()),
        },
{
    let mut k: usize = 0;
    while k < tallies.len()
        invariant
            k <= tallies.len(),
            forall|m: int|
                0 <= m < k ==> (#[trigger] tallies@[m]).rules.deep_view() != rules.deep_view(),
        decreases tallies.len() - k,
    {
        let candidate = tallies[k].rules.as_slice();
        proof {
            assert(candidate.deep_view() =~= tallies@[k as int].rules.deep_view());
        }
        if strings_equal(candidate, rules) {
            return Some(k);
        }
        k = k + 1;
    }
    None
}

/// Adds an entry of the chain of round `round_index` to the tallies.
fn tally_item(
    tallies: &mut Vec<MotifTally>,
    round_index: usize,
    item: &CompressedChainItem,
    Ghost(done): Ghost<Seq<RoundChain>>,
    Ghost(items): Ghost<Seq<ChainItem>>,
)
    requires
        tallies_match(done.push(RoundChain { round_index, items }), old(tallies)@),
        item.rules.len() > 1 ==> occurrences(
            done.push(RoundChain { round_index, items: items.push(item.deep_view()) }),
            item.rules.deep_view(),
        ) <= usize::MAX,
    ensures
        tallies_match(
            done.push(RoundChain { round_index, items: items.push(item.deep_view()) }),
            final(tallies)@,
        ),
{
    let ghost rules = item.rules.deep_view();
    let ghost before = done.push(RoundChain { round_index, items });
    let ghost after = done.push(RoundChain { round_index, items: items.push(item.deep_view()) });
    let ghost started = tallies@;
    proof {
        assert(rules.len() == item.rules.len());
        assert forall|motif: Seq<Seq<char>>| #[trigger] catalogued(after, motif) <==> catalogued(
            before,
            motif,
        ) || (motif.len() > 1 && rules == motif) by {
            lemma_one_more_item(done, round_index, items, item.deep_view(), motif);
        }
    }
    if item.rules.len() <= 1 {
        proof {
            assert forall|k: int| 0 <= k < started.len() implies tally_matches(
                after,
                #[trigger] started[k],
            ) by {
                lemma_other_tally_kept(done, round_index, items, item.deep_view(), started[k]);
            }
        }
        return;
    }
    let wanted = item.rules.as_slice();
    proof {
        assert(wanted.deep_view() =~= rules);
        lemma_one_more_item(done, round_index, items, item.deep_view(), rules);
    }
    match find_tally(tallies, wanted) {
        Some(k) => {
            let seen = has_round(&tallies[k].rounds, round_index);
            proof {
                assert(tally_matches(before, started[k as int]));
            }
            tallies[k].occurrences = tallies[k].occurrences + item.repeat;
            if !seen {
                tallies[k].rounds.push(round_index);
            }
            proof {
                let changed = tallies@[k as int];
                let old_rounds = started[k as int].rounds@;
                assert(changed.rules == started[k as int].rules);
                old_rounds.lemma_push_to_set_commute(round_index);
                assert(changed.rounds@.to_set() =~= old_rounds.to_set().insert(round_index));
                assert(tally_matches(after, changed));
                assert forall|j: int| 0 <= j < tallies@.len() implies tally_matches(
                    after,
                    #[trigger] tallies@[j],
                ) by {
                    if j != k {
                        assert(tallies@[j] == started[j]);
                        if j < k {
                            assert(started[j].rules.deep_view()
                                != started[k as int].rules.deep_view());
                        }
                        lemma_other_tally_kept(
                            done,
                            round_index,
                            items,
                            item.deep_view(),
                            started[j],
                        );
                    }
                }
                assert forall|i: int, j: int| 0 <= i < j < tallies@.len() implies (
                #[trigger] tallies@[i]).rules.deep_view() != (
                #[trigger] tallies@[j]).rules.deep_view() by {
                    assert(tallies@[i].rules == started[i].rules);
                    assert(tallies@[j].rules == started[j].rules);
                }
                assert forall|motif: Seq<Seq<char>>| catalogued(after, motif) implies
                    #[trigger] tallied(tallies@, motif) by {
                    if rules == motif {
                        assert(tallies@[k as int].rules.deep_view() == motif);
                    } else {
                        assert(tallied(started, motif));
                        let m = choose|m: int|
                            0 <= m < started.len() && (#[trigger] started[m]).rules.deep_view()
                                == motif;
                        assert(tallies@[m].rules.deep_view() == motif);
                    }
                }
            }
        },
        None => {
            let mut rounds: Vec<usize> = Vec::new();
            rounds.push(round_index);
            let copied = item.rules.clone();
            let added = MotifTally { rules: copied, occurrences: item.repeat, rounds };
            tallies.push(added);
            proof {
                assert(copied.deep_view() =~= rules);
                assert(!catalogued(before, rules));
                lemma_absent_motif(before, rules);
                assert(added.rounds@.to_set() =~= Set::empty().insert(round_index)) by {
                    assert(added.rounds@[0] == round_index);
                }
                assert(tally_matches(after, added));
                assert forall|j: int| 0 <= j < tallies@.len() implies tally_matches(
                    after,
                    #[trigger] tallies@[j],
                ) by {
                    if j < started.len() {
                        assert(tallies@[j] == started[j]);
                        assert(tally_matches(before, started[j]));
                        lemma_other_tally_kept(
                            done,
                            round_index,
                            items,
                            item.deep_view(),
                            started[j],
                        );
                    }
                }
                assert forall|i: int, j: int| 0 <= i < j < tallies@.len() implies (
                #[trigger] tallies@[i]).rules.deep_view() != (
                #[trigger] tallies@[j]).rules.deep_view() by {
                    assert(tallies@[i] == started[i]);
                    if j < started.len() {
                        assert(tallies@[j] == started[j]);
                    } else {
                        assert(tally_matches(before, started[i]));
                    }
                }
                assert forall|motif: Seq<Seq<char>>| catalogued(after, motif) implies
                    #[trigger] tallied(tallies@, motif) by {
                    if rules == motif {
                        assert(tallies@[started.len() as int].rules.deep_view() == motif);
                    } else {
                        assert(tallied(started, motif));
                        let m = choose|m: int|
                            0 <= m < started.len() && (#[trigger] started[m]).rules.deep_view()
                                == motif;
                        assert(tallies@[m].rules.deep_view() == motif);
                    }
                }
            }
        },
    }
}

/// Whether `a` comes before `b` in the catalog.
fn summary_precedes(a: &RepeatedMotifSummary, b: &RepeatedMotifSummary) -> (before: bool)
    ensures
        before == precedes(a.deep_view(), b.deep_view()),
{
    if a.rounds != b.rounds {
        return a.rounds > b.rounds;
    }
    if a.occurrences != b.occurrences {
        return a.occurrences > b.occurrences;
    }
    let left = a.rules.as_slice();
    let right = b.rules.as_slice();
    proof {
        assert(left.deep_view() =~= a.rules.deep_view());
        assert(right.deep_view() =~= b.rules.deep_view());
    }
    if left.len() != right.len() {
        return left.len() > right.len();
    }
    strings_less(left, right)
}

/// Puts an entry for a new motif in its place in an ordered catalog.
fn insert_summary(summaries: &mut Vec<RepeatedMotifSummary>, summary: RepeatedMotifSummary)
    requires
        in_order(old(summaries).deep_view()),
        !lists(old(summaries).deep_view(), summary.deep_view().rules),
    ensures
        in_order(final(summaries).deep_view()),
        exists|place: int|
            0 <= place <= old(summaries).deep_view().len() && final(summaries).deep_view()
                == #[trigger] old(summaries).deep_view().insert(place, summary.deep_view()),
{
    let ghost started = summaries.deep_view();
    let ghost added = summary.deep_view();
    let mut place: usize = 0;
    while place < summaries.len() && summary_precedes(&summaries[place], &summary)
        invariant
            place <= summaries.len(),
            started == summaries.deep_view(),
            added == summary.deep_view(),
            forall|k: int| 0 <= k < place ==> precedes(#[trigger] started[k], added),
        decreases summaries.len() - place,
    {
        place = place + 1;
    }
    summaries.insert(place, summary);
    proof {
        let ended = summaries.deep_view();
        let p = place as int;
        assert(ended =~= started.insert(p, added));
        assert forall|k: int| p <= k < started.len() implies precedes(
            added,
            #[trigger] started[k],
        ) by {
            lemma_precedes_total(added, started[p]);
            if k > p {
                lemma_precedes_transitive(added, started[p], started[k]);
            }
        }
        assert forall|i: int, j: int| 0 <= i < j < ended.len() implies precedes(
            #[trigger] ended[i],
            #[trigger] ended[j],
        ) by {
            let from_i = if i < p {
                i
            } else {
                i - 1
            };
            let from_j = if j < p {
                j
            } else {
                j - 1
            };
            if i != p {
                assert(ended[i] == started[from_i]);
            }
            if j != p {
                assert(ended[j] == started[from_j]);
            }
        }
    }
}

/// Collects the motifs of more than one rule over all rounds, with the number of
/// times that each runs and the number of different rounds in which it runs: those
/// of most rounds first, then those that run most often, then the longest, then in
/// the order of their rules.
pub fn build_repeated_motif_catalog(rounds: &[RoundMotifInput]) -> (summaries: Vec<
    RepeatedMotifSummary,
>)
    requires
        forall|motif: Seq<Seq<char>>|
            motif.len() > 1 ==> #[trigger] occurrences(rounds.deep_view(), motif) <= usize::MAX,
    ensures
        is_catalog(rounds.deep_view(), summaries.deep_view()),
{
    let ghost all = rounds.deep_view();
    let mut tallies: Vec<MotifTally> = Vec::new();
    let mut r: usize = 0;
    while r < rounds.len()
        invariant
            r <= rounds.len(),
            all == rounds.deep_view(),
            forall|motif: Seq<Seq<char>>|
                motif.len() > 1 ==> #[trigger] occurrences(all, motif) <= usize::MAX,
            tallies_match(all.take(r as int), tallies@),
        decreases rounds.len() - r,
    {
        let round = &rounds[r];
        let ghost done = all.take(r as int);
        let ghost items = round.compressed_rule_chain.deep_view();
        let ghost round_index = round.round_index;
        let mut k: usize = 0;
        proof {
            assert(items.take(0) =~= Seq::empty());
            lemma_empty_round(done, round_index, tallies@);
        }
        while k < round.compressed_rule_chain.len()
            invariant
                k <= round.compressed_rule_chain.len(),
                r < rounds.len(),
                all == rounds.deep_view(),
                done == all.take(r as int),
                *round == rounds@[r as int],
                round_index == round.round_index,
                items == round.compressed_rule_chain.deep_view(),
                forall|motif: Seq<Seq<char>>|
                    motif.len() > 1 ==> #[trigger] occurrences(all, motif) <= usize::MAX,
                tallies_match(
                    done.push(RoundChain { round_index, items: items.take(k as int) }),
                    tallies@,
                ),
            decreases round.compressed_rule_chain.len() - k,
        {
            let item = &round.compressed_rule_chain[k];
            proof {
                assert(items.take(k + 1) =~= items.take(k as int).push(item.deep_view()));
                assert(all[r as int] == round.deep_view());
                lemma_partial_occurrences(all, r as int, k + 1, item.rules.deep_view());
            }
            tally_item(
                &mut tallies,
                round.round_index,
                item,
                Ghost(done),
                Ghost(items.take(k as int)),
            );
            k = k + 1;
        }
        proof {
            assert(items.take(k as int) =~= items);
            assert(all.take(r + 1) =~= done.push(RoundChain { round_index, items }));
        }
        r = r + 1;
    }
    proof {
        assert(all.take(r as int) =~= all);
    }
    let mut summaries: Vec<RepeatedMotifSummary> = Vec::new();
    let mut t: usize = 0;
    while t < tallies.len()
        invariant
            t <= tallies.len(),
            tallies_match(all, tallies@),
            in_order(summaries.deep_view()),
            forall|k: int|
                0 <= k < summaries.deep_view().len() ==> counts_match(
                    all,
                    #[trigger] summaries.deep_view()[k],
                ),
            forall|motif: Seq<Seq<char>>|
                #[trigger] lists(summaries.deep_view(), motif) <==> tallied(
                    tallies@.take(t as int),
                    motif,
                ),
        decreases tallies.len() - t,
    {
        let tally = &tallies[t];
        let summary = RepeatedMotifSummary {
            rules: tally.rules.clone(),
            occurrences: tally.occurrences,
            rounds: tally.rounds.len(),
        };
        let ghost added = summary.deep_view();
        let ghost started = summaries.deep_view();
        proof {
            assert(summary.rules.deep_view() =~= tally.rules.deep_view());
            assert(tally_matches(all, tallies@[t as int]));
            tally.rounds@.unique_seq_to_set();
            assert(!tallied(tallies@.take(t as int), added.rules)) by {
                if tallied(tallies@.take(t as int), added.rules) {
                    let m = choose|m: int|
                        0 <= m < t && (#[trigger] tallies@.take(t as int)[m]).rules.deep_view()
                            == added.rules;
                    assert(tallies@[m].rules.deep_view() != tallies@[t as int].rules.deep_view());
                }
            }
            assert(!lists(started, added.rules));
        }
        insert_summary(&mut summaries, summary);
        proof {
            let ended = summaries.deep_view();
            let place = choose|place: int|
                0 <= place <= started.len() && ended == #[trigger] started.insert(place, added);
            assert(counts_match(all, added));
            assert forall|k: int| 0 <= k < ended.len() implies counts_match(
                all,
                #[trigger] ended[k],
            ) by {
                if k < place {
                    assert(ended[k] == started[k]);
                } else if k > place {
                    assert(ended[k] == started[k - 1]);
                }
            }
            assert forall|motif: Seq<Seq<char>>| #[trigger] lists(ended, motif) <==> tallied(
                tallies@.take(t + 1),
                motif,
            ) by {
                lemma_lists_after_insert(started, place, added, motif);
                lemma_tallied_after_take(tallies@, t as int, motif);
            }
        }
        t = t + 1;
    }
    proof {
        assert(tallies@.take(t as int) =~= tallies@);
        assert forall|motif: Seq<Seq<char>>| #[trigger] lists(
            summaries.deep_view(),
            motif,
        ) <==> catalogued(all, motif) by {
            if tallied(tallies@, motif) {
                let m = choose|m: int|
                    0 <= m < tallies@.len() && (#[trigger] tallies@[m]).rules.deep_view() == motif;
                assert(tally_matches(all, tallies@[m]));
            }
        }
    }
    summaries
}

/// A round whose chain is still empty adds nothing.
proof fn lemma_empty_round(done: Seq<RoundChain>, round_index: usize, tallies: Seq<MotifTally>)
    requires
        tallies_match(done, tallies),
    ensures
        tallies_match(done.push(RoundChain { round_index, items: Seq::empty() }), tallies),
{
    let longer = done.push(RoundChain { round_index, items: Seq::empty() });
    assert(longer.drop_last() =~= done);
    assert forall|motif: Seq<Seq<char>>| #[trigger] catalogued(longer, motif) <==> catalogued(
        done,
        motif,
    ) by {
        if catalogued(done, motif) {
            let r = choose|r: int|
                0 <= r < done.len() && chain_holds((#[trigger] done[r]).items, motif);
            assert(chain_holds(longer[r].items, motif));
        }
        if catalogued(longer, motif) {
            let r = choose|r: int|
                0 <= r < longer.len() && chain_holds((#[trigger] longer[r]).items, motif);
            assert(r < done.len());
            assert(chain_holds(done[r].items, motif));
        }
    }
    assert forall|k: int| 0 <= k < tallies.len() implies tally_matches(
        longer,
        #[trigger] tallies[k],
    ) by {
        assert(tally_matches(done, tallies[k]));
        assert(!chain_holds(Seq::<ChainItem>::empty(), tallies[k].rules.deep_view()));
        assert(catalogued(longer, tallies[k].rules.deep_view()));
    }
}

/// A prefix of the entries holds no more occurrences than all of them.
proof fn lemma_partial_occurrences(
    rounds: Seq<RoundChain>,
    r: int,
    k: int,
    motif: Seq<Seq<char>>,
)
    requires
        0 <= r < rounds.len(),
        0 <= k <= rounds[r].items.len(),
    ensures
        occurrences(
            rounds.take(r).push(
                RoundChain { round_index: rounds[r].round_index, items: rounds[r].items.take(k) },
            ),
            motif,
        ) <= occurrences(rounds, motif),
    decreases rounds.len(),
{
    let partial = RoundChain {
        round_index: rounds[r].round_index,
        items: rounds[r].items.take(k),
    };
    assert(rounds.take(r).push(partial).drop_last() =~= rounds.take(r));
    let fewer = rounds.drop_last();
    if r == rounds.len() - 1 {
        assert(rounds.take(r) =~= fewer);
        lemma_partial_chain_occurrences(rounds[r].items, k, motif);
    } else {
        assert(fewer.take(r) =~= rounds.take(r));
        lemma_partial_occurrences(fewer, r, k, motif);
    }
}

proof fn lemma_partial_chain_occurrences(items: Seq<ChainItem>, k: int, motif: Seq<Seq<char>>)
    requires
        0 <= k <= items.len(),
    ensures
        chain_occurrences(items.take(k), motif) <= chain_occurrences(items, motif),
    decreases items.len(),
{
    if k < items.len() {
        assert(items.drop_last().take(k) =~= items.take(k));
        lemma_partial_chain_occurrences(items.drop_last(), k, motif);
    } else {
        assert(items.take(k) =~= items);
    }
}

proof fn lemma_lists_after_insert(
    summaries: Seq<MotifSummary>,
    place: int,
    added: MotifSummary,
    motif: Seq<Seq<char>>,
)
    requires
        0 <= place <= summaries.len(),
    ensures
        lists(summaries.insert(place, added), motif) <==> lists(summaries, motif) || added.rules
            == motif,
{
    let ended = summaries.insert(place, added);
    if lists(summaries, motif) {
        let k = choose|k: int| 0 <= k < summaries.len() && (#[trigger] summaries[k]).rules == motif;
        if k < place {
            assert(ended[k].rules == motif);
        } else {
            assert(ended[k + 1].rules == motif);
        }
    }
    if added.rules == motif {
        assert(ended[place].rules == motif);
    }
    if lists(ended, motif) {
        let k = choose|k: int| 0 <= k < ended.len() && (#[trigger] ended[k]).rules == motif;
        if k < place {
            assert(summaries[k].rules == motif);
        } else if k > place {
            assert(summaries[k - 1].rules == motif);
        }
    }
}

proof fn lemma_tallied_after_take(tallies: Seq<MotifTally>, t: int, motif: Seq<Seq<char>>)
    requires
        0 <= t < tallies.len(),
    ensures
        tallied(tallies.take(t + 1), motif) <==> tallied(tallies.take(t), motif)
            || tallies[t].rules.deep_view() == motif,
{
    let shorter = tallies.take(t);
    let longer = tallies.take(t + 1);
    if tallied(shorter, motif) {
        let k = choose|k: int|
            0 <= k < shorter.len() && (#[trigger] shorter[k]).rules.deep_view() == motif;
        assert(longer[k].rules.deep_view() == motif);
    }
    if tallies[t].rules.deep_view() == motif {
        assert(longer[t].rules.deep_view() == motif);
    }
    if tallied(longer, motif) {
        let k = choose|k: int|
            0 <= k < longer.len() && (#[trigger] longer[k]).rules.deep_view() == motif;
        if k < t {
            assert(shorter[k].rules.deep_view() == motif);
        }
    }
}

} // verus!
