//! What holds of every compressed chain.

use vstd::prelude::*;

use crate::chain::{ChainItem, CompressedChainItem};

verus! {

/// `count` copies of a block in a row.
pub open spec fn copies(block: Seq<Seq<char>>, count: nat) -> Seq<Seq<char>>
    decreases count,
{
    if count == 0 {
        Seq::empty()
    } else {
        block + copies(block, (count - 1) as nat)
    }
}

/// The rule trace that a chain stands for: each entry written out in full.
pub open spec fn expanded(items: Seq<ChainItem>) -> Seq<Seq<char>>
    decreases items.len(),
{
    if items.len() == 0 {
        Seq::empty()
    } else {
        copies(items[0].rules, items[0].repeat) + expanded(items.drop_first())
    }
}

/// What every entry of a chain with windows of at most `max_window` rules is like:
/// a rule run at least once, or a motif of at least two rules, the first two of
/// them different, run at least twice.
pub open spec fn item_well_formed(item: ChainItem, max_window: int) -> bool {
    ||| {
        &&& item.kind == "rule"@
        &&& item.rules.len() == 1
        &&& item.repeat >= 1
    }
    ||| {
        &&& item.kind == "motif"@
        &&& 2 <= item.rules.len() <= max_window
        &&& item.rules[0] != item.rules[1]
        &&& item.repeat >= 2
    }
}

proof fn lemma_copies_of_block(trace: Seq<Seq<char>>, i: int, len: int)
    requires
        0 <= i,
        0 < len,
        i + len <= trace.len(),
    ensures
        copies(trace.subrange(i, i + len), crate::chain::repeats(trace, i, len))
            == trace.subrange(i, i + crate::chain::repeats(trace, i, len) * len),
    decreases trace.len() - i,
{
    let count = crate::chain::repeats(trace, i, len);
    let block = trace.subrange(i, i + len);
    crate::chain::lemma_repeats_fit(trace, i, len);
    if crate::chain::block_recurs(trace, i, len) {
        let rest = crate::chain::repeats(trace, i + len, len);
        lemma_copies_of_block(trace, i + len, len);
        crate::chain::lemma_repeats_fit(trace, i + len, len);
        assert(count * len == rest * len + len) by (nonlinear_arith)
            requires
                count == rest + 1,
        ;
        assert(trace.subrange(i + len, i + len + len) =~= block);
        assert(block + trace.subrange(i + len, i + len + rest * len) =~= trace.subrange(
            i,
            i + count * len,
        ));
    } else {
        assert(count * len == len) by (nonlinear_arith)
            requires
                count == 1,
        ;
        assert(copies(block, 0) =~= Seq::empty());
        assert(copies(block, 1) =~= block);
    }
}

proof fn lemma_chain_expands(trace: Seq<Seq<char>>, i: int, max_window: int)
    requires
        0 <= i <= trace.len(),
    ensures
        expanded(crate::chain::chain_from(trace, i, max_window)) == trace.skip(i),
    decreases trace.len() - i,
{
    if i < trace.len() {
        let len = crate::chain::block_length(trace, i, max_window);
        let next = i + crate::chain::repeats(trace, i, len) * len;
        let rest = crate::chain::chain_from(trace, next, max_window);
        crate::chain::lemma_block_fits(trace, i, max_window);
        lemma_copies_of_block(trace, i, len);
        lemma_chain_expands(trace, next, max_window);
        let whole = crate::chain::chain_from(trace, i, max_window);
        assert(whole.drop_first() =~= rest);
        assert(trace.subrange(i, next) + trace.skip(next) =~= trace.skip(i));
    } else {
        assert(trace.skip(i) =~= Seq::empty());
    }
}

/// Compression loses nothing: written out in full, the chain of a trace is the
/// trace.
pub proof fn law_compression_is_lossless(trace: Seq<Seq<char>>, max_window: int)
    ensures
        expanded(crate::chain::compressed(trace, max_window)) == trace,
{
    lemma_chain_expands(trace, 0, max_window);
    assert(trace.skip(0) =~= trace);
}

proof fn lemma_block_item_well_formed(trace: Seq<Seq<char>>, i: int, max_window: int)
    requires
        0 <= i < trace.len(),
    ensures
        item_well_formed(
            crate::chain::block_item(trace, i, crate::chain::block_length(trace, i, max_window)),
            max_window,
        ),
{
    let len = crate::chain::block_length(trace, i, max_window);
    let limit = if max_window <= trace.len() - i {
        max_window
    } else {
        trace.len() - i
    };
    crate::chain::lemma_longest_recurring_fits(trace, i, limit);
    crate::chain::lemma_block_fits(trace, i, max_window);
    crate::chain::lemma_repeats_fit(trace, i, len);
    if len > 1 && trace[i] == trace[i + 1] {
        assert(trace.subrange(i, i + 1) =~= trace.subrange(i + 1, i + 2));
        assert(crate::chain::block_recurs(trace, i, 1));
    }
}

proof fn lemma_chain_well_formed(trace: Seq<Seq<char>>, i: int, max_window: int)
    requires
        0 <= i <= trace.len(),
    ensures
        forall|k: int|
            0 <= k < crate::chain::chain_from(trace, i, max_window).len() ==> item_well_formed(
                #[trigger] crate::chain::chain_from(trace, i, max_window)[k],
                max_window,
            ),
        crate::chain::chain_from(trace, i, max_window).len() <= trace.len() - i,
    decreases trace.len() - i,
{
    if i < trace.len() {
        let len = crate::chain::block_length(trace, i, max_window);
        let next = i + crate::chain::repeats(trace, i, len) * len;
        let rest = crate::chain::chain_from(trace, next, max_window);
        crate::chain::lemma_block_fits(trace, i, max_window);
        lemma_block_item_well_formed(trace, i, max_window);
        lemma_chain_well_formed(trace, next, max_window);
        let whole = crate::chain::chain_from(trace, i, max_window);
        assert forall|k: int| 0 <= k < whole.len() implies item_well_formed(
            #[trigger] whole[k],
            max_window,
        ) by {
            if k > 0 {
                assert(whole[k] == rest[k - 1]);
            }
        }
    }
}

/// Every entry of a chain is a rule run at least once or a proper motif run at
/// least twice, no motif is wider than the window, and no motif begins with a
/// rule repeated: such rules are runs. A chain is never longer than its trace.
pub proof fn law_chain_entries_well_formed(trace: Seq<Seq<char>>, max_window: int)
    ensures
        forall|k: int|
            0 <= k < crate::chain::compressed(trace, max_window).len() ==> item_well_formed(
                #[trigger] crate::chain::compressed(trace, max_window)[k],
                max_window,
            ),
        crate::chain::compressed(trace, max_window).len() <= trace.len(),
{
    lemma_chain_well_formed(trace, 0, max_window);
}

/// With a window of at most one rule, a chain holds rules only.
pub proof fn law_narrow_window_gives_rules_only(
    trace: Seq<Seq<char>>,
    max_window: int,
    k: int,
)
    requires
        max_window <= 1,
        0 <= k < crate::chain::compressed(trace, max_window).len(),
    ensures
        crate::chain::compressed(trace, max_window)[k].kind == "rule"@,
        crate::chain::compressed(trace, max_window)[k].rules.len() == 1,
{
    law_chain_entries_well_formed(trace, max_window);
}

proof fn lemma_run_length(trace: Seq<Seq<char>>, i: int, rule: Seq<char>)
    requires
        0 <= i < trace.len(),
        forall|j: int| i <= j < trace.len() ==> trace[j] == rule,
    ensures
        crate::chain::repeats(trace, i, 1) == trace.len() - i,
    decreases trace.len() - i,
{
    if i + 1 < trace.len() {
        lemma_run_length(trace, i + 1, rule);
        assert(trace.subrange(i, i + 1) =~= trace.subrange(i + 1, i + 2));
    }
}

/// A trace of one rule, run any number of times, is one entry: a run of the rule,
/// and no motif made of copies of it.
pub proof fn law_single_rule_run_is_one_entry(rule: Seq<char>, count: nat, max_window: int)
    requires
        count >= 1,
    ensures
        crate::chain::compressed(Seq::new(count, |j: int| rule), max_window) == seq![
            ChainItem { kind: "rule"@, rules: seq![rule], repeat: count },
        ],
{
    let trace = Seq::new(count, |j: int| rule);
    lemma_run_length(trace, 0, rule);
    let whole = crate::chain::compressed(trace, max_window);
    if count == 1 {
        crate::chain::lemma_block_fits(trace, 0, max_window);
    } else {
        assert(trace.subrange(0, 1) =~= trace.subrange(1, 2));
    }
    assert(crate::chain::block_length(trace, 0, max_window) == 1);
    assert(trace.subrange(0, 1) =~= seq![rule]);
    assert(crate::chain::chain_from(trace, count as int, max_window) =~= Seq::empty());
    assert(whole =~= seq![ChainItem { kind: "rule"@, rules: seq![rule], repeat: count }]);
}

proof fn lemma_run_ends(trace: Seq<Seq<char>>, i: int)
    requires
        0 <= i < trace.len(),
    ensures
        i + crate::chain::repeats(trace, i, 1) < trace.len() ==> trace[i
            + crate::chain::repeats(trace, i, 1)] != trace[i],
    decreases trace.len() - i,
{
    if crate::chain::block_recurs(trace, i, 1) {
        assert(trace.subrange(i, i + 1)[0] == trace.subrange(i + 1, i + 2)[0]);
        lemma_run_ends(trace, i + 1);
    } else if i + 1 < trace.len() && trace[i + 1] == trace[i] {
        assert(trace.subrange(i, i + 1) =~= trace.subrange(i + 1, i + 2));
    }
}

proof fn lemma_runs_are_maximal_from(trace: Seq<Seq<char>>, i: int, max_window: int, k: int)
    requires
        0 <= i <= trace.len(),
        0 <= k,
        k + 1 < crate::chain::chain_from(trace, i, max_window).len(),
        crate::chain::chain_from(trace, i, max_window)[k].rules.len() == 1,
    ensures
        crate::chain::chain_from(trace, i, max_window)[k + 1].rules[0]
            != crate::chain::chain_from(trace, i, max_window)[k].rules[0],
    decreases trace.len() - i,
{
    let len = crate::chain::block_length(trace, i, max_window);
    let next = i + crate::chain::repeats(trace, i, len) * len;
    let rest = crate::chain::chain_from(trace, next, max_window);
    let whole = crate::chain::chain_from(trace, i, max_window);
    crate::chain::lemma_block_fits(trace, i, max_window);
    assert(whole[k + 1] == rest[k]);
    if k > 0 {
        assert(whole[k] == rest[k - 1]);
        lemma_runs_are_maximal_from(trace, next, max_window, k - 1);
    } else {
        lemma_run_ends(trace, i);
        crate::chain::lemma_block_fits(trace, next, max_window);
        assert(whole[0].rules[0] == trace[i]);
        assert(rest[0].rules[0] == trace[next]);
    }
}

/// A run takes every copy of its rule: the entry after a rule begins with another
/// rule.
pub proof fn law_runs_are_maximal(trace: Seq<Seq<char>>, max_window: int, k: int)
    requires
        0 <= k,
        k + 1 < crate::chain::compressed(trace, max_window).len(),
        crate::chain::compressed(trace, max_window)[k].rules.len() == 1,
    ensures
        crate::chain::compressed(trace, max_window)[k + 1].rules[0]
            != crate::chain::compressed(trace, max_window)[k].rules[0],
{
    lemma_runs_are_maximal_from(trace, 0, max_window, k);
}

proof fn lemma_plain_chain_from(trace: Seq<Seq<char>>, i: int, max_window: int)
    requires
        0 <= i <= trace.len(),
        forall|j: int| 0 <= j < trace.len() ==> !#[trigger] crate::chain::block_recurs(trace, j, 1),
        forall|j: int, len: int|
            0 <= j < trace.len() && 2 <= len <= max_window
                ==> !#[trigger] crate::chain::block_recurs(trace, j, len),
    ensures
        crate::chain::chain_from(trace, i, max_window).len() == trace.len() - i,
        forall|k: int|
            0 <= k < trace.len() - i ==> #[trigger] crate::chain::chain_from(
                trace,
                i,
                max_window,
            )[k] == lone_rule(trace[i + k]),
    decreases trace.len() - i,
{
    if i < trace.len() {
        let limit = if max_window <= trace.len() - i {
            max_window
        } else {
            trace.len() - i
        };
        crate::chain::lemma_longest_recurring_fits(trace, i, limit);
        assert(!crate::chain::block_recurs(trace, i, 1));
        let len = crate::chain::block_length(trace, i, max_window);
        let count = crate::chain::repeats(trace, i, len);
        assert(count * len == 1) by (nonlinear_arith)
            requires
                count == 1,
                len == 1,
        ;
        lemma_plain_chain_from(trace, i + 1, max_window);
        assert(trace.subrange(i, i + 1) =~= seq![trace[i]]);
        let whole = crate::chain::chain_from(trace, i, max_window);
        let rest = crate::chain::chain_from(trace, i + 1, max_window);
        assert forall|k: int| 0 <= k < trace.len() - i implies #[trigger] whole[k] == lone_rule(
            trace[i + k],
        ) by {
            if k > 0 {
                assert(whole[k] == rest[k - 1]);
            }
        }
    }
}

/// The entry of a rule that runs once.
pub open spec fn lone_rule(rule: Seq<char>) -> ChainItem {
    ChainItem { kind: "rule"@, rules: seq![rule], repeat: 1 }
}

/// A trace in which no block within the window recurs at once stays as it is: one
/// entry for each rule.
pub proof fn law_trace_without_repeats_is_kept(trace: Seq<Seq<char>>, max_window: int)
    requires
        forall|j: int| 0 <= j < trace.len() ==> !#[trigger] crate::chain::block_recurs(trace, j, 1),
        forall|j: int, len: int|
            0 <= j < trace.len() && 2 <= len <= max_window
                ==> !#[trigger] crate::chain::block_recurs(trace, j, len),
    ensures
        crate::chain::compressed(trace, max_window) == trace.map_values(
            |rule: Seq<char>| lone_rule(rule),
        ),
{
    lemma_plain_chain_from(trace, 0, max_window);
    assert(crate::chain::compressed(trace, max_window) =~= trace.map_values(
        |rule: Seq<char>| lone_rule(rule),
    ));
}

proof fn lemma_joined_concat(left: Seq<Seq<char>>, right: Seq<Seq<char>>, separator: Seq<char>)
    requires
        left.len() > 0,
        right.len() > 0,
    ensures
        crate::text::joined(left + right, separator) == crate::text::joined(left, separator)
            + separator + crate::text::joined(right, separator),
{
    crate::text_laws::law_joining_concatenation(left, right, separator);
}

/// The empty chain reads as the empty text.
pub proof fn law_empty_chain_reads_empty()
    ensures
        crate::chain::chain_text(Seq::empty()) == Seq::<char>::empty(),
{
}

/// Two chains one after the other read as the first, an arrow, and the second.
pub proof fn law_chain_text_of_concatenation(left: Seq<ChainItem>, right: Seq<ChainItem>)
    requires
        left.len() > 0,
        right.len() > 0,
    ensures
        crate::chain::chain_text(left + right) == crate::chain::chain_text(left) + " -> "@
            + crate::chain::chain_text(right),
{
    let read = |item: ChainItem| crate::chain::item_text(item);
    assert((left + right).map_values(read) =~= left.map_values(read) + right.map_values(read));
    lemma_joined_concat(left.map_values(read), right.map_values(read), " -> "@);
}

proof fn lemma_block_recurs_shifted(trace: Seq<Seq<char>>, d: int, i: int, len: int)
    requires
        0 <= d <= trace.len(),
        0 <= i,
        0 < len,
    ensures
        crate::chain::block_recurs(trace.skip(d), i, len) == crate::chain::block_recurs(
            trace,
            d + i,
            len,
        ),
{
    let rest = trace.skip(d);
    if i + 2 * len <= rest.len() {
        assert(rest.subrange(i, i + len) =~= trace.subrange(d + i, d + i + len));
        assert(rest.subrange(i + len, i + 2 * len) =~= trace.subrange(
            d + i + len,
            d + i + 2 * len,
        ));
    }
}

proof fn lemma_repeats_shifted(trace: Seq<Seq<char>>, d: int, i: int, len: int)
    requires
        0 <= d <= trace.len(),
        0 <= i,
        0 < len,
    ensures
        crate::chain::repeats(trace.skip(d), i, len) == crate::chain::repeats(trace, d + i, len),
    decreases trace.len() - i,
{
    lemma_block_recurs_shifted(trace, d, i, len);
    if crate::chain::block_recurs(trace, d + i, len) {
        lemma_repeats_shifted(trace, d, i + len, len);
    }
}

proof fn lemma_longest_recurring_shifted(trace: Seq<Seq<char>>, d: int, i: int, limit: int)
    requires
        0 <= d <= trace.len(),
        0 <= i,
    ensures
        crate::chain::longest_recurring(trace.skip(d), i, limit)
            == crate::chain::longest_recurring(trace, d + i, limit),
    decreases limit,
{
    if limit >= 2 {
        lemma_block_recurs_shifted(trace, d, i, limit);
        lemma_longest_recurring_shifted(trace, d, i, limit - 1);
    }
}

proof fn lemma_chain_shifted(trace: Seq<Seq<char>>, d: int, i: int, max_window: int)
    requires
        0 <= d <= trace.len(),
        0 <= i <= trace.len() - d,
    ensures
        crate::chain::chain_from(trace.skip(d), i, max_window) == crate::chain::chain_from(
            trace,
            d + i,
            max_window,
        ),
    decreases trace.len() - i,
{
    let rest = trace.skip(d);
    if i < rest.len() {
        let len = crate::chain::block_length(trace, d + i, max_window);
        lemma_block_recurs_shifted(trace, d, i, 1);
        lemma_longest_recurring_shifted(trace, d, i, max_window);
        lemma_longest_recurring_shifted(trace, d, i, rest.len() - i);
        assert(crate::chain::block_length(rest, i, max_window) == len);
        crate::chain::lemma_block_fits(rest, i, max_window);
        lemma_repeats_shifted(trace, d, i, len);
        assert(rest.subrange(i, i + len) =~= trace.subrange(d + i, d + i + len));
        lemma_chain_shifted(
            trace,
            d,
            i + crate::chain::repeats(rest, i, len) * len,
            max_window,
        );
    }
}

/// Compression has no memory: after any number of entries, the rest of a chain is the
/// chain of the rest of the trace.
pub proof fn law_compression_has_no_memory(trace: Seq<Seq<char>>, max_window: int, k: int)
    requires
        0 <= k <= crate::chain::compressed(trace, max_window).len(),
    ensures
        ({
            let chain = crate::chain::compressed(trace, max_window);
            let read = expanded(chain.take(k)).len();
            read <= trace.len() && chain.skip(k) == crate::chain::compressed(
                trace.skip(read as int),
                max_window,
            )
        }),
    decreases k,
{
    let chain = crate::chain::compressed(trace, max_window);
    if k == 0 {
        assert(expanded(chain.take(0)).len() == 0);
        assert(trace.skip(0) =~= trace);
        assert(chain.skip(0) =~= chain);
    } else {
        let len = crate::chain::block_length(trace, 0, max_window);
        let first = crate::chain::repeats(trace, 0, len) * len;
        crate::chain::lemma_block_fits(trace, 0, max_window);
        lemma_copies_of_block(trace, 0, len);
        let rest = trace.skip(first);
        lemma_chain_shifted(trace, first, 0, max_window);
        let tail = crate::chain::compressed(rest, max_window);
        assert(chain.drop_first() =~= tail);
        law_compression_has_no_memory(rest, max_window, k - 1);
        let read = expanded(tail.take(k - 1)).len() as int;
        assert(chain.take(k).drop_first() =~= tail.take(k - 1));
        assert(chain.take(k)[0] == crate::chain::block_item(trace, 0, len));
        assert(chain.skip(k) =~= tail.skip(k - 1));
        assert(rest.skip(read) =~= trace.skip(first + read));
    }
}

proof fn lemma_wide_limits_agree(trace: Seq<Seq<char>>, i: int, narrow: int, wide: int)
    requires
        0 <= i,
        narrow <= wide,
        trace.len() - i < 2 * (narrow + 1),
    ensures
        crate::chain::longest_recurring(trace, i, narrow) == crate::chain::longest_recurring(
            trace,
            i,
            wide,
        ),
    decreases wide - narrow,
{
    if narrow < wide {
        lemma_wide_limits_agree(trace, i, narrow, wide - 1);
    }
}

proof fn lemma_wide_windows_agree_from(trace: Seq<Seq<char>>, i: int, narrow: int, wide: int)
    requires
        0 <= i,
        0 <= narrow <= wide,
        trace.len() / 2 <= narrow,
    ensures
        crate::chain::chain_from(trace, i, narrow) == crate::chain::chain_from(trace, i, wide),
    decreases trace.len() - i,
{
    if i < trace.len() {
        if narrow <= trace.len() - i {
            let limit = if wide <= trace.len() - i {
                wide
            } else {
                trace.len() - i
            };
            lemma_wide_limits_agree(trace, i, narrow, limit);
        }
        let len = crate::chain::block_length(trace, i, narrow);
        assert(len == crate::chain::block_length(trace, i, wide));
        crate::chain::lemma_block_fits(trace, i, narrow);
        lemma_wide_windows_agree_from(
            trace,
            i + crate::chain::repeats(trace, i, len) * len,
            narrow,
            wide,
        );
    }
}

/// No block longer than half the trace can recur: windows of at least half the trace
/// all give the same chain.
pub proof fn law_wide_windows_agree(trace: Seq<Seq<char>>, one: int, other: int)
    requires
        trace.len() / 2 <= one,
        trace.len() / 2 <= other,
    ensures
        crate::chain::compressed(trace, one) == crate::chain::compressed(trace, other),
{
    if one <= other {
        lemma_wide_windows_agree_from(trace, 0, one, other);
    } else {
        lemma_wide_windows_agree_from(trace, 0, other, one);
    }
}

/// A rule that runs once reads as itself.
pub proof fn law_lone_rule_reads_as_itself(rule: Seq<char>)
    ensures
        crate::chain::chain_text(seq![lone_rule(rule)]) == rule,
{
    let read = |item: ChainItem| crate::chain::item_text(item);
    assert(seq![lone_rule(rule)].map_values(read) =~= seq![rule]);
}

proof fn lemma_single_entry_reads(item: ChainItem)
    ensures
        crate::chain::chain_text(seq![item]) == crate::chain::item_text(item),
{
    let read = |item: ChainItem| crate::chain::item_text(item);
    assert(seq![item].map_values(read) =~= seq![crate::chain::item_text(item)]);
}

proof fn lemma_lone_rules_read(rules: Seq<Seq<char>>)
    ensures
        crate::chain::chain_text(rules.map_values(|rule: Seq<char>| lone_rule(rule)))
            == crate::text::joined(rules, " -> "@),
{
    let read = |item: ChainItem| crate::chain::item_text(item);
    let alone = rules.map_values(|rule: Seq<char>| lone_rule(rule));
    assert(alone.map_values(read) =~= rules);
}

/// An entry of several rules that runs once reads, in parentheses, as its rules would
/// in a chain of their own: all of them, in order, with arrows between neighbours.
pub proof fn law_block_reads_as_its_rules_in_parentheses(item: ChainItem)
    requires
        item.rules.len() != 1,
        item.repeat <= 1,
    ensures
        crate::chain::chain_text(seq![item]) == "("@ + crate::chain::chain_text(
            item.rules.map_values(|rule: Seq<char>| lone_rule(rule)),
        ) + ")"@,
{
    lemma_single_entry_reads(item);
    lemma_lone_rules_read(item.rules);
}

/// An entry that runs several times reads as if it ran once, followed by the number of
/// times.
pub proof fn law_repeated_entry_reads_with_its_count(item: ChainItem)
    requires
        item.repeat > 1,
    ensures
        crate::chain::chain_text(seq![item]) == crate::chain::chain_text(
            seq![ChainItem { repeat: 1, ..item }],
        ) + " x"@ + crate::text::decimal(item.repeat),
{
    lemma_single_entry_reads(item);
    lemma_single_entry_reads(ChainItem { repeat: 1, ..item });
}

/// The kind of an entry is not written, and an entry that never runs reads as one that
/// runs once.
pub proof fn law_kind_and_absence_are_not_written(item: ChainItem, kind: Seq<char>)
    ensures
        crate::chain::chain_text(seq![item]) == crate::chain::chain_text(
            seq![ChainItem { kind, ..item }],
        ),
        item.repeat == 0 ==> crate::chain::chain_text(seq![item]) == crate::chain::chain_text(
            seq![ChainItem { repeat: 1, ..item }],
        ),
{
    lemma_single_entry_reads(item);
    lemma_single_entry_reads(ChainItem { kind, ..item });
    lemma_single_entry_reads(ChainItem { repeat: 1, ..item });
}

proof fn lemma_copies_are_maximal(trace: Seq<Seq<char>>, i: int, len: int)
    requires
        0 <= i,
        0 < len,
        i + len <= trace.len(),
    ensures
        ({
            let next = i + crate::chain::repeats(trace, i, len) * len;
            next + len <= trace.len() ==> trace.subrange(next, next + len) != trace.subrange(
                i,
                i + len,
            )
        }),
    decreases trace.len() - i,
{
    let count = crate::chain::repeats(trace, i, len);
    if crate::chain::block_recurs(trace, i, len) {
        let rest = crate::chain::repeats(trace, i + len, len);
        lemma_copies_are_maximal(trace, i + len, len);
        assert(count * len == rest * len + len) by (nonlinear_arith)
            requires
                count == rest + 1,
        ;
    } else {
        assert(count * len == len) by (nonlinear_arith)
            requires
                count == 1,
        ;
    }
}

/// The empty trace has the empty chain.
pub proof fn law_empty_trace_has_an_empty_chain(max_window: int)
    ensures
        crate::chain::compressed(Seq::empty(), max_window) == Seq::<ChainItem>::empty(),
{
}

/// What the first entry of a chain says of its trace. It is a block at the front of the
/// trace with all its copies in a row, and no copy more. If the trace begins with a rule
/// twice, the block is that rule. Otherwise the block is the longest within the window
/// that is followed at once by a copy of itself, or the first rule alone if there is
/// none. The rest of the chain is the chain of the rest of the trace.
pub proof fn law_first_entry_of_a_chain(trace: Seq<Seq<char>>, max_window: int)
    requires
        trace.len() > 0,
    ensures
        crate::chain::compressed(trace, max_window).len() > 0,
        ({
            let chain = crate::chain::compressed(trace, max_window);
            let first = chain[0];
            let len = first.rules.len() as int;
            let whole = first.repeat * len;
            &&& 1 <= len <= whole <= trace.len()
            &&& first.rules == trace.take(len)
            &&& copies(first.rules, first.repeat) == trace.take(whole)
            &&& whole + len <= trace.len() ==> trace.subrange(whole, whole + len) != first.rules
            &&& first.kind == if len == 1 {
                "rule"@
            } else {
                "motif"@
            }
            &&& len > 1 ==> len <= max_window && first.repeat >= 2
            &&& trace.len() > 1 && trace[0] == trace[1] ==> len == 1
            &&& chain.skip(1) == crate::chain::compressed(trace.skip(whole), max_window)
        }),
        forall|longer: int|
            2 <= longer <= max_window && 2 * longer <= trace.len() && trace[0] != trace[1]
                && #[trigger] trace.take(longer) == trace.subrange(longer, 2 * longer) ==> longer
                <= crate::chain::compressed(trace, max_window)[0].rules.len(),
{
    let chain = crate::chain::compressed(trace, max_window);
    let len = crate::chain::block_length(trace, 0, max_window);
    let count = crate::chain::repeats(trace, 0, len);
    let whole = count * len;
    let limit = if max_window <= trace.len() {
        max_window
    } else {
        trace.len() as int
    };
    crate::chain::lemma_block_fits(trace, 0, max_window);
    crate::chain::lemma_longest_recurring_fits(trace, 0, limit);
    crate::chain::lemma_repeats_fit(trace, 0, len);
    lemma_block_item_well_formed(trace, 0, max_window);
    assert(chain[0] == crate::chain::block_item(trace, 0, len));
    assert(trace.subrange(0, len) =~= trace.take(len));
    assert(trace.subrange(0, whole) =~= trace.take(whole));
    lemma_copies_of_block(trace, 0, len);
    lemma_copies_are_maximal(trace, 0, len);
    lemma_chain_shifted(trace, whole, 0, max_window);
    assert(chain.skip(1) =~= crate::chain::compressed(trace.skip(whole), max_window));
    if trace.len() > 1 {
        if trace[0] == trace[1] {
            assert(trace.subrange(0, 1) =~= trace.subrange(1, 2));
        } else {
            assert(trace.subrange(0, 1)[0] != trace.subrange(1, 2)[0]);
            assert(!crate::chain::block_recurs(trace, 0, 1));
        }
    }
    assert forall|longer: int|
        2 <= longer <= max_window && 2 * longer <= trace.len() && trace[0] != trace[1]
            && #[trigger] trace.take(longer) == trace.subrange(longer, 2 * longer) implies longer
        <= len by {
        assert(trace.subrange(0, longer) =~= trace.take(longer));
        assert(crate::chain::block_recurs(trace, 0, longer));
    }
}

/// An entry is read by its fields.
pub proof fn law_entry_is_read_by_its_fields(item: CompressedChainItem)
    ensures
        item.deep_view().kind == item.kind@,
        item.deep_view().rules.len() == item.rules@.len(),
        forall|m: int|
            0 <= m < item.rules@.len() ==> #[trigger] item.deep_view().rules[m]
                == item.rules@[m]@,
        item.deep_view().repeat == item.repeat,
{
}

} // verus!
