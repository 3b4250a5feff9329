//! Rule chains: compression of a rule trace into repeated blocks, and the
//! one-line rendering of a compressed chain.

use vstd::prelude::*;

use crate::text::{decimal_text, join_strings};

verus! {

/// One entry of a compressed rule chain: the block `rules`, run `repeat` times
/// in a row. `kind` is `rule` for a single rule and `motif` for a longer block.
#[derive(Clone, Debug, PartialEq, Eq)]
pub struct CompressedChainItem {
    pub kind: String,
    pub rules: Vec<String>,
    pub repeat: usize,
}

/// What a [`CompressedChainItem`] holds.
pub struct ChainItem {
    pub kind: Seq<char>,
    pub rules: Seq<Seq<char>>,
    pub repeat: nat,
}

impl DeepView for CompressedChainItem {
    type V = ChainItem;

    open spec fn deep_view(&self) -> ChainItem {
        ChainItem {
            kind: self.kind@,
            rules: self.rules.deep_view(),
            repeat: self.repeat as nat,
        }
    }
}

/// Whether the block of `len` rules at `i` is followed at once by a copy of
/// itself.
pub open spec fn block_recurs(trace: Seq<Seq<char>>, i: int, len: int) -> bool {
    &&& i + 2 * len <= trace.len()
    &&& trace.subrange(i, i + len) == trace.subrange(i + len, i + 2 * len)
}

/// How many copies of the block of `len` rules at `i` stand in a row from `i` on.
pub open spec fn repeats(trace: Seq<Seq<char>>, i: int, len: int) -> nat
    decreases trace.len() - i,
{
    if len > 0 && block_recurs(trace, i, len) {
        1 + repeats(trace, i + len, len)
    } else {
        1
    }
}

/// The longest block of 2 to `limit` rules at `i` that recurs, or 1 if none does.
pub open spec fn longest_recurring(trace: Seq<Seq<char>>, i: int, limit: int) -> int
    decreases limit,
{
    if limit < 2 {
        1
    } else if block_recurs(trace, i, limit) {
        limit
    } else {
        longest_recurring(trace, i, limit - 1)
    }
}

/// The length of the block that a chain takes at `i`: a run of one rule comes
/// first, then the longest block of at most `max_window` rules that recurs.
pub open spec fn block_length(trace: Seq<Seq<char>>, i: int, max_window: int) -> int {
    if block_recurs(trace, i, 1) {
        1
    } else if max_window <= trace.len() - i {
        longest_recurring(trace, i, max_window)
    } else {
        longest_recurring(trace, i, trace.len() - i)
    }
}

/// The entry for the block of `len` rules at `i`, with all its copies.
pub open spec fn block_item(trace: Seq<Seq<char>>, i: int, len: int) -> ChainItem {
    ChainItem {
        kind: if len == 1 {
            "rule"@
        } else {
            "motif"@
        },
        rules: trace.subrange(i, i + len),
        repeat: repeats(trace, i, len),
    }
}

/// The compressed chain of the trace from `i` on, taken greedily from the left.
pub open spec fn chain_from(trace: Seq<Seq<char>>, i: int, max_window: int) -> Seq<ChainItem>
    decreases trace.len() - i,
{
    if i < 0 || i >= trace.len() {
        Seq::empty()
    } else {
        proof {
            lemma_block_fits(trace, i, max_window);
        }
        let len = block_length(trace, i, max_window);
        seq![block_item(trace, i, len)] + chain_from(
            trace,
            i + repeats(trace, i, len) * len,
            max_window,
        )
    }
}

/// The compressed chain of a whole trace.
pub open spec fn compressed(trace: Seq<Seq<char>>, max_window: int) -> Seq<ChainItem> {
    chain_from(trace, 0, max_window)
}

/// The copies of a block stand inside the trace.
pub proof fn lemma_repeats_fit(trace: Seq<Seq<char>>, i: int, len: int)
    requires
        0 <= i,
        0 < len,
        i + len <= trace.len(),
    ensures
        1 <= repeats(trace, i, len),
        i + repeats(trace, i, len) * len <= trace.len(),
        len <= repeats(trace, i, len) * len,
        block_recurs(trace, i, len) <==> repeats(trace, i, len) >= 2,
    decreases trace.len() - i,
{
    let count = repeats(trace, i, len);
    if block_recurs(trace, i, len) {
        lemma_repeats_fit(trace, i + len, len);
        let rest = repeats(trace, i + len, len);
        assert(count * len == rest * len + len) by (nonlinear_arith)
            requires
                count == rest + 1,
        ;
    } else {
        assert(count * len == len) by (nonlinear_arith)
            requires
                count == 1,
        ;
    }
}

/// A block that a chain takes is not empty and stands inside the trace.
pub proof fn lemma_longest_recurring_fits(trace: Seq<Seq<char>>, i: int, limit: int)
    requires
        0 <= i < trace.len(),
        limit <= trace.len() - i,
    ensures
        1 <= longest_recurring(trace, i, limit),
        i + longest_recurring(trace, i, limit) <= trace.len(),
        longest_recurring(trace, i, limit) > 1 ==> {
            &&& longest_recurring(trace, i, limit) <= limit
            &&& block_recurs(trace, i, longest_recurring(trace, i, limit))
        },
        forall|len: int|
            longest_recurring(trace, i, limit) < len <= limit && 2 <= len ==> !#[trigger] block_recurs(
                trace,
                i,
                len,
            ),
    decreases limit,
{
    if limit >= 2 && !block_recurs(trace, i, limit) {
        lemma_longest_recurring_fits(trace, i, limit - 1);
    }
}

/// The block that a chain takes is not empty, and its copies stand inside the
/// trace.
pub proof fn lemma_block_fits(trace: Seq<Seq<char>>, i: int, max_window: int)
    requires
        0 <= i < trace.len(),
    ensures
        1 <= block_length(trace, i, max_window),
        i + block_length(trace, i, max_window) <= trace.len(),
        1 <= repeats(trace, i, block_length(trace, i, max_window)),
        i < i + repeats(trace, i, block_length(trace, i, max_window)) * block_length(
            trace,
            i,
            max_window,
        ) <= trace.len(),
{
    let limit = if max_window <= trace.len() - i {
        max_window
    } else {
        trace.len() - i
    };
    lemma_longest_recurring_fits(trace, i, limit);
    lemma_repeats_fit(trace, i, block_length(trace, i, max_window));
}

/// Whether the blocks of `len` rules at `i` and at `j` are equal.
fn blocks_equal(trace: &[String], i: usize, j: usize, len: usize) -> (equal: bool)
    requires
        i + len <= trace.len(),
        j + len <= trace.len(),
    ensures
        equal == (trace.deep_view().subrange(i as int, i + len) == trace.deep_view().subrange(
            j as int,
            j + len,
        )),
{
    let ghost t = trace.deep_view();
    let ghost first = t.subrange(i as int, i + len);
    let ghost second = t.subrange(j as int, j + len);
    let mut k: usize = 0;
    while k < len
        invariant
            k <= len,
            i + len <= trace.len(),
            j + len <= trace.len(),
            t == trace.deep_view(),
            first == t.subrange(i as int, i + len),
            second == t.subrange(j as int, j + len),
            forall|m: int| 0 <= m < k ==> first[m] == second[m],
        decreases len - k,
    {
        if trace[i + k] != trace[j + k] {
            proof {
                assert(first[k as int] == trace@[i + k]@);
                assert(second[k as int] == trace@[j + k]@);
            }
            return false;
        }
        proof {
            assert(first[k as int] == trace@[i + k]@);
            assert(second[k as int] == trace@[j + k]@);
        }
        k = k + 1;
    }
    proof {
        assert(first =~= second);
    }
    true
}

/// Counts the copies of the block of `len` rules at `i` that stand in a row.
fn count_repeats(trace: &[String], i: usize, len: usize) -> (count: usize)
    requires
        0 < len,
        i + len <= trace.len(),
    ensures
        count == repeats(trace.deep_view(), i as int, len as int),
{
    let ghost t = trace.deep_view();
    let mut count: usize = 1;
    let mut last: usize = i;
    while trace.len() - last - len >= len && blocks_equal(trace, last, last + len, len)
        invariant
            0 < len,
            t == trace.deep_view(),
            last + len <= trace.len(),
            1 <= count <= last + 1,
            repeats(t, i as int, len as int) + 1 == count + repeats(t, last as int, len as int),
        decreases trace.len() - last,
    {
        count = count + 1;
        last = last + len;
    }
    count
}

/// Copies the block of `len` rules at `i`.
fn copy_block(trace: &[String], i: usize, len: usize) -> (block: Vec<String>)
    requires
        i + len <= trace.len(),
    ensures
        block.deep_view() == trace.deep_view().subrange(i as int, i + len),
{
    let mut block: Vec<String> = Vec::new();
    let mut k: usize = 0;
    while k < len
        invariant
            k <= len,
            i + len <= trace.len(),
            block.len() == k,
            forall|m: int| 0 <= m < k ==> block@[m]@ == trace@[i + m]@,
        decreases len - k,
    {
        block.push(trace[i + k].clone());
        k = k + 1;
    }
    proof {
        assert(block.deep_view() =~= trace.deep_view().subrange(i as int, i + len));
    }
    block
}

/// Compresses a rule trace, from the left: a run of one rule becomes one entry;
/// failing that, the longest block of at most `max_window` rules that recurs at
/// once becomes one entry with all its copies; failing that, the rule stands
/// alone.
pub fn compress_rule_trace(rule_trace: &[String], max_window: usize) -> (items: Vec<
    CompressedChainItem,
>)
    ensures
        items.deep_view() == compressed(rule_trace.deep_view(), max_window as int),
{
    let ghost t = rule_trace.deep_view();
    let ghost window = max_window as int;
    let mut items: Vec<CompressedChainItem> = Vec::new();
    let mut i: usize = 0;
    proof {
        assert(items.deep_view() =~= Seq::empty());
        assert(items.deep_view() + chain_from(t, 0, window) =~= compressed(t, window));
    }
    while i < rule_trace.len()
        invariant
            t == rule_trace.deep_view(),
            window == max_window,
            i <= rule_trace.len(),
            items.deep_view() + chain_from(t, i as int, window) == compressed(t, window),
        decreases rule_trace.len() - i,
    {
        let mut chosen_len: usize = 1;
        let mut chosen_repeat: usize = count_repeats(rule_trace, i, 1);
        proof {
            lemma_repeats_fit(t, i as int, 1);
        }
        if chosen_repeat < 2 {
            let remaining = rule_trace.len() - i;
            let mut len: usize = if max_window <= remaining {
                max_window
            } else {
                remaining
            };
            let ghost limit = len as int;
            while len >= 2 && chosen_len == 1
                invariant
                    t == rule_trace.deep_view(),
                    i < rule_trace.len(),
                    len <= limit <= rule_trace.len() - i,
                    chosen_len >= 1,
                    chosen_len == 1 ==> {
                        &&& chosen_repeat == 1
                        &&& longest_recurring(t, i as int, limit) == longest_recurring(
                            t,
                            i as int,
                            len as int,
                        )
                    },
                    chosen_len > 1 ==> {
                        &&& longest_recurring(t, i as int, limit) == chosen_len
                        &&& chosen_repeat == repeats(t, i as int, chosen_len as int)
                    },
                decreases
                    if chosen_len == 1 {
                        len as int
                    } else {
                        0
                    },
            {
                let repeat = count_repeats(rule_trace, i, len);
                proof {
                    lemma_repeats_fit(t, i as int, len as int);
                }
                if repeat >= 2 {
                    chosen_len = len;
                    chosen_repeat = repeat;
                } else {
                    len = len - 1;
                }
            }
        }
        proof {
            assert(chosen_len == block_length(t, i as int, window));
            lemma_block_fits(t, i as int, window);
        }
        let kind = if chosen_len == 1 {
            "rule".to_owned()
        } else {
            "motif".to_owned()
        };
        let item = CompressedChainItem {
            kind,
            rules: copy_block(rule_trace, i, chosen_len),
            repeat: chosen_repeat,
        };
        let ghost before = items.deep_view();
        items.push(item);
        proof {
            assert(item.deep_view() == block_item(t, i as int, chosen_len as int));
            assert(items.deep_view() =~= before.push(item.deep_view()));
            assert(chosen_len * chosen_repeat == chosen_repeat * chosen_len) by (nonlinear_arith);
            assert(items.deep_view() + chain_from(t, i + chosen_repeat * chosen_len, window)
                =~= before + chain_from(t, i as int, window));
        }
        i = i + chosen_len * chosen_repeat;
    }
    proof {
        assert(items.deep_view() + chain_from(t, i as int, window) =~= items.deep_view());
    }
    items
}

/// How an entry reads: its rule, or its rules joined by arrows in parentheses,
/// followed by the number of copies if there are several.
pub open spec fn item_text(item: ChainItem) -> Seq<char> {
    let body = if item.rules.len() == 1 {
        item.rules[0]
    } else {
        "("@ + crate::text::joined(item.rules, " -> "@) + ")"@
    };
    if item.repeat > 1 {
        body + " x"@ + crate::text::decimal(item.repeat)
    } else {
        body
    }
}

/// How a chain reads: its entries joined by arrows.
pub open spec fn chain_text(items: Seq<ChainItem>) -> Seq<char> {
    crate::text::joined(items.map_values(|item: ChainItem| item_text(item)), " -> "@)
}

/// Renders one entry.
fn format_item(item: &CompressedChainItem) -> (text: String)
    ensures
        text@ == item_text(item.deep_view()),
{
    let mut text = if item.rules.len() == 1 {
        item.rules[0].clone()
    } else {
        let rules = item.rules.as_slice();
        proof {
            assert(rules.deep_view() =~= item.rules.deep_view());
        }
        "(".to_owned().concat(join_strings(rules, " -> ").as_str()).concat(")")
    };
    if item.repeat > 1 {
        text.append(" x");
        text.append(decimal_text(item.repeat).as_str());
    }
    text
}

/// Renders a compressed chain on one line, such as `A x2 -> (B -> C) x2 -> D`.
pub fn format_compressed_rule_chain(items: &[CompressedChainItem]) -> (text: String)
    ensures
        text@ == chain_text(items.deep_view()),
{
    let mut pieces: Vec<String> = Vec::new();
    let mut k: usize = 0;
    while k < items.len()
        invariant
            k <= items.len(),
            pieces.len() == k,
            forall|m: int| 0 <= m < k ==> pieces@[m]@ == item_text(items.deep_view()[m]),
        decreases items.len() - k,
    {
        pieces.push(format_item(&items[k]));
        k = k + 1;
    }
    let pieces = pieces.as_slice();
    proof {
        assert(pieces.deep_view() =~= items.deep_view().map_values(
            |item: ChainItem| item_text(item),
        ));
    }
    join_strings(pieces, " -> ")
}

} // verus!
