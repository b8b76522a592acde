//! What was once decided of a tool result stays decided: the proof that a budget, applied
//! to a conversation again, comes to the same.
use vstd::prelude::*;

use crate::conversation::{BlockView, MessageView};
use crate::keyed::Pairs;
use crate::keyed;
use crate::text;
use crate::tool_result::{
    Ledger, Progress, Setting, Sorted, SpillView, ToolResultBudgetConfig, Work,
};
use crate::tool_result;

verus! {

/// Whether no two tool results of a message have the same id.
pub open spec fn distinct_in(content: Seq<BlockView>) -> bool {
    forall|i: int, j: int|
        0 <= i < content.len() && 0 <= j < content.len() && (#[trigger] content[i]) is ToolResult
            && (#[trigger] content[j]) is ToolResult && tool_result::id_at(content, i)
            == tool_result::id_at(content, j) ==> i == j
}

/// Whether a message has a tool result with that id.
pub open spec fn has_id(content: Seq<BlockView>, id: Seq<char>) -> bool {
    exists|i: int|
        0 <= i < content.len() && (#[trigger] content[i]) is ToolResult && tool_result::id_at(
            content,
            i,
        ) == id
}

/// Whether no two tool results of a conversation have the same id.
pub open spec fn distinct_results(messages: Seq<MessageView>) -> bool {
    &&& forall|i: int| 0 <= i < messages.len() ==> distinct_in((#[trigger] messages[i]).content)
    &&& forall|i: int, j: int, id: Seq<char>|
        0 <= i < messages.len() && 0 <= j < messages.len() && #[trigger] has_id(
            messages[i].content,
            id,
        ) && #[trigger] has_id(messages[j].content, id) ==> i == j
}

/// What a ledger says is sent for a result: its replacement, or the result itself.
pub open spec fn shown_text(replaced: Pairs, id: Seq<char>, content: Seq<char>) -> Seq<char> {
    match keyed::value_of(replaced, id) {
        Some(replacement) => replacement,
        None => content,
    }
}

/// What a ledger says is sent for a block.
pub open spec fn shown_block(replaced: Pairs, block: BlockView) -> BlockView {
    match block {
        BlockView::ToolResult { tool_use_id, content, is_error } => BlockView::ToolResult {
            tool_use_id,
            content: shown_text(replaced, tool_use_id, content),
            is_error,
        },
        _ => block,
    }
}

/// What a ledger says is sent for blocks.
pub open spec fn shown_blocks(replaced: Pairs, content: Seq<BlockView>) -> Seq<BlockView> {
    content.map_values(|block: BlockView| shown_block(replaced, block))
}

/// What a ledger says is sent for a message.
pub open spec fn shown_message(replaced: Pairs, message: MessageView) -> MessageView {
    MessageView { content: shown_blocks(replaced, message.content), ..message }
}

/// What a ledger says is sent for a conversation.
pub open spec fn shown(replaced: Pairs, messages: Seq<MessageView>) -> Seq<MessageView> {
    messages.map_values(|message: MessageView| shown_message(replaced, message))
}

/// Whether a ledger has decided of the result with that id.
pub open spec fn is_decided(ledger: Ledger, id: Seq<char>) -> bool {
    ledger.seen.contains(id) || keyed::value_of(ledger.replaced, id) is Some
}

/// Whether a ledger has decided of all results of a message.
pub open spec fn decided_in(ledger: Ledger, content: Seq<BlockView>) -> bool {
    forall|i: int|
        0 <= i < content.len() && (#[trigger] content[i]) is ToolResult ==> is_decided(
            ledger,
            tool_result::id_at(content, i),
        )
}

/// Whether a ledger has decided of all results of a conversation.
pub open spec fn decided_of(ledger: Ledger, messages: Seq<MessageView>) -> bool {
    forall|i: int| 0 <= i < messages.len() ==> decided_in(ledger, (#[trigger] messages[i]).content)
}

/// What holds once the first `end` blocks were sorted out.
spec fn sorting(ledger: Ledger, content: Seq<BlockView>, sorted: Sorted, end: int) -> bool {
    &&& forall|i: int|
        0 <= i < end && (#[trigger] content[i]) is ToolResult && !sorted.fresh.contains(i) ==> {
            let id = tool_result::id_at(content, i);
            &&& keyed::value_of(sorted.decisions, id) == Some(
                shown_text(sorted.ledger.replaced, id, tool_result::text_at(content, i)),
            )
            &&& is_decided(sorted.ledger, id)
        }
    &&& forall|i: int|
        0 <= i < content.len() && (#[trigger] content[i]) is ToolResult && (i >= end
            || sorted.fresh.contains(i)) ==> {
            let id = tool_result::id_at(content, i);
            &&& keyed::value_of(sorted.decisions, id) is None
            &&& keyed::value_of(sorted.ledger.replaced, id) == keyed::value_of(ledger.replaced, id)
            &&& sorted.ledger.seen.contains(id) == ledger.seen.contains(id)
        }
    &&& forall|i: int|
        0 <= i < content.len() && (#[trigger] content[i]) is ToolResult && sorted.fresh.contains(i)
            ==> keyed::value_of(ledger.replaced, tool_result::id_at(content, i)) is None
            && !ledger.seen.contains(tool_result::id_at(content, i))
    &&& forall|id: Seq<char>|
        !has_id(content, id) ==> #[trigger] keyed::value_of(sorted.ledger.replaced, id)
            == keyed::value_of(ledger.replaced, id)
    &&& ledger.seen.subset_of(sorted.ledger.seen)
    &&& forall|k: int|
        0 <= k < sorted.fresh.len() ==> 0 <= (#[trigger] sorted.fresh[k]) < end
            && content[sorted.fresh[k]] is ToolResult
    &&& sorted.fresh.no_duplicates()
}

/// Sorting out keeps [`sorting`].
proof fn lemma_sorting(ledger: Ledger, content: Seq<BlockView>, end: int)
    requires
        0 <= end <= content.len(),
        distinct_in(content),
    ensures
        sorting(ledger, content, tool_result::sorted_out(ledger, content, end), end),
    decreases end,
{
    if end > 0 {
        lemma_sorting(ledger, content, end - 1);
        let before = tool_result::sorted_out(ledger, content, end - 1);
        let after = tool_result::sorted_out(ledger, content, end);
        let at = end - 1;
        if content[at] is ToolResult {
            let id = tool_result::id_at(content, at);
            let text = tool_result::text_at(content, at);
            assert(has_id(content, id));
            assert(!before.fresh.contains(at)) by {
                if before.fresh.contains(at) {
                    let k = choose|k: int|
                        0 <= k < before.fresh.len() && before.fresh[k] == at;
                    assert(before.fresh[k] < at);
                }
            }
            assert forall|i: int| before.fresh.contains(i) implies after.fresh.contains(i) by {
                let k = choose|k: int| 0 <= k < before.fresh.len() && before.fresh[k] == i;
                assert(after.fresh[k] == i);
            }
            assert forall|i: int| after.fresh.contains(i) && i != at implies before.fresh.contains(
                i,
            ) by {
                let k = choose|k: int| 0 <= k < after.fresh.len() && after.fresh[k] == i;
                assert(before.fresh[k] == i);
            }
            let replacement = keyed::value_of(before.ledger.replaced, id);
            assert forall|other: Seq<char>| other != id implies #[trigger] keyed::value_of(
                after.decisions,
                other,
            ) == keyed::value_of(before.decisions, other) && keyed::value_of(
                after.ledger.replaced,
                other,
            ) == keyed::value_of(before.ledger.replaced, other) by {
                if replacement is Some {
                    keyed::lemma_with_value(before.decisions, id, replacement->0, other);
                }
                keyed::lemma_with_value(before.decisions, id, text, other);
                keyed::lemma_with_value(before.ledger.replaced, id, text, other);
            }
            if replacement is Some {
                keyed::lemma_with_value(before.decisions, id, replacement->0, id);
            }
            keyed::lemma_with_value(before.decisions, id, text, id);
            keyed::lemma_with_value(before.ledger.replaced, id, text, id);
            assert forall|i: int|
                0 <= i < content.len() && (#[trigger] content[i]) is ToolResult && i
                    != at implies tool_result::id_at(content, i) != id by {}
            assert forall|other: Seq<char>|
                !has_id(content, other) implies #[trigger] keyed::value_of(
                after.ledger.replaced,
                other,
            ) == keyed::value_of(ledger.replaced, other) by {
                assert(other != id);
                assert(keyed::value_of(after.decisions, other) == keyed::value_of(
                    before.decisions,
                    other,
                ));
            }
            if after.fresh.len() > before.fresh.len() {
                assert(after.fresh =~= before.fresh.push(at));
                assert(after.fresh[after.fresh.len() - 1] == at);
                assert(after.fresh.contains(at));
            } else {
                assert(after.fresh == before.fresh);
            }
        } else {
            assert forall|i: int|
                0 <= i < content.len() && (#[trigger] content[i]) is ToolResult && (i >= end - 1)
                    implies i >= end by {}
        }
    }
}

/// What holds during the work on a message.
spec fn working(start: Ledger, content: Seq<BlockView>, work: Work) -> bool {
    &&& forall|i: int|
        0 <= i < content.len() && (#[trigger] content[i]) is ToolResult ==> {
            let id = tool_result::id_at(content, i);
            match keyed::value_of(work.decisions, id) {
                Some(decided) => decided == shown_text(
                    work.ledger.replaced,
                    id,
                    tool_result::text_at(content, i),
                ) && is_decided(work.ledger, id),
                None => keyed::value_of(work.ledger.replaced, id) is None,
            }
        }
    &&& forall|id: Seq<char>|
        !has_id(content, id) ==> #[trigger] keyed::value_of(work.ledger.replaced, id)
            == keyed::value_of(start.replaced, id)
    &&& forall|id: Seq<char>|
        keyed::value_of(start.replaced, id) is Some ==> #[trigger] keyed::value_of(
            work.ledger.replaced,
            id,
        ) == keyed::value_of(start.replaced, id)
    &&& start.seen.subset_of(work.ledger.seen)
}

/// Shortening a result that has not been decided of keeps [`working`], and decides of
/// that result alone.
proof fn lemma_shortened(
    start: Ledger,
    content: Seq<BlockView>,
    work: Work,
    setting: Setting,
    at: int,
)
    requires
        distinct_in(content),
        working(start, content, work),
        0 <= at < content.len(),
        content[at] is ToolResult,
        keyed::value_of(work.decisions, tool_result::id_at(content, at)) is None,
    ensures
        tool_result::shortened(
            work,
            setting,
            tool_result::id_at(content, at),
            tool_result::text_at(content, at),
        ) matches Ok(after) ==> working(start, content, after) && (forall|i: int|
            0 <= i < content.len() && (#[trigger] content[i]) is ToolResult && i != at ==> (
            keyed::value_of(after.decisions, tool_result::id_at(content, i)) is None
                <==> keyed::value_of(work.decisions, tool_result::id_at(content, i)) is None)),
{
    let id = tool_result::id_at(content, at);
    let text = tool_result::text_at(content, at);
    if let Ok(after) = tool_result::shortened(work, setting, id, text) {
        let sent = tool_result::preview(setting, id, text);
        assert(has_id(content, id));
        keyed::lemma_with_value(work.decisions, id, text, id);
        keyed::lemma_with_value(work.decisions, id, sent, id);
        keyed::lemma_with_value(work.ledger.replaced, id, sent, id);
        assert forall|other: Seq<char>| other != id implies #[trigger] keyed::value_of(
            after.decisions,
            other,
        ) == keyed::value_of(work.decisions, other) && keyed::value_of(
            after.ledger.replaced,
            other,
        ) == keyed::value_of(work.ledger.replaced, other) by {
            keyed::lemma_with_value(work.decisions, id, text, other);
            keyed::lemma_with_value(work.decisions, id, sent, other);
            keyed::lemma_with_value(work.ledger.replaced, id, sent, other);
        }
        assert forall|i: int|
            0 <= i < content.len() && (#[trigger] content[i]) is ToolResult && i
                != at implies tool_result::id_at(content, i) != id by {}
        assert forall|other: Seq<char>| !has_id(content, other) implies #[trigger] keyed::value_of(
            after.ledger.replaced,
            other,
        ) == keyed::value_of(start.replaced, other) by {
            assert(other != id);
            assert(keyed::value_of(after.decisions, other) == keyed::value_of(
                work.decisions,
                other,
            ));
        }
        assert forall|other: Seq<char>|
            keyed::value_of(start.replaced, other) is Some implies #[trigger] keyed::value_of(
            after.ledger.replaced,
            other,
        ) == keyed::value_of(start.replaced, other) by {
            assert(keyed::value_of(work.ledger.replaced, other) == keyed::value_of(
                start.replaced,
                other,
            ));
            assert(other != id);
            assert(keyed::value_of(after.decisions, other) == keyed::value_of(
                work.decisions,
                other,
            ));
        }
    }
}

/// Whether positions are those of tool results, each once.
spec fn result_places(content: Seq<BlockView>, places: Seq<int>) -> bool {
    &&& forall|k: int|
        0 <= k < places.len() ==> 0 <= (#[trigger] places[k]) < content.len()
            && content[places[k]] is ToolResult
    &&& places.no_duplicates()
}

/// Whether the results at `places[from..]` have not been decided of.
spec fn open_from(content: Seq<BlockView>, places: Seq<int>, work: Work, from: int) -> bool {
    forall|k: int|
        from <= k < places.len() ==> keyed::value_of(
            work.decisions,
            tool_result::id_at(content, #[trigger] places[k]),
        ) is None
}

/// Holding fresh results to the limit of a single result keeps [`working`].
proof fn lemma_singles(
    start: Ledger,
    content: Seq<BlockView>,
    work: Work,
    setting: Setting,
    fresh: Seq<int>,
    end: int,
)
    requires
        distinct_in(content),
        working(start, content, work),
        result_places(content, fresh),
        open_from(content, fresh, work, 0),
        0 <= end <= fresh.len(),
    ensures
        tool_result::singles_done(work, setting, content, fresh, end) matches Ok(after) ==> working(
            start,
            content,
            after,
        ) && open_from(content, fresh, after, end) && (forall|i: int|
            0 <= i < content.len() && (#[trigger] content[i]) is ToolResult && !fresh.contains(i)
                ==> (keyed::value_of(after.decisions, tool_result::id_at(content, i)) is None
                <==> keyed::value_of(work.decisions, tool_result::id_at(content, i)) is None)),
    decreases end,
{
    if end > 0 {
        lemma_singles(start, content, work, setting, fresh, end - 1);
        if let Ok(before) = tool_result::singles_done(work, setting, content, fresh, end - 1) {
            let at = fresh[end - 1];
            lemma_shortened(start, content, before, setting, at);
            if let Ok(after) = tool_result::singles_done(work, setting, content, fresh, end) {
                assert forall|k: int| end <= k < fresh.len() implies keyed::value_of(
                    after.decisions,
                    tool_result::id_at(content, #[trigger] fresh[k]),
                ) is None by {
                    assert(fresh[k] != fresh[end - 1]);
                    assert(content[fresh[k]] is ToolResult);
                    assert(keyed::value_of(
                        before.decisions,
                        tool_result::id_at(content, fresh[k]),
                    ) is None);
                }
                assert(fresh.contains(at));
            }
        }
    }
}

/// Shortening results in order keeps [`working`].
proof fn lemma_aggregate(
    start: Ledger,
    content: Seq<BlockView>,
    work: Work,
    setting: Setting,
    order: Seq<int>,
    end: int,
)
    requires
        distinct_in(content),
        working(start, content, work),
        result_places(content, order),
        open_from(content, order, work, 0),
        0 <= end <= order.len(),
    ensures
        tool_result::aggregate_done(work, setting, content, order, end) matches Ok(after)
            ==> working(start, content, after) && open_from(content, order, after, end) && (forall|
            i: int,
        |
            0 <= i < content.len() && (#[trigger] content[i]) is ToolResult && keyed::value_of(
                work.decisions,
                tool_result::id_at(content, i),
            ) is Some ==> keyed::value_of(
                after.decisions,
                tool_result::id_at(content, i),
            ) is Some),
    decreases end,
{
    if end > 0 {
        lemma_aggregate(start, content, work, setting, order, end - 1);
        if let Ok(before) = tool_result::aggregate_done(work, setting, content, order, end - 1) {
            let at = order[end - 1];
            lemma_shortened(start, content, before, setting, at);
            if let Ok(after) = tool_result::aggregate_done(work, setting, content, order, end) {
                assert forall|k: int| end <= k < order.len() implies keyed::value_of(
                    after.decisions,
                    tool_result::id_at(content, #[trigger] order[k]),
                ) is None by {
                    assert(order[k] != order[end - 1]);
                    assert(content[order[k]] is ToolResult);
                    assert(keyed::value_of(
                        before.decisions,
                        tool_result::id_at(content, order[k]),
                    ) is None);
                }
                assert forall|i: int|
                    0 <= i < content.len() && (#[trigger] content[i]) is ToolResult
                        && keyed::value_of(
                        work.decisions,
                        tool_result::id_at(content, i),
                    ) is Some implies keyed::value_of(
                    after.decisions,
                    tool_result::id_at(content, i),
                ) is Some by {
                    assert(i != at);
                }
            }
        }
    }
}

/// Settling fresh results keeps [`working`], and leaves none of them undecided.
proof fn lemma_settled(
    start: Ledger,
    content: Seq<BlockView>,
    work: Work,
    fresh: Seq<int>,
    end: int,
)
    requires
        distinct_in(content),
        working(start, content, work),
        result_places(content, fresh),
        0 <= end <= fresh.len(),
    ensures
        ({
            let after = tool_result::settled(work, content, fresh, end);
            &&& working(start, content, after)
            &&& after.used == work.used
            &&& forall|k: int|
                0 <= k < end ==> keyed::value_of(
                    after.decisions,
                    tool_result::id_at(content, #[trigger] fresh[k]),
                ) is Some
            &&& forall|i: int|
                0 <= i < content.len() && (#[trigger] content[i]) is ToolResult && keyed::value_of(
                    work.decisions,
                    tool_result::id_at(content, i),
                ) is Some ==> keyed::value_of(
                    after.decisions,
                    tool_result::id_at(content, i),
                ) is Some
        }),
    decreases end,
{
    if end > 0 {
        lemma_settled(start, content, work, fresh, end - 1);
        let before = tool_result::settled(work, content, fresh, end - 1);
        let after = tool_result::settled(work, content, fresh, end);
        let at = fresh[end - 1];
        let id = tool_result::id_at(content, at);
        let text = tool_result::text_at(content, at);
        assert(has_id(content, id));
        keyed::lemma_with_value(before.decisions, id, text, id);
        assert forall|other: Seq<char>| other != id implies #[trigger] keyed::value_of(
            after.decisions,
            other,
        ) == keyed::value_of(before.decisions, other) by {
            keyed::lemma_with_value(before.decisions, id, text, other);
        }
        assert forall|i: int|
            0 <= i < content.len() && (#[trigger] content[i]) is ToolResult && i
                != at implies tool_result::id_at(content, i) != id by {}
        assert(after.ledger.replaced == before.ledger.replaced);
        assert forall|i: int| 0 <= i < content.len() && (#[trigger] content[i]) is ToolResult implies ({
            let other = tool_result::id_at(content, i);
            match keyed::value_of(after.decisions, other) {
                Some(decided) => decided == shown_text(
                    after.ledger.replaced,
                    other,
                    tool_result::text_at(content, i),
                ) && is_decided(after.ledger, other),
                None => keyed::value_of(after.ledger.replaced, other) is None,
            }
        }) by {
            if i != at {
                assert(keyed::value_of(after.decisions, tool_result::id_at(content, i))
                    == keyed::value_of(before.decisions, tool_result::id_at(content, i)));
            }
        }
        assert forall|k: int| 0 <= k < end implies keyed::value_of(
            after.decisions,
            tool_result::id_at(content, #[trigger] fresh[k]),
        ) is Some by {
            if k < end - 1 {
                assert(keyed::value_of(
                    before.decisions,
                    tool_result::id_at(content, fresh[k]),
                ) is Some);
                if tool_result::id_at(content, fresh[k]) != id {
                    assert(keyed::value_of(after.decisions, tool_result::id_at(content, fresh[k]))
                        == keyed::value_of(
                        before.decisions,
                        tool_result::id_at(content, fresh[k]),
                    ));
                }
            }
        }
        assert forall|i: int|
            0 <= i < content.len() && (#[trigger] content[i]) is ToolResult && keyed::value_of(
                work.decisions,
                tool_result::id_at(content, i),
            ) is Some implies keyed::value_of(
            after.decisions,
            tool_result::id_at(content, i),
        ) is Some by {
            if i != at {
                assert(keyed::value_of(after.decisions, tool_result::id_at(content, i))
                    == keyed::value_of(before.decisions, tool_result::id_at(content, i)));
            }
        }
    }
}

/// The undecided results are fresh results, each once.
proof fn lemma_undecided(content: Seq<BlockView>, fresh: Seq<int>, decisions: Pairs)
    requires
        result_places(content, fresh),
    ensures
        ({
            let left = tool_result::undecided(content, fresh, decisions);
            &&& result_places(content, left)
            &&& forall|k: int|
                0 <= k < left.len() ==> fresh.contains(#[trigger] left[k]) && keyed::value_of(
                    decisions,
                    tool_result::id_at(content, left[k]),
                ) is None
        }),
    decreases fresh.len(),
{
    if fresh.len() > 0 {
        let fewer = fresh.drop_last();
        assert forall|k: int| 0 <= k < fewer.len() implies 0 <= (#[trigger] fewer[k])
            < content.len() && content[fewer[k]] is ToolResult by {
            assert(fewer[k] == fresh[k]);
        }
        assert(fewer.no_duplicates());
        lemma_undecided(content, fewer, decisions);
        let before = tool_result::undecided(content, fewer, decisions);
        let left = tool_result::undecided(content, fresh, decisions);
        assert forall|x: int| fewer.contains(x) implies fresh.contains(x) && x != fresh.last() by {
            let k = choose|k: int| 0 <= k < fewer.len() && fewer[k] == x;
            assert(fresh[k] == x);
            assert(fresh[k] != fresh[fresh.len() - 1]);
        }
        assert(fresh.contains(fresh[fresh.len() - 1]));
        assert forall|k: int| 0 <= k < left.len() implies fresh.contains(#[trigger] left[k])
            && keyed::value_of(decisions, tool_result::id_at(content, left[k])) is None && 0
            <= left[k] < content.len() && content[left[k]] is ToolResult by {
            if k < before.len() {
                assert(left[k] == before[k]);
            }
        }
        assert forall|a: int, b: int| 0 <= a < b < left.len() implies left[a] != left[b] by {
            assert(left[a] == before[a]);
            if b < before.len() {
                assert(left[b] == before[b]);
            } else {
                assert(fewer.contains(before[a]));
            }
        }
    }
}

/// Ordering results changes neither what they are nor how often they stand there.
proof fn lemma_longest_first(content: Seq<BlockView>, results: Seq<int>)
    requires
        result_places(content, results),
    ensures
        ({
            let order = tool_result::longest_first(content, results);
            &&& result_places(content, order)
            &&& forall|k: int| 0 <= k < order.len() ==> results.contains(#[trigger] order[k])
        }),
    decreases results.len(),
{
    if results.len() > 0 {
        let fewer = results.drop_last();
        assert forall|k: int| 0 <= k < fewer.len() implies 0 <= (#[trigger] fewer[k])
            < content.len() && content[fewer[k]] is ToolResult by {
            assert(fewer[k] == results[k]);
        }
        assert(fewer.no_duplicates());
        lemma_longest_first(content, fewer);
        let before = tool_result::longest_first(content, fewer);
        let last = results.last();
        lemma_shorter_from(content, before, last, 0);
        let at = tool_result::shorter_from(content, before, last, 0);
        let order = before.insert(at, last);
        assert forall|x: int| fewer.contains(x) implies results.contains(x) && x != last by {
            let k = choose|k: int| 0 <= k < fewer.len() && fewer[k] == x;
            assert(results[k] == x);
            assert(results[k] != results[results.len() - 1]);
        }
        assert(results.contains(results[results.len() - 1]));
        assert forall|k: int| 0 <= k < order.len() implies results.contains(#[trigger] order[k])
            && 0 <= order[k] < content.len() && content[order[k]] is ToolResult by {
            if k < at {
                assert(order[k] == before[k]);
            } else if k > at {
                assert(order[k] == before[k - 1]);
            }
        }
        assert forall|a: int, b: int| 0 <= a < b < order.len() implies order[a] != order[b] by {
            let x = if a < at {
                a
            } else {
                a - 1
            };
            let y = if b < at {
                b
            } else {
                b - 1
            };
            if a == at {
                assert(order[b] == before[y]);
                assert(fewer.contains(before[y]));
            } else if b == at {
                assert(order[a] == before[x]);
                assert(fewer.contains(before[x]));
            } else {
                assert(order[a] == before[x] && order[b] == before[y]);
            }
        }
    }
}

/// [`tool_result::shorter_from`] stays within the results.
proof fn lemma_shorter_from(content: Seq<BlockView>, order: Seq<int>, index: int, from: int)
    requires
        0 <= from <= order.len(),
    ensures
        from <= tool_result::shorter_from(content, order, index, from) <= order.len(),
    decreases order.len() - from,
{
    if from < order.len() {
        lemma_shorter_from(content, order, index, from + 1);
    }
}

/// What the work on a message comes to: each result is decided of, what is sent for it is
/// what the ledger says, what the ledger said of replacements before it still says, and
/// of results of other messages it says what it said.
proof fn lemma_message_work(ledger: Ledger, used: int, setting: Setting, content: Seq<BlockView>)
    requires
        distinct_in(content),
    ensures
        tool_result::message_work(ledger, used, setting, content) matches Ok(work) ==> {
            &&& forall|i: int|
                0 <= i < content.len() && (#[trigger] content[i]) is ToolResult ==> keyed::value_of(
                    work.decisions,
                    tool_result::id_at(content, i),
                ) == Some(
                    shown_text(
                        work.ledger.replaced,
                        tool_result::id_at(content, i),
                        tool_result::text_at(content, i),
                    ),
                )
            &&& decided_in(work.ledger, content)
            &&& forall|id: Seq<char>|
                !has_id(content, id) ==> #[trigger] keyed::value_of(work.ledger.replaced, id)
                    == keyed::value_of(ledger.replaced, id)
            &&& forall|id: Seq<char>|
                keyed::value_of(ledger.replaced, id) is Some ==> #[trigger] keyed::value_of(
                    work.ledger.replaced,
                    id,
                ) == keyed::value_of(ledger.replaced, id)
            &&& ledger.seen.subset_of(work.ledger.seen)
        },
{
    let sorted = tool_result::sorted_out(ledger, content, content.len() as int);
    let fresh = sorted.fresh;
    let start = Work { ledger: sorted.ledger, decisions: sorted.decisions, used, total: 0 };
    lemma_sorting(ledger, content, content.len() as int);
    assert(result_places(content, fresh));
    assert forall|id: Seq<char>|
        keyed::value_of(ledger.replaced, id) is Some implies #[trigger] keyed::value_of(
        sorted.ledger.replaced,
        id,
    ) == keyed::value_of(ledger.replaced, id) by {
        lemma_sorting_keeps(ledger, content, content.len() as int, id);
    }
    assert(working(ledger, content, start));
    assert forall|k: int| 0 <= k < fresh.len() implies keyed::value_of(
        start.decisions,
        tool_result::id_at(content, #[trigger] fresh[k]),
    ) is None by {
        assert(fresh.contains(fresh[k]));
    }
    lemma_singles(ledger, content, start, setting, fresh, fresh.len() as int);
    if let Ok(singles) = tool_result::singles_done(
        start,
        setting,
        content,
        fresh,
        fresh.len() as int,
    ) {
        let left = tool_result::undecided(content, fresh, singles.decisions);
        let counted = Work {
            total: tool_result::decided_bytes(singles.decisions) + tool_result::result_bytes(
                content,
                left,
            ),
            ..singles
        };
        let order = tool_result::longest_first(content, left);
        lemma_undecided(content, fresh, singles.decisions);
        lemma_longest_first(content, left);
        assert(working(ledger, content, counted));
        assert forall|k: int| 0 <= k < order.len() implies keyed::value_of(
            counted.decisions,
            tool_result::id_at(content, #[trigger] order[k]),
        ) is None by {
            assert(left.contains(order[k]));
            let at = choose|j: int| 0 <= j < left.len() && left[j] == order[k];
            assert(keyed::value_of(
                singles.decisions,
                tool_result::id_at(content, left[at]),
            ) is None);
        }
        lemma_aggregate(ledger, content, counted, setting, order, order.len() as int);
        if let Ok(within) = tool_result::aggregate_done(
            counted,
            setting,
            content,
            order,
            order.len() as int,
        ) {
            lemma_settled(ledger, content, within, fresh, fresh.len() as int);
            let work = tool_result::settled(within, content, fresh, fresh.len() as int);
            assert forall|i: int|
                0 <= i < content.len() && (#[trigger] content[i]) is ToolResult implies keyed::value_of(
                work.decisions,
                tool_result::id_at(content, i),
            ) is Some by {
                if fresh.contains(i) {
                    let k = choose|k: int| 0 <= k < fresh.len() && fresh[k] == i;
                    assert(keyed::value_of(
                        work.decisions,
                        tool_result::id_at(content, fresh[k]),
                    ) is Some);
                } else {
                    assert(keyed::value_of(
                        start.decisions,
                        tool_result::id_at(content, i),
                    ) is Some);
                    assert(keyed::value_of(
                        singles.decisions,
                        tool_result::id_at(content, i),
                    ) is Some);
                }
            }
        }
    }
}

/// Sorting out changes no replacement.
proof fn lemma_sorting_keeps(ledger: Ledger, content: Seq<BlockView>, end: int, id: Seq<char>)
    requires
        0 <= end <= content.len(),
        keyed::value_of(ledger.replaced, id) is Some,
    ensures
        keyed::value_of(tool_result::sorted_out(ledger, content, end).ledger.replaced, id)
            == keyed::value_of(ledger.replaced, id),
    decreases end,
{
    if end > 0 {
        lemma_sorting_keeps(ledger, content, end - 1, id);
        let before = tool_result::sorted_out(ledger, content, end - 1);
        if content[end - 1] is ToolResult {
            keyed::lemma_with_value(
                before.ledger.replaced,
                tool_result::id_at(content, end - 1),
                tool_result::text_at(content, end - 1),
                id,
            );
        }
    }
}

/// Two ledgers that say the same of the results of a message show it alike.
proof fn lemma_shown_alike(left: Pairs, right: Pairs, message: MessageView)
    requires
        forall|id: Seq<char>|
            has_id(message.content, id) ==> #[trigger] keyed::value_of(left, id)
                == keyed::value_of(right, id),
    ensures
        shown_message(left, message) == shown_message(right, message),
{
    let content = message.content;
    assert forall|i: int| 0 <= i < content.len() implies shown_block(left, #[trigger] content[i])
        == shown_block(right, content[i]) by {
        if content[i] is ToolResult {
            assert(has_id(content, tool_result::id_at(content, i)));
            assert(keyed::value_of(left, tool_result::id_at(content, i)) == keyed::value_of(
                right,
                tool_result::id_at(content, i),
            ));
        }
    }
    assert(shown_blocks(left, content) =~= shown_blocks(right, content));
}

/// What holds once the first `end` messages were worked on.
spec fn progressing(
    ledger: Ledger,
    messages: Seq<MessageView>,
    progress: Progress,
    end: int,
) -> bool {
    &&& progress.messages.len() == end
    &&& forall|i: int|
        0 <= i < end ==> (#[trigger] progress.messages[i]) == shown_message(
            progress.ledger.replaced,
            messages[i],
        )
    &&& forall|i: int|
        0 <= i < end ==> decided_in(progress.ledger, (#[trigger] messages[i]).content)
    &&& forall|id: Seq<char>|
        keyed::value_of(ledger.replaced, id) is Some ==> #[trigger] keyed::value_of(
            progress.ledger.replaced,
            id,
        ) == keyed::value_of(ledger.replaced, id)
    &&& ledger.seen.subset_of(progress.ledger.seen)
}

/// The work on messages keeps [`progressing`].
proof fn lemma_messages(ledger: Ledger, setting: Setting, messages: Seq<MessageView>, end: int)
    requires
        distinct_results(messages),
        0 <= end <= messages.len(),
    ensures
        tool_result::messages_done(ledger, setting, messages, end) matches Ok(progress)
            ==> progressing(ledger, messages, progress, end),
    decreases end,
{
    if end > 0 {
        lemma_messages(ledger, setting, messages, end - 1);
        if let Ok(before) = tool_result::messages_done(ledger, setting, messages, end - 1) {
            let message = messages[end - 1];
            let content = message.content;
            lemma_message_work(before.ledger, before.used, setting, content);
            if let Ok(after) = tool_result::messages_done(ledger, setting, messages, end) {
                if tool_result::has_result(content) {
                    let work = tool_result::message_work(
                        before.ledger,
                        before.used,
                        setting,
                        content,
                    )->Ok_0;
                    assert(content.map_values(
                        |block: BlockView| tool_result::decided_block(block, work.decisions),
                    ) =~= shown_blocks(work.ledger.replaced, content)) by {
                        assert forall|i: int| 0 <= i < content.len() implies tool_result::decided_block(
                            #[trigger] content[i],
                            work.decisions,
                        ) == shown_block(work.ledger.replaced, content[i]) by {}
                    }
                } else {
                    assert forall|i: int|
                        0 <= i < content.len() implies !((#[trigger] content[i]) is ToolResult) by {
                        assert(!tool_result::is_result(content[i]));
                    }
                    assert(shown_blocks(after.ledger.replaced, content) =~= content);
                }
                assert forall|i: int| 0 <= i < end implies (#[trigger] after.messages[i])
                    == shown_message(after.ledger.replaced, messages[i]) by {
                    if i < end - 1 {
                        assert(after.messages[i] == before.messages[i]);
                        assert forall|id: Seq<char>|
                            has_id(messages[i].content, id) implies #[trigger] keyed::value_of(
                            before.ledger.replaced,
                            id,
                        ) == keyed::value_of(after.ledger.replaced, id) by {
                            if has_id(messages[end - 1].content, id) {
                                assert(i == end - 1);
                            }
                            assert(!has_id(content, id));
                        }
                        lemma_shown_alike(
                            before.ledger.replaced,
                            after.ledger.replaced,
                            messages[i],
                        );
                    }
                }
                assert forall|i: int| 0 <= i < end implies decided_in(
                    after.ledger,
                    (#[trigger] messages[i]).content,
                ) by {
                    if i < end - 1 {
                        lemma_decided_stays(before.ledger, after.ledger, messages[i].content);
                    }
                }
                assert forall|id: Seq<char>|
                    keyed::value_of(ledger.replaced, id) is Some implies #[trigger] keyed::value_of(
                    after.ledger.replaced,
                    id,
                ) == keyed::value_of(ledger.replaced, id) by {
                    assert(keyed::value_of(before.ledger.replaced, id) == keyed::value_of(
                        ledger.replaced,
                        id,
                    ));
                }
            }
        }
    }
}

/// What a ledger has decided of, a ledger that says at least as much has decided of too.
proof fn lemma_decided_stays(before: Ledger, after: Ledger, content: Seq<BlockView>)
    requires
        decided_in(before, content),
        before.seen.subset_of(after.seen),
        forall|id: Seq<char>|
            keyed::value_of(before.replaced, id) is Some ==> #[trigger] keyed::value_of(
                after.replaced,
                id,
            ) == keyed::value_of(before.replaced, id),
    ensures
        decided_in(after, content),
{
    assert forall|i: int|
        0 <= i < content.len() && (#[trigger] content[i]) is ToolResult implies is_decided(
        after,
        tool_result::id_at(content, i),
    ) by {
        let id = tool_result::id_at(content, i);
        assert(is_decided(before, id));
        if keyed::value_of(before.replaced, id) is Some {
            assert(keyed::value_of(after.replaced, id) == keyed::value_of(before.replaced, id));
        }
    }
}

/// Whether a stale result stays as it is: it was replaced, is short, or is no longer than
/// its snippet would be.
spec fn stays(replaced: Pairs, limit: int, id: Seq<char>, content: Seq<char>) -> bool {
    keyed::value_of(replaced, id) is Some || text::byte_len(content) <= limit
        || tool_result::snippet(content) == content
}

/// What holds once the first `end` blocks of a stale message were snipped.
spec fn snipping_blocks(
    before: Ledger,
    content: Seq<BlockView>,
    limit: int,
    after: Ledger,
    blocks: Seq<BlockView>,
    end: int,
) -> bool {
    &&& blocks.len() == end
    &&& forall|i: int|
        0 <= i < end ==> (#[trigger] blocks[i]) == shown_block(after.replaced, content[i])
    &&& forall|i: int|
        0 <= i < end && (#[trigger] content[i]) is ToolResult ==> stays(
            after.replaced,
            limit,
            tool_result::id_at(content, i),
            tool_result::text_at(content, i),
        )
    &&& forall|i: int|
        end <= i < content.len() && (#[trigger] content[i]) is ToolResult ==> keyed::value_of(
            after.replaced,
            tool_result::id_at(content, i),
        ) == keyed::value_of(before.replaced, tool_result::id_at(content, i))
    &&& forall|id: Seq<char>|
        !has_id(content, id) || keyed::value_of(before.replaced, id) is Some
            ==> #[trigger] keyed::value_of(after.replaced, id) == keyed::value_of(
            before.replaced,
            id,
        )
    &&& before.seen.subset_of(after.seen)
}

/// Snipping the blocks of a stale message keeps [`snipping_blocks`].
proof fn lemma_snip_blocks(before: Ledger, content: Seq<BlockView>, limit: int, end: int)
    requires
        distinct_in(content),
        0 <= end <= content.len(),
    ensures
        ({
            let (after, blocks) = tool_result::blocks_snipped(
                before,
                limit,
                shown_blocks(before.replaced, content),
                end,
            );
            snipping_blocks(before, content, limit, after, blocks, end)
        }),
    decreases end,
{
    let visible = shown_blocks(before.replaced, content);
    if end > 0 {
        lemma_snip_blocks(before, content, limit, end - 1);
        let (middle, done) = tool_result::blocks_snipped(before, limit, visible, end - 1);
        let (after, blocks) = tool_result::blocks_snipped(before, limit, visible, end);
        let at = end - 1;
        assert(visible[at] == shown_block(before.replaced, content[at]));
        if content[at] is ToolResult {
            let id = tool_result::id_at(content, at);
            let text = tool_result::text_at(content, at);
            let seen_text = shown_text(before.replaced, id, text);
            assert(has_id(content, id));
            assert(keyed::value_of(middle.replaced, id) == keyed::value_of(before.replaced, id));
            keyed::lemma_with_value(
                middle.replaced,
                id,
                tool_result::snippet(seen_text),
                id,
            );
            assert forall|other: Seq<char>| other != id implies #[trigger] keyed::value_of(
                after.replaced,
                other,
            ) == keyed::value_of(middle.replaced, other) by {
                keyed::lemma_with_value(
                    middle.replaced,
                    id,
                    tool_result::snippet(seen_text),
                    other,
                );
            }
            assert forall|i: int|
                0 <= i < content.len() && (#[trigger] content[i]) is ToolResult && i
                    != at implies tool_result::id_at(content, i) != id by {}
            assert forall|i: int| 0 <= i < end implies (#[trigger] blocks[i]) == shown_block(
                after.replaced,
                content[i],
            ) by {
                if i < at {
                    assert(blocks[i] == done[i]);
                    if content[i] is ToolResult {
                        assert(keyed::value_of(
                            after.replaced,
                            tool_result::id_at(content, i),
                        ) == keyed::value_of(
                            middle.replaced,
                            tool_result::id_at(content, i),
                        ));
                    }
                }
            }
            assert forall|i: int|
                0 <= i < end && (#[trigger] content[i]) is ToolResult implies stays(
                after.replaced,
                limit,
                tool_result::id_at(content, i),
                tool_result::text_at(content, i),
            ) by {
                if i < at {
                    assert(keyed::value_of(after.replaced, tool_result::id_at(content, i))
                        == keyed::value_of(middle.replaced, tool_result::id_at(content, i)));
                }
            }
            assert forall|other: Seq<char>|
                !has_id(content, other) || keyed::value_of(before.replaced, other) is Some implies #[trigger] keyed::value_of(
                after.replaced,
                other,
            ) == keyed::value_of(before.replaced, other) by {
                assert(keyed::value_of(middle.replaced, other) == keyed::value_of(
                    before.replaced,
                    other,
                ));
                if other != id {
                    assert(keyed::value_of(after.replaced, other) == keyed::value_of(
                        middle.replaced,
                        other,
                    ));
                }
            }
        } else {
            assert forall|i: int| 0 <= i < end implies (#[trigger] blocks[i]) == shown_block(
                after.replaced,
                content[i],
            ) by {
                if i < at {
                    assert(blocks[i] == done[i]);
                }
            }
        }
    }
}

/// What holds once the first `end` messages were looked at for stale results.
spec fn snipping(
    before: Ledger,
    messages: Seq<MessageView>,
    config: ToolResultBudgetConfig,
    after: Ledger,
    done: Seq<MessageView>,
    end: int,
) -> bool {
    let visible = shown(before.replaced, messages);
    &&& done.len() == end
    &&& forall|i: int|
        0 <= i < end ==> (#[trigger] done[i]) == shown_message(after.replaced, messages[i])
    &&& forall|i: int, j: int|
        0 <= i < end && tool_result::is_stale(visible, config.keep_recent_turns as int, i) && 0 <= j
            < messages[i].content.len() && (#[trigger] messages[i].content[j]) is ToolResult
            ==> stays(
            after.replaced,
            config.old_result_snip_chars as int,
            tool_result::id_at(messages[i].content, j),
            tool_result::text_at(messages[i].content, j),
        )
    &&& forall|i: int, id: Seq<char>|
        end <= i < messages.len() && #[trigger] has_id(messages[i].content, id) ==> keyed::value_of(
            after.replaced,
            id,
        ) == keyed::value_of(before.replaced, id)
    &&& forall|id: Seq<char>|
        keyed::value_of(before.replaced, id) is Some ==> #[trigger] keyed::value_of(
            after.replaced,
            id,
        ) == keyed::value_of(before.replaced, id)
    &&& before.seen.subset_of(after.seen)
}

/// Snipping stale results keeps [`snipping`].
proof fn lemma_snip(
    before: Ledger,
    messages: Seq<MessageView>,
    config: ToolResultBudgetConfig,
    end: int,
)
    requires
        distinct_results(messages),
        0 <= end <= messages.len(),
    ensures
        ({
            let (after, done) = tool_result::stale_snipped(
                before,
                config,
                shown(before.replaced, messages),
                end,
            );
            snipping(before, messages, config, after, done, end)
        }),
    decreases end,
{
    let visible = shown(before.replaced, messages);
    if end > 0 {
        lemma_snip(before, messages, config, end - 1);
        let (middle, sent) = tool_result::stale_snipped(before, config, visible, end - 1);
        let (after, done) = tool_result::stale_snipped(before, config, visible, end);
        let at = end - 1;
        let content = messages[at].content;
        assert(visible[at] == shown_message(before.replaced, messages[at]));
        lemma_shown_alike(before.replaced, middle.replaced, messages[at]);
        assert(visible[at].content == shown_blocks(middle.replaced, content));
        lemma_snip_blocks(
            middle,
            content,
            config.old_result_snip_chars as int,
            content.len() as int,
        );
        if tool_result::is_stale(visible, config.keep_recent_turns as int, at) {
            let (_, blocks) = tool_result::blocks_snipped(
                middle,
                config.old_result_snip_chars as int,
                visible[at].content,
                content.len() as int,
            );
            assert(blocks =~= shown_blocks(after.replaced, content));
        }
        assert forall|i: int| 0 <= i < end implies (#[trigger] done[i]) == shown_message(
            after.replaced,
            messages[i],
        ) by {
            if i < at {
                assert(done[i] == sent[i]);
                assert forall|id: Seq<char>|
                    has_id(messages[i].content, id) implies #[trigger] keyed::value_of(
                    middle.replaced,
                    id,
                ) == keyed::value_of(after.replaced, id) by {
                    assert(!has_id(messages[at].content, id));
                }
                lemma_shown_alike(middle.replaced, after.replaced, messages[i]);
            }
        }
        assert forall|i: int, j: int|
            0 <= i < end && tool_result::is_stale(visible, config.keep_recent_turns as int, i) && 0
                <= j < messages[i].content.len() && (#[trigger] messages[i].content[j]) is ToolResult implies stays(
            after.replaced,
            config.old_result_snip_chars as int,
            tool_result::id_at(messages[i].content, j),
            tool_result::text_at(messages[i].content, j),
        ) by {
            let id = tool_result::id_at(messages[i].content, j);
            assert(has_id(messages[i].content, id));
            if i < at {
                assert(!has_id(messages[at].content, id));
                assert(keyed::value_of(after.replaced, id) == keyed::value_of(
                    middle.replaced,
                    id,
                ));
            }
        }
        assert forall|i: int, id: Seq<char>|
            end <= i < messages.len() && #[trigger] has_id(messages[i].content, id) implies keyed::value_of(
            after.replaced,
            id,
        ) == keyed::value_of(before.replaced, id) by {
            assert(!has_id(messages[at].content, id));
            assert(keyed::value_of(after.replaced, id) == keyed::value_of(middle.replaced, id));
        }
        assert forall|id: Seq<char>|
            keyed::value_of(before.replaced, id) is Some implies #[trigger] keyed::value_of(
            after.replaced,
            id,
        ) == keyed::value_of(before.replaced, id) by {
            assert(keyed::value_of(middle.replaced, id) == keyed::value_of(before.replaced, id));
        }
    }
}

/// What applying a budget comes to: what is sent is what the ledger says, each result is
/// decided of, and no stale result is left to snip.
proof fn lemma_applied(ledger: Ledger, setting: Setting)
    requires
        distinct_results(setting.conversation),
        tool_result::applied(ledger, setting) is Ok,
    ensures
        ({
            let (after, sent) = tool_result::applied(ledger, setting)->Ok_0;
            let messages = setting.conversation;
            &&& sent == shown(after.replaced, messages)
            &&& decided_of(after, messages)
            &&& forall|i: int, j: int|
                0 <= i < messages.len() && tool_result::is_stale(
                    messages,
                    setting.config.keep_recent_turns as int,
                    i,
                ) && 0 <= j < messages[i].content.len() && (
                #[trigger] messages[i].content[j]) is ToolResult ==> stays(
                    after.replaced,
                    setting.config.old_result_snip_chars as int,
                    tool_result::id_at(messages[i].content, j),
                    tool_result::text_at(messages[i].content, j),
                )
            &&& forall|id: Seq<char>|
                keyed::value_of(ledger.replaced, id) is Some ==> #[trigger] keyed::value_of(
                    after.replaced,
                    id,
                ) == keyed::value_of(ledger.replaced, id)
            &&& ledger.seen.subset_of(after.seen)
        }),
{
    let messages = setting.conversation;
    let count = messages.len() as int;
    lemma_messages(ledger, setting, messages, count);
    let progress = tool_result::messages_done(ledger, setting, messages, count)->Ok_0;
    let visible = shown(progress.ledger.replaced, messages);
    assert(progress.messages =~= visible);
    lemma_snip(progress.ledger, messages, setting.config, count);
    let (after, sent) = tool_result::applied(ledger, setting)->Ok_0;
    assert(sent =~= shown(after.replaced, messages));
    assert forall|i: int| 0 <= i < messages.len() implies decided_in(
        after,
        (#[trigger] messages[i]).content,
    ) by {
        lemma_decided_stays(progress.ledger, after, messages[i].content);
    }
    assert forall|i: int| 0 <= i < messages.len() implies tool_result::is_stale(
        messages,
        setting.config.keep_recent_turns as int,
        i,
    ) == tool_result::is_stale(visible, setting.config.keep_recent_turns as int, i) by {
        lemma_stale_alike(
            progress.ledger.replaced,
            messages,
            setting.config.keep_recent_turns as int,
            i,
        );
    }
    assert forall|id: Seq<char>|
        keyed::value_of(ledger.replaced, id) is Some implies #[trigger] keyed::value_of(
        after.replaced,
        id,
    ) == keyed::value_of(ledger.replaced, id) by {
        assert(keyed::value_of(progress.ledger.replaced, id) == keyed::value_of(
            ledger.replaced,
            id,
        ));
    }
}

/// Replacing results ends no turn and begins none.
proof fn lemma_turns_alike(replaced: Pairs, messages: Seq<MessageView>, end: int)
    requires
        0 <= end <= messages.len(),
    ensures
        tool_result::turns(shown(replaced, messages), end) == tool_result::turns(messages, end),
    decreases end,
{
    if end > 0 {
        lemma_turns_alike(replaced, messages, end - 1);
        let message = messages[end - 1];
        let visible = shown_message(replaced, message);
        assert(shown(replaced, messages)[end - 1] == visible);
        assert forall|i: int| 0 <= i < message.content.len() implies (
        #[trigger] visible.content[i] is ToolUse) == (message.content[i] is ToolUse) by {}
        if tool_result::ends_turn(message) {
            assert(tool_result::ends_turn(visible));
        }
        if tool_result::ends_turn(visible) {
            assert forall|i: int| 0 <= i < message.content.len() implies !(
            (#[trigger] message.content[i]) is ToolUse) by {
                assert(!(visible.content[i] is ToolUse));
            }
        }
    }
}

/// Replacing results makes no message stale.
proof fn lemma_stale_alike(replaced: Pairs, messages: Seq<MessageView>, keep: int, index: int)
    requires
        0 <= index < messages.len(),
    ensures
        tool_result::is_stale(shown(replaced, messages), keep, index) == tool_result::is_stale(
            messages,
            keep,
            index,
        ),
{
    lemma_turns_alike(replaced, messages, messages.len() as int);
    lemma_turns_alike(replaced, messages, index + 1);
}

/// Where a ledger has decided of all results of a message, sorting out finds no fresh one
/// and changes nothing.
proof fn lemma_nothing_fresh(ledger: Ledger, content: Seq<BlockView>, end: int)
    requires
        distinct_in(content),
        decided_in(ledger, content),
        0 <= end <= content.len(),
    ensures
        tool_result::sorted_out(ledger, content, end).fresh.len() == 0,
        tool_result::sorted_out(ledger, content, end).ledger == ledger,
    decreases end,
{
    if end > 0 {
        lemma_nothing_fresh(ledger, content, end - 1);
        if content[end - 1] is ToolResult {
            assert(is_decided(ledger, tool_result::id_at(content, end - 1)));
        }
    }
}

/// Where a ledger has decided of all results of the first messages, the work on them
/// changes nothing, uses no answer, and sends what the ledger says.
proof fn lemma_decided_messages(
    ledger: Ledger,
    setting: Setting,
    messages: Seq<MessageView>,
    end: int,
)
    requires
        distinct_results(messages),
        decided_of(ledger, messages),
        0 <= end <= messages.len(),
    ensures
        tool_result::messages_done(ledger, setting, messages, end) == Ok::<Progress, SpillView>(
            Progress { ledger, used: 0, messages: shown(ledger.replaced, messages.take(end)) },
        ),
    decreases end,
{
    if end > 0 {
        lemma_decided_messages(ledger, setting, messages, end - 1);
        let message = messages[end - 1];
        let content = message.content;
        assert(decided_in(ledger, messages[end - 1].content));
        assert(distinct_in(messages[end - 1].content));
        lemma_nothing_fresh(ledger, content, content.len() as int);
        lemma_sorting(ledger, content, content.len() as int);
        let sorted = tool_result::sorted_out(ledger, content, content.len() as int);
        assert(tool_result::undecided(content, sorted.fresh, sorted.decisions).len() == 0);
        if tool_result::has_result(content) {
            let work = tool_result::message_work(ledger, 0, setting, content)->Ok_0;
            assert(tool_result::message_work(ledger, 0, setting, content) is Ok);
            assert(work.ledger == ledger && work.used == 0 && work.decisions == sorted.decisions);
            assert forall|i: int| 0 <= i < content.len() implies tool_result::decided_block(
                #[trigger] content[i],
                work.decisions,
            ) == shown_block(ledger.replaced, content[i]) by {
                assert(!sorted.fresh.contains(i));
            }
            assert(content.map_values(
                |block: BlockView| tool_result::decided_block(block, work.decisions),
            ) =~= shown_blocks(ledger.replaced, content));
        } else {
            assert forall|i: int| 0 <= i < content.len() implies !((
            #[trigger] content[i]) is ToolResult) by {
                assert(!tool_result::is_result(content[i]));
            }
            assert(shown_blocks(ledger.replaced, content) =~= content);
        }
        assert(shown(ledger.replaced, messages.take(end)) =~= shown(
            ledger.replaced,
            messages.take(end - 1),
        ).push(shown_message(ledger.replaced, message)));
    } else {
        assert(shown(ledger.replaced, messages.take(0)) =~= Seq::<MessageView>::empty());
    }
}

/// Where the results of a stale message stay as they are, snipping changes nothing.
proof fn lemma_nothing_to_snip(
    ledger: Ledger,
    content: Seq<BlockView>,
    limit: int,
    end: int,
)
    requires
        0 <= end <= content.len(),
        forall|j: int|
            0 <= j < content.len() && (#[trigger] content[j]) is ToolResult ==> stays(
                ledger.replaced,
                limit,
                tool_result::id_at(content, j),
                tool_result::text_at(content, j),
            ),
    ensures
        tool_result::blocks_snipped(ledger, limit, shown_blocks(ledger.replaced, content), end) == (
            ledger,
            shown_blocks(ledger.replaced, content).take(end),
        ),
    decreases end,
{
    let visible = shown_blocks(ledger.replaced, content);
    if end > 0 {
        lemma_nothing_to_snip(ledger, content, limit, end - 1);
        assert(visible[end - 1] == shown_block(ledger.replaced, content[end - 1]));
        assert(visible.take(end) =~= visible.take(end - 1).push(visible[end - 1]));
    } else {
        assert(visible.take(0) =~= Seq::<BlockView>::empty());
    }
}

/// Where the stale results stay as they are, snipping changes nothing.
proof fn lemma_nothing_stale(
    ledger: Ledger,
    messages: Seq<MessageView>,
    config: ToolResultBudgetConfig,
    end: int,
)
    requires
        0 <= end <= messages.len(),
        forall|i: int, j: int|
            0 <= i < messages.len() && tool_result::is_stale(
                messages,
                config.keep_recent_turns as int,
                i,
            ) && 0 <= j < messages[i].content.len() && (
            #[trigger] messages[i].content[j]) is ToolResult ==> stays(
                ledger.replaced,
                config.old_result_snip_chars as int,
                tool_result::id_at(messages[i].content, j),
                tool_result::text_at(messages[i].content, j),
            ),
    ensures
        tool_result::stale_snipped(ledger, config, shown(ledger.replaced, messages), end) == (
            ledger,
            shown(ledger.replaced, messages).take(end),
        ),
    decreases end,
{
    let visible = shown(ledger.replaced, messages);
    if end > 0 {
        lemma_nothing_stale(ledger, messages, config, end - 1);
        let message = messages[end - 1];
        assert(visible[end - 1] == shown_message(ledger.replaced, message));
        lemma_stale_alike(
            ledger.replaced,
            messages,
            config.keep_recent_turns as int,
            end - 1,
        );
        if tool_result::is_stale(visible, config.keep_recent_turns as int, end - 1) {
            assert forall|j: int|
                0 <= j < message.content.len() && (#[trigger] message.content[j]) is ToolResult implies stays(
                ledger.replaced,
                config.old_result_snip_chars as int,
                tool_result::id_at(message.content, j),
                tool_result::text_at(message.content, j),
            ) by {
                assert(messages[end - 1].content[j] is ToolResult);
            }
            lemma_nothing_to_snip(
                ledger,
                message.content,
                config.old_result_snip_chars as int,
                message.content.len() as int,
            );
            let blocks = shown_blocks(ledger.replaced, message.content);
            assert(blocks.take(message.content.len() as int) =~= blocks);
        }
        assert(visible.take(end) =~= visible.take(end - 1).push(visible[end - 1]));
    } else {
        assert(visible.take(0) =~= Seq::<MessageView>::empty());
    }
}

/// What was decided stays decided: once a budget was applied to a conversation whose
/// results have distinct ids, any ledger that says the same of replacements and has
/// decided of all results comes to the same conversation, unchanged, without asking for
/// a file, whatever the answers are. This holds of the ledger itself, when the budget is
/// applied again, and of the ledger of a budget that was resumed from its records.
pub proof fn law_decisions_are_stable(
    ledger: Ledger,
    setting: Setting,
    restored: Ledger,
    later: Setting,
)
    requires
        distinct_results(setting.conversation),
        tool_result::applied(ledger, setting) is Ok,
        later.conversation == setting.conversation,
        later.config == setting.config,
        forall|id: Seq<char>|
            #[trigger] keyed::value_of(restored.replaced, id) == keyed::value_of(
                tool_result::applied(ledger, setting)->Ok_0.0.replaced,
                id,
            ),
        decided_of(restored, setting.conversation),
    ensures
        tool_result::applied(restored, later) == Ok::<(Ledger, Seq<MessageView>), SpillView>(
            (restored, tool_result::applied(ledger, setting)->Ok_0.1),
        ),
{
    let messages = setting.conversation;
    let count = messages.len() as int;
    let (after, sent) = tool_result::applied(ledger, setting)->Ok_0;
    lemma_applied(ledger, setting);
    lemma_decided_messages(restored, later, messages, count);
    assert(messages.take(count) =~= messages);
    assert forall|i: int, j: int|
        0 <= i < messages.len() && tool_result::is_stale(
            messages,
            later.config.keep_recent_turns as int,
            i,
        ) && 0 <= j < messages[i].content.len() && (
        #[trigger] messages[i].content[j]) is ToolResult implies stays(
        restored.replaced,
        later.config.old_result_snip_chars as int,
        tool_result::id_at(messages[i].content, j),
        tool_result::text_at(messages[i].content, j),
    ) by {
        assert(keyed::value_of(
            restored.replaced,
            tool_result::id_at(messages[i].content, j),
        ) == keyed::value_of(after.replaced, tool_result::id_at(messages[i].content, j)));
    }
    let visible = shown(restored.replaced, messages);
    lemma_nothing_stale(restored, messages, later.config, count);
    assert(visible.take(count) =~= visible);
    assert forall|i: int| 0 <= i < messages.len() implies (#[trigger] visible[i]) == shown(
        after.replaced,
        messages,
    )[i] by {
        lemma_shown_alike(restored.replaced, after.replaced, messages[i]);
    }
    assert(visible =~= sent);
}

/// A budget that is applied to a conversation again, the results of which have distinct
/// ids, comes to the same and changes nothing.
pub proof fn law_second_application_changes_nothing(
    ledger: Ledger,
    setting: Setting,
    later: Setting,
)
    requires
        distinct_results(setting.conversation),
        tool_result::applied(ledger, setting) is Ok,
        later.conversation == setting.conversation,
        later.config == setting.config,
    ensures
        tool_result::applied(tool_result::applied(ledger, setting)->Ok_0.0, later)
            == tool_result::applied(ledger, setting),
{
    lemma_applied(ledger, setting);
    law_decisions_are_stable(
        ledger,
        setting,
        tool_result::applied(ledger, setting)->Ok_0.0,
        later,
    );
}

/// A replacement is never changed: what a ledger says before a budget is applied to a
/// conversation whose results have distinct ids, it says after; and what is sent for each
/// result is its replacement, or the result itself.
pub proof fn law_replacements_are_kept(ledger: Ledger, setting: Setting, id: Seq<char>)
    requires
        distinct_results(setting.conversation),
        tool_result::applied(ledger, setting) is Ok,
    ensures
        ({
            let (after, sent) = tool_result::applied(ledger, setting)->Ok_0;
            &&& keyed::value_of(ledger.replaced, id) is Some ==> keyed::value_of(after.replaced, id)
                == keyed::value_of(ledger.replaced, id)
            &&& sent == shown(after.replaced, setting.conversation)
        }),
{
    lemma_applied(ledger, setting);
    let after = tool_result::applied(ledger, setting)->Ok_0.0;
    if keyed::value_of(ledger.replaced, id) is Some {
        assert(keyed::value_of(after.replaced, id) == keyed::value_of(ledger.replaced, id));
    }
}

} // verus!
