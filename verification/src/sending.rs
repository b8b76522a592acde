//! What is sent of the results of tools: which are sent whole, which are saved to files, and
//! that nothing but what results hold changes on the way.
use vstd::prelude::*;

use crate::conversation::{BlockView, MessageView};
use crate::json::JsonView;
use crate::json;
use crate::keyed::Pairs;
use crate::keyed;
use crate::text;
use crate::tool_result::{Ledger, Setting, SpillView, ToolResultBudgetConfig, Work};
use crate::tool_result;
use crate::workspace;

verus! {

/// Whether two blocks differ at most in what a result holds.
pub open spec fn same_but_for_result(left: BlockView, right: BlockView) -> bool {
    match (left, right) {
        (
            BlockView::ToolResult { tool_use_id: left_id, is_error: left_error, .. },
            BlockView::ToolResult { tool_use_id: right_id, is_error: right_error, .. },
        ) => left_id == right_id && left_error == right_error,
        _ => left == right,
    }
}

/// Whether two messages differ at most in what their results hold.
pub open spec fn same_but_for_results(left: MessageView, right: MessageView) -> bool {
    &&& left.role == right.role
    &&& left.timestamp_unix_seconds == right.timestamp_unix_seconds
    &&& left.content.len() == right.content.len()
    &&& forall|j: int|
        0 <= j < left.content.len() ==> same_but_for_result(
            #[trigger] left.content[j],
            right.content[j],
        )
}

/// What is sent of the messages up to `end` before old ones are snipped.
proof fn lemma_messages_done(
    ledger: Ledger,
    setting: Setting,
    messages: Seq<MessageView>,
    end: int,
)
    requires
        0 <= end <= messages.len(),
        tool_result::messages_done(ledger, setting, messages, end) is Ok,
    ensures
        ({
            let done = (tool_result::messages_done(ledger, setting, messages, end)->Ok_0).messages;
            &&& done.len() == end
            &&& forall|i: int|
                0 <= i < end ==> same_but_for_results(#[trigger] done[i], messages[i])
        }),
    decreases end,
{
    if end > 0 {
        lemma_messages_done(ledger, setting, messages, end - 1);
        let before = (tool_result::messages_done(ledger, setting, messages, end - 1)->Ok_0);
        let done = (tool_result::messages_done(ledger, setting, messages, end)->Ok_0).messages;
        let message = messages[end - 1];
        let sent = (tool_result::message_done(
            before.ledger,
            before.used,
            setting,
            message,
        )->Ok_0).2;
        assert(same_but_for_results(sent, message));
        assert forall|i: int| 0 <= i < end implies same_but_for_results(
            #[trigger] done[i],
            messages[i],
        ) by {
            if i < end - 1 {
                assert(done[i] == before.messages[i]);
            } else {
                assert(done[i] == sent);
            }
        }
    }
}

/// Only what results hold changes on the way: as many messages are sent as there are, each
/// with its role, its time and its blocks, and a result is sent with its id and with whether
/// it is an error.
pub proof fn law_only_results_change(ledger: Ledger, setting: Setting, index: int)
    requires
        tool_result::applied(ledger, setting) is Ok,
        0 <= index < setting.conversation.len(),
    ensures
        ({
            let sent = (tool_result::applied(ledger, setting)->Ok_0).1;
            &&& sent.len() == setting.conversation.len()
            &&& same_but_for_results(sent[index], setting.conversation[index])
        }),
{
    let messages = setting.conversation;
    let count = messages.len() as int;
    lemma_messages_done(ledger, setting, messages, count);
    let progress = tool_result::messages_done(ledger, setting, messages, count)->Ok_0;
    tool_result::law_recent_results_are_not_snipped(
        progress.ledger,
        setting.config,
        progress.messages,
        index,
    );
    let done = progress.messages[index];
    let sent = (tool_result::applied(ledger, setting)->Ok_0).1[index];
    assert(same_but_for_results(done, messages[index]));
    assert forall|j: int| 0 <= j < sent.content.len() implies same_but_for_result(
        #[trigger] sent.content[j],
        messages[index].content[j],
    ) by {
        assert(same_but_for_result(done.content[j], messages[index].content[j]));
        assert(sent.content[j] == done.content[j] || done.content[j] is ToolResult);
    }
}

/// The bytes that the results in blocks hold.
pub open spec fn held_bytes(content: Seq<BlockView>) -> int
    decreases content.len(),
{
    if content.len() == 0 {
        0
    } else {
        held_bytes(content.drop_last()) + match content.last() {
            BlockView::ToolResult { content: text, .. } => text::byte_len(text) as int,
            _ => 0,
        }
    }
}

/// Whether no two results in blocks have the same id.
pub open spec fn answered_once(content: Seq<BlockView>) -> bool {
    forall|i: int, j: int|
        0 <= i < j < content.len() && (#[trigger] content[i]) is ToolResult && (
        #[trigger] content[j]) is ToolResult ==> content[i]->ToolResult_tool_use_id
            != content[j]->ToolResult_tool_use_id
}

/// Whether what was decided of the results before a position is to send them whole.
spec fn whole_so_far(content: Seq<BlockView>, decisions: Pairs, end: int) -> bool {
    forall|k: int|
        0 <= k < end && (#[trigger] content[k]) is ToolResult ==> {
            let decided = keyed::value_of(decisions, content[k]->ToolResult_tool_use_id);
            decided is None || decided == Some(content[k]->ToolResult_content)
        }
}

/// Whether no result from a position on has been decided of.
spec fn untouched_from(content: Seq<BlockView>, decisions: Pairs, from: int) -> bool {
    forall|k: int|
        from <= k < content.len() && (#[trigger] content[k]) is ToolResult ==> keyed::value_of(
            decisions,
            content[k]->ToolResult_tool_use_id,
        ) is None
}

/// Whether each of these is a result that has not been decided of, none of them twice.
spec fn fresh_results(content: Seq<BlockView>, decisions: Pairs, fresh: Seq<int>, end: int) -> bool {
    &&& forall|k: int|
        0 <= k < fresh.len() ==> 0 <= (#[trigger] fresh[k]) < end && content[fresh[k]] is ToolResult
            && keyed::value_of(decisions, content[fresh[k]]->ToolResult_tool_use_id) is None
    &&& forall|k: int, l: int| 0 <= k < l < fresh.len() ==> fresh[k] < fresh[l]
}

/// Sorting out results that nothing was sent in place of.
proof fn lemma_sorted_whole(ledger: Ledger, content: Seq<BlockView>, end: int)
    requires
        0 <= end <= content.len(),
        answered_once(content),
        untouched_from(content, ledger.replaced, 0),
    ensures
        ({
            let sorted = tool_result::sorted_out(ledger, content, end);
            &&& whole_so_far(content, sorted.decisions, end)
            &&& untouched_from(content, sorted.decisions, end)
            &&& untouched_from(content, sorted.ledger.replaced, end)
            &&& fresh_results(content, sorted.decisions, sorted.fresh, end)
            &&& tool_result::decided_bytes(sorted.decisions) + tool_result::result_bytes(
                content,
                sorted.fresh,
            ) == held_bytes(content.take(end))
        }),
    decreases end,
{
    let sorted = tool_result::sorted_out(ledger, content, end);
    if end > 0 {
        lemma_sorted_whole(ledger, content, end - 1);
        let before = tool_result::sorted_out(ledger, content, end - 1);
        assert(content.take(end).drop_last() =~= content.take(end - 1));
        assert(content.take(end).last() == content[end - 1]);
        if let BlockView::ToolResult { tool_use_id, content: text, .. } = content[end - 1] {
            assert(content[end - 1] is ToolResult);
            assert(keyed::value_of(before.decisions, tool_use_id) is None);
            assert(keyed::value_of(before.ledger.replaced, tool_use_id) is None);
            keyed::lemma_with_value(before.decisions, tool_use_id, text, tool_use_id);
            keyed::lemma_with_value(before.ledger.replaced, tool_use_id, text, tool_use_id);
            let pushed = before.decisions.push((tool_use_id, text));
            assert(pushed.drop_last() =~= before.decisions);
            let longer = before.fresh.push(end - 1);
            assert(longer.drop_last() =~= before.fresh);
            assert forall|k: int| #![trigger content[k]]
                0 <= k < content.len() && content[k] is ToolResult && k != end - 1 implies {
                &&& content[k]->ToolResult_tool_use_id != tool_use_id
                &&& keyed::value_of(
                    keyed::with_value(before.decisions, tool_use_id, text),
                    content[k]->ToolResult_tool_use_id,
                ) == keyed::value_of(before.decisions, content[k]->ToolResult_tool_use_id)
                &&& keyed::value_of(
                    keyed::with_value(before.ledger.replaced, tool_use_id, text),
                    content[k]->ToolResult_tool_use_id,
                ) == keyed::value_of(before.ledger.replaced, content[k]->ToolResult_tool_use_id)
            } by {
                if k < end - 1 {
                    assert(content[k]->ToolResult_tool_use_id
                        != content[end - 1]->ToolResult_tool_use_id);
                } else {
                    assert(content[end - 1]->ToolResult_tool_use_id
                        != content[k]->ToolResult_tool_use_id);
                }
                keyed::lemma_with_value(
                    before.decisions,
                    tool_use_id,
                    text,
                    content[k]->ToolResult_tool_use_id,
                );
                keyed::lemma_with_value(
                    before.ledger.replaced,
                    tool_use_id,
                    text,
                    content[k]->ToolResult_tool_use_id,
                );
            }
            assert forall|k: int| 0 <= k < before.fresh.len() implies (
            #[trigger] before.fresh[k]) != end - 1 by {}
        }
    } else {
        assert(content.take(0) =~= Seq::<BlockView>::empty());
    }
}

/// Short results are not shortened one by one.
proof fn lemma_singles_whole(
    work: Work,
    setting: Setting,
    content: Seq<BlockView>,
    fresh: Seq<int>,
    end: int,
)
    requires
        0 <= end <= fresh.len(),
        forall|k: int|
            0 <= k < fresh.len() ==> text::byte_len(
                tool_result::text_at(content, #[trigger] fresh[k]),
            ) <= setting.config.single_result_limit_chars,
    ensures
        tool_result::singles_done(work, setting, content, fresh, end) == Ok::<Work, SpillView>(work),
    decreases end,
{
    if end > 0 {
        lemma_singles_whole(work, setting, content, fresh, end - 1);
    }
}

/// What has not been decided of is undecided.
proof fn lemma_all_undecided(content: Seq<BlockView>, fresh: Seq<int>, decisions: Pairs)
    requires
        forall|k: int|
            0 <= k < fresh.len() ==> keyed::value_of(
                decisions,
                tool_result::id_at(content, #[trigger] fresh[k]),
            ) is None,
    ensures
        tool_result::undecided(content, fresh, decisions) == fresh,
    decreases fresh.len(),
{
    if fresh.len() > 0 {
        lemma_all_undecided(content, fresh.drop_last(), decisions);
        assert(fresh.last() == fresh[fresh.len() - 1]);
        assert(fresh.drop_last().push(fresh.last()) =~= fresh);
    } else {
        assert(tool_result::undecided(content, fresh, decisions) =~= fresh);
    }
}

/// Results within the limit of a message are not shortened together.
proof fn lemma_aggregate_whole(
    work: Work,
    setting: Setting,
    content: Seq<BlockView>,
    order: Seq<int>,
    end: int,
)
    requires
        work.total <= setting.config.message_aggregate_limit_chars,
    ensures
        tool_result::aggregate_done(work, setting, content, order, end) == Ok::<Work, SpillView>(
            work,
        ),
    decreases end,
{
    if end > 0 {
        lemma_aggregate_whole(work, setting, content, order, end - 1);
    }
}

/// What is left is settled by sending it whole.
proof fn lemma_settled_whole(work: Work, content: Seq<BlockView>, fresh: Seq<int>, end: int)
    requires
        answered_once(content),
        0 <= end <= fresh.len(),
        forall|k: int|
            0 <= k < fresh.len() ==> 0 <= (#[trigger] fresh[k]) < content.len()
                && content[fresh[k]] is ToolResult,
        whole_so_far(content, work.decisions, content.len() as int),
    ensures
        ({
            let after = tool_result::settled(work, content, fresh, end);
            &&& whole_so_far(content, after.decisions, content.len() as int)
            &&& after.used == work.used
            &&& after.ledger.replaced == work.ledger.replaced
        }),
    decreases end,
{
    if end > 0 {
        lemma_settled_whole(work, content, fresh, end - 1);
        let before = tool_result::settled(work, content, fresh, end - 1);
        let after = tool_result::settled(work, content, fresh, end);
        let at = fresh[end - 1];
        let id = content[at]->ToolResult_tool_use_id;
        let text = content[at]->ToolResult_content;
        assert forall|k: int|
            0 <= k < content.len() && (#[trigger] content[k]) is ToolResult implies {
            let decided = keyed::value_of(after.decisions, content[k]->ToolResult_tool_use_id);
            decided is None || decided == Some(content[k]->ToolResult_content)
        } by {
            keyed::lemma_with_value(
                before.decisions,
                id,
                text,
                content[k]->ToolResult_tool_use_id,
            );
            if k < at {
                assert(content[k]->ToolResult_tool_use_id != content[at]->ToolResult_tool_use_id);
            } else if at < k {
                assert(content[at]->ToolResult_tool_use_id != content[k]->ToolResult_tool_use_id);
            }
        }
    }
}

/// What is short is sent whole: a message is sent as it is where none of its results is longer
/// than the limit for a result, all of them together are no longer than the limit for a
/// message, and nothing was sent in place of any of them before.
pub proof fn law_short_results_are_sent_whole(
    ledger: Ledger,
    used: int,
    setting: Setting,
    message: MessageView,
)
    requires
        answered_once(message.content),
        forall|j: int|
            0 <= j < message.content.len() && (#[trigger] message.content[j]) is ToolResult ==> {
                &&& text::byte_len(message.content[j]->ToolResult_content)
                    <= setting.config.single_result_limit_chars
                &&& keyed::value_of(
                    ledger.replaced,
                    message.content[j]->ToolResult_tool_use_id,
                ) is None
            },
        held_bytes(message.content) <= setting.config.message_aggregate_limit_chars,
    ensures
        ({
            let done = tool_result::message_done(ledger, used, setting, message);
            done is Ok && (done->Ok_0).1 == used && (done->Ok_0).2 == message
        }),
{
    let content = message.content;
    let count = content.len() as int;
    if tool_result::has_result(content) {
        assert(untouched_from(content, ledger.replaced, 0));
        lemma_sorted_whole(ledger, content, count);
        let sorted = tool_result::sorted_out(ledger, content, count);
        let fresh = sorted.fresh;
        let start = Work { ledger: sorted.ledger, decisions: sorted.decisions, used, total: 0 };
        lemma_singles_whole(start, setting, content, fresh, fresh.len() as int);
        lemma_all_undecided(content, fresh, sorted.decisions);
        assert(content.take(count) =~= content);
        let total = tool_result::decided_bytes(start.decisions) + tool_result::result_bytes(
            content,
            fresh,
        );
        let counted = Work { total, ..start };
        let order = tool_result::longest_first(content, fresh);
        lemma_aggregate_whole(counted, setting, content, order, order.len() as int);
        lemma_settled_whole(counted, content, fresh, fresh.len() as int);
        let work = tool_result::message_work(ledger, used, setting, content)->Ok_0;
        let sent = content.map_values(
            |block: BlockView| tool_result::decided_block(block, work.decisions),
        );
        assert forall|k: int| 0 <= k < count implies sent[k] == #[trigger] content[k] by {
            if content[k] is ToolResult {
                assert(whole_so_far(content, work.decisions, count));
            }
        }
        assert(sent =~= content);
    }
}

/// What is long is saved: of a message with one result that is longer than a limit, and that
/// no decision was made of, the result is first asked to be saved under its id, in the folder
/// for results and with all that it holds. Once it is saved, how many bytes it has and where
/// it is stands in its place, and is remembered to do so. Where it cannot be saved, or where it
/// is the reading of a saved result, it is sent whole.
pub proof fn law_long_result_is_saved(
    ledger: Ledger,
    used: int,
    setting: Setting,
    message: MessageView,
    id: Seq<char>,
    content: Seq<char>,
    is_error: bool,
)
    requires
        message.content == seq![
            BlockView::ToolResult { tool_use_id: id, content, is_error },
        ],
        text::byte_len(content) > setting.config.single_result_limit_chars || text::byte_len(
            content,
        ) > setting.config.message_aggregate_limit_chars,
        keyed::value_of(ledger.replaced, id) is None,
        !ledger.seen.contains(id),
        !text::begins_with(content, "[Result of "@),
        !text::begins_with(content, "[Stale output snipped:"@),
        0 <= used <= setting.answers.len(),
    ensures
        ({
            let path = workspace::path_below(setting.spill_dir, id);
            let told = "[Result of "@ + text::decimal(text::byte_len(content)) + " chars saved to "@
                + path + " — read with ReadFile if needed]"@;
            let done = tool_result::message_done(ledger, used, setting, message);
            let (after, after_used, sent) = done->Ok_0;
            let saved = !tool_result::is_readback(setting, id) && id.len() > 0;
            &&& saved && used == setting.answers.len() ==> done == Err::<
                (Ledger, int, MessageView),
                _,
            >(SpillView { path, content })
            &&& saved && used < setting.answers.len() && setting.answers[used] ==> {
                &&& done is Ok
                &&& after_used == used + 1
                &&& sent.content == seq![
                    BlockView::ToolResult { tool_use_id: id, content: told, is_error },
                ]
                &&& keyed::value_of(after.replaced, id) == Some(told)
                &&& after.seen.contains(id)
            }
            &&& saved && used < setting.answers.len() && !setting.answers[used] ==> {
                &&& done is Ok
                &&& after_used == used + 1
                &&& sent == message
                &&& keyed::value_of(after.replaced, id) is None
                &&& after.seen.contains(id)
            }
            &&& !saved ==> {
                &&& done is Ok
                &&& after_used == used
                &&& sent == message
                &&& keyed::value_of(after.replaced, id) is None
                &&& after.seen.contains(id)
            }
        }),
{
    let blocks = message.content;
    assert(blocks.len() == 1);
    assert(tool_result::is_result(blocks[0]));
    assert(tool_result::has_result(blocks));
    let sorted = tool_result::sorted_out(ledger, blocks, 1);
    assert(tool_result::sorted_out(ledger, blocks, 0).fresh =~= Seq::<int>::empty());
    assert(sorted.fresh =~= seq![0int]);
    assert(sorted.decisions =~= Seq::<(Seq<char>, Seq<char>)>::empty());
    assert(sorted.ledger == ledger);
    let fresh = sorted.fresh;
    let start = Work { ledger, decisions: sorted.decisions, used, total: 0 };
    assert(keyed::value_of(start.decisions, id) is None);
    reveal_with_fuel(tool_result::singles_done, 2);
    reveal_with_fuel(tool_result::aggregate_done, 2);
    reveal_with_fuel(tool_result::settled, 2);
    reveal_with_fuel(tool_result::undecided, 2);
    reveal_with_fuel(tool_result::result_bytes, 2);
    reveal_with_fuel(tool_result::decided_bytes, 2);
    reveal_with_fuel(tool_result::longest_first, 2);
    reveal_with_fuel(tool_result::shorter_from, 2);
    assert(fresh.drop_last() =~= Seq::<int>::empty());
    let told = tool_result::preview(setting, id, content);
    keyed::lemma_with_value(start.decisions, id, content, id);
    keyed::lemma_with_value(start.decisions, id, told, id);
    keyed::lemma_with_value(ledger.replaced, id, told, id);
    if text::byte_len(content) > setting.config.single_result_limit_chars {
        match tool_result::shortened(start, setting, id, content) {
            Err(_) => {},
            Ok(work) => {
                let singles = Work { total: 0, ..work };
                assert(tool_result::singles_done(start, setting, blocks, fresh, 1) == Ok::<
                    Work,
                    SpillView,
                >(singles));
                assert(tool_result::undecided(blocks, fresh, singles.decisions) =~= Seq::<
                    int,
                >::empty());
                let work = tool_result::message_work(ledger, used, setting, blocks)->Ok_0;
                assert(work.decisions == singles.decisions);
                let sent = blocks.map_values(
                    |block: BlockView| tool_result::decided_block(block, work.decisions),
                );
                assert(sent.len() == 1);
                assert(sent[0] == tool_result::decided_block(blocks[0], work.decisions));
                assert(sent =~= seq![sent[0]]);
            },
        }
    } else {
        lemma_singles_whole(start, setting, blocks, fresh, 1);
        lemma_all_undecided(blocks, fresh, start.decisions);
        let order = tool_result::longest_first(blocks, fresh);
        assert(order =~= seq![0int]);
        let counted = Work { total: text::byte_len(content) as int, ..start };
        assert(tool_result::aggregate_done(counted, setting, blocks, order, 1)
            == tool_result::shortened(counted, setting, id, content));
        match tool_result::shortened(counted, setting, id, content) {
            Err(_) => {},
            Ok(within) => {
                let work = tool_result::message_work(ledger, used, setting, blocks)->Ok_0;
                assert(work.decisions == within.decisions);
                let sent = blocks.map_values(
                    |block: BlockView| tool_result::decided_block(block, work.decisions),
                );
                assert(sent[0] == tool_result::decided_block(blocks[0], work.decisions));
                assert(sent =~= seq![sent[0]]);
            },
        }
    }
}

/// A result is the reading of a saved result just where the last use of its id reads a file in
/// the folder for results.
pub proof fn law_readings_of_saved_results(
    setting: Setting,
    index: int,
    at: int,
    id: Seq<char>,
    tool_name: Seq<char>,
    arguments: JsonView,
)
    requires
        0 <= index < setting.conversation.len(),
        0 <= at < setting.conversation[index].content.len(),
        setting.conversation[index].content[at] == (BlockView::ToolUse {
            tool_use_id: id,
            tool_name,
            arguments,
        }),
        forall|j: int|
            at < j < setting.conversation[index].content.len() && (
            #[trigger] setting.conversation[index].content[j]) is ToolUse
                ==> setting.conversation[index].content[j]->ToolUse_tool_use_id != id,
        forall|i: int, j: int|
            index < i < setting.conversation.len() && 0 <= j
                < setting.conversation[i].content.len() && (
            #[trigger] setting.conversation[i].content[j]) is ToolUse
                ==> setting.conversation[i].content[j]->ToolUse_tool_use_id != id,
    ensures
        ({
            let path = json::as_text(json::member(arguments, "file_path"@));
            tool_result::is_readback(setting, id) <==> tool_name == "ReadFile"@ && path is Some
                && workspace::path_within(
                workspace::path_below(setting.workspace_root, path->0),
                setting.spill_dir,
            )
        }),
{
    lemma_use_of(setting.conversation, index, at, id);
}

/// The last use of an id in blocks.
proof fn lemma_use_in(content: Seq<BlockView>, at: int, id: Seq<char>, end: int)
    requires
        0 <= end <= content.len(),
        forall|j: int|
            at < j < content.len() && (#[trigger] content[j]) is ToolUse
                ==> content[j]->ToolUse_tool_use_id != id,
        at >= 0 ==> at < content.len() && content[at] is ToolUse
            && content[at]->ToolUse_tool_use_id == id,
        at < end || at == -1,
        at >= -1,
    ensures
        at >= 0 ==> tool_result::use_in(content, id, end) == Some(
            (content[at]->ToolUse_tool_name, content[at]->ToolUse_arguments),
        ),
        at == -1 ==> tool_result::use_in(content, id, end) is None,
    decreases end,
{
    if end > 0 && at < end - 1 {
        assert(content[end - 1] is ToolUse ==> content[end - 1]->ToolUse_tool_use_id != id);
        lemma_use_in(content, at, id, end - 1);
    }
}

/// The last use of an id in a conversation.
proof fn lemma_use_of(conversation: Seq<MessageView>, index: int, at: int, id: Seq<char>)
    requires
        0 <= index < conversation.len(),
        0 <= at < conversation[index].content.len(),
        conversation[index].content[at] is ToolUse,
        conversation[index].content[at]->ToolUse_tool_use_id == id,
        forall|j: int|
            at < j < conversation[index].content.len() && (
            #[trigger] conversation[index].content[j]) is ToolUse
                ==> conversation[index].content[j]->ToolUse_tool_use_id != id,
        forall|i: int, j: int|
            index < i < conversation.len() && 0 <= j < conversation[i].content.len() && (
            #[trigger] conversation[i].content[j]) is ToolUse
                ==> conversation[i].content[j]->ToolUse_tool_use_id != id,
    ensures
        tool_result::use_of(conversation, id) == Some(
            (
                conversation[index].content[at]->ToolUse_tool_name,
                conversation[index].content[at]->ToolUse_arguments,
            ),
        ),
    decreases conversation.len(),
{
    let last = conversation.last();
    assert(last == conversation[conversation.len() - 1]);
    if index == conversation.len() - 1 {
        lemma_use_in(last.content, at, id, last.content.len() as int);
    } else {
        lemma_use_in(last.content, -1, id, last.content.len() as int);
        let earlier = conversation.drop_last();
        assert(earlier[index] == conversation[index]);
        assert forall|i: int, j: int|
            index < i < earlier.len() && 0 <= j < earlier[i].content.len() && (
            #[trigger] earlier[i].content[j]) is ToolUse implies earlier[i].content[j]->ToolUse_tool_use_id
            != id by {
            assert(earlier[i] == conversation[i]);
            assert(conversation[i].content[j] is ToolUse);
        }
        lemma_use_of(earlier, index, at, id);
    }
}

/// All results of a conversation are seen, and no others.
pub proof fn law_all_results_are_seen(
    seen: Set<Seq<char>>,
    messages: Seq<MessageView>,
    end: int,
    id: Seq<char>,
)
    requires
        0 <= end <= messages.len(),
    ensures
        tool_result::seen_through(seen, messages, end).contains(id) <==> seen.contains(id)
            || exists|i: int|
            0 <= i < end && tool_result::answered_before(
                (#[trigger] messages[i]).content,
                id,
                messages[i].content.len() as int,
            ),
    decreases end,
{
    if end > 0 {
        law_all_results_are_seen(seen, messages, end - 1, id);
        let before = tool_result::seen_through(seen, messages, end - 1);
        let content = messages[end - 1].content;
        lemma_seen_in(before, content, content.len() as int, id);
        if tool_result::answered_before(content, id, content.len() as int) {
            assert(tool_result::answered_before(
                messages[end - 1].content,
                id,
                messages[end - 1].content.len() as int,
            ));
        }
    }
}

proof fn lemma_seen_in(seen: Set<Seq<char>>, content: Seq<BlockView>, end: int, id: Seq<char>)
    requires
        0 <= end <= content.len(),
    ensures
        tool_result::seen_in(seen, content, end).contains(id) <==> seen.contains(id)
            || tool_result::answered_before(content, id, end),
    decreases end,
{
    if end > 0 {
        lemma_seen_in(seen, content, end - 1, id);
        if tool_result::answered_before(content, id, end - 1) {
            let j = choose|j: int|
                0 <= j < end - 1 && (#[trigger] content[j]) is ToolResult
                    && content[j]->ToolResult_tool_use_id == id;
            assert(content[j] is ToolResult);
        }
        if content[end - 1] is ToolResult && content[end - 1]->ToolResult_tool_use_id == id {
            assert(tool_result::answered_before(content, id, end));
        }
    }
}

/// What was decided of a result stays so, however long the result is: where something was sent
/// in its place, that is sent again, and where it was sent whole, it is sent whole again. A
/// result that already stands for another is sent as it is and is remembered to do so. None of
/// these asks for a file.
pub proof fn law_decided_results_stay_decided(
    ledger: Ledger,
    used: int,
    setting: Setting,
    message: MessageView,
    id: Seq<char>,
    content: Seq<char>,
    is_error: bool,
)
    requires
        message.content == seq![
            BlockView::ToolResult { tool_use_id: id, content, is_error },
        ],
    ensures
        ({
            let done = tool_result::message_done(ledger, used, setting, message);
            let (after, after_used, sent) = done->Ok_0;
            let replaced = keyed::value_of(ledger.replaced, id);
            let stands = text::begins_with(content, "[Result of "@) || text::begins_with(
                content,
                "[Stale output snipped:"@,
            );
            &&& replaced is Some ==> {
                &&& done is Ok && after_used == used && after == ledger
                &&& sent.content == seq![
                    BlockView::ToolResult { tool_use_id: id, content: replaced->0, is_error },
                ]
            }
            &&& replaced is None && ledger.seen.contains(id) ==> done is Ok && after_used == used
                && after == ledger && sent == message
            &&& replaced is None && !ledger.seen.contains(id) && stands ==> {
                &&& done is Ok && after_used == used && sent == message
                &&& keyed::value_of(after.replaced, id) == Some(content)
                &&& after.seen.contains(id)
            }
        }),
{
    let blocks = message.content;
    assert(blocks.len() == 1);
    assert(tool_result::is_result(blocks[0]));
    assert(tool_result::has_result(blocks));
    let sorted = tool_result::sorted_out(ledger, blocks, 1);
    let none = tool_result::sorted_out(ledger, blocks, 0);
    assert(none.fresh =~= Seq::<int>::empty());
    assert(none.decisions =~= Seq::<(Seq<char>, Seq<char>)>::empty());
    let replaced = keyed::value_of(ledger.replaced, id);
    let stands = tool_result::is_preview(content);
    if replaced is Some || ledger.seen.contains(id) || stands {
        assert(sorted.fresh =~= Seq::<int>::empty());
        let start = Work { ledger: sorted.ledger, decisions: sorted.decisions, used, total: 0 };
        let left = tool_result::undecided(blocks, sorted.fresh, start.decisions);
        assert(left =~= Seq::<int>::empty());
        let order = tool_result::longest_first(blocks, left);
        assert(order =~= Seq::<int>::empty());
        let work = tool_result::message_work(ledger, used, setting, blocks)->Ok_0;
        assert(work.decisions == sorted.decisions);
        let decided = if replaced is Some {
            replaced->0
        } else {
            content
        };
        keyed::lemma_with_value(none.decisions, id, decided, id);
        keyed::lemma_with_value(ledger.replaced, id, content, id);
        let sent = blocks.map_values(
            |block: BlockView| tool_result::decided_block(block, work.decisions),
        );
        assert(sent[0] == tool_result::decided_block(blocks[0], work.decisions));
        assert(sent =~= seq![sent[0]]);
    }
}

/// Of the results of a message the longest are shortened first: they are taken in the order of
/// their lengths, each once.
pub proof fn law_longest_results_come_first(
    content: Seq<BlockView>,
    results: Seq<int>,
    i: int,
    j: int,
)
    ensures
        ({
            let order = tool_result::longest_first(content, results);
            &&& order.to_multiset() == results.to_multiset()
            &&& order.len() == results.len()
            &&& 0 <= i < j < order.len() ==> text::byte_len(
                content[order[i]]->ToolResult_content,
            ) >= text::byte_len(content[order[j]]->ToolResult_content)
        }),
    decreases results.len(),
{
    broadcast use vstd::seq_lib::group_to_multiset_ensures;

    if results.len() > 0 {
        let fewer = results.drop_last();
        let last = results.last();
        let before = tool_result::longest_first(content, fewer);
        law_longest_results_come_first(content, fewer, i, j);
        lemma_place(content, before, last, 0);
        let at = tool_result::shorter_from(content, before, last, 0);
        let order = before.insert(at, last);
        assert(order.remove(at) =~= before);
        assert(order[at] == last);
        assert(order.contains(last));
        assert(before.to_multiset() == order.to_multiset().remove(last));
        assert(order.to_multiset() =~= before.to_multiset().insert(last));
        assert(results =~= fewer.push(last));
        if 0 <= i < j < order.len() {
            if j < at {
            } else if j == at {
                assert(order[i] == before[i]);
            } else if i < at {
                law_longest_results_come_first(content, fewer, i, j - 1);
            } else if i == at {
                assert(order[j] == before[j - 1]);
                if at < j - 1 {
                    law_longest_results_come_first(content, fewer, at, j - 1);
                }
            } else {
                law_longest_results_come_first(content, fewer, i - 1, j - 1);
            }
        }
    } else {
        assert(tool_result::longest_first(content, results) =~= results);
    }
}

/// Where a result is put: after all that are at least as long, before one that is shorter.
proof fn lemma_place(content: Seq<BlockView>, order: Seq<int>, index: int, from: int)
    requires
        0 <= from <= order.len(),
    ensures
        ({
            let at = tool_result::shorter_from(content, order, index, from);
            &&& from <= at <= order.len()
            &&& at < order.len() ==> text::byte_len(content[order[at]]->ToolResult_content)
                < text::byte_len(content[index]->ToolResult_content)
            &&& forall|i: int|
                from <= i < at ==> text::byte_len(
                    content[#[trigger] order[i]]->ToolResult_content,
                ) >= text::byte_len(content[index]->ToolResult_content)
        }),
    decreases order.len() - from,
{
    if from < order.len() {
        lemma_place(content, order, index, from + 1);
    }
}

/// The results of a message are shortened only while they are too long together: once they fit,
/// no more are, and each that is shortened is the longest that is left.
pub proof fn law_shortening_stops_when_it_fits(
    work: Work,
    setting: Setting,
    content: Seq<BlockView>,
    order: Seq<int>,
    end: int,
)
    requires
        0 <= end < order.len(),
        tool_result::aggregate_done(work, setting, content, order, end) is Ok,
    ensures
        ({
            let before = tool_result::aggregate_done(work, setting, content, order, end)->Ok_0;
            let after = tool_result::aggregate_done(work, setting, content, order, end + 1);
            let id = content[order[end]]->ToolResult_tool_use_id;
            let text = content[order[end]]->ToolResult_content;
            &&& before.total <= setting.config.message_aggregate_limit_chars ==> after == Ok::<
                Work,
                SpillView,
            >(before)
            &&& before.total > setting.config.message_aggregate_limit_chars
                && !tool_result::is_readback(setting, id) && id.len() > 0 ==> {
                &&& before.used >= setting.answers.len() ==> after == Err::<Work, _>(
                    SpillView { path: workspace::path_below(setting.spill_dir, id), content: text },
                )
                &&& 0 <= before.used < setting.answers.len() ==> after is Ok && (
                after->Ok_0).used == before.used + 1
                &&& 0 <= before.used < setting.answers.len() && setting.answers[before.used]
                    ==> keyed::value_of((after->Ok_0).ledger.replaced, id) is Some
                &&& 0 <= before.used < setting.answers.len() && !setting.answers[before.used]
                    ==> keyed::value_of((after->Ok_0).decisions, id) == Some(text) && (
                after->Ok_0).ledger.replaced == before.ledger.replaced && (after->Ok_0).total
                    == before.total
            }
        }),
{
    let before = tool_result::aggregate_done(work, setting, content, order, end)->Ok_0;
    let id = content[order[end]]->ToolResult_tool_use_id;
    let text = content[order[end]]->ToolResult_content;
    let told = tool_result::preview(setting, id, text);
    keyed::lemma_with_value(before.ledger.replaced, id, told, id);
    keyed::lemma_with_value(before.decisions, id, text, id);
}

/// Records of replacements cannot be read just where a line that is not blank is none; the first
/// such line is told.
pub proof fn law_first_bad_record_is_told(lines: Seq<Seq<char>>)
    ensures
        match tool_result::replacements_in(lines) {
            Ok(_) => forall|i: int|
                0 <= i < lines.len() ==> text::is_blank(#[trigger] lines[i])
                    || tool_result::replacement_meaning(lines[i]) is Some,
            Err(number) => {
                &&& 1 <= number <= lines.len()
                &&& !text::is_blank(lines[number - 1])
                &&& tool_result::replacement_meaning(lines[number - 1]) is None
                &&& forall|i: int|
                    0 <= i < number - 1 ==> text::is_blank(#[trigger] lines[i])
                        || tool_result::replacement_meaning(lines[i]) is Some
            },
        },
    decreases lines.len(),
{
    if lines.len() > 0 {
        let fewer = lines.drop_last();
        law_first_bad_record_is_told(fewer);
        assert(lines.last() == lines[lines.len() - 1]);
        assert forall|i: int| 0 <= i < fewer.len() implies #[trigger] lines[i] == fewer[i] by {}
    }
}

/// Of two records for a result the later one counts, and records for other results stay.
pub proof fn law_last_record_counts(
    lines: Seq<Seq<char>>,
    line: Seq<char>,
    id: Seq<char>,
    replacement: Seq<char>,
    other: Seq<char>,
)
    requires
        tool_result::replacements_in(lines) is Ok,
        !text::is_blank(line),
        tool_result::replacement_meaning(line) == Some((id, replacement)),
    ensures
        ({
            let before = tool_result::replacements_in(lines)->Ok_0;
            let after = tool_result::replacements_in(lines.push(line));
            &&& after is Ok
            &&& keyed::value_of(after->Ok_0, id) == Some(replacement)
            &&& other != id ==> keyed::value_of(after->Ok_0, other) == keyed::value_of(
                before,
                other,
            )
        }),
        tool_result::replacements_in(Seq::empty()) is Ok,
        (tool_result::replacements_in(Seq::empty())->Ok_0).len() == 0,
{
    assert(lines.push(line).drop_last() =~= lines);
    let before = tool_result::replacements_in(lines)->Ok_0;
    keyed::lemma_with_value(before, id, replacement, other);
}

/// A budget that is resumed keeps its files in the work directory and replaces what was recorded;
/// all of that counts as recorded, and nothing as seen.
pub proof fn law_resumed_budget(
    work_dir: Seq<char>,
    session_id: Seq<char>,
    config: ToolResultBudgetConfig,
    replaced: Pairs,
    id: Seq<char>,
)
    ensures
        ({
            let budget = tool_result::resumed_budget(work_dir, session_id, config, replaced);
            &&& budget.workspace_root == work_dir
            &&& budget.spill_dir == workspace::path_below(work_dir, ".mycode/tool_results"@)
            &&& budget.config == config
            &&& budget.ledger.replaced == replaced
            &&& !budget.ledger.seen.contains(id)
            &&& budget.recorded.contains(id) <==> exists|i: int|
                0 <= i < replaced.len() && (#[trigger] replaced[i]).0 == id
            &&& budget.records_path == workspace::path_below(
                workspace::path_below(
                    workspace::path_below(work_dir, ".mycode/sessions"@),
                    session_id,
                ),
                "replacement_records.jsonl"@,
            )
        }),
{
}

/// What is to be recorded are the replacements of results that are not recorded yet, all of them
/// and in order.
pub proof fn law_unrecorded_replacements_are_recorded(
    replaced: Pairs,
    id: Seq<char>,
    replacement: Seq<char>,
    recorded: Set<Seq<char>>,
)
    ensures
        tool_result::unrecorded(Seq::empty(), recorded).len() == 0,
        recorded.contains(id) ==> tool_result::unrecorded(
            replaced.push((id, replacement)),
            recorded,
        ) == tool_result::unrecorded(replaced, recorded),
        !recorded.contains(id) ==> tool_result::unrecorded(
            replaced.push((id, replacement)),
            recorded,
        ) == tool_result::unrecorded(replaced, recorded).push((id, replacement)),
{
    assert(replaced.push((id, replacement)).drop_last() =~= replaced);
}

/// A record is a replacement just where it says that it is one, and has an id and what to send.
pub proof fn law_records_say_what_they_replace(
    kind: JsonView,
    id: Seq<char>,
    replacement: Seq<char>,
)
    ensures
        ({
            let named = Some(JsonView::Text(id));
            let sent = Some(JsonView::Text(replacement));
            let marked = JsonView::Text("tool-result"@);
            &&& tool_result::replacement_in(Some(marked), named, sent) == Some((id, replacement))
            &&& tool_result::replacement_in(
                Some(JsonView::Object(seq![("tool-result"@, JsonView::Null)])),
                named,
                sent,
            ) == Some((id, replacement))
            &&& kind is Text && kind != marked ==> tool_result::replacement_in(
                Some(kind),
                named,
                sent,
            ) is None
            &&& kind is Object && (kind->Object_0).len() != 1 ==> tool_result::replacement_in(
                Some(kind),
                named,
                sent,
            ) is None
            &&& !(kind is Text) && !(kind is Object) ==> tool_result::replacement_in(
                Some(kind),
                named,
                sent,
            ) is None
            &&& tool_result::replacement_in(None, named, sent) is None
            &&& tool_result::replacement_in(Some(marked), None, sent) is None
            &&& tool_result::replacement_in(Some(marked), named, None) is None
        }),
{
}

} // verus!
