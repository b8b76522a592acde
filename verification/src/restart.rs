//! What a budget decided outlives it: a budget that is resumed from the records of an
//! earlier one comes to the same.
use vstd::prelude::*;

use crate::conversation::{BlockView, MessageView};
use crate::keyed;
use crate::keyed::Pairs;
use crate::stability;
use crate::tool_result;
use crate::tool_result::{Ledger, Setting, SpillView, ToolResultBudgetConfig, Work};

verus! {

/// Sorting results out leaves the keys of the replacements distinct.
proof fn lemma_sorted_keys(ledger: Ledger, content: Seq<BlockView>, end: int)
    requires
        keyed::distinct_keys(ledger.replaced),
    ensures
        keyed::distinct_keys(tool_result::sorted_out(ledger, content, end).ledger.replaced),
    decreases end,
{
    if end > 0 {
        lemma_sorted_keys(ledger, content, end - 1);
        let before = tool_result::sorted_out(ledger, content, end - 1);
        keyed::lemma_distinct_with_value(
            before.ledger.replaced,
            tool_result::id_at(content, end - 1),
            tool_result::text_at(content, end - 1),
        );
    }
}

/// Shortening a result leaves the keys of the replacements distinct.
proof fn lemma_shortened_keys(work: Work, setting: Setting, id: Seq<char>, content: Seq<char>)
    requires
        keyed::distinct_keys(work.ledger.replaced),
    ensures
        tool_result::shortened(work, setting, id, content) matches Ok(after)
            ==> keyed::distinct_keys(after.ledger.replaced),
{
    keyed::lemma_distinct_with_value(
        work.ledger.replaced,
        id,
        tool_result::preview(setting, id, content),
    );
}

/// Holding results to the limit of a single one leaves the keys distinct.
proof fn lemma_singles_keys(
    work: Work,
    setting: Setting,
    content: Seq<BlockView>,
    fresh: Seq<int>,
    end: int,
)
    requires
        keyed::distinct_keys(work.ledger.replaced),
    ensures
        tool_result::singles_done(work, setting, content, fresh, end) matches Ok(after)
            ==> keyed::distinct_keys(after.ledger.replaced),
    decreases end,
{
    if end > 0 {
        lemma_singles_keys(work, setting, content, fresh, end - 1);
        if let Ok(before) = tool_result::singles_done(work, setting, content, fresh, end - 1) {
            lemma_shortened_keys(
                before,
                setting,
                tool_result::id_at(content, fresh[end - 1]),
                tool_result::text_at(content, fresh[end - 1]),
            );
        }
    }
}

/// Holding a message to its limit leaves the keys distinct.
proof fn lemma_aggregate_keys(
    work: Work,
    setting: Setting,
    content: Seq<BlockView>,
    order: Seq<int>,
    end: int,
)
    requires
        keyed::distinct_keys(work.ledger.replaced),
    ensures
        tool_result::aggregate_done(work, setting, content, order, end) matches Ok(after)
            ==> keyed::distinct_keys(after.ledger.replaced),
    decreases end,
{
    if end > 0 {
        lemma_aggregate_keys(work, setting, content, order, end - 1);
        if let Ok(before) = tool_result::aggregate_done(work, setting, content, order, end - 1) {
            lemma_shortened_keys(
                before,
                setting,
                tool_result::id_at(content, order[end - 1]),
                tool_result::text_at(content, order[end - 1]),
            );
        }
    }
}

/// Settling results changes no replacement.
proof fn lemma_settled_keys(work: Work, content: Seq<BlockView>, fresh: Seq<int>, end: int)
    ensures
        tool_result::settled(work, content, fresh, end).ledger.replaced == work.ledger.replaced,
    decreases end,
{
    if end > 0 {
        lemma_settled_keys(work, content, fresh, end - 1);
    }
}

/// The work on a message leaves the keys distinct.
proof fn lemma_message_keys(ledger: Ledger, used: int, setting: Setting, content: Seq<BlockView>)
    requires
        keyed::distinct_keys(ledger.replaced),
    ensures
        tool_result::message_work(ledger, used, setting, content) matches Ok(after)
            ==> keyed::distinct_keys(after.ledger.replaced),
{
    let sorted = tool_result::sorted_out(ledger, content, content.len() as int);
    let fresh = sorted.fresh;
    let start = Work { ledger: sorted.ledger, decisions: sorted.decisions, used, total: 0 };
    lemma_sorted_keys(ledger, content, content.len() as int);
    lemma_singles_keys(start, setting, content, fresh, fresh.len() as int);
    if let Ok(singles) = tool_result::singles_done(
        start,
        setting,
        content,
        fresh,
        fresh.len() as int,
    ) {
        let left = tool_result::undecided(content, fresh, singles.decisions);
        let counted = Work {
            total: tool_result::decided_bytes(singles.decisions) + tool_result::result_bytes(
                content,
                left,
            ),
            ..singles
        };
        let order = tool_result::longest_first(content, left);
        lemma_aggregate_keys(counted, setting, content, order, order.len() as int);
        if let Ok(within) = tool_result::aggregate_done(
            counted,
            setting,
            content,
            order,
            order.len() as int,
        ) {
            lemma_settled_keys(within, content, fresh, fresh.len() as int);
        }
    }
}

/// The work on messages leaves the keys distinct.
proof fn lemma_messages_keys(
    ledger: Ledger,
    setting: Setting,
    messages: Seq<MessageView>,
    end: int,
)
    requires
        keyed::distinct_keys(ledger.replaced),
    ensures
        tool_result::messages_done(ledger, setting, messages, end) matches Ok(progress)
            ==> keyed::distinct_keys(progress.ledger.replaced),
    decreases end,
{
    if end > 0 {
        lemma_messages_keys(ledger, setting, messages, end - 1);
        if let Ok(before) = tool_result::messages_done(ledger, setting, messages, end - 1) {
            lemma_message_keys(before.ledger, before.used, setting, messages[end - 1].content);
        }
    }
}

/// Snipping blocks leaves the keys distinct.
proof fn lemma_blocks_keys(ledger: Ledger, limit: int, content: Seq<BlockView>, end: int)
    requires
        keyed::distinct_keys(ledger.replaced),
    ensures
        keyed::distinct_keys(tool_result::blocks_snipped(ledger, limit, content, end).0.replaced),
    decreases end,
{
    if end > 0 {
        lemma_blocks_keys(ledger, limit, content, end - 1);
        keyed::lemma_distinct_with_value(
            tool_result::blocks_snipped(ledger, limit, content, end - 1).0.replaced,
            tool_result::id_at(content, end - 1),
            tool_result::snippet(tool_result::text_at(content, end - 1)),
        );
    }
}

/// Snipping stale results leaves the keys distinct.
proof fn lemma_stale_keys(
    ledger: Ledger,
    config: ToolResultBudgetConfig,
    messages: Seq<MessageView>,
    end: int,
)
    requires
        keyed::distinct_keys(ledger.replaced),
    ensures
        keyed::distinct_keys(tool_result::stale_snipped(ledger, config, messages, end).0.replaced),
    decreases end,
{
    if end > 0 {
        lemma_stale_keys(ledger, config, messages, end - 1);
        lemma_blocks_keys(
            tool_result::stale_snipped(ledger, config, messages, end - 1).0,
            config.old_result_snip_chars as int,
            messages[end - 1].content,
            messages[end - 1].content.len() as int,
        );
    }
}

/// A ledger holds one replacement of each result: this holds of what is read from a file
/// of records, and applying a budget keeps it.
pub proof fn law_one_replacement_each(ledger: Ledger, setting: Setting, lines: Seq<Seq<char>>)
    ensures
        tool_result::replacements_in(lines) matches Ok(replaced) ==> keyed::distinct_keys(replaced),
        keyed::distinct_keys(ledger.replaced) ==> (tool_result::applied(ledger, setting) matches Ok(
            (after, _),
        ) ==> keyed::distinct_keys(after.replaced)),
    decreases lines.len(),
{
    if lines.len() > 0 {
        law_one_replacement_each(ledger, setting, lines.drop_last());
        if let Ok(before) = tool_result::replacements_in(lines.drop_last()) {
            if let Ok(replaced) = tool_result::replacements_in(lines) {
                if replaced != before {
                    let record = tool_result::replacement_meaning(lines.last())->0;
                    keyed::lemma_distinct_with_value(before, record.0, record.1);
                }
            }
        }
    }
    if keyed::distinct_keys(ledger.replaced) {
        let messages = setting.conversation;
        lemma_messages_keys(ledger, setting, messages, messages.len() as int);
        if let Ok(progress) = tool_result::messages_done(
            ledger,
            setting,
            messages,
            messages.len() as int,
        ) {
            lemma_stale_keys(
                progress.ledger,
                setting.config,
                progress.messages,
                progress.messages.len() as int,
            );
        }
    }
}

/// What stands under a key of distinct ones.
proof fn lemma_value_under(pairs: Pairs, at: int)
    requires
        keyed::distinct_keys(pairs),
        0 <= at < pairs.len(),
    ensures
        keyed::value_of(pairs, pairs[at].0) == Some(pairs[at].1),
{
    keyed::lemma_key_position(pairs, pairs[at].0, 0);
    let position = keyed::key_position(pairs, pairs[at].0, 0);
    if position < at {
        assert(pairs[position].0 != pairs[at].0);
    }
}

/// What stands under a key when one more entry comes last.
proof fn lemma_value_pushed(pairs: Pairs, key: Seq<char>, from: int)
    requires
        0 <= from < pairs.len(),
    ensures
        keyed::value_from(pairs, key, from) == (match keyed::value_from(
            pairs.drop_last(),
            key,
            from,
        ) {
            Some(value) => Some(value),
            None => if pairs.last().0 == key {
                Some(pairs.last().1)
            } else {
                None
            },
        }),
    decreases pairs.len() - from,
{
    if from < pairs.len() - 1 {
        lemma_value_pushed(pairs, key, from + 1);
    } else {
        assert(keyed::value_from(pairs, key, pairs.len() as int) is None);
    }
}

/// Recording what is not yet recorded makes the records say all that the ledger says.
pub proof fn law_all_is_recorded(stored: Pairs, replaced: Pairs, recorded: Set<Seq<char>>, id: Seq<
    char,
>)
    requires
        keyed::distinct_keys(replaced),
    ensures
        keyed::value_of(
            keyed::with_values(stored, tool_result::unrecorded(replaced, recorded)),
            id,
        ) == if recorded.contains(id) || keyed::value_of(replaced, id) is None {
            keyed::value_of(stored, id)
        } else {
            keyed::value_of(replaced, id)
        },
    decreases replaced.len(),
{
    if replaced.len() > 0 {
        let fewer = replaced.drop_last();
        let last = replaced.last();
        assert(keyed::distinct_keys(fewer)) by {
            assert forall|i: int, j: int| 0 <= i < j < fewer.len() implies (#[trigger] fewer[i]).0
                != (#[trigger] fewer[j]).0 by {
                assert(replaced[i].0 != replaced[j].0);
            }
        }
        law_all_is_recorded(stored, fewer, recorded, id);
        lemma_value_pushed(replaced, id, 0);
        lemma_value_under(replaced, replaced.len() - 1);
        if !recorded.contains(last.0) {
            let records = tool_result::unrecorded(replaced, recorded);
            let before = tool_result::unrecorded(fewer, recorded);
            assert(records.drop_last() =~= before);
            keyed::lemma_with_value(keyed::with_values(stored, before), last.0, last.1, id);
        }
    }
}

/// The ids that are seen in a message.
proof fn lemma_seen_in(seen: Set<Seq<char>>, content: Seq<BlockView>, end: int)
    requires
        0 <= end <= content.len(),
    ensures
        seen.subset_of(tool_result::seen_in(seen, content, end)),
        forall|i: int|
            0 <= i < end && (#[trigger] content[i]) is ToolResult ==> tool_result::seen_in(
                seen,
                content,
                end,
            ).contains(tool_result::id_at(content, i)),
    decreases end,
{
    if end > 0 {
        lemma_seen_in(seen, content, end - 1);
    }
}

/// The ids that are seen in messages.
proof fn lemma_seen_through(
    seen: Set<Seq<char>>,
    replaced: Pairs,
    messages: Seq<MessageView>,
    end: int,
)
    requires
        0 <= end <= messages.len(),
    ensures
        seen.subset_of(tool_result::seen_through(seen, messages, end)),
        forall|i: int|
            0 <= i < end ==> stability::decided_in(
                Ledger { seen: tool_result::seen_through(seen, messages, end), replaced },
                (#[trigger] messages[i]).content,
            ),
    decreases end,
{
    if end > 0 {
        lemma_seen_through(seen, replaced, messages, end - 1);
        let content = messages[end - 1].content;
        let before = tool_result::seen_through(seen, messages, end - 1);
        let after = tool_result::seen_through(seen, messages, end);
        lemma_seen_in(before, content, content.len() as int);
        assert forall|i: int| 0 <= i < end implies stability::decided_in(
            Ledger { seen: after, replaced },
            (#[trigger] messages[i]).content,
        ) by {
            let ledger = Ledger { seen: after, replaced };
            let blocks = messages[i].content;
            if i < end - 1 {
                assert(stability::decided_in(Ledger { seen: before, replaced }, blocks));
            }
            assert forall|j: int|
                0 <= j < blocks.len() && (#[trigger] blocks[j]) is ToolResult implies stability::is_decided(
                ledger,
                tool_result::id_at(blocks, j),
            ) by {
                if i < end - 1 {
                    assert(stability::is_decided(
                        Ledger { seen: before, replaced },
                        tool_result::id_at(blocks, j),
                    ));
                }
            }
        }
    }
}

/// What was decided outlives a restart: `stored` being the replacements that were on file
/// before a budget was applied, a budget that is resumed once the new ones are added, and
/// takes note of the conversation, comes to the same conversation and changes nothing.
pub proof fn law_restarted_budget_decides_alike(
    ledger: Ledger,
    setting: Setting,
    stored: Pairs,
    later: Setting,
)
    requires
        stability::distinct_results(setting.conversation),
        keyed::distinct_keys(ledger.replaced),
        tool_result::applied(ledger, setting) is Ok,
        later.conversation == setting.conversation,
        later.config == setting.config,
        forall|id: Seq<char>|
            #[trigger] keyed::value_of(stored, id) is Some ==> keyed::value_of(ledger.replaced, id)
                == keyed::value_of(stored, id),
    ensures
        ({
            let (after, sent) = tool_result::applied(ledger, setting)->Ok_0;
            let restored = Ledger {
                seen: tool_result::seen_through(
                    Set::empty(),
                    setting.conversation,
                    setting.conversation.len() as int,
                ),
                replaced: keyed::with_values(
                    stored,
                    tool_result::unrecorded(after.replaced, tool_result::ids_of(stored)),
                ),
            };
            tool_result::applied(restored, later) == Ok::<(Ledger, Seq<MessageView>), SpillView>(
                (restored, sent),
            )
        }),
{
    let messages = setting.conversation;
    let (after, sent) = tool_result::applied(ledger, setting)->Ok_0;
    let recorded = tool_result::ids_of(stored);
    let restored = Ledger {
        seen: tool_result::seen_through(Set::empty(), messages, messages.len() as int),
        replaced: keyed::with_values(stored, tool_result::unrecorded(after.replaced, recorded)),
    };
    law_one_replacement_each(ledger, setting, Seq::empty());
    lemma_seen_through(Set::empty(), restored.replaced, messages, messages.len() as int);
    assert forall|id: Seq<char>| #[trigger] keyed::value_of(restored.replaced, id)
        == keyed::value_of(after.replaced, id) by {
        law_all_is_recorded(stored, after.replaced, recorded, id);
        stability::law_replacements_are_kept(ledger, setting, id);
        keyed::lemma_key_position(stored, id, 0);
        let position = keyed::key_position(stored, id, 0);
        if keyed::value_of(stored, id) is Some {
            assert(stored[position].0 == id);
            assert(recorded.contains(id));
        } else {
            assert(!recorded.contains(id));
        }
    }
    stability::law_decisions_are_stable(ledger, setting, restored, later);
}

} // verus!
