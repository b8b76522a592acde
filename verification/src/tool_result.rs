//! Keeping tool results within a budget. A result that is too long is put into a file,
//! and a preview is sent in its place; a result that is stale is snipped. What was once
//! decided of a result stays decided.
use vstd::prelude::*;

use crate::conversation::{
    BlockView, ContentBlock, Conversation, ConversationMessage, MessageRole, MessageView,
};
use crate::conversation;
use crate::json::{Json, JsonView};
use crate::json;
use crate::keyed::{Pairs, TextMap, TextSet};
use crate::keyed;
use crate::session::SessionId;
use crate::raw;
use crate::stored;
use crate::stored::{Fields, StoredView};
use crate::text;
use crate::workspace::WorkspacePaths;
use crate::workspace;

verus! {

/// The limits of the budget, in bytes and turns.
#[derive(Debug, Clone, Copy, PartialEq, Eq, Structural)]
pub struct ToolResultBudgetConfig {
    pub single_result_limit_chars: usize,
    pub message_aggregate_limit_chars: usize,
    pub old_result_snip_chars: usize,
    pub keep_recent_turns: usize,
}

/// The limits where nothing else is said.
pub open spec fn default_budget() -> ToolResultBudgetConfig {
    ToolResultBudgetConfig {
        single_result_limit_chars: 50_000,
        message_aggregate_limit_chars: 200_000,
        old_result_snip_chars: 2_000,
        keep_recent_turns: 10,
    }
}

impl Default for ToolResultBudgetConfig {
    fn default() -> (config: Self)
        ensures
            config == default_budget(),
    {
        ToolResultBudgetConfig {
            single_result_limit_chars: 50_000,
            message_aggregate_limit_chars: 200_000,
            old_result_snip_chars: 2_000,
            keep_recent_turns: 10,
        }
    }
}

/// Why the records of replacements could not be used.
#[derive(Debug, Clone, Copy, PartialEq, Eq, Structural)]
pub enum ToolResultBudgetError {
    ReadRecords,
    InvalidRecord { line_number: usize },
}

/// What an error says to a reader.
pub open spec fn budget_error_text(error: ToolResultBudgetError) -> Seq<char> {
    match error {
        ToolResultBudgetError::ReadRecords => "failed to read Tool Result replacement records"@,
        ToolResultBudgetError::InvalidRecord { line_number } =>
            "invalid Tool Result replacement record at line "@ + text::decimal(line_number as nat),
    }
}

impl ToolResultBudgetError {
    /// What the error says to a reader.
    pub fn message(&self) -> (result: String)
        ensures
            result@ == budget_error_text(*self),
    {
        match self {
            ToolResultBudgetError::ReadRecords => text::copy_text(
                "failed to read Tool Result replacement records",
            ),
            ToolResultBudgetError::InvalidRecord { line_number } => text::concat(
                "invalid Tool Result replacement record at line ",
                text::decimal_text(*line_number as u64).as_str(),
            ),
        }
    }
}

/// What has been decided of tool results so far.
#[verifier::ext_equal]
pub struct Ledger {
    /// The ids of the results that have been decided of.
    pub seen: Set<Seq<char>>,
    /// What is sent in the place of a result, by its id.
    pub replaced: Pairs,
}

/// A file that is to be written: a tool result that is too long.
#[derive(Debug, PartialEq, Eq)]
pub struct Spill {
    pub path: String,
    pub content: String,
}

/// What a [`Spill`] holds.
#[verifier::ext_equal]
pub struct SpillView {
    pub path: Seq<char>,
    pub content: Seq<char>,
}

impl View for Spill {
    type V = SpillView;

    open spec fn view(&self) -> SpillView {
        SpillView { path: self.path@, content: self.content@ }
    }
}

/// What decisions depend on, besides the ledger.
#[verifier::ext_equal]
pub struct Setting {
    pub workspace_root: Seq<char>,
    pub spill_dir: Seq<char>,
    pub config: ToolResultBudgetConfig,
    /// All messages of the conversation.
    pub conversation: Seq<MessageView>,
    /// Whether each file that was asked for could be written.
    pub answers: Seq<bool>,
}

/// The state of the work on one message.
#[verifier::ext_equal]
pub struct Work {
    pub ledger: Ledger,
    /// What is sent for each result of the message, by its id.
    pub decisions: Pairs,
    /// How many answers have been used.
    pub used: int,
    /// How many bytes the results of the message come to.
    pub total: int,
}

/// Whether a block is a tool result.
pub open spec fn is_result(block: BlockView) -> bool {
    block is ToolResult
}

/// Whether one of the blocks is a tool result.
pub open spec fn has_result(content: Seq<BlockView>) -> bool {
    exists|i: int| 0 <= i < content.len() && is_result(#[trigger] content[i])
}

/// The id of the result at `index`.
pub open spec fn id_at(content: Seq<BlockView>, index: int) -> Seq<char> {
    content[index]->ToolResult_tool_use_id
}

/// The text of the result at `index`.
pub open spec fn text_at(content: Seq<BlockView>, index: int) -> Seq<char> {
    content[index]->ToolResult_content
}

/// Whether a text stands in the place of a result.
pub open spec fn is_preview(content: Seq<char>) -> bool {
    text::begins_with(content, "[Result of "@) || text::begins_with(
        content,
        "[Stale output snipped:"@,
    )
}

/// The last use of a tool with that id among the first `end` blocks.
pub open spec fn use_in(content: Seq<BlockView>, id: Seq<char>, end: int) -> Option<
    (Seq<char>, JsonView),
>
    decreases end,
{
    if end <= 0 {
        None
    } else {
        match content[end - 1] {
            BlockView::ToolUse { tool_use_id, tool_name, arguments } => if tool_use_id == id {
                Some((tool_name, arguments))
            } else {
                use_in(content, id, end - 1)
            },
            _ => use_in(content, id, end - 1),
        }
    }
}

/// The last use of a tool with that id in a conversation: its name and arguments.
pub open spec fn use_of(conversation: Seq<MessageView>, id: Seq<char>) -> Option<
    (Seq<char>, JsonView),
>
    decreases conversation.len(),
{
    if conversation.len() == 0 {
        None
    } else {
        let content = conversation.last().content;
        match use_in(content, id, content.len() as int) {
            Some(found) => Some(found),
            None => use_of(conversation.drop_last(), id),
        }
    }
}

/// Whether the result with that id is what was read of a file that a result was put
/// into.
pub open spec fn is_readback(setting: Setting, id: Seq<char>) -> bool {
    match use_of(setting.conversation, id) {
        Some((tool_name, arguments)) => match json::as_text(
            json::member(arguments, "file_path"@),
        ) {
            Some(path) => tool_name == "ReadFile"@ && workspace::path_within(
                workspace::path_below(setting.workspace_root, path),
                setting.spill_dir,
            ),
            None => false,
        },
        None => false,
    }
}

/// The file for the result with that id.
pub open spec fn spill_path(setting: Setting, id: Seq<char>) -> Seq<char> {
    workspace::path_below(setting.spill_dir, id)
}

/// What is sent in the place of a result that was put into a file.
pub open spec fn preview(setting: Setting, id: Seq<char>, content: Seq<char>) -> Seq<char> {
    "[Result of "@ + text::decimal(text::byte_len(content)) + " chars saved to "@ + spill_path(
        setting,
        id,
    ) + " — read with ReadFile if needed]"@
}

/// What the attempt to put a result into a file comes to.
pub enum SpillOutcome {
    /// The file is yet to be written.
    Asked,
    Written,
    /// The file could not be written, or the result has no id.
    Refused,
}

/// What the attempt to put the result with that id into a file comes to.
pub open spec fn spill_outcome(setting: Setting, used: int, id: Seq<char>) -> SpillOutcome {
    if id.len() == 0 {
        SpillOutcome::Refused
    } else if !(0 <= used < setting.answers.len()) {
        SpillOutcome::Asked
    } else if setting.answers[used] {
        SpillOutcome::Written
    } else {
        SpillOutcome::Refused
    }
}

/// The number of answers used after that attempt.
pub open spec fn used_after(used: int, id: Seq<char>) -> int {
    if id.len() == 0 {
        used
    } else {
        used + 1
    }
}

/// `left` less `right`, and not below 0.
pub open spec fn less(left: int, right: int) -> int {
    if left >= right {
        left - right
    } else {
        0
    }
}

/// The work once it was tried to shorten a result: a result that was read back stays as
/// it is; another is put into a file, and stays as it is where that fails. `Err` is a
/// file that is to be written first.
pub open spec fn shortened(
    work: Work,
    setting: Setting,
    id: Seq<char>,
    content: Seq<char>,
) -> Result<Work, SpillView> {
    let frozen = Work {
        ledger: Ledger { seen: work.ledger.seen.insert(id), replaced: work.ledger.replaced },
        decisions: keyed::with_value(work.decisions, id, content),
        ..work
    };
    if is_readback(setting, id) {
        Ok(frozen)
    } else {
        match spill_outcome(setting, work.used, id) {
            SpillOutcome::Asked => Err(SpillView { path: spill_path(setting, id), content }),
            SpillOutcome::Refused => Ok(Work { used: used_after(work.used, id), ..frozen }),
            SpillOutcome::Written => {
                let sent = preview(setting, id, content);
                Ok(
                    Work {
                        ledger: Ledger {
                            seen: work.ledger.seen.insert(id),
                            replaced: keyed::with_value(work.ledger.replaced, id, sent),
                        },
                        decisions: keyed::with_value(work.decisions, id, sent),
                        used: work.used + 1,
                        total: less(
                            work.total,
                            less(
                                text::byte_len(content) as int,
                                text::byte_len(sent) as int,
                            ),
                        ),
                    },
                )
            },
        }
    }
}

/// What is known of the first blocks of a message: what was decided of results before,
/// and where the fresh results are.
#[verifier::ext_equal]
pub struct Sorted {
    pub ledger: Ledger,
    pub decisions: Pairs,
    pub fresh: Seq<int>,
}

/// What is known of the first `end` blocks of a message. A result that was replaced is
/// replaced again; one that was seen stays as it is; one that already is a preview is
/// taken for the replacement.
pub open spec fn sorted_out(ledger: Ledger, content: Seq<BlockView>, end: int) -> Sorted
    decreases end,
{
    if end <= 0 {
        Sorted { ledger, decisions: Seq::empty(), fresh: Seq::empty() }
    } else {
        let before = sorted_out(ledger, content, end - 1);
        match content[end - 1] {
            BlockView::ToolResult { tool_use_id, content: text, .. } => match keyed::value_of(
                before.ledger.replaced,
                tool_use_id,
            ) {
                Some(replacement) => Sorted {
                    decisions: keyed::with_value(before.decisions, tool_use_id, replacement),
                    ..before
                },
                None => if before.ledger.seen.contains(tool_use_id) {
                    Sorted {
                        decisions: keyed::with_value(before.decisions, tool_use_id, text),
                        ..before
                    }
                } else if is_preview(text) {
                    Sorted {
                        ledger: Ledger {
                            seen: before.ledger.seen.insert(tool_use_id),
                            replaced: keyed::with_value(
                                before.ledger.replaced,
                                tool_use_id,
                                text,
                            ),
                        },
                        decisions: keyed::with_value(before.decisions, tool_use_id, text),
                        ..before
                    }
                } else {
                    Sorted { fresh: before.fresh.push(end - 1), ..before }
                },
            },
            _ => before,
        }
    }
}

/// The work once the first `end` of the fresh results were held to the limit of a single
/// result.
pub open spec fn singles_done(
    work: Work,
    setting: Setting,
    content: Seq<BlockView>,
    fresh: Seq<int>,
    end: int,
) -> Result<Work, SpillView>
    decreases end,
{
    if end <= 0 {
        Ok(work)
    } else {
        match singles_done(work, setting, content, fresh, end - 1) {
            Err(spill) => Err(spill),
            Ok(before) => {
                let id = id_at(content, fresh[end - 1]);
                let text = text_at(content, fresh[end - 1]);
                if text::byte_len(text) <= setting.config.single_result_limit_chars {
                    Ok(before)
                } else {
                    match shortened(before, setting, id, text) {
                        Ok(after) => Ok(Work { total: work.total, ..after }),
                        Err(spill) => Err(spill),
                    }
                }
            },
        }
    }
}

/// The fresh results that have not been decided of.
pub open spec fn undecided(content: Seq<BlockView>, fresh: Seq<int>, decisions: Pairs) -> Seq<int>
    decreases fresh.len(),
{
    if fresh.len() == 0 {
        Seq::empty()
    } else {
        let before = undecided(content, fresh.drop_last(), decisions);
        if keyed::value_of(decisions, id_at(content, fresh.last())) is None {
            before.push(fresh.last())
        } else {
            before
        }
    }
}

/// The first position at or after `from` of a result that is shorter than the one at
/// `index`, or the number of results where there is none.
pub open spec fn shorter_from(
    content: Seq<BlockView>,
    order: Seq<int>,
    index: int,
    from: int,
) -> int
    decreases order.len() - from,
{
    if from >= order.len() {
        order.len() as int
    } else if text::byte_len(text_at(content, order[from])) < text::byte_len(
        text_at(content, index),
    ) {
        from
    } else {
        shorter_from(content, order, index, from + 1)
    }
}

/// Results in the order of their lengths, the longest first. Results of one length keep
/// their order.
pub open spec fn longest_first(content: Seq<BlockView>, results: Seq<int>) -> Seq<int>
    decreases results.len(),
{
    if results.len() == 0 {
        Seq::empty()
    } else {
        let before = longest_first(content, results.drop_last());
        before.insert(shorter_from(content, before, results.last(), 0), results.last())
    }
}

/// The bytes of what was decided.
pub open spec fn decided_bytes(decisions: Pairs) -> int
    decreases decisions.len(),
{
    if decisions.len() == 0 {
        0
    } else {
        decided_bytes(decisions.drop_last()) + text::byte_len(decisions.last().1)
    }
}

/// The bytes of results.
pub open spec fn result_bytes(content: Seq<BlockView>, results: Seq<int>) -> int
    decreases results.len(),
{
    if results.len() == 0 {
        0
    } else {
        result_bytes(content, results.drop_last()) + text::byte_len(
            text_at(content, results.last()),
        )
    }
}

/// The work once the first `end` of the results in `order` were shortened, as long as
/// the message was over the limit.
pub open spec fn aggregate_done(
    work: Work,
    setting: Setting,
    content: Seq<BlockView>,
    order: Seq<int>,
    end: int,
) -> Result<Work, SpillView>
    decreases end,
{
    if end <= 0 {
        Ok(work)
    } else {
        match aggregate_done(work, setting, content, order, end - 1) {
            Err(spill) => Err(spill),
            Ok(before) => if before.total <= setting.config.message_aggregate_limit_chars {
                Ok(before)
            } else {
                shortened(
                    before,
                    setting,
                    id_at(content, order[end - 1]),
                    text_at(content, order[end - 1]),
                )
            },
        }
    }
}

/// The work once the first `end` of the fresh results were settled: those that have not
/// been decided of stay as they are.
pub open spec fn settled(work: Work, content: Seq<BlockView>, fresh: Seq<int>, end: int) -> Work
    decreases end,
{
    if end <= 0 {
        work
    } else {
        let before = settled(work, content, fresh, end - 1);
        let id = id_at(content, fresh[end - 1]);
        Work {
            ledger: Ledger {
                seen: before.ledger.seen.insert(id),
                replaced: before.ledger.replaced,
            },
            decisions: if keyed::value_of(before.decisions, id) is None {
                keyed::with_value(before.decisions, id, text_at(content, fresh[end - 1]))
            } else {
                before.decisions
            },
            ..before
        }
    }
}

/// A block with what was decided of it.
pub open spec fn decided_block(block: BlockView, decisions: Pairs) -> BlockView {
    match block {
        BlockView::ToolResult { tool_use_id, content, is_error } => BlockView::ToolResult {
            tool_use_id,
            content: match keyed::value_of(decisions, tool_use_id) {
                Some(decided) => decided,
                None => content,
            },
            is_error,
        },
        _ => block,
    }
}

/// The work on a message, from what is known of its blocks to the end.
pub open spec fn message_work(
    ledger: Ledger,
    used: int,
    setting: Setting,
    content: Seq<BlockView>,
) -> Result<Work, SpillView> {
    let sorted = sorted_out(ledger, content, content.len() as int);
    let fresh = sorted.fresh;
    let start = Work { ledger: sorted.ledger, decisions: sorted.decisions, used, total: 0 };
    match singles_done(start, setting, content, fresh, fresh.len() as int) {
        Err(spill) => Err(spill),
        Ok(singles) => {
            let left = undecided(content, fresh, singles.decisions);
            let counted = Work {
                total: decided_bytes(singles.decisions) + result_bytes(content, left),
                ..singles
            };
            let order = longest_first(content, left);
            match aggregate_done(counted, setting, content, order, order.len() as int) {
                Err(spill) => Err(spill),
                Ok(within) => Ok(settled(within, content, fresh, fresh.len() as int)),
            }
        },
    }
}

/// What the work on messages has come to.
#[verifier::ext_equal]
pub struct Progress {
    pub ledger: Ledger,
    pub used: int,
    pub messages: Seq<MessageView>,
}

/// What a message comes to.
pub open spec fn message_done(
    ledger: Ledger,
    used: int,
    setting: Setting,
    message: MessageView,
) -> Result<(Ledger, int, MessageView), SpillView> {
    if !has_result(message.content) {
        Ok((ledger, used, message))
    } else {
        match message_work(ledger, used, setting, message.content) {
            Err(spill) => Err(spill),
            Ok(work) => Ok(
                (
                    work.ledger,
                    work.used,
                    MessageView {
                        content: message.content.map_values(
                            |block: BlockView| decided_block(block, work.decisions),
                        ),
                        ..message
                    },
                ),
            ),
        }
    }
}

/// What the first `end` messages come to.
pub open spec fn messages_done(
    ledger: Ledger,
    setting: Setting,
    messages: Seq<MessageView>,
    end: int,
) -> Result<Progress, SpillView>
    decreases end,
{
    if end <= 0 {
        Ok(Progress { ledger, used: 0, messages: Seq::empty() })
    } else {
        match messages_done(ledger, setting, messages, end - 1) {
            Err(spill) => Err(spill),
            Ok(before) => match message_done(
                before.ledger,
                before.used,
                setting,
                messages[end - 1],
            ) {
                Err(spill) => Err(spill),
                Ok((after, used, message)) => Ok(
                    Progress { ledger: after, used, messages: before.messages.push(message) },
                ),
            },
        }
    }
}

/// Whether a message ends a turn: it is an assistant's and uses no tool.
pub open spec fn ends_turn(message: MessageView) -> bool {
    message.role == MessageRole::Assistant && forall|i: int|
        0 <= i < message.content.len() ==> !((#[trigger] message.content[i]) is ToolUse)
}

/// How many of the first `end` messages end a turn.
pub open spec fn turns(messages: Seq<MessageView>, end: int) -> int
    decreases end,
{
    if end <= 0 {
        0
    } else {
        turns(messages, end - 1) + if ends_turn(messages[end - 1]) {
            1int
        } else {
            0int
        }
    }
}

/// Whether the message at `index` is stale: more turns ended since than are kept.
pub open spec fn is_stale(messages: Seq<MessageView>, keep: int, index: int) -> bool {
    let total = turns(messages, messages.len() as int);
    total > keep && turns(messages, index + 1) <= total - keep
}

/// What is sent in the place of a stale result.
pub open spec fn snippet(content: Seq<char>) -> Seq<char> {
    "[Stale output snipped: "@ + text::decimal(text::byte_len(content)) + " chars]"@
}

/// Whether a stale result is snipped.
pub open spec fn is_snipped(
    ledger: Ledger,
    limit: int,
    id: Seq<char>,
    content: Seq<char>,
) -> bool {
    text::byte_len(content) > limit && keyed::value_of(ledger.replaced, id) is None && snippet(
        content,
    ) != content
}

/// What the first `end` blocks of a stale message come to.
pub open spec fn blocks_snipped(
    ledger: Ledger,
    limit: int,
    content: Seq<BlockView>,
    end: int,
) -> (Ledger, Seq<BlockView>)
    decreases end,
{
    if end <= 0 {
        (ledger, Seq::empty())
    } else {
        let (before, blocks) = blocks_snipped(ledger, limit, content, end - 1);
        match content[end - 1] {
            BlockView::ToolResult { tool_use_id, content: text, is_error } => if is_snipped(
                before,
                limit,
                tool_use_id,
                text,
            ) {
                (
                    Ledger {
                        seen: before.seen.insert(tool_use_id),
                        replaced: keyed::with_value(
                            before.replaced,
                            tool_use_id,
                            snippet(text),
                        ),
                    },
                    blocks.push(
                        BlockView::ToolResult { tool_use_id, content: snippet(text), is_error },
                    ),
                )
            } else {
                (before, blocks.push(content[end - 1]))
            },
            _ => (before, blocks.push(content[end - 1])),
        }
    }
}

/// What the first `end` messages come to when stale results are snipped.
pub open spec fn stale_snipped(
    ledger: Ledger,
    config: ToolResultBudgetConfig,
    messages: Seq<MessageView>,
    end: int,
) -> (Ledger, Seq<MessageView>)
    decreases end,
{
    if end <= 0 {
        (ledger, Seq::empty())
    } else {
        let (before, done) = stale_snipped(ledger, config, messages, end - 1);
        let message = messages[end - 1];
        if is_stale(messages, config.keep_recent_turns as int, end - 1) {
            let (after, blocks) = blocks_snipped(
                before,
                config.old_result_snip_chars as int,
                message.content,
                message.content.len() as int,
            );
            (after, done.push(MessageView { content: blocks, ..message }))
        } else {
            (before, done.push(message))
        }
    }
}

/// What a conversation comes to: the ledger after it and the messages that are sent.
/// `Err` is a file that is to be written first.
pub open spec fn applied(ledger: Ledger, setting: Setting) -> Result<
    (Ledger, Seq<MessageView>),
    SpillView,
> {
    let messages = setting.conversation;
    match messages_done(ledger, setting, messages, messages.len() as int) {
        Err(spill) => Err(spill),
        Ok(progress) => Ok(
            stale_snipped(
                progress.ledger,
                setting.config,
                progress.messages,
                progress.messages.len() as int,
            ),
        ),
    }
}

/// What has been decided of tool results so far.
#[derive(Debug, PartialEq, Eq)]
struct LedgerState {
    seen: TextSet,
    replaced: TextMap,
}

impl LedgerState {
    closed spec fn view(&self) -> Ledger {
        Ledger { seen: self.seen@, replaced: self.replaced@ }
    }

    fn copy(&self) -> (copy: Self)
        ensures
            copy@ == self@,
    {
        LedgerState { seen: self.seen.clone(), replaced: self.replaced.clone() }
    }
}

/// The state of the work on one message.
struct WorkState {
    ledger: LedgerState,
    decisions: TextMap,
    used: usize,
    total: u128,
}

impl WorkState {
    spec fn view(&self) -> Work {
        Work {
            ledger: self.ledger@,
            decisions: self.decisions@,
            used: self.used as int,
            total: self.total as int,
        }
    }
}

/// What decisions depend on, besides the ledger.
struct Scene<'a> {
    workspace_root: &'a str,
    spill_dir: &'a str,
    config: ToolResultBudgetConfig,
    messages: &'a [ConversationMessage],
    answers: &'a Vec<bool>,
}

impl<'a> Scene<'a> {
    spec fn view(&self) -> Setting {
        Setting {
            workspace_root: self.workspace_root@,
            spill_dir: self.spill_dir@,
            config: self.config,
            conversation: conversation::message_views(self.messages@),
            answers: self.answers@,
        }
    }
}

/// Positions as integers.
spec fn positions(indices: Seq<usize>) -> Seq<int> {
    indices.map_values(|index: usize| index as int)
}

/// Whether `indices` are positions of tool results.
spec fn result_positions(content: Seq<ContentBlock>, indices: Seq<usize>) -> bool {
    forall|k: int|
        0 <= k < indices.len() ==> (#[trigger] indices[k]) < content.len()
            && content[indices[k] as int]@ is ToolResult
}

/// The id and the text of the result at `index`.
fn result_at(content: &Vec<ContentBlock>, index: usize) -> (result: (&str, &str))
    requires
        index < content@.len(),
        content@[index as int]@ is ToolResult,
    ensures
        result.0@ == id_at(conversation::block_views(content@), index as int),
        result.1@ == text_at(conversation::block_views(content@), index as int),
{
    assert(conversation::block_views(content@)[index as int] == content@[index as int]@);
    match &content[index] {
        ContentBlock::ToolResult { tool_use_id, content, .. } => (
            tool_use_id.as_str(),
            content.as_str(),
        ),
        _ => ("", ""),
    }
}

/// Whether a block is a tool result.
pub fn is_tool_result(block: &ContentBlock) -> (result: bool)
    ensures
        result == is_result(block@),
{
    match block {
        ContentBlock::ToolResult { .. } => true,
        _ => false,
    }
}

/// Whether one of the blocks is a tool result.
pub fn holds_tool_result(content: &Vec<ContentBlock>) -> (result: bool)
    ensures
        result == has_result(conversation::block_views(content@)),
{
    let ghost views = conversation::block_views(content@);
    let mut i: usize = 0;
    while i < content.len()
        invariant
            i <= content@.len(),
            views == conversation::block_views(content@),
            forall|j: int| 0 <= j < i ==> !is_result(#[trigger] views[j]),
        decreases content@.len() - i,
    {
        assert(views[i as int] == content@[i as int]@);
        if is_tool_result(&content[i]) {
            return true;
        }
        i += 1;
    }
    false
}

/// Whether a text stands in the place of a result.
pub fn is_replacement_preview(content: &str) -> (result: bool)
    ensures
        result == is_preview(content@),
{
    text::starts_with(content, "[Result of ") || text::starts_with(
        content,
        "[Stale output snipped:",
    )
}

/// What is sent in the place of a result of that length that was put into a file.
pub fn preview_text(length: usize, path: &str) -> (result: String)
    ensures
        result@ == "[Result of "@ + text::decimal(length as nat) + " chars saved to "@ + path@
            + " — read with ReadFile if needed]"@,
{
    let mut result = text::concat3(
        "[Result of ",
        text::decimal_text(length as u64).as_str(),
        " chars saved to ",
    );
    result.append(path);
    result.append(" — read with ReadFile if needed]");
    result
}

/// What is sent in the place of a stale result of that length.
pub fn snippet_text(length: usize) -> (result: String)
    ensures
        result@ == "[Stale output snipped: "@ + text::decimal(length as nat) + " chars]"@,
{
    text::concat3(
        "[Stale output snipped: ",
        text::decimal_text(length as u64).as_str(),
        " chars]",
    )
}

/// The last use of a tool with that id among blocks.
fn find_use_in<'a>(content: &'a Vec<ContentBlock>, id: &str) -> (found: Option<(&'a str, &'a Json)>)
    ensures
        match found {
            Some((name, arguments)) => use_in(
                conversation::block_views(content@),
                id@,
                content@.len() as int,
            ) == Some((name@, arguments@)),
            None => use_in(
                conversation::block_views(content@),
                id@,
                content@.len() as int,
            ) is None,
        },
{
    let ghost views = conversation::block_views(content@);
    let mut end: usize = content.len();
    while end > 0
        invariant
            end <= content@.len(),
            views == conversation::block_views(content@),
            use_in(views, id@, end as int) == use_in(views, id@, content@.len() as int),
        decreases end,
    {
        assert(views[end - 1] == content@[end - 1]@);
        if let ContentBlock::ToolUse { tool_use_id, tool_name, arguments } = &content[end - 1] {
            if text::same_text(tool_use_id.as_str(), id) {
                return Some((tool_name.as_str(), arguments));
            }
        }
        end = end - 1;
    }
    None
}

/// The last use of a tool with that id in a conversation.
fn find_use<'a>(messages: &'a [ConversationMessage], id: &str) -> (found: Option<
    (&'a str, &'a Json),
>)
    ensures
        match found {
            Some((name, arguments)) => use_of(conversation::message_views(messages@), id@) == Some(
                (name@, arguments@),
            ),
            None => use_of(conversation::message_views(messages@), id@) is None,
        },
{
    let ghost views = conversation::message_views(messages@);
    let mut end: usize = messages.len();
    assert(views.take(end as int) =~= views);
    while end > 0
        invariant
            end <= messages@.len(),
            views == conversation::message_views(messages@),
            use_of(views.take(end as int), id@) == use_of(views, id@),
        decreases end,
    {
        assert(views.take(end as int).last() == messages@[end - 1]@);
        assert(views.take(end as int).drop_last() =~= views.take(end - 1));
        if let Some(found) = find_use_in(&messages[end - 1].content, id) {
            return Some(found);
        }
        end = end - 1;
    }
    None
}

/// Whether the result with that id is what was read of a file that a result was put
/// into.
fn is_spill_readback(scene: &Scene, id: &str) -> (result: bool)
    ensures
        result == is_readback(scene@, id@),
{
    match find_use(scene.messages, id) {
        Some((tool_name, arguments)) => match json::text_in(arguments.get("file_path")) {
            Some(path) => text::same_text(tool_name, "ReadFile") && workspace::path_starts_with(
                workspace::join_path(scene.workspace_root, path.as_str()).as_str(),
                scene.spill_dir,
            ),
            None => false,
        },
        None => false,
    }
}

/// Tries to shorten a result. `Some` is a file that is to be written first.
fn shorten(work: &mut WorkState, scene: &Scene, id: &str, content: &str) -> (spill: Option<Spill>)
    requires
        old(work).used <= scene.answers@.len(),
    ensures
        match spill {
            Some(spill) => shortened(old(work)@, scene@, id@, content@) == Err::<Work, SpillView>(
                spill@,
            ),
            None => shortened(old(work)@, scene@, id@, content@) == Ok::<Work, SpillView>(
                final(work)@,
            ) && final(work).used <= scene.answers@.len(),
        },
{
    if is_spill_readback(scene, id) {
        work.ledger.seen.insert(id);
        work.decisions.put(id, content);
        return None;
    }
    let mut written = false;
    if !id.is_empty() {
        if work.used >= scene.answers.len() {
            return Some(
                Spill {
                    path: workspace::join_path(scene.spill_dir, id),
                    content: text::copy_text(content),
                },
            );
        }
        written = scene.answers[work.used];
        work.used = work.used + 1;
    }
    work.ledger.seen.insert(id);
    if written {
        let path = workspace::join_path(scene.spill_dir, id);
        let length = text::text_len(content);
        let sent = preview_text(length, path.as_str());
        let sent_length = text::text_len(sent.as_str());
        work.ledger.replaced.put(id, sent.as_str());
        work.decisions.put(id, sent.as_str());
        let saved: u128 = if length >= sent_length {
            (length - sent_length) as u128
        } else {
            0
        };
        work.total = if work.total >= saved {
            work.total - saved
        } else {
            0
        };
    } else {
        work.decisions.put(id, content);
    }
    None
}

/// What is known of the blocks of a message, and where the fresh results are.
fn sort_out(ledger: &mut LedgerState, content: &Vec<ContentBlock>) -> (sorted: (
    TextMap,
    Vec<usize>,
))
    ensures
        sorted_out(
            old(ledger)@,
            conversation::block_views(content@),
            content@.len() as int,
        ) == (Sorted {
            ledger: final(ledger)@,
            decisions: sorted.0@,
            fresh: positions(sorted.1@),
        }),
        result_positions(content@, sorted.1@),
        sorted.0@.len() + sorted.1@.len() <= content@.len(),
{
    let ghost views = conversation::block_views(content@);
    let mut decisions = TextMap::new();
    let mut fresh: Vec<usize> = Vec::new();
    let mut i: usize = 0;
    assert(positions(fresh@) =~= Seq::<int>::empty());
    while i < content.len()
        invariant
            i <= content@.len(),
            views == conversation::block_views(content@),
            sorted_out(old(ledger)@, views, i as int) == (Sorted {
                ledger: ledger@,
                decisions: decisions@,
                fresh: positions(fresh@),
            }),
            result_positions(content@, fresh@),
            decisions@.len() + fresh@.len() <= i,
        decreases content@.len() - i,
    {
        assert(views[i as int] == content@[i as int]@);
        if let ContentBlock::ToolResult { tool_use_id, content: text, .. } = &content[i] {
            let id = tool_use_id.as_str();
            let replacement = match ledger.replaced.get(id) {
                Some(replacement) => Some(text::copy_text(replacement)),
                None => None,
            };
            proof {
                if replacement is Some {
                    keyed::lemma_with_value(decisions@, id@, replacement->0@, id@);
                }
                keyed::lemma_with_value(decisions@, id@, text@, id@);
            }
            if let Some(replacement) = replacement {
                decisions.put(id, replacement.as_str());
            } else if ledger.seen.contains(id) {
                decisions.put(id, text.as_str());
            } else if is_replacement_preview(text.as_str()) {
                ledger.seen.insert(id);
                ledger.replaced.put(id, text.as_str());
                decisions.put(id, text.as_str());
            } else {
                let ghost before = positions(fresh@);
                fresh.push(i);
                assert(positions(fresh@) =~= before.push(i as int));
            }
        }
        i += 1;
    }
    (decisions, fresh)
}

/// How many of the fresh results have not been decided of.
spec fn undecided_count(content: Seq<BlockView>, fresh: Seq<int>, decisions: Pairs) -> int {
    undecided(content, fresh, decisions).len() as int
}

/// There are no more undecided results than fresh ones.
proof fn lemma_undecided_count(content: Seq<BlockView>, fresh: Seq<int>, decisions: Pairs)
    ensures
        undecided_count(content, fresh, decisions) <= fresh.len(),
    decreases fresh.len(),
{
    if fresh.len() > 0 {
        lemma_undecided_count(content, fresh.drop_last(), decisions);
    }
}

/// A decision that adds an entry leaves one fresh result less undecided.
proof fn lemma_decision_counts(
    content: Seq<BlockView>,
    fresh: Seq<int>,
    decisions: Pairs,
    at: int,
    value: Seq<char>,
)
    requires
        0 <= at < fresh.len(),
    ensures
        ({
            let after = keyed::with_value(decisions, id_at(content, fresh[at]), value);
            after.len() + undecided_count(content, fresh, after) <= decisions.len()
                + undecided_count(content, fresh, decisions)
        }),
{
    let id = id_at(content, fresh[at]);
    let after = keyed::with_value(decisions, id, value);
    keyed::lemma_with_value(decisions, id, value, id);
    lemma_decided_once(content, fresh, decisions, id, value);
    if keyed::value_of(decisions, id) is None {
        lemma_decided_once_less(content, fresh, decisions, at, value);
    }
}

/// A decision leaves no more fresh results undecided.
proof fn lemma_decided_once(
    content: Seq<BlockView>,
    fresh: Seq<int>,
    decisions: Pairs,
    id: Seq<char>,
    value: Seq<char>,
)
    ensures
        undecided_count(content, fresh, keyed::with_value(decisions, id, value))
            <= undecided_count(content, fresh, decisions),
    decreases fresh.len(),
{
    if fresh.len() > 0 {
        lemma_decided_once(content, fresh.drop_last(), decisions, id, value);
        keyed::lemma_with_value(decisions, id, value, id_at(content, fresh.last()));
    }
}

/// A first decision leaves one fresh result less undecided.
proof fn lemma_decided_once_less(
    content: Seq<BlockView>,
    fresh: Seq<int>,
    decisions: Pairs,
    at: int,
    value: Seq<char>,
)
    requires
        0 <= at < fresh.len(),
        keyed::value_of(decisions, id_at(content, fresh[at])) is None,
    ensures
        undecided_count(
            content,
            fresh,
            keyed::with_value(decisions, id_at(content, fresh[at]), value),
        ) < undecided_count(content, fresh, decisions),
    decreases fresh.len(),
{
    let id = id_at(content, fresh[at]);
    keyed::lemma_with_value(decisions, id, value, id_at(content, fresh.last()));
    if at == fresh.len() - 1 {
        lemma_decided_once(content, fresh.drop_last(), decisions, id, value);
    } else {
        lemma_decided_once_less(content, fresh.drop_last(), decisions, at, value);
    }
}

/// Holds the fresh results to the limit of a single result.
fn hold_singles(
    work: &mut WorkState,
    scene: &Scene,
    content: &Vec<ContentBlock>,
    fresh: &Vec<usize>,
) -> (spill: Option<Spill>)
    requires
        old(work).used <= scene.answers@.len(),
        result_positions(content@, fresh@),
        old(work).total == 0,
        old(work).decisions@.len() + fresh@.len() <= content@.len(),
    ensures
        match spill {
            Some(spill) => singles_done(
                old(work)@,
                scene@,
                conversation::block_views(content@),
                positions(fresh@),
                fresh@.len() as int,
            ) == Err::<Work, SpillView>(spill@),
            None => singles_done(
                old(work)@,
                scene@,
                conversation::block_views(content@),
                positions(fresh@),
                fresh@.len() as int,
            ) == Ok::<Work, SpillView>(final(work)@) && final(work).used <= scene.answers@.len()
                && final(work).decisions@.len() + undecided_count(
                conversation::block_views(content@),
                positions(fresh@),
                final(work).decisions@,
            ) <= content@.len(),
        },
{
    let ghost views = conversation::block_views(content@);
    let ghost all = positions(fresh@);
    let ghost start = work@;
    let mut i: usize = 0;
    proof {
        lemma_undecided_count(views, all, work.decisions@);
    }
    while i < fresh.len()
        invariant
            i <= fresh@.len(),
            views == conversation::block_views(content@),
            all == positions(fresh@),
            start == old(work)@,
            start.total == 0,
            result_positions(content@, fresh@),
            work.used <= scene.answers@.len(),
            work.total == 0,
            singles_done(start, scene@, views, all, i as int) == Ok::<Work, SpillView>(work@),
            work.decisions@.len() + undecided_count(views, all, work.decisions@) <= content@.len(),
        decreases fresh@.len() - i,
    {
        let index = fresh[i];
        assert(all[i as int] == index);
        let (id, content_text) = result_at(content, index);
        if text::text_len(content_text) > scene.config.single_result_limit_chars {
            let ghost before = work@;
            proof {
                lemma_decision_counts(views, all, before.decisions, i as int, content_text@);
                lemma_decision_counts(
                    views,
                    all,
                    before.decisions,
                    i as int,
                    preview(scene@, id@, content_text@),
                );
            }
            if let Some(spill) = shorten(work, scene, id, content_text) {
                proof {
                    lemma_single_spill_stays(start, scene@, views, all, i + 1);
                }
                return Some(spill);
            }
            work.total = 0;
        }
        i += 1;
    }
    None
}

/// Once a file is to be written, the results after it wait.
proof fn lemma_single_spill_stays(
    work: Work,
    setting: Setting,
    content: Seq<BlockView>,
    fresh: Seq<int>,
    end: int,
)
    requires
        0 <= end <= fresh.len(),
        singles_done(work, setting, content, fresh, end) is Err,
    ensures
        singles_done(work, setting, content, fresh, fresh.len() as int) == singles_done(
            work,
            setting,
            content,
            fresh,
            end,
        ),
    decreases fresh.len() - end,
{
    if end < fresh.len() {
        lemma_single_spill_stays(work, setting, content, fresh, end + 1);
    }
}

/// Once a file is to be written, the results after it wait.
proof fn lemma_aggregate_spill_stays(
    work: Work,
    setting: Setting,
    content: Seq<BlockView>,
    order: Seq<int>,
    end: int,
)
    requires
        0 <= end <= order.len(),
        aggregate_done(work, setting, content, order, end) is Err,
    ensures
        aggregate_done(work, setting, content, order, order.len() as int) == aggregate_done(
            work,
            setting,
            content,
            order,
            end,
        ),
    decreases order.len() - end,
{
    if end < order.len() {
        lemma_aggregate_spill_stays(work, setting, content, order, end + 1);
    }
}

/// The fresh results that have not been decided of.
fn find_undecided(content: &Vec<ContentBlock>, fresh: &Vec<usize>, decisions: &TextMap) -> (left:
    Vec<usize>)
    requires
        result_positions(content@, fresh@),
    ensures
        positions(left@) == undecided(
            conversation::block_views(content@),
            positions(fresh@),
            decisions@,
        ),
        result_positions(content@, left@),
{
    let ghost views = conversation::block_views(content@);
    let ghost all = positions(fresh@);
    let mut left: Vec<usize> = Vec::new();
    let mut i: usize = 0;
    assert(positions(left@) =~= undecided(views, all.take(0), decisions@));
    while i < fresh.len()
        invariant
            i <= fresh@.len(),
            views == conversation::block_views(content@),
            all == positions(fresh@),
            result_positions(content@, fresh@),
            result_positions(content@, left@),
            positions(left@) == undecided(views, all.take(i as int), decisions@),
        decreases fresh@.len() - i,
    {
        let index = fresh[i];
        assert(all.take(i + 1).drop_last() =~= all.take(i as int));
        assert(all.take(i + 1).last() == index);
        let (id, _) = result_at(content, index);
        if decisions.get(id).is_none() {
            let ghost before = positions(left@);
            left.push(index);
            assert(positions(left@) =~= before.push(index as int));
        }
        i += 1;
    }
    assert(all.take(i as int) =~= all);
    left
}

/// Results in the order of their lengths, the longest first.
fn order_by_length(content: &Vec<ContentBlock>, results: &Vec<usize>) -> (order: Vec<usize>)
    requires
        result_positions(content@, results@),
    ensures
        positions(order@) == longest_first(
            conversation::block_views(content@),
            positions(results@),
        ),
        result_positions(content@, order@),
{
    let ghost views = conversation::block_views(content@);
    let ghost all = positions(results@);
    let mut order: Vec<usize> = Vec::new();
    let mut i: usize = 0;
    assert(positions(order@) =~= longest_first(views, all.take(0)));
    while i < results.len()
        invariant
            i <= results@.len(),
            views == conversation::block_views(content@),
            all == positions(results@),
            result_positions(content@, results@),
            result_positions(content@, order@),
            positions(order@) == longest_first(views, all.take(i as int)),
        decreases results@.len() - i,
    {
        let index = results[i];
        assert(all.take(i + 1).drop_last() =~= all.take(i as int));
        assert(all.take(i + 1).last() == index);
        let (_, content_text) = result_at(content, index);
        let length = text::text_len(content_text);
        let ghost before = positions(order@);
        let ghost given = order@;
        let mut place: usize = 0;
        let mut searching = true;
        while searching
            invariant
                place <= order@.len(),
                order@ == given,
                before == positions(order@),
                views == conversation::block_views(content@),
                result_positions(content@, order@),
                length == text::byte_len(text_at(views, index as int)),
                searching ==> shorter_from(views, before, index as int, place as int)
                    == shorter_from(views, before, index as int, 0),
                !searching ==> place == shorter_from(views, before, index as int, 0),
            decreases order@.len() - place, searching as int,
        {
            if place == order.len() {
                searching = false;
            } else {
                assert(before[place as int] == order@[place as int]);
                let (_, other) = result_at(content, order[place]);
                if text::text_len(other) < length {
                    searching = false;
                } else {
                    place = place + 1;
                }
            }
        }
        order.insert(place, index);
        assert(positions(order@) =~= before.insert(place as int, index as int));
        assert forall|k: int| 0 <= k < order@.len() implies (#[trigger] order@[k]) < content@.len()
            && content@[order@[k] as int]@ is ToolResult by {
            if k < place {
                assert(order@[k] == given[k]);
            } else if k > place {
                assert(order@[k] == given[k - 1]);
            }
        }
        i += 1;
    }
    assert(all.take(i as int) =~= all);
    order
}

/// The bytes of what was decided.
fn count_decided(decisions: &TextMap) -> (total: u128)
    ensures
        total == decided_bytes(decisions@),
        total <= decisions@.len() * 0xffff_ffff_ffff_ffff,
{
    let mut total: u128 = 0;
    let mut i: usize = 0;
    while i < decisions.len()
        invariant
            i <= decisions@.len(),
            total == decided_bytes(decisions@.take(i as int)),
            total <= i * 0xffff_ffff_ffff_ffff,
        decreases decisions@.len() - i,
    {
        assert(decisions@.take(i + 1).drop_last() =~= decisions@.take(i as int));
        let (_, value) = decisions.entry(i);
        total = total + text::text_len(value) as u128;
        i += 1;
    }
    assert(decisions@.take(i as int) =~= decisions@);
    total
}

/// The bytes of results.
fn count_results(content: &Vec<ContentBlock>, results: &Vec<usize>) -> (total: u128)
    requires
        result_positions(content@, results@),
    ensures
        total == result_bytes(conversation::block_views(content@), positions(results@)),
        total <= results@.len() * 0xffff_ffff_ffff_ffff,
{
    let ghost views = conversation::block_views(content@);
    let ghost all = positions(results@);
    let mut total: u128 = 0;
    let mut i: usize = 0;
    while i < results.len()
        invariant
            i <= results@.len(),
            views == conversation::block_views(content@),
            all == positions(results@),
            result_positions(content@, results@),
            total == result_bytes(views, all.take(i as int)),
            total <= i * 0xffff_ffff_ffff_ffff,
        decreases results@.len() - i,
    {
        assert(all.take(i + 1).drop_last() =~= all.take(i as int));
        assert(all.take(i + 1).last() == results@[i as int]);
        let (_, content_text) = result_at(content, results[i]);
        total = total + text::text_len(content_text) as u128;
        i += 1;
    }
    assert(all.take(i as int) =~= all);
    total
}

/// Shortens results, in `order`, as long as the message is over the limit.
fn hold_aggregate(
    work: &mut WorkState,
    scene: &Scene,
    content: &Vec<ContentBlock>,
    order: &Vec<usize>,
) -> (spill: Option<Spill>)
    requires
        old(work).used <= scene.answers@.len(),
        result_positions(content@, order@),
    ensures
        match spill {
            Some(spill) => aggregate_done(
                old(work)@,
                scene@,
                conversation::block_views(content@),
                positions(order@),
                order@.len() as int,
            ) == Err::<Work, SpillView>(spill@),
            None => aggregate_done(
                old(work)@,
                scene@,
                conversation::block_views(content@),
                positions(order@),
                order@.len() as int,
            ) == Ok::<Work, SpillView>(final(work)@) && final(work).used <= scene.answers@.len(),
        },
{
    let ghost views = conversation::block_views(content@);
    let ghost all = positions(order@);
    let ghost start = work@;
    let mut i: usize = 0;
    while i < order.len()
        invariant
            i <= order@.len(),
            views == conversation::block_views(content@),
            all == positions(order@),
            start == old(work)@,
            result_positions(content@, order@),
            work.used <= scene.answers@.len(),
            aggregate_done(start, scene@, views, all, i as int) == Ok::<Work, SpillView>(work@),
        decreases order@.len() - i,
    {
        assert(all[i as int] == order@[i as int]);
        if work.total > scene.config.message_aggregate_limit_chars as u128 {
            let (id, content_text) = result_at(content, order[i]);
            if let Some(spill) = shorten(work, scene, id, content_text) {
                proof {
                    lemma_aggregate_spill_stays(start, scene@, views, all, i + 1);
                }
                return Some(spill);
            }
        }
        i += 1;
    }
    None
}

/// Settles the fresh results.
fn settle(work: &mut WorkState, content: &Vec<ContentBlock>, fresh: &Vec<usize>)
    requires
        result_positions(content@, fresh@),
    ensures
        final(work)@ == settled(
            old(work)@,
            conversation::block_views(content@),
            positions(fresh@),
            fresh@.len() as int,
        ),
        final(work).used == old(work).used,
{
    let ghost views = conversation::block_views(content@);
    let ghost all = positions(fresh@);
    let ghost start = work@;
    let mut i: usize = 0;
    while i < fresh.len()
        invariant
            i <= fresh@.len(),
            views == conversation::block_views(content@),
            all == positions(fresh@),
            start == old(work)@,
            result_positions(content@, fresh@),
            work.used == old(work).used,
            work@ == settled(start, views, all, i as int),
        decreases fresh@.len() - i,
    {
        assert(all[i as int] == fresh@[i as int]);
        let (id, content_text) = result_at(content, fresh[i]);
        work.ledger.seen.insert(id);
        if work.decisions.get(id).is_none() {
            work.decisions.put(id, content_text);
        }
        i += 1;
    }
}

/// The blocks of a message with what was decided of them.
fn decided_blocks(content: &Vec<ContentBlock>, decisions: &TextMap) -> (blocks: Vec<ContentBlock>)
    ensures
        conversation::block_views(blocks@) == conversation::block_views(content@).map_values(
            |block: BlockView| decided_block(block, decisions@),
        ),
{
    let mut blocks: Vec<ContentBlock> = Vec::new();
    let mut i: usize = 0;
    while i < content.len()
        invariant
            i <= content@.len(),
            blocks@.len() == i,
            forall|j: int|
                0 <= j < i ==> (#[trigger] blocks@[j])@ == decided_block(
                    content@[j]@,
                    decisions@,
                ),
        decreases content@.len() - i,
    {
        let block = match &content[i] {
            ContentBlock::ToolResult { tool_use_id, content: text, is_error } => {
                let decided = match decisions.get(tool_use_id.as_str()) {
                    Some(decided) => text::copy_text(decided),
                    None => text.clone(),
                };
                ContentBlock::ToolResult {
                    tool_use_id: tool_use_id.clone(),
                    content: decided,
                    is_error: *is_error,
                }
            },
            other => other.clone(),
        };
        blocks.push(block);
        i += 1;
    }
    assert(conversation::block_views(blocks@) =~= conversation::block_views(content@).map_values(
        |block: BlockView| decided_block(block, decisions@),
    ));
    blocks
}

/// The work on a message. The ledger and the number of used answers go in and come out.
fn apply_message(
    ledger: LedgerState,
    used: usize,
    scene: &Scene,
    message: &ConversationMessage,
) -> (outcome: Result<(LedgerState, usize, ConversationMessage), Spill>)
    requires
        used <= scene.answers@.len(),
    ensures
        match outcome {
            Ok((after, after_used, done)) => message_done(
                ledger@,
                used as int,
                scene@,
                message@,
            ) == Ok::<(Ledger, int, MessageView), SpillView>((after@, after_used as int, done@))
                && after_used <= scene.answers@.len(),
            Err(spill) => message_done(ledger@, used as int, scene@, message@) == Err::<
                (Ledger, int, MessageView),
                SpillView,
            >(spill@),
        },
{
    if !holds_tool_result(&message.content) {
        return Ok((ledger, used, message.clone()));
    }
    let content = &message.content;
    let ghost views = message@.content;
    let mut ledger = ledger;
    let (decisions, fresh) = sort_out(&mut ledger, content);
    let mut work = WorkState { ledger, decisions, used, total: 0 };
    if let Some(spill) = hold_singles(&mut work, scene, content, &fresh) {
        return Err(spill);
    }
    let left = find_undecided(content, &fresh, &work.decisions);
    assert(positions(left@).len() == left@.len());
    let decided = count_decided(&work.decisions);
    let open = count_results(content, &left);
    assert(decided + open <= content.len() * 0xffff_ffff_ffff_ffff);
    work.total = decided + open;
    let order = order_by_length(content, &left);
    assert(positions(order@).len() == order@.len());
    if let Some(spill) = hold_aggregate(&mut work, scene, content, &order) {
        return Err(spill);
    }
    settle(&mut work, content, &fresh);
    let blocks = decided_blocks(content, &work.decisions);
    let done = ConversationMessage {
        role: message.role,
        content: blocks,
        timestamp_unix_seconds: message.timestamp_unix_seconds,
    };
    Ok((work.ledger, work.used, done))
}

/// Whether a message ends a turn.
fn is_turn_end(message: &ConversationMessage) -> (result: bool)
    ensures
        result == ends_turn(message@),
{
    if message.role != MessageRole::Assistant {
        return false;
    }
    let ghost views = message@.content;
    let mut i: usize = 0;
    while i < message.content.len()
        invariant
            i <= message.content@.len(),
            views == message@.content,
            message.role == MessageRole::Assistant,
            forall|j: int| 0 <= j < i ==> !((#[trigger] views[j]) is ToolUse),
        decreases message.content@.len() - i,
    {
        assert(views[i as int] == message.content@[i as int]@);
        if let ContentBlock::ToolUse { .. } = &message.content[i] {
            return false;
        }
        i += 1;
    }
    true
}

/// How many messages end a turn.
fn count_turns(messages: &Vec<ConversationMessage>) -> (count: usize)
    ensures
        count == turns(conversation::message_views(messages@), messages@.len() as int),
{
    let ghost views = conversation::message_views(messages@);
    let mut count: usize = 0;
    let mut i: usize = 0;
    while i < messages.len()
        invariant
            i <= messages@.len(),
            views == conversation::message_views(messages@),
            count == turns(views, i as int),
            count <= i,
        decreases messages@.len() - i,
    {
        assert(views[i as int] == messages@[i as int]@);
        if is_turn_end(&messages[i]) {
            count += 1;
        }
        i += 1;
    }
    count
}

/// Snips the results of a stale message.
fn snip_blocks(ledger: &mut LedgerState, limit: usize, content: &Vec<ContentBlock>) -> (blocks: Vec<
    ContentBlock,
>)
    ensures
        blocks_snipped(
            old(ledger)@,
            limit as int,
            conversation::block_views(content@),
            content@.len() as int,
        ) == (final(ledger)@, conversation::block_views(blocks@)),
{
    let ghost views = conversation::block_views(content@);
    let mut blocks: Vec<ContentBlock> = Vec::new();
    let mut i: usize = 0;
    assert(conversation::block_views(blocks@) =~= Seq::<BlockView>::empty());
    while i < content.len()
        invariant
            i <= content@.len(),
            views == conversation::block_views(content@),
            blocks_snipped(old(ledger)@, limit as int, views, i as int) == (
                ledger@,
                conversation::block_views(blocks@),
            ),
        decreases content@.len() - i,
    {
        assert(views[i as int] == content@[i as int]@);
        let ghost before = conversation::block_views(blocks@);
        let mut block = content[i].clone();
        if let ContentBlock::ToolResult { tool_use_id, content: text, is_error } = &content[i] {
            let length = text::text_len(text.as_str());
            if length > limit && ledger.replaced.get(tool_use_id.as_str()).is_none() {
                let replacement = snippet_text(length);
                if !text::same_text(replacement.as_str(), text.as_str()) {
                    ledger.seen.insert(tool_use_id.as_str());
                    ledger.replaced.put(tool_use_id.as_str(), replacement.as_str());
                    block =
                    ContentBlock::ToolResult {
                        tool_use_id: tool_use_id.clone(),
                        content: replacement,
                        is_error: *is_error,
                    };
                }
            }
        }
        blocks.push(block);
        assert(conversation::block_views(blocks@) =~= before.push(block@));
        i += 1;
    }
    blocks
}

/// Snips the results that are stale.
fn snip_stale_results(
    ledger: &mut LedgerState,
    config: ToolResultBudgetConfig,
    messages: &Vec<ConversationMessage>,
) -> (done: Vec<ConversationMessage>)
    ensures
        stale_snipped(
            old(ledger)@,
            config,
            conversation::message_views(messages@),
            messages@.len() as int,
        ) == (final(ledger)@, conversation::message_views(done@)),
{
    let ghost views = conversation::message_views(messages@);
    let total = count_turns(messages);
    let mut done: Vec<ConversationMessage> = Vec::new();
    let mut turns_seen: usize = 0;
    let mut i: usize = 0;
    assert(conversation::message_views(done@) =~= Seq::<MessageView>::empty());
    while i < messages.len()
        invariant
            i <= messages@.len(),
            views == conversation::message_views(messages@),
            total == turns(views, views.len() as int),
            turns_seen == turns(views, i as int),
            turns_seen <= i,
            stale_snipped(old(ledger)@, config, views, i as int) == (
                ledger@,
                conversation::message_views(done@),
            ),
        decreases messages@.len() - i,
    {
        assert(views[i as int] == messages@[i as int]@);
        let ghost before = conversation::message_views(done@);
        if is_turn_end(&messages[i]) {
            turns_seen += 1;
        }
        let mut message = messages[i].clone();
        if total > config.keep_recent_turns && turns_seen <= total - config.keep_recent_turns {
            let blocks = snip_blocks(ledger, config.old_result_snip_chars, &messages[i].content);
            message =
            ConversationMessage {
                role: messages[i].role,
                content: blocks,
                timestamp_unix_seconds: messages[i].timestamp_unix_seconds,
            };
        }
        done.push(message);
        assert(conversation::message_views(done@) =~= before.push(message@));
        i += 1;
    }
    done
}

/// The record of a replacement.
#[derive(Debug, PartialEq, Eq)]
pub struct ReplacementRecord {
    pub tool_use_id: String,
    pub replacement: String,
}

/// The views of a sequence of records.
pub open spec fn replacement_views(records: Seq<ReplacementRecord>) -> Pairs {
    records.map_values(
        |record: ReplacementRecord| (record.tool_use_id@, record.replacement@),
    )
}

/// The record of a replacement as it is stored.
pub open spec fn replacement_fields(record: (Seq<char>, Seq<char>)) -> StoredView {
    StoredView::Record(
        seq![
            conversation::text_field("kind"@, "tool-result"@),
            conversation::text_field("tool_use_id"@, record.0),
            conversation::text_field("replacement"@, record.1),
        ],
    )
}

/// The names of the fields of the record of a replacement.
pub open spec fn replacement_names() -> Seq<Seq<char>> {
    seq!["kind"@, "tool_use_id"@, "replacement"@]
}

/// Whether a stored value is the kind of a replacement: its name, or an object whose one
/// member has that name and the value null.
pub open spec fn is_replacement_kind(json: JsonView) -> bool {
    match json {
        JsonView::Text(name) => name == "tool-result"@,
        JsonView::Object(entries) => entries.len() == 1 && entries[0].0 == "tool-result"@
            && entries[0].1 is Null,
        _ => false,
    }
}

/// The record that the fields of a line stand for, where all of them are there.
pub open spec fn replacement_in(
    kind: Option<JsonView>,
    tool_use_id: Option<JsonView>,
    replacement: Option<JsonView>,
) -> Option<(Seq<char>, Seq<char>)> {
    match (kind, json::as_text(tool_use_id), json::as_text(replacement)) {
        (Some(kind), Some(tool_use_id), Some(replacement)) => if is_replacement_kind(kind) {
            Some((tool_use_id, replacement))
        } else {
            None
        },
        _ => None,
    }
}

/// The record that a line stands for.
pub open spec fn replacement_meaning(line: Seq<char>) -> Option<(Seq<char>, Seq<char>)> {
    match raw::raw_fields(line, replacement_names()) {
        Some(fields) => replacement_in(
            raw::optional_value(fields[0]),
            raw::optional_value(fields[1]),
            raw::optional_value(fields[2]),
        ),
        None => None,
    }
}

/// What lines of records come to: what was replaced, the later records over the earlier
/// ones, or the number of the first line that is no record. Blank lines are passed over.
pub open spec fn replacements_in(lines: Seq<Seq<char>>) -> Result<Pairs, int>
    decreases lines.len(),
{
    if lines.len() == 0 {
        Ok(Seq::empty())
    } else {
        match replacements_in(lines.drop_last()) {
            Err(line) => Err(line),
            Ok(before) => if text::is_blank(lines.last()) {
                Ok(before)
            } else {
                match replacement_meaning(lines.last()) {
                    Some((id, replacement)) => Ok(keyed::with_value(before, id, replacement)),
                    None => Err(lines.len() as int),
                }
            },
        }
    }
}

/// Once a line is no record, the lines after it do not matter.
proof fn lemma_wrong_replacement_stays(lines: Seq<Seq<char>>, at: int)
    requires
        0 <= at <= lines.len(),
        replacements_in(lines.take(at)) is Err,
    ensures
        replacements_in(lines) == replacements_in(lines.take(at)),
    decreases lines.len() - at,
{
    if at == lines.len() {
        assert(lines.take(at) =~= lines);
    } else {
        assert(lines.take(at + 1).drop_last() =~= lines.take(at));
        lemma_wrong_replacement_stays(lines, at + 1);
    }
}

/// The view of an optional record.
pub open spec fn optional_record(record: Option<ReplacementRecord>) -> Option<
    (Seq<char>, Seq<char>),
> {
    match record {
        Some(record) => Some((record.tool_use_id@, record.replacement@)),
        None => None,
    }
}

/// Whether a stored value is the kind of a replacement.
fn names_replacement(kind: &Json) -> (result: bool)
    ensures
        result == is_replacement_kind(kind@),
{
    proof {
        json::lemma_container_views(*kind);
    }
    match kind {
        Json::Text(name) => text::same_text(name.as_str(), "tool-result"),
        Json::Object(entries) => {
            if entries.len() == 1 {
                proof {
                    assert(kind@->Object_0[0] == (entries@[0].0@, entries@[0].1@));
                    json::lemma_container_views(entries@[0].1);
                }
                match &entries[0].1 {
                    Json::Null => text::same_text(entries[0].0.as_str(), "tool-result"),
                    _ => false,
                }
            } else {
                false
            }
        },
        _ => false,
    }
}

/// The record that the fields of a line stand for.
pub fn interpret_replacement(
    kind: Option<Json>,
    tool_use_id: Option<Json>,
    replacement: Option<Json>,
) -> (record: Option<ReplacementRecord>)
    ensures
        optional_record(record) == replacement_in(
            json::owned_view(kind),
            json::owned_view(tool_use_id),
            json::owned_view(replacement),
        ),
{
    match (kind, tool_use_id, replacement) {
        (Some(kind), Some(Json::Text(tool_use_id)), Some(Json::Text(replacement))) => {
            if names_replacement(&kind) {
                Some(ReplacementRecord { tool_use_id, replacement })
            } else {
                None
            }
        },
        _ => None,
    }
}

/// The record that a line stands for.
fn read_replacement(line: &str) -> (record: Option<ReplacementRecord>)
    ensures
        optional_record(record) == replacement_meaning(line@),
{
    let mut names: Vec<String> = Vec::new();
    names.push(text::copy_text("kind"));
    names.push(text::copy_text("tool_use_id"));
    names.push(text::copy_text("replacement"));
    assert(text::texts(names@) =~= replacement_names());
    match raw::fields_of(line, &names) {
        Some(fields) => {
            assert(fields@.len() == raw::optional_texts(fields@).len());
            assert(raw::optional_texts(fields@)[0] == text::optional_text(fields@[0]));
            assert(raw::optional_texts(fields@)[1] == text::optional_text(fields@[1]));
            assert(raw::optional_texts(fields@)[2] == text::optional_text(fields@[2]));
            interpret_replacement(
                raw::read_optional(&fields[0]),
                raw::read_optional(&fields[1]),
                raw::read_optional(&fields[2]),
            )
        },
        None => None,
    }
}

/// The replacements of `replaced` that are not yet recorded.
pub open spec fn unrecorded(replaced: Pairs, recorded: Set<Seq<char>>) -> Pairs
    decreases replaced.len(),
{
    if replaced.len() == 0 {
        Seq::empty()
    } else {
        let before = unrecorded(replaced.drop_last(), recorded);
        if recorded.contains(replaced.last().0) {
            before
        } else {
            before.push(replaced.last())
        }
    }
}

/// The ids of `replaced`.
pub open spec fn ids_of(replaced: Pairs) -> Set<Seq<char>> {
    Set::new(|id: Seq<char>| exists|i: int| 0 <= i < replaced.len() && (#[trigger] replaced[i]).0 == id)
}

/// The ids of the tool results among the first `end` blocks, added to `seen`.
pub open spec fn seen_in(seen: Set<Seq<char>>, content: Seq<BlockView>, end: int) -> Set<Seq<char>>
    decreases end,
{
    if end <= 0 {
        seen
    } else {
        let before = seen_in(seen, content, end - 1);
        match content[end - 1] {
            BlockView::ToolResult { tool_use_id, .. } => before.insert(tool_use_id),
            _ => before,
        }
    }
}

/// The ids of the tool results in the first `end` messages, added to `seen`.
pub open spec fn seen_through(
    seen: Set<Seq<char>>,
    messages: Seq<MessageView>,
    end: int,
) -> Set<Seq<char>>
    decreases end,
{
    if end <= 0 {
        seen
    } else {
        let content = messages[end - 1].content;
        seen_in(seen_through(seen, messages, end - 1), content, content.len() as int)
    }
}

/// The budget of the tool results of a session.
#[derive(Debug, PartialEq, Eq)]
pub struct ToolResultBudget {
    workspace_root: String,
    spill_dir: String,
    records_path: String,
    config: ToolResultBudgetConfig,
    ledger: LedgerState,
    recorded: TextSet,
}

/// What a [`ToolResultBudget`] holds.
#[verifier::ext_equal]
pub struct BudgetView {
    pub workspace_root: Seq<char>,
    pub spill_dir: Seq<char>,
    pub records_path: Seq<char>,
    pub config: ToolResultBudgetConfig,
    pub ledger: Ledger,
    /// The ids of the replacements that are recorded.
    pub recorded: Set<Seq<char>>,
}

impl View for ToolResultBudget {
    type V = BudgetView;

    closed spec fn view(&self) -> BudgetView {
        BudgetView {
            workspace_root: self.workspace_root@,
            spill_dir: self.spill_dir@,
            records_path: self.records_path@,
            config: self.config,
            ledger: self.ledger@,
            recorded: self.recorded@,
        }
    }
}

/// What decisions of a budget depend on.
pub open spec fn setting_of(
    budget: BudgetView,
    conversation: Seq<MessageView>,
    answers: Seq<bool>,
) -> Setting {
    Setting {
        workspace_root: budget.workspace_root,
        spill_dir: budget.spill_dir,
        config: budget.config,
        conversation,
        answers,
    }
}

/// What comes of applying a budget.
#[derive(Debug, PartialEq, Eq)]
pub enum Applied {
    /// A file is to be written first. Whether it could be is the next answer.
    Spill(Spill),
    /// The conversation that is sent.
    Done(Conversation),
}

/// Where the records of a session's replacements stand.
pub open spec fn records_file(work_dir: Seq<char>, session_id: Seq<char>) -> Seq<char> {
    workspace::path_below(
        workspace::path_below(workspace::path_below(work_dir, ".mycode/sessions"@), session_id),
        "replacement_records.jsonl"@,
    )
}

/// The budget of a session that goes on with `replaced`.
pub open spec fn resumed_budget(
    work_dir: Seq<char>,
    session_id: Seq<char>,
    config: ToolResultBudgetConfig,
    replaced: Pairs,
) -> BudgetView {
    BudgetView {
        workspace_root: work_dir,
        spill_dir: workspace::path_below(work_dir, ".mycode/tool_results"@),
        records_path: records_file(work_dir, session_id),
        config,
        ledger: Ledger { seen: Set::empty(), replaced },
        recorded: ids_of(replaced),
    }
}

/// The ids after one more entry.
proof fn lemma_ids_with_value(replaced: Pairs, id: Seq<char>, value: Seq<char>)
    ensures
        ids_of(keyed::with_value(replaced, id, value)) == ids_of(replaced).insert(id),
{
    keyed::lemma_key_position(replaced, id, 0);
    let position = keyed::key_position(replaced, id, 0);
    let after = keyed::with_value(replaced, id, value);
    assert(after[position] == (id, value));
    assert forall|other: Seq<char>|
        ids_of(after).contains(other) <==> ids_of(replaced).insert(id).contains(other) by {
        if ids_of(after).contains(other) {
            let at = choose|i: int| 0 <= i < after.len() && (#[trigger] after[i]).0 == other;
            if at != position {
                assert(replaced[at] == after[at]);
            }
        }
        if ids_of(replaced).contains(other) {
            let at = choose|i: int| 0 <= i < replaced.len() && (#[trigger] replaced[i]).0 == other;
            assert(after[at].0 == replaced[at].0);
        }
    }
    assert(ids_of(after) =~= ids_of(replaced).insert(id));
}

impl ToolResultBudget {
    /// The budget of a session. `contents` is what the file of records holds, and `None`
    /// where there is no file.
    pub fn resume(
        work_dir: &str,
        session_id: &SessionId,
        config: ToolResultBudgetConfig,
        contents: Option<String>,
    ) -> (budget: Result<Self, ToolResultBudgetError>)
        ensures
            ({
                let lines = match contents {
                    Some(contents) => text::line_texts(contents@),
                    None => Seq::empty(),
                };
                match budget {
                    Ok(budget) => replacements_in(lines) is Ok && budget@ == resumed_budget(
                        work_dir@,
                        session_id@,
                        config,
                        replacements_in(lines)->Ok_0,
                    ),
                    Err(error) => replacements_in(lines) is Err && error is InvalidRecord
                        && error->line_number == replacements_in(lines)->Err_0,
                }
            }),
    {
        let paths = WorkspacePaths::new(text::copy_text(work_dir));
        let session_dir = workspace::join_path(
            paths.sessions_dir().as_str(),
            session_id.as_str(),
        );
        let records_path = workspace::join_path(
            session_dir.as_str(),
            "replacement_records.jsonl",
        );
        let mut replaced = TextMap::new();
        let mut recorded = TextSet::new();
        assert(recorded@ =~= ids_of(replaced@));
        if let Some(held) = &contents {
            let lines = text::lines(held.as_str());
            let ghost all = text::texts(lines@);
            let mut index: usize = 0;
            while index < lines.len()
                invariant
                    index <= lines.len(),
                    all == text::texts(lines@),
                    contents == Some(*held),
                    all == text::line_texts(held@),
                    replacements_in(all.take(index as int)) == Ok::<Pairs, int>(replaced@),
                    recorded@ == ids_of(replaced@),
                decreases lines@.len() - index,
            {
                assert(all.take(index + 1).drop_last() =~= all.take(index as int));
                assert(all.take(index + 1).last() == lines@[index as int]@);
                if !text::blank(lines[index].as_str()) {
                    match read_replacement(lines[index].as_str()) {
                        Some(record) => {
                            proof {
                                lemma_ids_with_value(
                                    replaced@,
                                    record.tool_use_id@,
                                    record.replacement@,
                                );
                            }
                            recorded.insert(record.tool_use_id.as_str());
                            replaced.put(record.tool_use_id.as_str(), record.replacement.as_str());
                        },
                        None => {
                            proof {
                                lemma_wrong_replacement_stays(all, index + 1);
                            }
                            return Err(
                                ToolResultBudgetError::InvalidRecord { line_number: index + 1 },
                            );
                        },
                    }
                }
                index += 1;
            }
            assert(all.take(index as int) =~= all);
        }
        Ok(
            ToolResultBudget {
                workspace_root: text::copy_text(work_dir),
                spill_dir: paths.tool_results_dir(),
                records_path,
                config,
                ledger: LedgerState { seen: TextSet::new(), replaced },
                recorded,
            },
        )
    }

    /// Applies the budget to a conversation. `answers` says of each file that was asked
    /// for, in order, whether it could be written. Where another file is to be written
    /// first, the budget does not change.
    pub fn apply(&mut self, conversation: &Conversation, answers: &Vec<bool>) -> (outcome: Applied)
        ensures
            match outcome {
                Applied::Spill(spill) => applied(
                    old(self)@.ledger,
                    setting_of(old(self)@, conversation@, answers@),
                ) == Err::<(Ledger, Seq<MessageView>), SpillView>(spill@) && final(self)@
                    == old(self)@,
                Applied::Done(sent) => applied(
                    old(self)@.ledger,
                    setting_of(old(self)@, conversation@, answers@),
                ) == Ok::<(Ledger, Seq<MessageView>), SpillView>((final(self)@.ledger, sent@))
                    && final(self)@ == (BudgetView { ledger: final(self)@.ledger, ..old(self)@ }),
            },
    {
        let messages = conversation.messages();
        let mut ledger = self.ledger.copy();
        let mut done: Vec<ConversationMessage> = Vec::new();
        {
            let scene = Scene {
                workspace_root: self.workspace_root.as_str(),
                spill_dir: self.spill_dir.as_str(),
                config: self.config,
                messages,
                answers,
            };
            let ghost setting = setting_of(old(self)@, conversation@, answers@);
            let ghost views = conversation@;
            assert(scene@ =~= setting);
            let mut used: usize = 0;
            let mut i: usize = 0;
            assert(conversation::message_views(done@) =~= Seq::<MessageView>::empty());
            while i < messages.len()
                invariant
                    i <= messages@.len(),
                    views == conversation::message_views(messages@),
                    views == conversation@,
                    setting == setting_of(old(self)@, conversation@, answers@),
                    scene@ == setting,
                    scene.answers@ == answers@,
                    used <= answers@.len(),
                    *self == *old(self),
                    messages_done(old(self)@.ledger, setting, views, i as int) == Ok::<
                        Progress,
                        SpillView,
                    >(
                        Progress {
                            ledger: ledger@,
                            used: used as int,
                            messages: conversation::message_views(done@),
                        },
                    ),
                decreases messages@.len() - i,
            {
                assert(views[i as int] == messages@[i as int]@);
                let ghost before = conversation::message_views(done@);
                match apply_message(ledger, used, &scene, &messages[i]) {
                    Ok((after, after_used, message)) => {
                        ledger = after;
                        used = after_used;
                        done.push(message);
                        assert(conversation::message_views(done@) =~= before.push(message@));
                    },
                    Err(spill) => {
                        proof {
                            lemma_spill_stays(old(self)@.ledger, setting, views, i + 1);
                        }
                        return Applied::Spill(spill);
                    },
                }
                i += 1;
            }
        }
        assert(done@.len() == conversation::message_views(done@).len());
        let sent = snip_stale_results(&mut ledger, self.config, &done);
        self.ledger = ledger;
        Applied::Done(Conversation::from_messages(sent))
    }

    /// Takes note of the results of a conversation: what they are, they stay.
    pub fn reconstruct(&mut self, conversation: &Conversation)
        ensures
            final(self)@ == (BudgetView {
                ledger: Ledger {
                    seen: seen_through(
                        old(self)@.ledger.seen,
                        conversation@,
                        conversation@.len() as int,
                    ),
                    replaced: old(self)@.ledger.replaced,
                },
                ..old(self)@
            }),
    {
        let messages = conversation.messages();
        let ghost views = conversation@;
        let ghost start = old(self)@.ledger.seen;
        let mut i: usize = 0;
        while i < messages.len()
            invariant
                i <= messages@.len(),
                views == conversation::message_views(messages@),
                start == old(self)@.ledger.seen,
                self@ == (BudgetView {
                    ledger: Ledger {
                        seen: seen_through(start, views, i as int),
                        replaced: old(self)@.ledger.replaced,
                    },
                    ..old(self)@
                }),
            decreases messages@.len() - i,
        {
            assert(views[i as int] == messages@[i as int]@);
            let content = &messages[i].content;
            let ghost blocks = conversation::block_views(content@);
            let ghost before = seen_through(start, views, i as int);
            let mut j: usize = 0;
            while j < content.len()
                invariant
                    j <= content@.len(),
                    blocks == conversation::block_views(content@),
                    self@ == (BudgetView {
                        ledger: Ledger {
                            seen: seen_in(before, blocks, j as int),
                            replaced: old(self)@.ledger.replaced,
                        },
                        ..old(self)@
                    }),
                decreases content@.len() - j,
            {
                assert(blocks[j as int] == content@[j as int]@);
                if let ContentBlock::ToolResult { tool_use_id, .. } = &content[j] {
                    self.ledger.seen.insert(tool_use_id.as_str());
                }
                j += 1;
            }
            i += 1;
        }
    }

    /// The replacements that are not yet recorded.
    pub fn new_replacement_records(&self) -> (records: Vec<ReplacementRecord>)
        ensures
            replacement_views(records@) == unrecorded(self@.ledger.replaced, self@.recorded),
    {
        let ghost all = self@.ledger.replaced;
        let mut records: Vec<ReplacementRecord> = Vec::new();
        let mut i: usize = 0;
        assert(replacement_views(records@) =~= unrecorded(all.take(0), self@.recorded));
        while i < self.ledger.replaced.len()
            invariant
                i <= all.len(),
                all == self.ledger.replaced@,
                replacement_views(records@) == unrecorded(all.take(i as int), self.recorded@),
            decreases all.len() - i,
        {
            assert(all.take(i + 1).drop_last() =~= all.take(i as int));
            assert(all.take(i + 1).last() == all[i as int]);
            let (id, replacement) = self.ledger.replaced.entry(i);
            if !self.recorded.contains(id) {
                let ghost before = replacement_views(records@);
                records.push(
                    ReplacementRecord {
                        tool_use_id: text::copy_text(id),
                        replacement: text::copy_text(replacement),
                    },
                );
                assert(replacement_views(records@) =~= before.push((id@, replacement@)));
            }
            i += 1;
        }
        assert(all.take(i as int) =~= all);
        records
    }

    /// Takes note that all replacements have been recorded.
    pub fn records_written(&mut self)
        ensures
            final(self)@ == (BudgetView {
                recorded: old(self)@.recorded.union(ids_of(old(self)@.ledger.replaced)),
                ..old(self)@
            }),
    {
        let ghost all = self@.ledger.replaced;
        let ghost start = self@.recorded;
        let mut i: usize = 0;
        assert(start.union(ids_of(all.take(0))) =~= start);
        while i < self.ledger.replaced.len()
            invariant
                i <= all.len(),
                all == self.ledger.replaced@,
                all == old(self)@.ledger.replaced,
                start == old(self)@.recorded,
                self@ == (BudgetView {
                    recorded: start.union(ids_of(all.take(i as int))),
                    ..old(self)@
                }),
            decreases all.len() - i,
        {
            let (id, _) = self.ledger.replaced.entry(i);
            let owned = text::copy_text(id);
            self.recorded.insert(owned.as_str());
            proof {
                let fewer = all.take(i as int);
                let more = all.take(i + 1);
                assert(more[i as int].0 == owned@);
                assert forall|other: Seq<char>|
                    ids_of(more).contains(other) <==> ids_of(fewer).insert(owned@).contains(
                        other,
                    ) by {
                    if ids_of(more).contains(other) {
                        let at = choose|k: int|
                            0 <= k < more.len() && (#[trigger] more[k]).0 == other;
                        if at < i {
                            assert(fewer[at] == more[at]);
                        }
                    }
                    if ids_of(fewer).contains(other) {
                        let at = choose|k: int|
                            0 <= k < fewer.len() && (#[trigger] fewer[k]).0 == other;
                        assert(more[at] == fewer[at]);
                    }
                }
                assert(self@.recorded =~= start.union(ids_of(more)));
            }
            i += 1;
        }
        assert(all.take(i as int) =~= all);
    }

    pub fn records_path(&self) -> (path: &str)
        ensures
            path@ == self@.records_path,
    {
        self.records_path.as_str()
    }

    pub fn spill_dir(&self) -> (path: &str)
        ensures
            path@ == self@.spill_dir,
    {
        self.spill_dir.as_str()
    }
}

/// Once a file is to be written, the messages after it wait.
proof fn lemma_spill_stays(
    ledger: Ledger,
    setting: Setting,
    messages: Seq<MessageView>,
    end: int,
)
    requires
        0 <= end <= messages.len(),
        messages_done(ledger, setting, messages, end) is Err,
    ensures
        messages_done(ledger, setting, messages, messages.len() as int) == messages_done(
            ledger,
            setting,
            messages,
            end,
        ),
    decreases messages.len() - end,
{
    if end < messages.len() {
        lemma_spill_stays(ledger, setting, messages, end + 1);
    }
}

/// The record of a replacement is stored under names that differ.
proof fn lemma_replacement_is_stored(record: (Seq<char>, Seq<char>))
    ensures
        stored::names_differ(replacement_fields(record)),
{
    reveal_strlit("kind");
    reveal_strlit("replacement");
    reveal_strlit("tool_use_id");
    assert("kind"@.len() == 4 && "replacement"@.len() == 11 && "tool_use_id"@.len() == 11);
    assert("replacement"@[0] != "tool_use_id"@[0]);
    let fields = replacement_fields(record)->Record_0;
    assert forall|i: int| 0 <= i < fields.len() implies stored::names_differ(
        (#[trigger] fields[i]).1,
    ) by {}
}

/// The line that is added to the file of records for a replacement, with its line feed.
/// It is read back.
pub fn replacement_line(record: &ReplacementRecord) -> (line: String)
    ensures
        line@ == stored::stored_text(
            replacement_fields((record.tool_use_id@, record.replacement@)),
        ).push('\n'),
        text::on_one_line(line@.drop_last()),
        !text::is_blank(line@.drop_last()),
        replacement_meaning(line@.drop_last()) == Some(
            (record.tool_use_id@, record.replacement@),
        ),
{
    let value = Fields::new().with("kind", stored::stored_str("tool-result")).with(
        "tool_use_id",
        stored::stored_str(record.tool_use_id.as_str()),
    ).with("replacement", stored::stored_str(record.replacement.as_str())).record();
    let ghost pair = (record.tool_use_id@, record.replacement@);
    assert(value@->Record_0 =~= replacement_fields(pair)->Record_0);
    proof {
        lemma_replacement_is_stored(pair);
    }
    let mut line = value.to_text();
    proof {
        law_replacement_round_trip(pair);
    }
    let ghost body = line@;
    line.push('\n');
    assert(line@.drop_last() =~= body);
    line
}

/// The line of a replacement that was written stands for the replacement.
pub proof fn law_replacement_round_trip(record: (Seq<char>, Seq<char>))
    requires
        stored::read_back(replacement_fields(record)),
    ensures
        replacement_meaning(stored::stored_text(replacement_fields(record))) == Some(record),
{
    lemma_replacement_is_stored(record);
    let fields = replacement_fields(record)->Record_0;
    stored::lemma_raw_members(fields);
    stored::lemma_field_found(fields, 0);
    stored::lemma_field_found(fields, 1);
    stored::lemma_field_found(fields, 2);
    stored::lemma_read_value(JsonView::Text("tool-result"@));
    stored::lemma_read_value(JsonView::Text(record.0));
    stored::lemma_read_value(JsonView::Text(record.1));
    assert(stored::read_back(fields[0].1));
    assert(stored::read_back(fields[1].1));
    assert(stored::read_back(fields[2].1));
}

/// What is recorded is read back: a file of records to which the line of a replacement is
/// added is read as those replacements and that one.
pub proof fn law_recorded_replacement_is_read_back(
    contents: Seq<char>,
    line: Seq<char>,
    replaced: Pairs,
    record: (Seq<char>, Seq<char>),
)
    requires
        text::complete_lines(contents),
        replacements_in(text::line_texts(contents)) == Ok::<Pairs, int>(replaced),
        text::on_one_line(line),
        !text::is_blank(line),
        replacement_meaning(line) == Some(record),
    ensures
        text::complete_lines(contents + line.push('\n')),
        replacements_in(text::line_texts(contents + line.push('\n'))) == Ok::<Pairs, int>(
            keyed::with_value(replaced, record.0, record.1),
        ),
{
    text::lemma_added_line(contents, line, 0);
    let lines = text::line_texts(contents);
    assert(lines.push(line).drop_last() =~= lines);
}

/// The lines of replacements in a file of records.
pub open spec fn replacement_text(records: Pairs) -> Seq<char>
    decreases records.len(),
{
    if records.len() == 0 {
        Seq::empty()
    } else {
        replacement_text(records.drop_last()) + stored::stored_text(
            replacement_fields(records.last()),
        ).push('\n')
    }
}

/// Whether a file of records to which `added` is added is read as the replacements that
/// it held and `records`, whatever it held.
pub open spec fn reads_back(added: Seq<char>, records: Pairs) -> bool {
    forall|contents: Seq<char>, replaced: Pairs|
        text::complete_lines(contents) && replacements_in(#[trigger] text::line_texts(contents))
            == Ok::<Pairs, int>(replaced) ==> text::complete_lines(contents + added)
            && replacements_in(text::line_texts(contents + added)) == Ok::<Pairs, int>(
            #[trigger] keyed::with_values(replaced, records),
        )
}

/// The lines that are added to the file of records for replacements. They are read back.
pub fn replacement_lines(records: &Vec<ReplacementRecord>) -> (lines: String)
    ensures
        lines@ == replacement_text(replacement_views(records@)),
        reads_back(lines@, replacement_views(records@)),
{
    let ghost all = replacement_views(records@);
    let mut lines = String::new();
    let mut i: usize = 0;
    assert(reads_back(lines@, all.take(0))) by {
        assert forall|contents: Seq<char>, replaced: Pairs|
            text::complete_lines(contents) && replacements_in(#[trigger] text::line_texts(contents))
                == Ok::<Pairs, int>(replaced) implies text::complete_lines(contents + lines@)
            && replacements_in(text::line_texts(contents + lines@)) == Ok::<Pairs, int>(
            #[trigger] keyed::with_values(replaced, all.take(0)),
        ) by {
            assert(contents + lines@ =~= contents);
        }
    }
    while i < records.len()
        invariant
            i <= records@.len(),
            all == replacement_views(records@),
            lines@ == replacement_text(all.take(i as int)),
            reads_back(lines@, all.take(i as int)),
        decreases records@.len() - i,
    {
        let line = replacement_line(&records[i]);
        let ghost record = all[i as int];
        let ghost before = lines@;
        assert(record == (records@[i as int].tool_use_id@, records@[i as int].replacement@));
        assert(all.take(i + 1).drop_last() =~= all.take(i as int));
        assert(all.take(i + 1).last() == record);
        lines.append(line.as_str());
        assert(line@.drop_last().push('\n') =~= line@);
        proof {
            assert forall|contents: Seq<char>, replaced: Pairs|
                text::complete_lines(contents) && replacements_in(
                    #[trigger] text::line_texts(contents),
                ) == Ok::<Pairs, int>(replaced) implies text::complete_lines(contents + lines@)
                && replacements_in(text::line_texts(contents + lines@)) == Ok::<Pairs, int>(
                #[trigger] keyed::with_values(replaced, all.take(i + 1)),
            ) by {
                let earlier = keyed::with_values(replaced, all.take(i as int));
                assert(replacements_in(text::line_texts(contents + before)) == Ok::<Pairs, int>(
                    earlier,
                ));
                law_recorded_replacement_is_read_back(
                    contents + before,
                    line@.drop_last(),
                    earlier,
                    record,
                );
                assert(contents + before + line@ =~= contents + lines@);
            }
        }
        i += 1;
    }
    assert(all.take(i as int) =~= all);
    lines
}

/// How many turns finish after a message: answers after it that use no tool.
pub open spec fn finished_after(messages: Seq<MessageView>, index: int) -> int
    decreases messages.len(),
{
    if messages.len() == 0 || index >= messages.len() - 1 {
        0
    } else {
        finished_after(messages.drop_last(), index) + if messages.last().role
            == MessageRole::Assistant && !(exists|i: int|
            0 <= i < messages.last().content.len() && (
            #[trigger] messages.last().content[i]) is ToolUse) {
            1int
        } else {
            0int
        }
    }
}

/// The turns up to a message do not depend on what comes later.
proof fn lemma_turns_before(messages: Seq<MessageView>, end: int)
    requires
        end < messages.len(),
    ensures
        turns(messages.drop_last(), end) == turns(messages, end),
    decreases end,
{
    if end > 0 {
        lemma_turns_before(messages, end - 1);
        assert(messages.drop_last()[end - 1] == messages[end - 1]);
    }
}

/// The turns that finish after a message are those that do not finish up to it.
proof fn lemma_finished_after(messages: Seq<MessageView>, index: int)
    requires
        -1 <= index < messages.len(),
    ensures
        finished_after(messages, index) == turns(messages, messages.len() as int) - turns(
            messages,
            index + 1,
        ),
    decreases messages.len(),
{
    if messages.len() > 0 && index < messages.len() - 1 {
        lemma_finished_after(messages.drop_last(), index);
        lemma_turns_before(messages, index + 1);
        lemma_turns_before(messages, messages.len() - 1);
        let last = messages.last();
        assert(ends_turn(last) <==> last.role == MessageRole::Assistant && !(exists|i: int|
            0 <= i < last.content.len() && (#[trigger] last.content[i]) is ToolUse));
    }
}

/// Snipping the blocks of a message keeps all but what long results hold.
proof fn lemma_blocks_snipped(ledger: Ledger, limit: int, content: Seq<BlockView>, end: int)
    requires
        0 <= end <= content.len(),
    ensures
        blocks_snipped(ledger, limit, content, end).1.len() == end,
        forall|j: int|
            0 <= j < end ==> {
                let sent = #[trigger] blocks_snipped(ledger, limit, content, end).1[j];
                sent == content[j] || match content[j] {
                    BlockView::ToolResult { tool_use_id, content: text, is_error } =>
                        text::byte_len(text) > limit && sent == (BlockView::ToolResult {
                            tool_use_id,
                            content: "[Stale output snipped: "@ + text::decimal(
                                text::byte_len(text),
                            ) + " chars]"@,
                            is_error,
                        }),
                    _ => false,
                }
            },
    decreases end,
{
    if end > 0 {
        lemma_blocks_snipped(ledger, limit, content, end - 1);
        let before = blocks_snipped(ledger, limit, content, end - 1).1;
        let after = blocks_snipped(ledger, limit, content, end).1;
        assert forall|j: int| 0 <= j < end implies {
            let sent = #[trigger] after[j];
            sent == content[j] || match content[j] {
                BlockView::ToolResult { tool_use_id, content: text, is_error } =>
                    text::byte_len(text) > limit && sent == (BlockView::ToolResult {
                        tool_use_id,
                        content: "[Stale output snipped: "@ + text::decimal(text::byte_len(text))
                            + " chars]"@,
                        is_error,
                    }),
                _ => false,
            }
        } by {
            if j < end - 1 {
                assert(after[j] == before[j]);
            }
        }
    }
}

/// What snipping sends of a message, as far as earlier decisions do not matter.
pub open spec fn snips_only_long(sent: MessageView, message: MessageView, limit: int) -> bool {
    &&& sent.role == message.role
    &&& sent.timestamp_unix_seconds == message.timestamp_unix_seconds
    &&& sent.content.len() == message.content.len()
    &&& forall|j: int|
        0 <= j < message.content.len() ==> {
            ||| (#[trigger] sent.content[j]) == message.content[j]
            ||| {
                &&& message.content[j] is ToolResult
                &&& text::byte_len(message.content[j]->ToolResult_content) > limit
                &&& sent.content[j] == (BlockView::ToolResult {
                    tool_use_id: message.content[j]->ToolResult_tool_use_id,
                    content: "[Stale output snipped: "@ + text::decimal(
                        text::byte_len(message.content[j]->ToolResult_content),
                    ) + " chars]"@,
                    is_error: message.content[j]->ToolResult_is_error,
                })
            }
        }
}

/// What the snipping of all messages up to `end` sends.
proof fn lemma_stale_snipped(
    ledger: Ledger,
    config: ToolResultBudgetConfig,
    messages: Seq<MessageView>,
    end: int,
)
    requires
        0 <= end <= messages.len(),
    ensures
        stale_snipped(ledger, config, messages, end).1.len() == end,
        forall|i: int|
            0 <= i < end && !is_stale(messages, config.keep_recent_turns as int, i) ==> (
            #[trigger] stale_snipped(ledger, config, messages, end).1[i]) == messages[i],
        forall|i: int|
            0 <= i < end ==> snips_only_long(
                #[trigger] stale_snipped(ledger, config, messages, end).1[i],
                messages[i],
                config.old_result_snip_chars as int,
            ),
    decreases end,
{
    if end > 0 {
        lemma_stale_snipped(ledger, config, messages, end - 1);
        let (before, done) = stale_snipped(ledger, config, messages, end - 1);
        let message = messages[end - 1];
        let limit = config.old_result_snip_chars as int;
        lemma_blocks_snipped(before, limit, message.content, message.content.len() as int);
        let after = stale_snipped(ledger, config, messages, end).1;
        assert(after.last() == after[end - 1]);
        assert(snips_only_long(after[end - 1], message, limit));
        assert forall|i: int| 0 <= i < end implies {
            &&& snips_only_long(#[trigger] after[i], messages[i], limit)
            &&& !is_stale(messages, config.keep_recent_turns as int, i) ==> after[i] == messages[i]
        } by {
            if i < end - 1 {
                assert(after[i] == done[i]);
            }
        }
    }
}

/// What is recent is not snipped: a message is sent as it is unless at least
/// `keep_recent_turns` turns have finished after it, and as long as no more than that many
/// turns have finished at all. What is snipped are results longer than the limit: of such a
/// result only its length is told. Nothing else changes.
pub proof fn law_recent_results_are_not_snipped(
    ledger: Ledger,
    config: ToolResultBudgetConfig,
    messages: Seq<MessageView>,
    index: int,
)
    requires
        0 <= index < messages.len(),
    ensures
        ({
            let sent = stale_snipped(ledger, config, messages, messages.len() as int).1;
            &&& sent.len() == messages.len()
            &&& finished_after(messages, index) < config.keep_recent_turns ==> sent[index]
                == messages[index]
            &&& finished_after(messages, -1) <= config.keep_recent_turns ==> sent[index]
                == messages[index]
            &&& snips_only_long(sent[index], messages[index], config.old_result_snip_chars as int)
        }),
{
    lemma_stale_snipped(ledger, config, messages, messages.len() as int);
    lemma_finished_after(messages, index);
    lemma_finished_after(messages, -1);
}

/// Whether a result with an id stands in the blocks before a position.
pub open spec fn answered_before(content: Seq<BlockView>, id: Seq<char>, end: int) -> bool {
    exists|j: int|
        0 <= j < end && (#[trigger] content[j]) is ToolResult
            && content[j]->ToolResult_tool_use_id == id
}

/// Snipping replaces nothing for an id that no result has.
proof fn lemma_snips_by_id(
    ledger: Ledger,
    limit: int,
    content: Seq<BlockView>,
    id: Seq<char>,
    end: int,
)
    requires
        0 <= end <= content.len(),
        !answered_before(content, id, end),
        keyed::value_of(ledger.replaced, id) is None,
    ensures
        keyed::value_of(blocks_snipped(ledger, limit, content, end).0.replaced, id) is None,
    decreases end,
{
    if end > 0 {
        assert(!(content[end - 1] is ToolResult && content[end - 1]->ToolResult_tool_use_id
            == id));
        assert(!answered_before(content, id, end - 1));
        lemma_snips_by_id(ledger, limit, content, id, end - 1);
        let before = blocks_snipped(ledger, limit, content, end - 1).0;
        if let BlockView::ToolResult { tool_use_id, content: text, .. } = content[end - 1] {
            keyed::lemma_with_value(before.replaced, tool_use_id, snippet(text), id);
        }
    }
}

/// A long result that no decision stands for is snipped.
proof fn lemma_long_is_snipped(
    ledger: Ledger,
    limit: int,
    content: Seq<BlockView>,
    at: int,
    end: int,
)
    requires
        0 <= at < end <= content.len(),
        content[at] is ToolResult,
        !answered_before(content, content[at]->ToolResult_tool_use_id, at),
        keyed::value_of(ledger.replaced, content[at]->ToolResult_tool_use_id) is None,
        text::byte_len(content[at]->ToolResult_content) > limit,
    ensures
        blocks_snipped(ledger, limit, content, end).1.len() == end,
        blocks_snipped(ledger, limit, content, end).1[at]->ToolResult_content == snippet(
            content[at]->ToolResult_content,
        ),
    decreases end,
{
    lemma_blocks_snipped(ledger, limit, content, end - 1);
    if at < end - 1 {
        lemma_long_is_snipped(ledger, limit, content, at, end - 1);
    } else {
        lemma_snips_by_id(ledger, limit, content, content[at]->ToolResult_tool_use_id, at);
    }
}

/// The ledger has no decision for an id that no earlier message answers.
proof fn lemma_stale_by_id(
    ledger: Ledger,
    config: ToolResultBudgetConfig,
    messages: Seq<MessageView>,
    id: Seq<char>,
    end: int,
)
    requires
        0 <= end <= messages.len(),
        keyed::value_of(ledger.replaced, id) is None,
        forall|i: int|
            0 <= i < end ==> !answered_before(
                (#[trigger] messages[i]).content,
                id,
                messages[i].content.len() as int,
            ),
    ensures
        keyed::value_of(stale_snipped(ledger, config, messages, end).0.replaced, id) is None,
    decreases end,
{
    if end > 0 {
        lemma_stale_by_id(ledger, config, messages, id, end - 1);
        let before = stale_snipped(ledger, config, messages, end - 1).0;
        let message = messages[end - 1];
        lemma_snips_by_id(
            before,
            config.old_result_snip_chars as int,
            message.content,
            id,
            message.content.len() as int,
        );
    }
}

/// What is old and long is snipped: where at least `keep_recent_turns` turns have finished
/// after a message, and more than that many in all, only the length is told of each result in
/// it that is longer than the limit and that nothing was sent in place of before.
pub proof fn law_old_long_results_are_snipped(
    ledger: Ledger,
    config: ToolResultBudgetConfig,
    messages: Seq<MessageView>,
    index: int,
    at: int,
)
    requires
        0 <= index < messages.len(),
        0 <= at < messages[index].content.len(),
        messages[index].content[at] is ToolResult,
        finished_after(messages, index) >= config.keep_recent_turns,
        finished_after(messages, -1) > config.keep_recent_turns,
        text::byte_len(messages[index].content[at]->ToolResult_content)
            > config.old_result_snip_chars,
        keyed::value_of(
            ledger.replaced,
            messages[index].content[at]->ToolResult_tool_use_id,
        ) is None,
        !answered_before(
            messages[index].content,
            messages[index].content[at]->ToolResult_tool_use_id,
            at,
        ),
        forall|i: int|
            0 <= i < index ==> !answered_before(
                (#[trigger] messages[i]).content,
                messages[index].content[at]->ToolResult_tool_use_id,
                messages[i].content.len() as int,
            ),
    ensures
        ({
            let result = messages[index].content[at];
            let sent = stale_snipped(ledger, config, messages, messages.len() as int).1[index];
            sent.content[at] == (BlockView::ToolResult {
                tool_use_id: result->ToolResult_tool_use_id,
                content: "[Stale output snipped: "@ + text::decimal(
                    text::byte_len(result->ToolResult_content),
                ) + " chars]"@,
                is_error: result->ToolResult_is_error,
            })
        }),
{
    let id = messages[index].content[at]->ToolResult_tool_use_id;
    let content = messages[index].content;
    let limit = config.old_result_snip_chars as int;
    lemma_finished_after(messages, index);
    lemma_finished_after(messages, -1);
    assert(is_stale(messages, config.keep_recent_turns as int, index));
    lemma_stale_by_id(ledger, config, messages, id, index);
    let (before, done) = stale_snipped(ledger, config, messages, index);
    lemma_stale_snipped(ledger, config, messages, index);
    lemma_long_is_snipped(before, limit, content, at, content.len() as int);
    lemma_blocks_snipped(before, limit, content, content.len() as int);
    lemma_stale_stays(ledger, config, messages, index, messages.len() as int);
    let sent = stale_snipped(ledger, config, messages, index + 1).1[index];
    assert(sent.content == blocks_snipped(before, limit, content, content.len() as int).1);
    assert(sent.content[at]->ToolResult_content == snippet(content[at]->ToolResult_content));
}

/// What was sent of a message stays as later ones are snipped.
proof fn lemma_stale_stays(
    ledger: Ledger,
    config: ToolResultBudgetConfig,
    messages: Seq<MessageView>,
    index: int,
    end: int,
)
    requires
        0 <= index < end <= messages.len(),
    ensures
        stale_snipped(ledger, config, messages, end).1[index] == stale_snipped(
            ledger,
            config,
            messages,
            index + 1,
        ).1[index],
    decreases end,
{
    if index < end - 1 {
        lemma_stale_stays(ledger, config, messages, index, end - 1);
        lemma_stale_snipped(ledger, config, messages, end - 1);
    }
}

} // verus!
