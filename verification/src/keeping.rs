//! What compacting a conversation keeps, tells and counts.
use vstd::prelude::*;

use crate::client::ToolView;
use crate::compaction::{
    CompactionActionView, CompactionConfig, CompactionErrorView, CompactionTrigger, ManualView,
    Reads,
};
use crate::compaction;
use crate::conversation::{BlockView, MessageRole, MessageView};
use crate::events::{LlmErrorView, Usage};
use crate::json;
use crate::session::{BoundaryView, SessionErrorView};
use crate::text;

verus! {

/// What messages take is what the first of them and the rest take, and a message takes four
/// tokens and what its blocks take: about two tokens for seven bytes, rounded up, fifty more
/// for a use of a tool and ten more for a result.
pub proof fn law_tokens_are_added_up(
    first: Seq<MessageView>,
    second: Seq<MessageView>,
    message: MessageView,
    before: Seq<BlockView>,
    block: BlockView,
    after: Seq<BlockView>,
)
    requires
        message.content == before.push(block) + after,
    ensures
        compaction::tokens_in(first + second) == compaction::tokens_in(first)
            + compaction::tokens_in(second),
        compaction::tokens_in(Seq::empty()) == 0,
        compaction::tokens_in(seq![message]) == 4 + compaction::content_tokens(before)
            + compaction::content_tokens(seq![block]) + compaction::content_tokens(after),
        compaction::content_tokens(Seq::empty()) == 0,
        ({
            let tokens = compaction::content_tokens(seq![block]);
            match block {
                BlockView::Text { text } => takes(text, tokens as int),
                BlockView::Thinking { thinking, .. } => takes(thinking, tokens as int),
                BlockView::ToolUse { arguments, .. } => takes(
                    json::json_text(arguments),
                    tokens - 50,
                ),
                BlockView::ToolResult { content, .. } => takes(content, tokens - 10),
            }
        }),
{
    let all = first + second;
    compaction::lemma_tokens_split(all, first.len() as int);
    assert(all.take(first.len() as int) =~= first);
    assert(all.skip(first.len() as int) =~= second);
    let one = seq![message];
    assert(one.drop_last() =~= Seq::<MessageView>::empty());
    assert(compaction::tokens_in(one.drop_last()) == 0);
    assert(one.last() == message);
    lemma_content_split(before, block, after);
    let alone = seq![block];
    assert(alone.drop_last() =~= Seq::<BlockView>::empty());
    assert(compaction::content_tokens(alone.drop_last()) == 0);
    assert(alone.last() == block);
}

/// Whether a text takes so many tokens: two for seven bytes, rounded up.
pub open spec fn takes(text: Seq<char>, tokens: int) -> bool {
    7 * (tokens - 1) < 2 * text::byte_len(text) <= 7 * tokens
}

proof fn lemma_content_split(before: Seq<BlockView>, block: BlockView, after: Seq<BlockView>)
    ensures
        compaction::content_tokens(before.push(block) + after) == compaction::content_tokens(before)
            + compaction::content_tokens(seq![block]) + compaction::content_tokens(after),
    decreases after.len(),
{
    let all = before.push(block) + after;
    let alone = seq![block];
    assert(alone.drop_last() =~= Seq::<BlockView>::empty());
    assert(compaction::content_tokens(alone.drop_last()) == 0);
    assert(alone.last() == block);
    if after.len() == 0 {
        assert(all =~= before.push(block));
        assert(all.drop_last() =~= before);
    } else {
        lemma_content_split(before, block, after.drop_last());
        assert(all.drop_last() =~= before.push(block) + after.drop_last());
        assert(all.last() == after.last());
    }
}

/// What a conversation takes is what the provider counted when it answered, and what has come
/// since then takes; without such a count it is what all messages take.
pub proof fn law_counted_tokens_are_trusted(
    usage: Usage,
    counted: Seq<MessageView>,
    later: Seq<MessageView>,
)
    requires
        usage.input_tokens + usage.output_tokens + usage.cache_read_tokens
            + usage.cache_creation_tokens <= usize::MAX,
        counted.len() <= usize::MAX,
    ensures
        compaction::used(
            compaction::anchor_of(usage, counted.len() as usize),
            counted + later,
        ) == usage.input_tokens + usage.output_tokens + usage.cache_read_tokens
            + usage.cache_creation_tokens + compaction::tokens_in(later),
        compaction::used(compaction::no_anchor(), counted) == compaction::tokens_in(counted),
        counted.len() > 0 ==> compaction::used(
            compaction::anchor_of(usage, counted.len() as usize),
            counted.drop_last(),
        ) == compaction::tokens_in(counted.drop_last()),
{
    assert((counted + later).skip(counted.len() as int) =~= later);
}

/// When compacting is needed: it must be done where the tokens, the room for the answer and the
/// smaller margin reach the window, and should be done where they reach it with the larger
/// margin and it has not failed too often. The room for the answer is the limit of the answer
/// where there is one, but no more than the room for a summary.
pub proof fn law_compacting_is_needed_near_the_window(
    config: CompactionConfig,
    tokens: int,
    failures: int,
    room: int,
)
    requires
        0 <= tokens,
        0 <= room <= config.summary_output_reserve_tokens,
        config.max_output_tokens == 0 ==> room == config.summary_output_reserve_tokens,
        config.max_output_tokens > 0 ==> room <= config.max_output_tokens && (room
            == config.max_output_tokens || room == config.summary_output_reserve_tokens),
    ensures
        ({
            let trigger = compaction::trigger_at(config, tokens, failures);
            let window = config.context_window_tokens;
            &&& trigger == CompactionTrigger::Hard <==> tokens + room
                + config.manual_safety_margin_tokens >= window
            &&& trigger == CompactionTrigger::Soft <==> tokens + room
                + config.manual_safety_margin_tokens < window && tokens + room
                + config.auto_safety_margin_tokens >= window && failures
                < config.max_consecutive_auto_failures
        }),
{
}

/// Whether the results of a message follow uses of tools right before it.
pub open spec fn answers_uses(messages: Seq<MessageView>, index: int) -> bool {
    &&& exists|i: int|
        0 <= i < messages[index].content.len() && (
        #[trigger] messages[index].content[i]) is ToolResult
    &&& exists|i: int|
        0 <= i < messages[index - 1].content.len() && (
        #[trigger] messages[index - 1].content[i]) is ToolUse
}

/// Results stay with the uses that they follow: what is kept does not begin with results whose
/// uses stand right before it, and no more is kept for that reason than is needed.
pub proof fn law_results_stay_with_their_uses(
    messages: Seq<MessageView>,
    config: CompactionConfig,
    index: int,
)
    requires
        messages.len() > 0,
        compaction::keeps_some(messages, config),
    ensures
        ({
            let first = compaction::keep_start(messages, config);
            let kept = compaction::kept_from(messages, config, messages.len() as int, 0);
            &&& 0 <= first <= kept < messages.len()
            &&& first > 0 ==> !answers_uses(messages, first)
            &&& first < index <= kept ==> answers_uses(messages, index)
        }),
{
    compaction::law_kept_messages(messages, config);
    let kept = compaction::kept_from(messages, config, messages.len() as int, 0);
    lemma_pairs(messages, kept, index);
}

proof fn lemma_pairs(messages: Seq<MessageView>, start: int, index: int)
    requires
        0 <= start < messages.len(),
    ensures
        ({
            let first = compaction::pair_start(messages, start);
            &&& first > 0 ==> !answers_uses(messages, first)
            &&& first < index <= start ==> answers_uses(messages, index)
        }),
    decreases start,
{
    if start > 0 && crate::tool_result::has_result(messages[start].content) && compaction::has_use(
        messages[start - 1].content,
    ) {
        lemma_pairs(messages, start - 1, index);
        let i = choose|i: int|
            0 <= i < messages[start].content.len() && crate::tool_result::is_result(
                #[trigger] messages[start].content[i],
            );
        assert(messages[start].content[i] is ToolResult);
        let j = choose|j: int|
            0 <= j < messages[start - 1].content.len() && (
            #[trigger] messages[start - 1].content[j]) is ToolUse;
        assert(messages[start - 1].content[j] is ToolUse);
        assert(answers_uses(messages, start));
    } else if start > 0 && answers_uses(messages, start) {
        let i = choose|i: int|
            0 <= i < messages[start].content.len() && (
            #[trigger] messages[start].content[i]) is ToolResult;
        assert(crate::tool_result::is_result(messages[start].content[i]));
        let j = choose|j: int|
            0 <= j < messages[start - 1].content.len() && (
            #[trigger] messages[start - 1].content[j]) is ToolUse;
        assert(messages[start - 1].content[j] is ToolUse);
    }
}

/// Where a text stands that is not found before.
proof fn lemma_found(haystack: Seq<char>, needle: Seq<char>, at: int)
    requires
        text::occurs_at(haystack, needle, at),
        forall|i: int| 0 <= i < at ==> !text::occurs_at(haystack, needle, i),
    ensures
        text::find_from(haystack, needle, 0) == Some(at),
{
    text::lemma_find_from(haystack, needle, 0);
}

/// A summary is what stands between its marks, without white space around it. Where the end is
/// not marked, it goes on to the end.
pub proof fn law_summary_stands_between_its_marks(
    before: Seq<char>,
    body: Seq<char>,
    after: Seq<char>,
)
    requires
        forall|i: int|
            0 <= i < before.len() ==> !text::occurs_at(
                before + "<summary>"@ + body + "</summary>"@ + after,
                "<summary>"@,
                i,
            ),
        forall|i: int|
            0 <= i < before.len() ==> !text::occurs_at(
                before + "<summary>"@ + body,
                "<summary>"@,
                i,
            ),
        forall|i: int|
            0 <= i < body.len() ==> !text::occurs_at(
                body + "</summary>"@ + after,
                "</summary>"@,
                i,
            ),
        !text::contains_text(body, "</summary>"@),
    ensures
        compaction::formatted_summary(before + "<summary>"@ + body + "</summary>"@ + after)
            == text::trimmed(body),
        compaction::formatted_summary(before + "<summary>"@ + body) == text::trimmed(body),
{
    let start = "<summary>"@;
    let end = "</summary>"@;
    let raw = before + start + body + end + after;
    let at = before.len() as int;
    assert(raw.subrange(at, at + start.len()) =~= start);
    lemma_found(raw, start, at);
    let rest = raw.skip(at + start.len());
    assert(rest =~= body + end + after);
    let size = body.len() as int;
    assert(rest.subrange(size, size + end.len()) =~= end);
    lemma_found(rest, end, size);
    assert(rest.take(size) =~= body);
    let open = before + start + body;
    assert(open.subrange(at, at + start.len()) =~= start);
    lemma_found(open, start, at);
    assert(open.skip(at + start.len()) =~= body);
    text::lemma_find_from(body, end, 0);
    if let Some(found) = text::find_from(body, end, 0) {
        assert(text::occurs_at(body, end, found));
    }
}

/// Where no summary is marked, it is all but the analysis, without white space around it;
/// where no analysis is marked either, it is all.
pub proof fn law_unmarked_summary_leaves_out_the_analysis(
    before: Seq<char>,
    analysis: Seq<char>,
    after: Seq<char>,
)
    requires
        !text::contains_text(
            before + "<analysis>"@ + analysis + "</analysis>"@ + after,
            "<summary>"@,
        ),
        forall|i: int|
            0 <= i < before.len() ==> !text::occurs_at(
                before + "<analysis>"@ + analysis + "</analysis>"@ + after,
                "<analysis>"@,
                i,
            ),
        forall|i: int|
            0 <= i < before.len() + "<analysis>"@.len() + analysis.len() ==> !text::occurs_at(
                before + "<analysis>"@ + analysis + "</analysis>"@ + after,
                "</analysis>"@,
                i,
            ),
    ensures
        compaction::formatted_summary(before + "<analysis>"@ + analysis + "</analysis>"@ + after)
            == text::trimmed(before + after),
        !text::contains_text(after, "<summary>"@) && !text::contains_text(after, "<analysis>"@)
            ==> compaction::formatted_summary(after) == text::trimmed(after),
{
    let start = "<analysis>"@;
    let end = "</analysis>"@;
    let raw = before + start + analysis + end + after;
    text::lemma_find_from(raw, "<summary>"@, 0);
    if let Some(found) = text::find_from(raw, "<summary>"@, 0) {
        assert(text::occurs_at(raw, "<summary>"@, found));
    }
    let at = before.len() as int;
    assert(raw.subrange(at, at + start.len()) =~= start);
    lemma_found(raw, start, at);
    let close = at + start.len() + analysis.len();
    assert(raw.subrange(close, close + end.len()) =~= end);
    lemma_found(raw, end, close);
    assert(raw.take(at) + raw.skip(close + end.len()) =~= before + after);
    text::lemma_find_from(after, "<summary>"@, 0);
    text::lemma_find_from(after, "<analysis>"@, 0);
    if let Some(found) = text::find_from(after, "<summary>"@, 0) {
        assert(text::occurs_at(after, "<summary>"@, found));
    }
    if let Some(found) = text::find_from(after, "<analysis>"@, 0) {
        assert(text::occurs_at(after, "<analysis>"@, found));
    }
}

/// Reading a file forgets nothing but what was read of that file before and, of more than ten
/// files, those read longest ago: the other files keep their order.
pub proof fn law_other_readings_are_kept(
    reads: Reads,
    path: Seq<char>,
    output: Seq<char>,
    first: int,
    second: int,
)
    requires
        0 <= first < reads.len(),
        reads[first].0 != path,
        reads.len() < 10,
    ensures
        ({
            let after = compaction::reads_after(reads, path, output);
            &&& after.contains(reads[first])
            &&& first < second < reads.len() && reads[second].0 != path ==> exists|i: int, j: int|
                0 <= i < j < after.len() && (#[trigger] after[i]) == reads[first] && (
                #[trigger] after[j]) == reads[second]
            &&& after.len() <= reads.len() + 1
            &&& after.last() == (path, output)
        }),
{
    let elsewhere = compaction::reads_elsewhere(reads, path);
    lemma_elsewhere_is_shorter(reads, path);
    let after = compaction::reads_after(reads, path, output);
    assert(after == elsewhere.push((path, output)));
    let i = lemma_elsewhere(reads, path, first);
    assert(after[i] == reads[first]);
    if first < second < reads.len() && reads[second].0 != path {
        let (i, j) = lemma_elsewhere_in_order(reads, path, first, second);
        assert(after[i] == reads[first] && after[j] == reads[second]);
    }
}

proof fn lemma_elsewhere_is_shorter(reads: Reads, path: Seq<char>)
    ensures
        compaction::reads_elsewhere(reads, path).len() <= reads.len(),
    decreases reads.len(),
{
    if reads.len() > 0 {
        lemma_elsewhere_is_shorter(reads.drop_last(), path);
    }
}

proof fn lemma_elsewhere(reads: Reads, path: Seq<char>, index: int) -> (at: int)
    requires
        0 <= index < reads.len(),
        reads[index].0 != path,
    ensures
        0 <= at < compaction::reads_elsewhere(reads, path).len(),
        compaction::reads_elsewhere(reads, path)[at] == reads[index],
    decreases reads.len(),
{
    if index < reads.len() - 1 {
        lemma_elsewhere(reads.drop_last(), path, index)
    } else {
        compaction::reads_elsewhere(reads.drop_last(), path).len() as int
    }
}

proof fn lemma_elsewhere_in_order(
    reads: Reads,
    path: Seq<char>,
    first: int,
    second: int,
) -> (places: (int, int))
    requires
        0 <= first < second < reads.len(),
        reads[first].0 != path,
        reads[second].0 != path,
    ensures
        ({
            let elsewhere = compaction::reads_elsewhere(reads, path);
            0 <= places.0 < places.1 < elsewhere.len() && elsewhere[places.0] == reads[first]
                && elsewhere[places.1] == reads[second]
        }),
    decreases reads.len(),
{
    let fewer = reads.drop_last();
    if second < reads.len() - 1 {
        lemma_elsewhere_in_order(fewer, path, first, second)
    } else {
        let at = lemma_elsewhere(fewer, path, first);
        (at, compaction::reads_elsewhere(fewer, path).len() as int)
    }
}

/// Of more than ten files only the ten that were read last are remembered.
pub proof fn law_ten_readings_are_remembered(reads: Reads, path: Seq<char>, output: Seq<char>)
    ensures
        ({
            let all = compaction::reads_elsewhere(reads, path).push((path, output));
            let after = compaction::reads_after(reads, path, output);
            &&& after.len() <= 10
            &&& after.len() == 10 || after == all
            &&& after == all.skip(all.len() - after.len())
        }),
{
    let all = compaction::reads_elsewhere(reads, path).push((path, output));
    assert(all.skip(0) =~= all);
}

/// What is told of files and tools to go on with: under a heading each, the files with their
/// paths and all that was read, the last one first, and the tools with their names and what they
/// are for. Either list is cut off at its half of what may be told, and left out if it is empty.
pub proof fn law_recovery_lists_files_and_tools(
    reads: Reads,
    tools: Seq<ToolView>,
    token_budget: int,
)
    requires
        token_budget >= 0,
    ensures
        ({
            let whole = compaction::recovery_text(reads, tools, token_budget);
            let files = "Recently read files:\n"@ + compaction::listed_reads(reads);
            let offered = "Available tools:\n"@ + compaction::listed_tools(tools);
            let half = 7 * (token_budget / 2) / 2;
            let rest = 7 * (token_budget - token_budget / 2) / 2;
            &&& reads.len() == 0 && tools.len() == 0 ==> whole.len() == 0
            &&& reads.len() > 0 && tools.len() == 0 && files.len() <= half ==> whole
                == "Recovery snapshot:\n"@ + files
            &&& reads.len() == 0 && tools.len() > 0 && offered.len() <= rest ==> whole
                == "Recovery snapshot:\n"@ + offered
            &&& reads.len() > 0 && tools.len() > 0 && files.len() <= half && offered.len() <= rest
                ==> whole == "Recovery snapshot:\n"@ + files + offered
            &&& whole.len() <= "Recovery snapshot:\n"@.len() + half + rest
        }),
{
    let whole = compaction::recovery_text(reads, tools, token_budget);
    let files = "Recently read files:\n"@ + compaction::listed_reads(reads);
    let offered = "Available tools:\n"@ + compaction::listed_tools(tools);
    if reads.len() > 0 && tools.len() == 0 {
        assert("Recovery snapshot:\n"@ + files + Seq::<char>::empty() =~= "Recovery snapshot:\n"@
            + files);
    }
    if reads.len() == 0 && tools.len() > 0 {
        assert("Recovery snapshot:\n"@ + Seq::<char>::empty() + offered =~= "Recovery snapshot:\n"@
            + offered);
    }
}

/// The lists of files and tools leave nothing out: files are listed from the last to the first,
/// tools in their order.
pub proof fn law_lists_are_complete(
    reads: Reads,
    path: Seq<char>,
    output: Seq<char>,
    tools: Seq<ToolView>,
    tool: ToolView,
)
    ensures
        compaction::listed_reads(reads.push((path, output))) == "--- "@ + path + " ---\n"@ + output
            + "\n"@ + compaction::listed_reads(reads),
        compaction::listed_reads(Seq::empty()).len() == 0,
        compaction::listed_tools(tools.push(tool)) == compaction::listed_tools(tools) + "- "@
            + tool.name + ": "@ + tool.description + "\n"@,
        compaction::listed_tools(Seq::empty()).len() == 0,
{
    assert(reads.push((path, output)).drop_last() =~= reads);
    assert(tools.push(tool).drop_last() =~= tools);
    assert(compaction::listed_tools(tools.push(tool)) =~= compaction::listed_tools(tools) + "- "@
        + tool.name + ": "@ + tool.description + "\n"@);
}

/// A compacted conversation is a text of the user, which tells the summary, that recent messages
/// follow if any do, and what is remembered if there is anything, and then the messages that are
/// kept, as they are.
pub proof fn law_compacted_conversation(
    boundary: BoundaryView,
    recovery: Option<Seq<char>>,
    now: u64,
)
    ensures
        ({
            let messages = compaction::compacted(boundary, recovery, now);
            let told = messages[0];
            let introduction =
                "This session continues from an earlier conversation that was compacted. Earlier summary:\n\n"@;
            let follows = if boundary.keep.len() > 0 {
                "\n\nRecent messages are preserved below."@
            } else {
                Seq::empty()
            };
            let attached = if recovery is Some && (recovery->0).len() > 0 {
                "\n\n---\n\n"@ + recovery->0
            } else {
                Seq::empty()
            };
            &&& messages.len() == 1 + boundary.keep.len()
            &&& messages.skip(1) == boundary.keep
            &&& told.role == MessageRole::User
            &&& told.timestamp_unix_seconds == now
            &&& told.content == seq![
                BlockView::Text { text: introduction + boundary.summary + follows + attached },
            ]
        }),
{
    let messages = compaction::compacted(boundary, recovery, now);
    assert(messages.skip(1) =~= boundary.keep);
}

/// Compacting by hand loses nothing but what it summarizes: the summary is asked of the messages
/// before those that are kept, what is stored with it are the others, and the outcome is the
/// compacted conversation with what it took before and takes now. Without messages to summarize
/// the conversation stays as it is.
pub proof fn law_compacting_by_hand(
    messages: Seq<MessageView>,
    config: CompactionConfig,
    manual: ManualView,
    summary: Seq<char>,
    now: u64,
)
    requires
        compaction::can_compact(messages, config),
    ensures
        ({
            let kept = compaction::keep_start(messages, config);
            let begun = compaction::manual_start(Ok(Some(messages)), config, now);
            &&& kept == 0 ==> begun is Finish && (begun->Finish_0) is Ok && (
            begun->Finish_0->Ok_0).conversation == messages && (
            begun->Finish_0->Ok_0).summary.len() == 0 && (begun->Finish_0->Ok_0).tokens_before == (
            begun->Finish_0->Ok_0).tokens_after
            &&& kept != 0 ==> begun == CompactionActionView::Summarize(
                compaction::summary_request_of(messages.take(kept), now),
            )
        }),
        ({
            let stored = compaction::manual_summarized(manual, Ok(summary));
            let boundary = stored->StoreBoundary_0;
            0 <= manual.keep_start <= manual.conversation.len() ==> {
                &&& text::is_blank(summary) ==> stored == CompactionActionView::Finish(
                    Err(CompactionErrorView::EmptySummary),
                )
                &&& !text::is_blank(summary) ==> stored is StoreBoundary && boundary.summary
                    == summary && manual.conversation.take(manual.keep_start) + boundary.keep
                    == manual.conversation
            }
        }),
        ({
            let done = compaction::manual_stored(manual, Ok(()), now);
            let outcome = done->Finish_0->Ok_0;
            manual.boundary is Some ==> {
                let boundary = manual.boundary->0;
                compaction::tokens_in(compaction::compacted(boundary, None, now)) <= usize::MAX ==> {
                    &&& done is Finish && (done->Finish_0) is Ok
                    &&& outcome.summary == boundary.summary
                    &&& outcome.tokens_before == manual.tokens_before
                    &&& outcome.conversation == compaction::compacted(boundary, None, now)
                    &&& outcome.tokens_after == compaction::tokens_in(outcome.conversation)
                }
            }
        }),
{
    if 0 <= manual.keep_start <= manual.conversation.len() {
        assert(manual.conversation.take(manual.keep_start) + manual.conversation.skip(
            manual.keep_start,
        ) =~= manual.conversation);
    }
}

/// What goes wrong while compacting by hand is told as it is: a session that cannot be read or
/// written, one that does not exist, and a provider that fails.
pub proof fn law_compacting_by_hand_tells_what_went_wrong(
    manual: ManualView,
    config: CompactionConfig,
    failure: SessionErrorView,
    error: LlmErrorView,
    now: u64,
)
    ensures
        compaction::manual_start(Err(failure), config, now) == CompactionActionView::Finish(
            Err(CompactionErrorView::Session(failure)),
        ),
        compaction::manual_start(Ok(None), config, now) == CompactionActionView::Finish(
            Err(CompactionErrorView::SessionMissing),
        ),
        compaction::manual_summarized(manual, Err(error)) == CompactionActionView::Finish(
            Err(CompactionErrorView::Provider(error)),
        ),
        compaction::manual_stored(manual, Err(failure), now) == CompactionActionView::Finish(
            Err(CompactionErrorView::Session(failure)),
        ),
{
}

/// With the defaults, compacting should be done from 178808 tokens on, unless it failed three
/// times in a row, and must be done from 188808 tokens on.
pub proof fn law_default_thresholds(tokens: int, failures: int)
    requires
        0 <= tokens,
    ensures
        ({
            let trigger = compaction::trigger_at(
                compaction::default_compaction(),
                tokens,
                failures,
            );
            &&& trigger == CompactionTrigger::Hard <==> tokens >= 188_808
            &&& trigger == CompactionTrigger::Soft <==> 178_808 <= tokens < 188_808 && failures < 3
        }),
{
}

/// What is told of a failed compaction is what went wrong.
pub proof fn law_failed_compaction_tells_why(failure: SessionErrorView, error: LlmErrorView)
    ensures
        compaction::compaction_error_text(CompactionErrorView::Session(failure))
            == crate::session::session_error_text(failure),
        compaction::compaction_error_text(CompactionErrorView::Provider(error))
            == crate::events::error_text(error),
        compaction::compaction_error_text(CompactionErrorView::SessionMissing)
            == "Session was not found"@,
        compaction::compaction_error_text(CompactionErrorView::EmptySummary)
            == "compaction summary was empty"@,
{
}

/// No more is kept than is needed: of all places to keep from, the latest at which enough
/// messages with enough tokens follow is taken, unless something would not fit before.
pub proof fn law_no_more_is_kept_than_needed(
    messages: Seq<MessageView>,
    config: CompactionConfig,
    later: int,
)
    requires
        compaction::kept_from(messages, config, messages.len() as int, 0) < later
            < messages.len(),
    ensures
        messages.len() - later < config.min_keep_messages || compaction::tokens_in(
            messages.skip(later),
        ) < config.keep_recent_tokens,
{
    let count = messages.len() as int;
    assert(messages.skip(count) =~= Seq::<MessageView>::empty());
    lemma_kept_needed(messages, config, count, later);
}

proof fn lemma_kept_needed(
    messages: Seq<MessageView>,
    config: CompactionConfig,
    start: int,
    later: int,
)
    requires
        0 <= start <= messages.len(),
        compaction::kept_from(
            messages,
            config,
            start,
            compaction::tokens_in(messages.skip(start)) as int,
        ) < later <= start,
        later < messages.len(),
    ensures
        messages.len() - later < config.min_keep_messages || compaction::tokens_in(
            messages.skip(later),
        ) < config.keep_recent_tokens,
    decreases start,
{
    if start > 0 {
        let rest = messages.skip(start - 1);
        compaction::lemma_tokens_split(rest, 1);
        assert(rest.skip(1) =~= messages.skip(start));
        assert(rest.take(1).drop_last() =~= Seq::<MessageView>::empty());
        assert(compaction::tokens_in(rest.take(1).drop_last()) == 0);
        assert(rest.take(1).last() == messages[start - 1]);
        assert(compaction::tokens_in(rest.take(1)) == compaction::message_tokens(
            messages[start - 1],
        ));
        if later < start {
            lemma_kept_needed(messages, config, start - 1, later);
        }
    }
}

/// A list that is too long is cut off where its half of what may be told ends.
pub proof fn law_long_lists_are_cut_off(
    reads: Reads,
    tools: Seq<ToolView>,
    token_budget: int,
)
    requires
        token_budget >= 0,
        reads.len() > 0,
        tools.len() > 0,
    ensures
        ({
            let whole = compaction::recovery_text(reads, tools, token_budget);
            let files = "Recently read files:\n"@ + compaction::listed_reads(reads);
            let offered = "Available tools:\n"@ + compaction::listed_tools(tools);
            let half = 7 * (token_budget / 2) / 2;
            let rest = 7 * (token_budget - token_budget / 2) / 2;
            let told_files = if files.len() > half {
                files.take(half)
            } else {
                files
            };
            let told_tools = if offered.len() > rest {
                offered.take(rest)
            } else {
                offered
            };
            whole == "Recovery snapshot:\n"@ + told_files + told_tools
        }),
{
}

} // verus!
