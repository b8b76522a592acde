//! When a conversation is compacted, what is kept of it, and what stands for the rest.
use vstd::prelude::*;

use crate::client;
use crate::client::{ProviderRequest, RequestView, ToolDefinition, ToolView};
use crate::conversation;
use crate::conversation::{
    BlockView,
    ContentBlock,
    Conversation,
    ConversationMessage,
    MessageRole,
    MessageView,
};
use crate::events;
use crate::events::{LlmError, LlmErrorView, LlmEvent, Usage};
use crate::json;
use crate::session;
use crate::session::{BoundaryView, CompactBoundary, SessionError, SessionErrorView};
use crate::text;
use crate::tool_result;

verus! {

/// How many file reads are remembered.
pub const RECENT_FILE_READ_LIMIT: usize = 10;

#[derive(Debug, Clone, Copy, PartialEq, Eq, Structural)]
pub struct CompactionConfig {
    pub context_window_tokens: usize,
    pub max_output_tokens: usize,
    pub summary_output_reserve_tokens: usize,
    pub auto_safety_margin_tokens: usize,
    pub manual_safety_margin_tokens: usize,
    pub keep_recent_tokens: usize,
    pub min_keep_messages: usize,
    pub max_keep_tokens: usize,
    pub recovery_token_budget: usize,
    pub max_consecutive_auto_failures: usize,
}

/// The settings where nothing else is said.
pub open spec fn default_compaction() -> CompactionConfig {
    CompactionConfig {
        context_window_tokens: 200_000,
        max_output_tokens: 8_192,
        summary_output_reserve_tokens: 20_000,
        auto_safety_margin_tokens: 13_000,
        manual_safety_margin_tokens: 3_000,
        keep_recent_tokens: 10_000,
        min_keep_messages: 5,
        max_keep_tokens: 40_000,
        recovery_token_budget: 4_000,
        max_consecutive_auto_failures: 3,
    }
}

impl Default for CompactionConfig {
    fn default() -> (config: Self)
        ensures
            config == default_compaction(),
    {
        CompactionConfig {
            context_window_tokens: 200_000,
            max_output_tokens: 8_192,
            summary_output_reserve_tokens: 20_000,
            auto_safety_margin_tokens: 13_000,
            manual_safety_margin_tokens: 3_000,
            keep_recent_tokens: 10_000,
            min_keep_messages: 5,
            max_keep_tokens: 40_000,
            recovery_token_budget: 4_000,
            max_consecutive_auto_failures: 3,
        }
    }
}

/// About how many tokens a text takes: two for every seven bytes, rounded up.
pub open spec fn approximate(content: Seq<char>) -> nat {
    (2 * text::byte_len(content) + 6) / 7
}

/// About how many tokens a block takes.
pub open spec fn block_tokens(block: BlockView) -> nat {
    match block {
        BlockView::Text { text } => approximate(text),
        BlockView::Thinking { thinking, .. } => approximate(thinking),
        BlockView::ToolUse { arguments, .. } => 50 + approximate(json::json_text(arguments)),
        BlockView::ToolResult { content, .. } => 10 + approximate(content),
    }
}

/// About how many tokens the content of a message takes.
pub open spec fn content_tokens(content: Seq<BlockView>) -> nat
    decreases content.len(),
{
    if content.len() == 0 {
        0
    } else {
        content_tokens(content.drop_last()) + block_tokens(content.last())
    }
}

/// About how many tokens a message takes.
pub open spec fn message_tokens(message: MessageView) -> nat {
    4 + content_tokens(message.content)
}

/// About how many tokens messages take.
pub open spec fn tokens_in(messages: Seq<MessageView>) -> nat
    decreases messages.len(),
{
    if messages.len() == 0 {
        0
    } else {
        tokens_in(messages.drop_last()) + message_tokens(messages.last())
    }
}

/// The first messages take no more than all.
proof fn lemma_fewer_tokens(messages: Seq<MessageView>, end: int)
    requires
        0 <= end <= messages.len(),
    ensures
        tokens_in(messages.take(end)) <= tokens_in(messages),
    decreases messages.len(),
{
    if end == messages.len() {
        assert(messages.take(end) =~= messages);
    } else {
        assert(messages.drop_last().take(end) =~= messages.take(end));
        lemma_fewer_tokens(messages.drop_last(), end);
    }
}

/// The first blocks take no more than all.
proof fn lemma_fewer_content_tokens(content: Seq<BlockView>, end: int)
    requires
        0 <= end <= content.len(),
    ensures
        content_tokens(content.take(end)) <= content_tokens(content),
    decreases content.len(),
{
    if end == content.len() {
        assert(content.take(end) =~= content);
    } else {
        assert(content.drop_last().take(end) =~= content.take(end));
        lemma_fewer_content_tokens(content.drop_last(), end);
    }
}

/// What messages take is what the first ones take and what the rest take.
pub proof fn lemma_tokens_split(messages: Seq<MessageView>, at: int)
    requires
        0 <= at <= messages.len(),
    ensures
        tokens_in(messages) == tokens_in(messages.take(at)) + tokens_in(messages.skip(at)),
    decreases messages.len(),
{
    if at == messages.len() {
        assert(messages.take(at) =~= messages);
        assert(messages.skip(at) =~= Seq::<MessageView>::empty());
    } else {
        lemma_tokens_split(messages.drop_last(), at);
        assert(messages.drop_last().take(at) =~= messages.take(at));
        assert(messages.skip(at).drop_last() =~= messages.drop_last().skip(at));
    }
}

/// About how many tokens a text takes.
fn approximate_tokens(content: &str) -> (tokens: usize)
    ensures
        tokens == approximate(content@),
{
    let length: u128 = text::text_len(content) as u128;
    ((2 * length + 6) / 7) as usize
}

/// The sum, where it fits.
fn checked_sum(left: usize, right: usize) -> (sum: Option<usize>)
    ensures
        match sum {
            Some(sum) => sum == left + right,
            None => left + right > usize::MAX,
        },
{
    left.checked_add(right)
}

/// About how many tokens a block takes, where that fits.
fn checked_block_tokens(block: &ContentBlock) -> (tokens: Option<usize>)
    ensures
        match tokens {
            Some(tokens) => tokens == block_tokens(block@),
            None => block_tokens(block@) > usize::MAX,
        },
{
    match block {
        ContentBlock::Text { text } => Some(approximate_tokens(text.as_str())),
        ContentBlock::Thinking { thinking, .. } => Some(approximate_tokens(thinking.as_str())),
        ContentBlock::ToolUse { arguments, .. } => checked_sum(
            50,
            approximate_tokens(arguments.to_text().as_str()),
        ),
        ContentBlock::ToolResult { content, .. } => checked_sum(
            10,
            approximate_tokens(content.as_str()),
        ),
    }
}

/// About how many tokens a message takes, where that fits.
fn checked_message_tokens(message: &ConversationMessage) -> (tokens: Option<usize>)
    ensures
        match tokens {
            Some(tokens) => tokens == message_tokens(message@),
            None => message_tokens(message@) > usize::MAX,
        },
{
    let ghost content = message@.content;
    let mut tokens: usize = 4;
    let mut i: usize = 0;
    while i < message.content.len()
        invariant
            i <= message.content@.len(),
            content == conversation::block_views(message.content@),
            tokens == 4 + content_tokens(content.take(i as int)),
        decreases message.content@.len() - i,
    {
        assert(content[i as int] == message.content@[i as int]@);
        assert(content.take(i + 1).drop_last() =~= content.take(i as int));
        proof {
            lemma_fewer_content_tokens(content, i + 1);
        }
        match checked_block_tokens(&message.content[i]) {
            Some(more) => match checked_sum(tokens, more) {
                Some(sum) => {
                    tokens = sum;
                },
                None => {
                    return None;
                },
            },
            None => {
                return None;
            },
        }
        i += 1;
    }
    assert(content.take(i as int) =~= content);
    Some(tokens)
}

/// About how many tokens `messages[from..]` take, where that fits.
fn checked_tokens(messages: &[ConversationMessage], from: usize) -> (tokens: Option<usize>)
    requires
        from <= messages@.len(),
    ensures
        match tokens {
            Some(tokens) => tokens == tokens_in(
                conversation::message_views(messages@).skip(from as int),
            ),
            None => tokens_in(conversation::message_views(messages@).skip(from as int))
                > usize::MAX,
        },
{
    let ghost rest = conversation::message_views(messages@).skip(from as int);
    let mut tokens: usize = 0;
    let mut i: usize = from;
    assert(rest.take(0) =~= Seq::<MessageView>::empty());
    while i < messages.len()
        invariant
            from <= i <= messages@.len(),
            rest == conversation::message_views(messages@).skip(from as int),
            tokens == tokens_in(rest.take(i - from)),
        decreases messages@.len() - i,
    {
        assert(rest[i - from] == messages@[i as int]@);
        assert(rest.take(i + 1 - from).drop_last() =~= rest.take(i - from));
        proof {
            lemma_fewer_tokens(rest, i + 1 - from);
        }
        match checked_message_tokens(&messages[i]) {
            Some(more) => match checked_sum(tokens, more) {
                Some(sum) => {
                    tokens = sum;
                },
                None => {
                    return None;
                },
            },
            None => {
                return None;
            },
        }
        i += 1;
    }
    assert(rest.take(i - from) =~= rest);
    Some(tokens)
}

/// About how many tokens messages take.
pub fn estimate_tokens(messages: &[ConversationMessage]) -> (tokens: usize)
    requires
        tokens_in(conversation::message_views(messages@)) <= usize::MAX,
    ensures
        tokens == tokens_in(conversation::message_views(messages@)),
{
    let ghost views = conversation::message_views(messages@);
    assert(views.skip(0) =~= views);
    match checked_tokens(messages, 0) {
        Some(tokens) => tokens,
        None => 0,
    }
}

/// About how many tokens messages take, where that fits.
pub fn estimated_tokens(messages: &[ConversationMessage]) -> (tokens: Option<usize>)
    ensures
        match tokens {
            Some(tokens) => tokens == tokens_in(conversation::message_views(messages@)),
            None => tokens_in(conversation::message_views(messages@)) > usize::MAX,
        },
{
    let ghost views = conversation::message_views(messages@);
    assert(views.skip(0) =~= views);
    if checked_tokens(messages, 0).is_none() {
        return None;
    }
    Some(estimate_tokens(messages))
}

/// How many tokens were in use when a provider last said so.
#[derive(Debug, Clone, Copy, PartialEq, Eq, Structural)]
pub struct UsageAnchor {
    pub baseline_tokens: usize,
    pub anchor_count: usize,
    pub has_usage: bool,
}

/// All tokens of a request.
pub open spec fn usage_sum(usage: Usage) -> int {
    usage.input_tokens + usage.output_tokens + usage.cache_read_tokens + usage.cache_creation_tokens
}

/// All tokens of a request, where they fit.
pub fn usage_total(usage: Usage) -> (total: Option<u64>)
    ensures
        match total {
            Some(total) => total == usage_sum(usage),
            None => usage_sum(usage) > u64::MAX,
        },
{
    let total: u128 = usage.input_tokens as u128 + usage.output_tokens as u128
        + usage.cache_read_tokens as u128 + usage.cache_creation_tokens as u128;
    if total > u64::MAX as u128 {
        None
    } else {
        Some(total as u64)
    }
}

/// No provider has said how many tokens are in use.
pub open spec fn no_anchor() -> UsageAnchor {
    UsageAnchor { baseline_tokens: 0, anchor_count: 0, has_usage: false }
}

/// What a usage says of a conversation of `count` messages.
pub open spec fn anchor_of(usage: Usage, count: usize) -> UsageAnchor {
    UsageAnchor {
        baseline_tokens: (usage_sum(usage) as u64) as usize,
        anchor_count: count,
        has_usage: true,
    }
}

impl Default for UsageAnchor {
    fn default() -> (anchor: Self)
        ensures
            anchor == no_anchor(),
    {
        UsageAnchor { baseline_tokens: 0, anchor_count: 0, has_usage: false }
    }
}

impl UsageAnchor {
    pub fn from_usage(usage: Usage, conversation_len: usize) -> (anchor: Self)
        requires
            usage_sum(usage) <= u64::MAX,
        ensures
            anchor == anchor_of(usage, conversation_len),
    {
        let total: u64 = usage.input_tokens + usage.output_tokens + usage.cache_read_tokens
            + usage.cache_creation_tokens;
        UsageAnchor {
            baseline_tokens: total as usize,
            anchor_count: conversation_len,
            has_usage: true,
        }
    }
}

/// Whether a conversation is to be compacted, and how much depends on it.
#[derive(Debug, Clone, Copy, PartialEq, Eq, Structural)]
pub enum CompactionTrigger {
    NotNeeded,
    Soft,
    Hard,
}

/// What is known of how full the context is, and how often compacting failed.
#[derive(Debug, PartialEq, Eq)]
pub struct CompactionTracker {
    usage_anchor: UsageAnchor,
    consecutive_auto_failures: usize,
}

/// What a [`CompactionTracker`] holds.
#[verifier::ext_equal]
pub struct TrackerView {
    pub anchor: UsageAnchor,
    pub failures: usize,
}

impl View for CompactionTracker {
    type V = TrackerView;

    closed spec fn view(&self) -> TrackerView {
        TrackerView { anchor: self.usage_anchor, failures: self.consecutive_auto_failures }
    }
}

/// How many tokens are in use: what the provider said, and about what came since.
pub open spec fn used(anchor: UsageAnchor, messages: Seq<MessageView>) -> int {
    if !anchor.has_usage || anchor.anchor_count > messages.len() {
        tokens_in(messages) as int
    } else {
        anchor.baseline_tokens + tokens_in(messages.skip(anchor.anchor_count as int))
    }
}

/// What is left of `left` without `right`, and not less than nothing.
pub open spec fn without(left: int, right: int) -> int {
    if left >= right {
        left - right
    } else {
        0
    }
}

/// How many tokens of the context window a request may take.
pub open spec fn effective_window(config: CompactionConfig) -> int {
    let reserve = if config.max_output_tokens == 0 || config.summary_output_reserve_tokens
        < config.max_output_tokens {
        config.summary_output_reserve_tokens as int
    } else {
        config.max_output_tokens as int
    };
    without(config.context_window_tokens as int, reserve)
}

/// Whether a conversation is to be compacted when `tokens` are in use and compacting has
/// failed `failures` times in a row.
pub open spec fn trigger_at(config: CompactionConfig, tokens: int, failures: int) -> CompactionTrigger {
    let window = effective_window(config);
    if tokens >= without(window, config.manual_safety_margin_tokens as int) {
        CompactionTrigger::Hard
    } else if tokens >= without(window, config.auto_safety_margin_tokens as int) && failures
        < config.max_consecutive_auto_failures {
        CompactionTrigger::Soft
    } else {
        CompactionTrigger::NotNeeded
    }
}

impl Default for CompactionTracker {
    fn default() -> (tracker: Self)
        ensures
            tracker@ == (TrackerView { anchor: no_anchor(), failures: 0 }),
    {
        CompactionTracker { usage_anchor: UsageAnchor::default(), consecutive_auto_failures: 0 }
    }
}

impl CompactionTracker {
    pub fn record_usage(&mut self, usage: Usage, conversation_len: usize)
        requires
            usage_sum(usage) <= u64::MAX,
        ensures
            final(self)@ == (TrackerView {
                anchor: anchor_of(usage, conversation_len),
                failures: old(self)@.failures,
            }),
    {
        self.usage_anchor = UsageAnchor::from_usage(usage, conversation_len);
    }

    pub fn reset_after_compaction(&mut self)
        ensures
            final(self)@ == (TrackerView { anchor: no_anchor(), failures: old(self)@.failures }),
    {
        self.usage_anchor = UsageAnchor::default();
    }

    /// Takes note of a failure. The result says whether compacting may be tried again.
    pub fn record_auto_failure(&mut self, config: &CompactionConfig) -> (again: bool)
        requires
            old(self)@.failures < usize::MAX,
        ensures
            final(self)@ == (TrackerView {
                anchor: old(self)@.anchor,
                failures: (old(self)@.failures + 1) as usize,
            }),
            again == (old(self)@.failures + 1 < config.max_consecutive_auto_failures),
    {
        self.consecutive_auto_failures += 1;
        self.consecutive_auto_failures < config.max_consecutive_auto_failures
    }

    /// How often compacting has failed in a row.
    pub fn auto_failures(&self) -> (failures: usize)
        ensures
            failures == self@.failures,
    {
        self.consecutive_auto_failures
    }

    pub fn record_auto_success(&mut self)
        ensures
            final(self)@ == (TrackerView { anchor: old(self)@.anchor, failures: 0 }),
    {
        self.consecutive_auto_failures = 0;
    }

    /// Whether a conversation is to be compacted.
    pub fn should_compact(
        &self,
        messages: &[ConversationMessage],
        config: &CompactionConfig,
    ) -> (trigger: CompactionTrigger)
        requires
            used(self@.anchor, conversation::message_views(messages@)) <= usize::MAX,
        ensures
            trigger == trigger_at(
                *config,
                used(self@.anchor, conversation::message_views(messages@)),
                self@.failures as int,
            ),
    {
        let used_tokens = self.used_tokens(messages);
        let output_reserve: usize = if config.max_output_tokens == 0
            || config.summary_output_reserve_tokens < config.max_output_tokens {
            config.summary_output_reserve_tokens
        } else {
            config.max_output_tokens
        };
        let window = config.context_window_tokens.saturating_sub(output_reserve);
        if used_tokens >= window.saturating_sub(config.manual_safety_margin_tokens) {
            return CompactionTrigger::Hard;
        }
        if used_tokens >= window.saturating_sub(config.auto_safety_margin_tokens)
            && self.consecutive_auto_failures < config.max_consecutive_auto_failures {
            return CompactionTrigger::Soft;
        }
        CompactionTrigger::NotNeeded
    }

    /// Whether a conversation is to be compacted, where the tokens in use can be counted.
    pub fn trigger_for(&self, messages: &[ConversationMessage], config: &CompactionConfig) -> (trigger:
        Option<CompactionTrigger>)
        ensures
            match trigger {
                Some(trigger) => used(self@.anchor, conversation::message_views(messages@))
                    <= usize::MAX && trigger == trigger_at(
                    *config,
                    used(self@.anchor, conversation::message_views(messages@)),
                    self@.failures as int,
                ),
                None => used(self@.anchor, conversation::message_views(messages@)) > usize::MAX,
            },
    {
        if self.checked_use(messages).is_none() {
            return None;
        }
        Some(self.should_compact(messages, config))
    }

    /// How many tokens are in use.
    pub fn used_tokens(&self, messages: &[ConversationMessage]) -> (tokens: usize)
        requires
            used(self@.anchor, conversation::message_views(messages@)) <= usize::MAX,
        ensures
            tokens == used(self@.anchor, conversation::message_views(messages@)),
    {
        match self.checked_use(messages) {
            Some(tokens) => tokens,
            None => 0,
        }
    }

    /// How many tokens are in use, where that fits.
    fn checked_use(&self, messages: &[ConversationMessage]) -> (tokens: Option<usize>)
        ensures
            match tokens {
                Some(tokens) => tokens == used(
                    self@.anchor,
                    conversation::message_views(messages@),
                ),
                None => used(self@.anchor, conversation::message_views(messages@)) > usize::MAX,
            },
    {
        if !self.usage_anchor.has_usage || self.usage_anchor.anchor_count > messages.len() {
            return estimated_tokens(messages);
        }
        match checked_tokens(messages, self.usage_anchor.anchor_count) {
            Some(tokens) => checked_sum(self.usage_anchor.baseline_tokens, tokens),
            None => None,
        }
    }
}

/// More tokens in use never make compacting less urgent, and after a failure it is never
/// more urgent.
pub proof fn law_trigger_is_monotone(
    config: CompactionConfig,
    tokens: int,
    more: int,
    failures: int,
    later: int,
)
    requires
        tokens <= more,
        failures <= later,
    ensures
        trigger_at(config, tokens, failures) is Hard ==> trigger_at(config, more, later) is Hard,
        trigger_at(config, tokens, failures) is Soft ==> !(trigger_at(
            config,
            more,
            failures,
        ) is NotNeeded),
        trigger_at(config, tokens, later) is Soft ==> trigger_at(config, tokens, failures) is Soft,
        !(trigger_at(config, tokens, config.max_consecutive_auto_failures as int) is Soft),
{
}

/// Whether a message uses a tool.
pub open spec fn has_use(content: Seq<BlockView>) -> bool {
    exists|i: int| 0 <= i < content.len() && (#[trigger] content[i]) is ToolUse
}

/// Whether a block uses a tool.
pub fn is_tool_use(block: &ContentBlock) -> (result: bool)
    ensures
        result == (block@ is ToolUse),
{
    match block {
        ContentBlock::ToolUse { .. } => true,
        _ => false,
    }
}

/// Whether a message uses a tool.
pub fn holds_tool_use(content: &Vec<ContentBlock>) -> (result: bool)
    ensures
        result == has_use(conversation::block_views(content@)),
{
    let ghost blocks = conversation::block_views(content@);
    let mut i: usize = 0;
    while i < content.len()
        invariant
            i <= content@.len(),
            blocks == conversation::block_views(content@),
            forall|j: int| 0 <= j < i ==> !((#[trigger] blocks[j]) is ToolUse),
        decreases content@.len() - i,
    {
        assert(blocks[i as int] == content@[i as int]@);
        if is_tool_use(&content[i]) {
            return true;
        }
        i += 1;
    }
    false
}

/// The first of the last messages that are kept, when those from `start` on are kept and
/// take `tokens`: one more is kept as long as there are too few of them and all fit.
pub open spec fn kept_from(
    messages: Seq<MessageView>,
    config: CompactionConfig,
    start: int,
    tokens: int,
) -> int
    decreases start,
{
    if start <= 0 {
        0
    } else if messages.len() - start >= config.min_keep_messages && tokens
        >= config.keep_recent_tokens {
        start
    } else if tokens + message_tokens(messages[start - 1]) > config.max_keep_tokens {
        start
    } else {
        kept_from(messages, config, start - 1, tokens + message_tokens(messages[start - 1]))
    }
}

/// The first of the messages that are kept before those from `start` on, so that the
/// results of tools stay with their uses.
pub open spec fn pair_start(messages: Seq<MessageView>, start: int) -> int
    decreases start,
{
    if start > 0 && tool_result::has_result(messages[start].content) && has_use(
        messages[start - 1].content,
    ) {
        pair_start(messages, start - 1)
    } else {
        start
    }
}

/// The first of the messages that are kept.
pub open spec fn keep_start(messages: Seq<MessageView>, config: CompactionConfig) -> int {
    pair_start(messages, kept_from(messages, config, messages.len() as int, 0))
}

/// Whether at least one message is kept, or there is none.
pub open spec fn keeps_some(messages: Seq<MessageView>, config: CompactionConfig) -> bool {
    messages.len() == 0 || kept_from(messages, config, messages.len() as int, 0) < messages.len()
}

/// What is kept comes from within, and fits.
pub proof fn lemma_kept_from(
    messages: Seq<MessageView>,
    config: CompactionConfig,
    start: int,
)
    requires
        0 <= start <= messages.len(),
        tokens_in(messages.skip(start)) <= config.max_keep_tokens,
    ensures
        ({
            let kept = kept_from(
                messages,
                config,
                start,
                tokens_in(messages.skip(start)) as int,
            );
            &&& 0 <= kept <= start
            &&& tokens_in(messages.skip(kept)) <= config.max_keep_tokens
            &&& kept > 0 ==> (messages.len() - kept >= config.min_keep_messages && tokens_in(
                messages.skip(kept),
            ) >= config.keep_recent_tokens) || tokens_in(messages.skip(kept - 1))
                > config.max_keep_tokens
        }),
    decreases start,
{
    if start > 0 {
        let rest = messages.skip(start - 1);
        lemma_tokens_split(rest, 1);
        assert(rest.skip(1) =~= messages.skip(start));
        assert(rest.take(1).drop_last() =~= Seq::<MessageView>::empty());
        assert(tokens_in(rest.take(1).drop_last()) == 0);
        assert(rest.take(1).last() == messages[start - 1]);
        assert(tokens_in(rest.take(1)) == message_tokens(messages[start - 1]));
        if tokens_in(rest) <= config.max_keep_tokens {
            lemma_kept_from(messages, config, start - 1);
        }
    }
}

/// Keeping results with their uses goes back, to where no result is parted from its use.
pub proof fn lemma_pair_start(messages: Seq<MessageView>, start: int)
    requires
        0 <= start < messages.len(),
    ensures
        ({
            let first = pair_start(messages, start);
            &&& 0 <= first <= start
            &&& first > 0 ==> !(tool_result::has_result(messages[first].content) && has_use(
                messages[first - 1].content,
            ))
        }),
    decreases start,
{
    if start > 0 && tool_result::has_result(messages[start].content) && has_use(
        messages[start - 1].content,
    ) {
        lemma_pair_start(messages, start - 1);
    }
}

/// Compacting parts no results from the uses right before them: the first message that is
/// kept holds no result, or the message before it uses no tool. But for messages that are
/// kept for that reason, what is kept fits, and nothing more could be kept: there are
/// enough messages with enough tokens, or the next one would not fit.
pub proof fn law_kept_messages(messages: Seq<MessageView>, config: CompactionConfig)
    requires
        messages.len() > 0,
        keeps_some(messages, config),
    ensures
        ({
            let kept = kept_from(messages, config, messages.len() as int, 0);
            let first = keep_start(messages, config);
            &&& 0 <= first <= kept < messages.len()
            &&& first > 0 ==> !(tool_result::has_result(messages[first].content) && has_use(
                messages[first - 1].content,
            ))
            &&& tokens_in(messages.skip(kept)) <= config.max_keep_tokens
            &&& kept > 0 ==> (messages.len() - kept >= config.min_keep_messages && tokens_in(
                messages.skip(kept),
            ) >= config.keep_recent_tokens) || tokens_in(messages.skip(kept - 1))
                > config.max_keep_tokens
        }),
{
    let count = messages.len() as int;
    assert(messages.skip(count) =~= Seq::<MessageView>::empty());
    lemma_kept_from(messages, config, count);
    lemma_pair_start(messages, kept_from(messages, config, count, 0));
}

/// How far back messages are kept.
fn scan_kept(messages: &[ConversationMessage], config: &CompactionConfig) -> (start: usize)
    ensures
        start == kept_from(
            conversation::message_views(messages@),
            *config,
            messages@.len() as int,
            0,
        ),
        start <= messages@.len(),
{
    let ghost views = conversation::message_views(messages@);
    let mut start: usize = messages.len();
    let mut tokens: usize = 0;
    while start > 0
        invariant
            start <= messages@.len(),
            views == conversation::message_views(messages@),
            tokens <= config.max_keep_tokens,
            kept_from(views, *config, start as int, tokens as int) == kept_from(
                views,
                *config,
                messages@.len() as int,
                0,
            ),
        decreases start,
    {
        assert(views[start - 1] == messages@[start - 1]@);
        if messages.len() - start >= config.min_keep_messages && tokens
            >= config.keep_recent_tokens {
            return start;
        }
        match checked_message_tokens(&messages[start - 1]) {
            Some(more) => {
                if more > config.max_keep_tokens - tokens {
                    return start;
                }
                tokens += more;
            },
            None => {
                return start;
            },
        }
        start -= 1;
    }
    start
}

/// The first of the messages that are kept.
pub fn choose_keep_start(messages: &[ConversationMessage], config: &CompactionConfig) -> (start:
    usize)
    requires
        keeps_some(conversation::message_views(messages@), *config),
    ensures
        start == keep_start(conversation::message_views(messages@), *config),
        start <= messages@.len(),
{
    let ghost views = conversation::message_views(messages@);
    let mut start = scan_kept(messages, config);
    let ghost kept = start as int;
    if messages.len() == 0 {
        return start;
    }
    while start > 0 && tool_result::holds_tool_result(&messages[start].content) && holds_tool_use(
        &messages[start - 1].content,
    )
        invariant
            start < messages@.len(),
            views == conversation::message_views(messages@),
            pair_start(views, start as int) == pair_start(views, kept),
        decreases start,
    {
        assert(views[start as int] == messages@[start as int]@);
        assert(views[start - 1] == messages@[start - 1]@);
        start -= 1;
    }
    proof {
        assert(views[start as int] == messages@[start as int]@);
        if start > 0 {
            assert(views[start - 1] == messages@[start - 1]@);
        }
    }
    start
}

/// The first of the messages that are kept, where any is kept.
pub fn keep_start_of(messages: &[ConversationMessage], config: &CompactionConfig) -> (start: Option<
    usize,
>)
    ensures
        match start {
            Some(start) => keeps_some(conversation::message_views(messages@), *config) && start
                == keep_start(conversation::message_views(messages@), *config) && start
                <= messages@.len(),
            None => !keeps_some(conversation::message_views(messages@), *config),
        },
{
    if messages.len() > 0 && scan_kept(messages, config) >= messages.len() {
        return None;
    }
    Some(choose_keep_start(messages, config))
}

/// What a summary comes to: what stands between the summary marks, or what stands around
/// the analysis marks, or all of it; without white space at its ends.
pub open spec fn formatted_summary(raw: Seq<char>) -> Seq<char> {
    match text::find_from(raw, "<summary>"@, 0) {
        Some(start) => {
            let body = raw.skip(start + "<summary>"@.len());
            text::trimmed(
                match text::find_from(body, "</summary>"@, 0) {
                    Some(end) => body.take(end),
                    None => body,
                },
            )
        },
        None => match (
            text::find_from(raw, "<analysis>"@, 0),
            text::find_from(raw, "</analysis>"@, 0),
        ) {
            (Some(start), Some(end)) => text::trimmed(
                raw.take(start) + raw.skip(end + "</analysis>"@.len()),
            ),
            _ => text::trimmed(raw),
        },
    }
}

/// What a summary comes to.
pub fn format_summary(raw: &str) -> (summary: String)
    ensures
        summary@ == formatted_summary(raw@),
{
    let chars = text::chars_of(raw);
    let count: usize = chars.len();
    let ghost all = raw@;
    proof {
        text::lemma_find_from(all, "<summary>"@, 0);
        text::lemma_find_from(all, "<analysis>"@, 0);
        text::lemma_find_from(all, "</analysis>"@, 0);
    }
    let opening = text::chars_of("<summary>");
    if let Some(start) = text::find_in(&chars, &opening, 0) {
        let from: usize = start + opening.len();
        let tail = text::text_between(&chars, from, count);
        assert(tail@ =~= all.skip(from as int));
        let body = text::chars_of(tail.as_str());
        proof {
            text::lemma_find_from(body@, "</summary>"@, 0);
        }
        return match text::find_in(&body, &text::chars_of("</summary>"), 0) {
            Some(end) => {
                let inner = text::text_between(&body, 0, end);
                assert(inner@ =~= body@.take(end as int));
                text::trim(inner.as_str())
            },
            None => text::trim(tail.as_str()),
        };
    }
    let closing = text::chars_of("</analysis>");
    match (
        text::find_in(&chars, &text::chars_of("<analysis>"), 0),
        text::find_in(&chars, &closing, 0),
    ) {
        (Some(start), Some(end)) => {
            let before = text::text_between(&chars, 0, start);
            let after = text::text_between(&chars, end + closing.len(), count);
            assert(before@ =~= all.take(start as int));
            assert(after@ =~= all.skip(end + closing@.len()));
            text::trim(text::concat(before.as_str(), after.as_str()).as_str())
        },
        _ => text::trim(raw),
    }
}

/// What a block says in a transcript.
pub open spec fn block_text(block: BlockView) -> Seq<char> {
    match block {
        BlockView::Text { text } => text,
        BlockView::Thinking { thinking, .. } => thinking,
        BlockView::ToolUse { tool_use_id, tool_name, .. } => "[tool use "@ + tool_name + " "@
            + tool_use_id + "]"@,
        BlockView::ToolResult { tool_use_id, content, .. } => "[tool result "@ + tool_use_id
            + "]: "@ + content,
    }
}

/// What the content of a message says in a transcript.
pub open spec fn content_text(content: Seq<BlockView>) -> Seq<char>
    decreases content.len(),
{
    if content.len() == 0 {
        Seq::empty()
    } else {
        content_text(content.drop_last()) + block_text(content.last())
    }
}

/// A transcript of messages: a line with the role and the content of each.
pub open spec fn transcript(messages: Seq<MessageView>) -> Seq<char>
    decreases messages.len(),
{
    if messages.len() == 0 {
        Seq::empty()
    } else {
        transcript(messages.drop_last()) + ("["@ + conversation::role_text(messages.last().role)
            + "]: "@ + content_text(messages.last().content) + "\n"@)
    }
}

/// What a message says in a transcript.
pub fn message_text(message: &ConversationMessage) -> (result: String)
    ensures
        result@ == content_text(message@.content),
{
    let ghost content = message@.content;
    let mut result = String::new();
    let mut i: usize = 0;
    while i < message.content.len()
        invariant
            i <= message.content@.len(),
            content == conversation::block_views(message.content@),
            result@ == content_text(content.take(i as int)),
        decreases message.content@.len() - i,
    {
        assert(content[i as int] == message.content@[i as int]@);
        assert(content.take(i + 1).drop_last() =~= content.take(i as int));
        let ghost before = result@;
        match &message.content[i] {
            ContentBlock::Text { text } => result.append(text.as_str()),
            ContentBlock::Thinking { thinking, .. } => result.append(thinking.as_str()),
            ContentBlock::ToolUse { tool_use_id, tool_name, .. } => {
                result.append("[tool use ");
                result.append(tool_name.as_str());
                result.append(" ");
                result.append(tool_use_id.as_str());
                result.append("]");
            },
            ContentBlock::ToolResult { tool_use_id, content: output, .. } => {
                result.append("[tool result ");
                result.append(tool_use_id.as_str());
                result.append("]: ");
                result.append(output.as_str());
            },
        }
        assert(result@ =~= before + block_text(content[i as int]));
        i += 1;
    }
    assert(content.take(i as int) =~= content);
    result
}

/// A message of a user that says `content`.
pub open spec fn user_message(content: Seq<char>, now: u64) -> MessageView {
    MessageView {
        role: MessageRole::User,
        content: seq![BlockView::Text { text: content }],
        timestamp_unix_seconds: now,
    }
}

/// A message of a user that says `content`.
pub fn user_text(content: String, now: u64) -> (message: ConversationMessage)
    ensures
        message@ == user_message(content@, now),
{
    let mut blocks: Vec<ContentBlock> = Vec::new();
    blocks.push(ContentBlock::Text { text: content });
    let message = ConversationMessage {
        role: MessageRole::User,
        content: blocks,
        timestamp_unix_seconds: now,
    };
    assert(message@.content =~= user_message(content@, now).content);
    message
}

/// What is asked of the provider for a summary of messages.
pub open spec fn summary_request_of(messages: Seq<MessageView>, now: u64) -> RequestView {
    RequestView {
        system_prompt: "You create detailed, actionable conversation summaries."@,
        conversation: seq![
            user_message(
                "Summarize the conversation so it can continue safely. Capture requests, decisions, and unresolved work.\n\n"@
                    + transcript(messages),
                now,
            ),
        ],
        tools: Seq::empty(),
    }
}

/// What is asked of the provider for a summary of `messages[..end]`.
pub fn summary_request(messages: &[ConversationMessage], end: usize, now: u64) -> (request:
    ProviderRequest)
    requires
        end <= messages@.len(),
    ensures
        request@ == summary_request_of(
            conversation::message_views(messages@).take(end as int),
            now,
        ),
{
    let ghost all = conversation::message_views(messages@).take(end as int);
    let ghost intro =
        "Summarize the conversation so it can continue safely. Capture requests, decisions, and unresolved work.\n\n"@;
    let mut prompt = text::copy_text(
        "Summarize the conversation so it can continue safely. Capture requests, decisions, and unresolved work.\n\n",
    );
    let mut i: usize = 0;
    assert(intro + transcript(all.take(0)) =~= intro);
    while i < end
        invariant
            i <= end <= messages@.len(),
            all == conversation::message_views(messages@).take(end as int),
            prompt@ == intro + transcript(all.take(i as int)),
        decreases end - i,
    {
        assert(all[i as int] == messages@[i as int]@);
        assert(all.take(i + 1).drop_last() =~= all.take(i as int));
        let ghost before = prompt@;
        prompt.append("[");
        prompt.append(conversation::role_name(messages[i].role));
        prompt.append("]: ");
        prompt.append(message_text(&messages[i]).as_str());
        prompt.append("\n");
        assert(prompt@ =~= intro + transcript(all.take(i + 1)));
        i += 1;
    }
    assert(all.take(i as int) =~= all);
    let mut asked = Conversation::new();
    asked.push(user_text(prompt, now));
    let tools: Vec<ToolDefinition> = Vec::new();
    let request = ProviderRequest {
        system_prompt: text::copy_text("You create detailed, actionable conversation summaries."),
        conversation: asked,
        tools,
    };
    assert(request@.tools =~= Seq::<ToolView>::empty());
    assert(request@.conversation =~= summary_request_of(all, now).conversation);
    request
}

/// What has come of a summary so far.
#[derive(Debug, PartialEq, Eq)]
pub struct SummaryCollector {
    text: String,
}

impl View for SummaryCollector {
    type V = Seq<char>;

    closed spec fn view(&self) -> Seq<char> {
        self.text@
    }
}

/// What an event does to a summary.
#[derive(Debug, PartialEq, Eq)]
pub enum SummaryStep {
    /// More may come.
    More,
    /// The summary is complete.
    Complete,
    /// The provider failed.
    Failed(LlmError),
}

impl SummaryCollector {
    pub fn new() -> (collector: Self)
        ensures
            collector@ == Seq::<char>::empty(),
    {
        SummaryCollector { text: String::new() }
    }

    /// Takes an event: text is added, the end of the stream completes the summary, an
    /// error ends it, and other events do not matter.
    pub fn collect(&mut self, item: Result<LlmEvent, LlmError>) -> (step: SummaryStep)
        ensures
            match item {
                Ok(LlmEvent::TextDelta { text }) => final(self)@ == old(self)@ + text@
                    && step is More,
                Ok(LlmEvent::StreamEnd { .. }) => final(self)@ == old(self)@ && step is Complete,
                Ok(_) => final(self)@ == old(self)@ && step is More,
                Err(error) => final(self)@ == old(self)@ && step == SummaryStep::Failed(error),
            },
    {
        match item {
            Ok(LlmEvent::TextDelta { text }) => {
                self.text.append(text.as_str());
                SummaryStep::More
            },
            Ok(LlmEvent::StreamEnd { .. }) => SummaryStep::Complete,
            Ok(_) => SummaryStep::More,
            Err(error) => SummaryStep::Failed(error),
        }
    }

    /// The summary, once the stream has ended.
    pub fn finish(self) -> (summary: String)
        ensures
            summary@ == formatted_summary(self@),
    {
        format_summary(self.text.as_str())
    }
}

/// A file that was read, and what it held.
#[derive(Debug, PartialEq, Eq)]
struct FileReadRecord {
    path: String,
    output: String,
}

/// What is remembered to go on with after compacting.
#[derive(Debug, PartialEq, Eq)]
pub struct RecoveryState {
    file_reads: Vec<FileReadRecord>,
}

/// Paths with what was read there, the latest last.
pub type Reads = Seq<(Seq<char>, Seq<char>)>;

spec fn read_views(reads: Seq<FileReadRecord>) -> Reads {
    reads.map_values(|read: FileReadRecord| (read.path@, read.output@))
}

impl View for RecoveryState {
    type V = Reads;

    closed spec fn view(&self) -> Reads {
        read_views(self.file_reads@)
    }
}

/// The reads of other files.
pub open spec fn reads_elsewhere(reads: Reads, path: Seq<char>) -> Reads
    decreases reads.len(),
{
    if reads.len() == 0 {
        Seq::empty()
    } else {
        let before = reads_elsewhere(reads.drop_last(), path);
        if reads.last().0 == path {
            before
        } else {
            before.push(reads.last())
        }
    }
}

/// The last reads, as many as are remembered.
pub open spec fn latest(reads: Reads) -> Reads {
    if reads.len() > RECENT_FILE_READ_LIMIT {
        reads.skip(reads.len() - RECENT_FILE_READ_LIMIT)
    } else {
        reads
    }
}

/// The reads after one more: it takes the place of an earlier read of the file, comes
/// last, and the oldest reads are forgotten.
pub open spec fn reads_after(reads: Reads, path: Seq<char>, output: Seq<char>) -> Reads {
    latest(reads_elsewhere(reads, path).push((path, output)))
}

/// Recently read files, the latest first.
pub open spec fn listed_reads(reads: Reads) -> Seq<char>
    decreases reads.len(),
{
    if reads.len() == 0 {
        Seq::empty()
    } else {
        "--- "@ + reads.last().0 + " ---\n"@ + reads.last().1 + "\n"@ + listed_reads(
            reads.drop_last(),
        )
    }
}

/// Tools with what they do.
pub open spec fn listed_tools(tools: Seq<ToolView>) -> Seq<char>
    decreases tools.len(),
{
    if tools.len() == 0 {
        Seq::empty()
    } else {
        listed_tools(tools.drop_last()) + ("- "@ + tools.last().name + ": "@
            + tools.last().description + "\n"@)
    }
}

/// The beginning of a text: seven characters for every two tokens.
pub open spec fn truncated(content: Seq<char>, token_budget: int) -> Seq<char> {
    if content.len() > 7 * token_budget / 2 {
        content.take(7 * token_budget / 2)
    } else {
        content
    }
}

/// What is told of recently read files and of tools after compacting.
pub open spec fn recovery_text(reads: Reads, tools: Seq<ToolView>, token_budget: int) -> Seq<char> {
    if reads.len() == 0 && tools.len() == 0 {
        Seq::empty()
    } else {
        "Recovery snapshot:\n"@ + (if reads.len() == 0 {
            Seq::empty()
        } else {
            truncated("Recently read files:\n"@ + listed_reads(reads), token_budget / 2)
        }) + (if tools.len() == 0 {
            Seq::empty()
        } else {
            truncated(
                "Available tools:\n"@ + listed_tools(tools),
                token_budget - token_budget / 2,
            )
        })
    }
}

/// The beginning of a text.
fn truncate_to_tokens(content: String, token_budget: usize) -> (result: String)
    ensures
        result@ == truncated(content@, token_budget as int),
{
    let limit: u128 = 7 * (token_budget as u128) / 2;
    let chars = text::chars_of(content.as_str());
    if chars.len() as u128 > limit {
        let end: usize = limit as usize;
        let result = text::text_between(&chars, 0, end);
        assert(result@ =~= chars@.take(end as int));
        result
    } else {
        content
    }
}

impl Default for RecoveryState {
    fn default() -> (state: Self)
        ensures
            state@ == Seq::<(Seq<char>, Seq<char>)>::empty(),
    {
        let state = RecoveryState { file_reads: Vec::new() };
        assert(state@ =~= Seq::<(Seq<char>, Seq<char>)>::empty());
        state
    }
}

impl RecoveryState {
    /// Takes note that a file was read.
    pub fn record_file_read(&mut self, path: &str, output: &str)
        ensures
            final(self)@ == reads_after(old(self)@, path@, output@),
    {
        let ghost all = self@;
        let mut kept: Vec<FileReadRecord> = Vec::new();
        let mut i: usize = 0;
        assert(read_views(kept@) =~= reads_elsewhere(all.take(0), path@));
        while i < self.file_reads.len()
            invariant
                i <= self.file_reads@.len(),
                all == read_views(self.file_reads@),
                read_views(kept@) == reads_elsewhere(all.take(i as int), path@),
            decreases self.file_reads@.len() - i,
        {
            let read = &self.file_reads[i];
            assert(all[i as int] == (read.path@, read.output@));
            assert(all.take(i + 1).drop_last() =~= all.take(i as int));
            if !text::same_text(read.path.as_str(), path) {
                let ghost before = read_views(kept@);
                kept.push(
                    FileReadRecord {
                        path: text::copy_text(read.path.as_str()),
                        output: text::copy_text(read.output.as_str()),
                    },
                );
                assert(read_views(kept@) =~= before.push(all[i as int]));
            }
            i += 1;
        }
        assert(all.take(i as int) =~= all);
        let ghost elsewhere = read_views(kept@);
        kept.push(FileReadRecord { path: text::copy_text(path), output: text::copy_text(output) });
        let ghost reads = read_views(kept@);
        assert(reads =~= elsewhere.push((path@, output@)));
        if kept.len() > RECENT_FILE_READ_LIMIT {
            let overflow: usize = kept.len() - RECENT_FILE_READ_LIMIT;
            let ghost full = kept@;
            let rest = kept.split_off(overflow);
            self.file_reads = rest;
            assert(read_views(rest@) =~= reads.skip(overflow as int));
        } else {
            self.file_reads = kept;
        }
    }

    /// What is told of recently read files and of tools after compacting.
    pub fn attachment(&self, tools: &[ToolDefinition], token_budget: usize) -> (result: String)
        ensures
            result@ == recovery_text(self@, client::tool_views(tools@), token_budget as int),
    {
        let ghost reads = self@;
        let ghost views = client::tool_views(tools@);
        assert(reads.len() == self.file_reads@.len());
        if self.file_reads.len() == 0 && tools.len() == 0 {
            return String::new();
        }
        let mut attachment = text::copy_text("Recovery snapshot:\n");
        let file_budget: usize = token_budget / 2;
        let tool_budget: usize = token_budget - file_budget;
        if self.file_reads.len() > 0 {
            let mut files = text::copy_text("Recently read files:\n");
            let mut i: usize = self.file_reads.len();
            assert(reads.take(i as int) =~= reads);
            while i > 0
                invariant
                    i <= self.file_reads@.len(),
                    reads == read_views(self.file_reads@),
                    files@ + listed_reads(reads.take(i as int)) == "Recently read files:\n"@
                        + listed_reads(reads),
                decreases i,
            {
                let ghost before = files@;
                let read = &self.file_reads[i - 1];
                assert(reads[i - 1] == (read.path@, read.output@));
                assert(reads.take(i as int).drop_last() =~= reads.take(i - 1));
                assert(reads.take(i as int).last() == reads[i - 1]);
                files.append("--- ");
                files.append(read.path.as_str());
                files.append(" ---\n");
                files.append(read.output.as_str());
                files.append("\n");
                assert(files@ + listed_reads(reads.take(i - 1)) =~= before + listed_reads(
                    reads.take(i as int),
                ));
                i -= 1;
            }
            assert(files@ =~= "Recently read files:\n"@ + listed_reads(reads));
            attachment.append(truncate_to_tokens(files, file_budget).as_str());
        }
        let ghost so_far = attachment@;
        if tools.len() > 0 {
            let ghost title = "Available tools:\n"@;
            let mut listing = text::copy_text("Available tools:\n");
            let mut i: usize = 0;
            assert(title + listed_tools(views.take(0)) =~= title);
            while i < tools.len()
                invariant
                    i <= tools@.len(),
                    views == client::tool_views(tools@),
                    listing@ == title + listed_tools(views.take(i as int)),
                decreases tools@.len() - i,
            {
                assert(views[i as int] == tools@[i as int]@);
                assert(views.take(i + 1).drop_last() =~= views.take(i as int));
                listing.append("- ");
                listing.append(tools[i].name.as_str());
                listing.append(": ");
                listing.append(tools[i].description.as_str());
                listing.append("\n");
                assert(listing@ =~= title + listed_tools(views.take(i + 1)));
                i += 1;
            }
            assert(views.take(i as int) =~= views);
            attachment.append(truncate_to_tokens(listing, tool_budget).as_str());
        }
        assert(attachment@ =~= recovery_text(reads, views, token_budget as int));
        attachment
    }
}

/// The reads of other files are not of the file.
proof fn lemma_reads_elsewhere(reads: Reads, path: Seq<char>)
    ensures
        forall|i: int|
            0 <= i < reads_elsewhere(reads, path).len() ==> (#[trigger] reads_elsewhere(
                reads,
                path,
            )[i]).0 != path && reads.contains(reads_elsewhere(reads, path)[i]),
        reads_elsewhere(reads, path).len() <= reads.len(),
    decreases reads.len(),
{
    if reads.len() > 0 {
        let fewer = reads.drop_last();
        lemma_reads_elsewhere(fewer, path);
        let kept = reads_elsewhere(reads, path);
        assert forall|i: int| 0 <= i < kept.len() implies (#[trigger] kept[i]).0 != path
            && reads.contains(kept[i]) by {
            let before = reads_elsewhere(fewer, path);
            if i < before.len() {
                assert(kept[i] == before[i]);
                let at = choose|k: int| 0 <= k < fewer.len() && fewer[k] == before[i];
                assert(reads[at] == kept[i]);
            } else {
                assert(reads[reads.len() - 1] == kept[i]);
            }
        }
    }
}

/// The reads of other files have distinct paths where all have.
proof fn lemma_distinct_elsewhere(reads: Reads, path: Seq<char>)
    requires
        crate::keyed::distinct_keys(reads),
    ensures
        crate::keyed::distinct_keys(reads_elsewhere(reads, path)),
    decreases reads.len(),
{
    if reads.len() > 0 {
        let fewer = reads.drop_last();
        assert forall|i: int, j: int| 0 <= i < j < fewer.len() implies (#[trigger] fewer[i]).0 != (
        #[trigger] fewer[j]).0 by {
            assert(reads[i].0 != reads[j].0);
        }
        lemma_distinct_elsewhere(fewer, path);
        lemma_reads_elsewhere(fewer, path);
        let before = reads_elsewhere(fewer, path);
        let kept = reads_elsewhere(reads, path);
        assert forall|i: int, j: int| 0 <= i < j < kept.len() implies (#[trigger] kept[i]).0 != (
        #[trigger] kept[j]).0 by {
            if j < before.len() {
                assert(kept[i] == before[i] && kept[j] == before[j]);
            } else {
                assert(kept[i] == before[i]);
                let at = choose|k: int| 0 <= k < fewer.len() && fewer[k] == before[i];
                assert(reads[at].0 != reads[reads.len() - 1].0);
            }
        }
    }
}

/// What is remembered of files: the file that was read last comes last, with what was
/// read; no file is remembered twice; and no more files are remembered than the limit.
pub proof fn law_reads_are_recent(reads: Reads, path: Seq<char>, output: Seq<char>)
    requires
        crate::keyed::distinct_keys(reads),
    ensures
        reads_after(reads, path, output).last() == (path, output),
        0 < reads_after(reads, path, output).len() <= RECENT_FILE_READ_LIMIT,
        crate::keyed::distinct_keys(reads_after(reads, path, output)),
{
    lemma_distinct_elsewhere(reads, path);
    lemma_reads_elsewhere(reads, path);
    let elsewhere = reads_elsewhere(reads, path);
    let all = elsewhere.push((path, output));
    let after = reads_after(reads, path, output);
    let skipped = all.len() - after.len();
    assert forall|i: int, j: int| 0 <= i < j < after.len() implies (#[trigger] after[i]).0 != (
    #[trigger] after[j]).0 by {
        assert(after[i] == all[skipped + i]);
        assert(after[j] == all[skipped + j]);
        if skipped + j < elsewhere.len() {
            assert(elsewhere[skipped + i].0 != elsewhere[skipped + j].0);
        } else {
            assert(elsewhere[skipped + i].0 != path);
        }
    }
}

/// Why a conversation could not be compacted.
#[derive(Debug, PartialEq, Eq)]
pub enum CompactionError {
    Session(SessionError),
    SessionMissing,
    Provider(LlmError),
    EmptySummary,
}

/// What a [`CompactionError`] holds.
#[verifier::ext_equal]
pub enum CompactionErrorView {
    Session(SessionErrorView),
    SessionMissing,
    Provider(LlmErrorView),
    EmptySummary,
}

impl View for CompactionError {
    type V = CompactionErrorView;

    open spec fn view(&self) -> CompactionErrorView {
        match *self {
            CompactionError::Session(error) => CompactionErrorView::Session(error@),
            CompactionError::SessionMissing => CompactionErrorView::SessionMissing,
            CompactionError::Provider(error) => CompactionErrorView::Provider(error@),
            CompactionError::EmptySummary => CompactionErrorView::EmptySummary,
        }
    }
}

/// What an error says to a reader.
pub open spec fn compaction_error_text(error: CompactionErrorView) -> Seq<char> {
    match error {
        CompactionErrorView::Session(error) => session::session_error_text(error),
        CompactionErrorView::SessionMissing => "Session was not found"@,
        CompactionErrorView::Provider(error) => events::error_text(error),
        CompactionErrorView::EmptySummary => "compaction summary was empty"@,
    }
}

impl CompactionError {
    /// What the error says to a reader.
    pub fn message(&self) -> (result: String)
        ensures
            result@ == compaction_error_text(self@),
    {
        match self {
            CompactionError::Session(error) => error.message(),
            CompactionError::SessionMissing => text::copy_text("Session was not found"),
            CompactionError::Provider(error) => error.message(),
            CompactionError::EmptySummary => text::copy_text("compaction summary was empty"),
        }
    }
}

/// What compacting came to. The summary is empty where nothing was compacted.
#[derive(Debug, PartialEq, Eq)]
pub struct CompactionOutcome {
    pub summary: String,
    pub estimated_tokens_before: usize,
    pub estimated_tokens_after: usize,
    pub compacted_conversation: Conversation,
}

/// What a [`CompactionOutcome`] holds.
#[verifier::ext_equal]
pub struct OutcomeView {
    pub summary: Seq<char>,
    pub tokens_before: int,
    pub tokens_after: int,
    pub conversation: Seq<MessageView>,
}

impl View for CompactionOutcome {
    type V = OutcomeView;

    open spec fn view(&self) -> OutcomeView {
        OutcomeView {
            summary: self.summary@,
            tokens_before: self.estimated_tokens_before as int,
            tokens_after: self.estimated_tokens_after as int,
            conversation: self.compacted_conversation@,
        }
    }
}

/// How a conversation is compacted.
#[derive(Debug, PartialEq, Eq)]
pub enum CompactionPlan {
    /// All messages are kept.
    Unchanged(CompactionOutcome),
    /// The messages before `keep_start` are to be summarized.
    Summarize { estimated_tokens_before: usize, keep_start: usize },
}

/// Whether the tokens of a conversation can be counted and some of it is kept.
pub open spec fn can_compact(messages: Seq<MessageView>, config: CompactionConfig) -> bool {
    tokens_in(messages) <= usize::MAX && keeps_some(messages, config)
}

/// How a conversation is compacted. `None` where its tokens cannot be counted or none of
/// it could be kept.
pub fn plan_compaction(conversation: &Conversation, config: &CompactionConfig) -> (plan: Option<
    CompactionPlan,
>)
    ensures
        plan is Some <==> can_compact(conversation@, *config),
        match plan {
            Some(CompactionPlan::Unchanged(outcome)) => keep_start(conversation@, *config) == 0
                && outcome@ == (OutcomeView {
                summary: Seq::empty(),
                tokens_before: tokens_in(conversation@) as int,
                tokens_after: tokens_in(conversation@) as int,
                conversation: conversation@,
            }),
            Some(CompactionPlan::Summarize { estimated_tokens_before, keep_start: first }) =>
                keep_start(conversation@, *config) == first && 0 < first
                    <= conversation@.len() && estimated_tokens_before == tokens_in(conversation@),
            None => true,
        },
{
    let messages = conversation.messages();
    match (estimated_tokens(messages), keep_start_of(messages, config)) {
        (Some(before), Some(first)) => {
            if first == 0 {
                Some(
                    CompactionPlan::Unchanged(
                        CompactionOutcome {
                            summary: String::new(),
                            estimated_tokens_before: before,
                            estimated_tokens_after: before,
                            compacted_conversation: conversation.clone(),
                        },
                    ),
                )
            } else {
                Some(
                    CompactionPlan::Summarize {
                        estimated_tokens_before: before,
                        keep_start: first,
                    },
                )
            }
        },
        _ => None,
    }
}

/// The boundary that stands for the messages before `keep_start`, `summary` being what
/// came of summarizing them.
pub fn boundary_for(conversation: &Conversation, keep_start: usize, summary: String) -> (boundary:
    Result<CompactBoundary, CompactionError>)
    requires
        keep_start <= conversation@.len(),
    ensures
        match boundary {
            Ok(boundary) => !text::is_blank(summary@) && boundary@ == (BoundaryView {
                summary: summary@,
                keep: conversation@.skip(keep_start as int),
            }),
            Err(error) => text::is_blank(summary@) && error is EmptySummary,
        },
{
    if text::blank(summary.as_str()) {
        return Err(CompactionError::EmptySummary);
    }
    let messages = conversation.messages();
    let keep = conversation::copy_messages(messages, keep_start, messages.len());
    assert(conversation::message_views(keep@) =~= conversation@.skip(keep_start as int));
    Ok(CompactBoundary { summary, keep })
}

/// What is told in the place of messages that were compacted.
pub open spec fn continuation(
    boundary: BoundaryView,
    recovery: Option<Seq<char>>,
) -> Seq<char> {
    "This session continues from an earlier conversation that was compacted. Earlier summary:\n\n"@
        + boundary.summary + (if boundary.keep.len() > 0 {
        "\n\nRecent messages are preserved below."@
    } else {
        Seq::empty()
    }) + (match recovery {
        Some(attachment) => if attachment.len() > 0 {
            "\n\n---\n\n"@ + attachment
        } else {
            Seq::empty()
        },
        None => Seq::empty(),
    })
}

/// What is told of recently read files and of tools, where they are remembered.
pub open spec fn remembered(
    recovery: Option<&RecoveryState>,
    tools: Seq<ToolView>,
    config: CompactionConfig,
) -> Option<Seq<char>> {
    match recovery {
        Some(state) => Some(recovery_text(state@, tools, config.recovery_token_budget as int)),
        None => None,
    }
}

/// The conversation after a boundary.
pub open spec fn compacted(boundary: BoundaryView, recovery: Option<Seq<char>>, now: u64) -> Seq<
    MessageView,
> {
    seq![user_message(continuation(boundary, recovery), now)] + boundary.keep
}

/// What compacting came to, once the boundary has been stored. `None` where the tokens of
/// the conversation cannot be counted.
pub fn finish_compaction(
    estimated_tokens_before: usize,
    boundary: CompactBoundary,
    config: &CompactionConfig,
    recovery: Option<&RecoveryState>,
    tools: &[ToolDefinition],
    now: u64,
) -> (outcome: Option<CompactionOutcome>)
    ensures
        ({
            let messages = compacted(
                boundary@,
                remembered(recovery, client::tool_views(tools@), *config),
                now,
            );
            match outcome {
                Some(outcome) => tokens_in(messages) <= usize::MAX && outcome@ == (OutcomeView {
                    summary: boundary@.summary,
                    tokens_before: estimated_tokens_before as int,
                    tokens_after: tokens_in(messages) as int,
                    conversation: messages,
                }),
                None => tokens_in(messages) > usize::MAX,
            }
        }),
{
    let ghost told = remembered(recovery, client::tool_views(tools@), *config);
    let ghost whole = boundary@;
    let CompactBoundary { summary, keep } = boundary;
    assert(keep@.len() == whole.keep.len());
    let mut prompt = text::copy_text(
        "This session continues from an earlier conversation that was compacted. Earlier summary:\n\n",
    );
    prompt.append(summary.as_str());
    if keep.len() > 0 {
        prompt.append("\n\nRecent messages are preserved below.");
    }
    if let Some(state) = recovery {
        let attachment = state.attachment(tools, config.recovery_token_budget);
        if !attachment.as_str().is_empty() {
            prompt.append("\n\n---\n\n");
            prompt.append(attachment.as_str());
        }
    }
    assert(prompt@ =~= continuation(whole, told));
    let mut messages: Vec<ConversationMessage> = Vec::new();
    messages.push(user_text(prompt, now));
    let ghost first = user_message(continuation(whole, told), now);
    assert(conversation::message_views(messages@) =~= seq![first] + whole.keep.take(0));
    for message in iter: keep.into_iter()
        invariant
            iter.seq() == keep@,
            whole.keep == conversation::message_views(keep@),
            conversation::message_views(messages@) == seq![first] + whole.keep.take(
                iter.index() as int,
            ),
    {
        let ghost before = conversation::message_views(messages@);
        assert(whole.keep[iter.index() as int] == message@);
        messages.push(message);
        assert(conversation::message_views(messages@) =~= before.push(message@));
        assert(before.push(message@) =~= seq![first] + whole.keep.take(iter.index() + 1));
    }
    let compacted_conversation = Conversation::from_messages(messages);
    assert(compacted_conversation@ =~= compacted(whole, told, now));
    match estimated_tokens(compacted_conversation.messages()) {
        Some(estimated_tokens_after) => Some(
            CompactionOutcome {
                summary,
                estimated_tokens_before,
                estimated_tokens_after,
                compacted_conversation,
            },
        ),
        None => None,
    }
}

/// Compacting loses none of the messages that are kept: after a restart a session goes on
/// with the summary in the place of the same messages, followed by the same messages, as
/// without a restart; only what else is told with the summary is not stored.
pub proof fn law_compacted_session_resumes(
    records: Seq<session::RecordView>,
    boundary: BoundaryView,
    recovery: Option<Seq<char>>,
    now: u64,
    later: u64,
)
    ensures
        ({
            let going_on = compacted(boundary, recovery, now);
            let restarted = session::resumed(
                records.push(session::RecordView::CompactBoundary(boundary)),
                later,
            );
            &&& going_on.len() == restarted.len()
            &&& going_on.skip(1) == boundary.keep
            &&& restarted.skip(1) == boundary.keep
            &&& going_on[0].role == restarted[0].role
            &&& restarted[0] == user_message(boundary.summary, later)
            &&& text::contains_text(continuation(boundary, recovery), boundary.summary)
        }),
{
    session::law_boundary_replaces_the_past(records, boundary, later);
    let restarted = session::resumed(
        records.push(session::RecordView::CompactBoundary(boundary)),
        later,
    );
    let going_on = compacted(boundary, recovery, now);
    assert(restarted.skip(1) =~= boundary.keep);
    assert(going_on.skip(1) =~= boundary.keep);
    let told = continuation(boundary, recovery);
    let start =
        "This session continues from an earlier conversation that was compacted. Earlier summary:\n\n"@.len() as int;
    assert(told.subrange(start, start + boundary.summary.len()) =~= boundary.summary);
    assert(text::occurs_at(told, boundary.summary, start));
}

/// What is to be done to compact a session on request.
#[derive(Debug, PartialEq, Eq)]
pub enum CompactionAction {
    /// A provider is to be asked for a summary.
    Summarize(ProviderRequest),
    /// A boundary is to be added to the session.
    StoreBoundary(CompactBoundary),
    /// It is done, or could not be.
    Finish(Result<CompactionOutcome, CompactionError>),
    /// It cannot go on: tokens cannot be counted, none of the messages could be kept, or
    /// what happened does not follow from what was to be done.
    Abort,
}

/// What a [`CompactionAction`] holds.
#[verifier::ext_equal]
pub enum CompactionActionView {
    Summarize(RequestView),
    StoreBoundary(BoundaryView),
    Finish(Result<OutcomeView, CompactionErrorView>),
    Abort,
}

impl View for CompactionAction {
    type V = CompactionActionView;

    open spec fn view(&self) -> CompactionActionView {
        match *self {
            CompactionAction::Summarize(request) => CompactionActionView::Summarize(request@),
            CompactionAction::StoreBoundary(boundary) => CompactionActionView::StoreBoundary(
                boundary@,
            ),
            CompactionAction::Finish(Ok(outcome)) => CompactionActionView::Finish(Ok(outcome@)),
            CompactionAction::Finish(Err(error)) => CompactionActionView::Finish(Err(error@)),
            CompactionAction::Abort => CompactionActionView::Abort,
        }
    }
}

/// A session that is compacted on request.
#[derive(Debug, PartialEq, Eq)]
pub struct ManualCompaction {
    conversation: Conversation,
    config: CompactionConfig,
    tokens_before: usize,
    keep_start: usize,
    boundary: Option<CompactBoundary>,
}

/// What a [`ManualCompaction`] holds.
#[verifier::ext_equal]
pub struct ManualView {
    pub conversation: Seq<MessageView>,
    pub config: CompactionConfig,
    pub tokens_before: int,
    pub keep_start: int,
    /// The boundary that is being stored.
    pub boundary: Option<BoundaryView>,
}

impl View for ManualCompaction {
    type V = ManualView;

    closed spec fn view(&self) -> ManualView {
        ManualView {
            conversation: self.conversation@,
            config: self.config,
            tokens_before: self.tokens_before as int,
            keep_start: self.keep_start as int,
            boundary: match self.boundary {
                Some(boundary) => Some(boundary@),
                None => None,
            },
        }
    }
}

/// What is first to be done to compact messages.
pub open spec fn manual_start(
    loaded: Result<Option<Seq<MessageView>>, SessionErrorView>,
    config: CompactionConfig,
    now: u64,
) -> CompactionActionView {
    match loaded {
        Err(error) => CompactionActionView::Finish(Err(CompactionErrorView::Session(error))),
        Ok(None) => CompactionActionView::Finish(Err(CompactionErrorView::SessionMissing)),
        Ok(Some(messages)) => if !can_compact(messages, config) {
            CompactionActionView::Abort
        } else if keep_start(messages, config) == 0 {
            CompactionActionView::Finish(
                Ok(
                    OutcomeView {
                        summary: Seq::empty(),
                        tokens_before: tokens_in(messages) as int,
                        tokens_after: tokens_in(messages) as int,
                        conversation: messages,
                    },
                ),
            )
        } else {
            CompactionActionView::Summarize(
                summary_request_of(messages.take(keep_start(messages, config)), now),
            )
        },
    }
}

/// What is to be done once a summary came, or the provider failed.
pub open spec fn manual_summarized(
    manual: ManualView,
    summary: Result<Seq<char>, LlmErrorView>,
) -> CompactionActionView {
    match summary {
        Err(error) => CompactionActionView::Finish(Err(CompactionErrorView::Provider(error))),
        Ok(summary) => if manual.keep_start > manual.conversation.len() {
            CompactionActionView::Abort
        } else if text::is_blank(summary) {
            CompactionActionView::Finish(Err(CompactionErrorView::EmptySummary))
        } else {
            CompactionActionView::StoreBoundary(
                BoundaryView { summary, keep: manual.conversation.skip(manual.keep_start) },
            )
        },
    }
}

/// What is to be done once the boundary was stored, or could not be.
pub open spec fn manual_stored(
    manual: ManualView,
    outcome: Result<(), SessionErrorView>,
    now: u64,
) -> CompactionActionView {
    match (outcome, manual.boundary) {
        (Err(error), _) => CompactionActionView::Finish(Err(CompactionErrorView::Session(error))),
        (Ok(_), None) => CompactionActionView::Abort,
        (Ok(_), Some(boundary)) => {
            let messages = compacted(boundary, None, now);
            if tokens_in(messages) > usize::MAX {
                CompactionActionView::Abort
            } else {
                CompactionActionView::Finish(
                    Ok(
                        OutcomeView {
                            summary: boundary.summary,
                            tokens_before: manual.tokens_before,
                            tokens_after: tokens_in(messages) as int,
                            conversation: messages,
                        },
                    ),
                )
            }
        },
    }
}

/// The view of what came of loading a session.
pub open spec fn loaded_view(loaded: Result<Option<Vec<ConversationMessage>>, SessionError>)
    -> Result<Option<Seq<MessageView>>, SessionErrorView> {
    match loaded {
        Ok(Some(messages)) => Ok(Some(conversation::message_views(messages@))),
        Ok(None) => Ok(None),
        Err(error) => Err(error@),
    }
}

impl ManualCompaction {
    /// Begins to compact a session. What is held is used where a summary is to be had.
    pub fn start(
        loaded: Result<Option<Vec<ConversationMessage>>, SessionError>,
        config: CompactionConfig,
        now: u64,
    ) -> (begun: (Self, CompactionAction))
        ensures
            begun.1@ == manual_start(loaded_view(loaded), config, now),
            begun.1 is Summarize ==> {
                let messages = loaded_view(loaded)->Ok_0->0;
                begun.0@ == (ManualView {
                    conversation: messages,
                    config,
                    tokens_before: tokens_in(messages) as int,
                    keep_start: keep_start(messages, config),
                    boundary: None,
                })
            },
    {
        let mut manual = ManualCompaction {
            conversation: Conversation::new(),
            config,
            tokens_before: 0,
            keep_start: 0,
            boundary: None,
        };
        let messages = match loaded {
            Err(error) => {
                return (manual, CompactionAction::Finish(Err(CompactionError::Session(error))));
            },
            Ok(None) => {
                return (manual, CompactionAction::Finish(Err(CompactionError::SessionMissing)));
            },
            Ok(Some(messages)) => messages,
        };
        manual.conversation = Conversation::from_messages(messages);
        match plan_compaction(&manual.conversation, &config) {
            None => (manual, CompactionAction::Abort),
            Some(CompactionPlan::Unchanged(outcome)) => (
                manual,
                CompactionAction::Finish(Ok(outcome)),
            ),
            Some(CompactionPlan::Summarize { estimated_tokens_before, keep_start: first }) => {
                let request = summary_request(manual.conversation.messages(), first, now);
                manual.tokens_before = estimated_tokens_before;
                manual.keep_start = first;
                (manual, CompactionAction::Summarize(request))
            },
        }
    }

    /// Takes the summary, or the failure of the provider.
    pub fn summarized(&mut self, summary: Result<String, LlmError>) -> (action: CompactionAction)
        ensures
            action@ == manual_summarized(
                old(self)@,
                match summary {
                    Ok(summary) => Ok(summary@),
                    Err(error) => Err(error@),
                },
            ),
            final(self)@ == (match action@ {
                CompactionActionView::StoreBoundary(boundary) => ManualView {
                    boundary: Some(boundary),
                    ..old(self)@
                },
                _ => old(self)@,
            }),
    {
        let summary = match summary {
            Ok(summary) => summary,
            Err(error) => {
                return CompactionAction::Finish(Err(CompactionError::Provider(error)));
            },
        };
        if self.keep_start > self.conversation.messages().len() {
            return CompactionAction::Abort;
        }
        match boundary_for(&self.conversation, self.keep_start, summary) {
            Err(error) => CompactionAction::Finish(Err(error)),
            Ok(boundary) => {
                let stored = boundary.clone();
                self.boundary = Some(boundary);
                CompactionAction::StoreBoundary(stored)
            },
        }
    }

    /// Takes what came of storing the boundary.
    pub fn stored(self, outcome: Result<(), SessionError>, now: u64) -> (action: CompactionAction)
        ensures
            action@ == manual_stored(
                self@,
                match outcome {
                    Ok(_) => Ok(()),
                    Err(error) => Err(error@),
                },
                now,
            ),
    {
        if let Err(error) = outcome {
            return CompactionAction::Finish(Err(CompactionError::Session(error)));
        }
        let boundary = match self.boundary {
            Some(boundary) => boundary,
            None => {
                return CompactionAction::Abort;
            },
        };
        let tools: Vec<ToolDefinition> = Vec::new();
        match finish_compaction(
            self.tokens_before,
            boundary,
            &self.config,
            None,
            tools.as_slice(),
            now,
        ) {
            Some(outcome) => CompactionAction::Finish(Ok(outcome)),
            None => CompactionAction::Abort,
        }
    }
}

/// Lines of a transcript, one for each message: from each place in `cuts` to the next one
/// stands the role of a message in brackets, a colon, a space, what the message says and a
/// line feed.
pub open spec fn lines_stand(whole: Seq<char>, messages: Seq<MessageView>, cuts: Seq<int>) -> bool {
    &&& cuts.len() == messages.len() + 1
    &&& 0 <= cuts[0]
    &&& cuts.last() == whole.len()
    &&& forall|i: int|
        0 <= i < messages.len() ==> {
            &&& 0 <= cuts[i] <= cuts[i + 1] <= whole.len()
            &&& whole.subrange(cuts[i], cuts[i + 1]) == "["@ + (match (
            #[trigger] messages[i]).role {
                MessageRole::User => "user"@,
                MessageRole::Assistant => "assistant"@,
                MessageRole::System => "system"@,
            }) + "]: "@ + content_text(messages[i].content) + "\n"@
        }
}

/// A transcript has a line for each message.
proof fn lemma_transcript_lines(start: Seq<char>, messages: Seq<MessageView>) -> (cuts: Seq<int>)
    ensures
        lines_stand(start + transcript(messages), messages, cuts),
        cuts[0] == start.len(),
    decreases messages.len(),
{
    let whole = start + transcript(messages);
    if messages.len() == 0 {
        let cuts = seq![start.len() as int];
        assert(whole =~= start);
        cuts
    } else {
        let before = messages.drop_last();
        let earlier = start + transcript(before);
        let earlier_cuts = lemma_transcript_lines(start, before);
        let cuts = earlier_cuts.push(whole.len() as int);
        let last = messages.last();
        let line = "["@ + conversation::role_text(last.role) + "]: "@ + content_text(last.content)
            + "\n"@;
        assert(whole =~= earlier + line);
        assert(earlier_cuts.last() == earlier.len());
        assert forall|i: int| 0 <= i < messages.len() implies {
            &&& 0 <= cuts[i] <= cuts[i + 1] <= whole.len()
            &&& whole.subrange(cuts[i], cuts[i + 1]) == "["@ + (match (
            #[trigger] messages[i]).role {
                MessageRole::User => "user"@,
                MessageRole::Assistant => "assistant"@,
                MessageRole::System => "system"@,
            }) + "]: "@ + content_text(messages[i].content) + "\n"@
        } by {
            if i < before.len() {
                assert(before[i] == messages[i]);
                assert(cuts[i] == earlier_cuts[i]);
                assert(cuts[i + 1] == earlier_cuts[i + 1]);
                assert(whole.subrange(cuts[i], cuts[i + 1]) =~= earlier.subrange(
                    cuts[i],
                    cuts[i + 1],
                ));
            } else {
                assert(messages[i] == last);
                assert(cuts[i] == earlier.len());
                assert(whole.subrange(cuts[i], cuts[i + 1]) =~= line);
            }
        }
        cuts
    }
}

/// A request for a summary tells of each message to be summarized, whatever its role: one
/// text of the user, in which an introduction is followed by a line for each message, in the
/// order of the messages and with nothing between them. No tools are offered.
pub proof fn law_summary_tells_every_message(messages: Seq<MessageView>, now: u64)
    ensures
        ({
            let request = summary_request_of(messages, now);
            let asked = request.conversation[0];
            let prompt = asked.content[0]->Text_text;
            let introduction =
                "Summarize the conversation so it can continue safely. Capture requests, decisions, and unresolved work.\n\n"@;
            &&& request.system_prompt == "You create detailed, actionable conversation summaries."@
            &&& request.tools.len() == 0
            &&& request.conversation.len() == 1
            &&& asked.role == MessageRole::User
            &&& asked.timestamp_unix_seconds == now
            &&& asked.content.len() == 1
            &&& asked.content[0] is Text
            &&& text::begins_with(prompt, introduction)
            &&& exists|cuts: Seq<int>| #[trigger]
                lines_stand(prompt, messages, cuts) && cuts[0] == introduction.len()
        }),
{
    let introduction =
        "Summarize the conversation so it can continue safely. Capture requests, decisions, and unresolved work.\n\n"@;
    let prompt = introduction + transcript(messages);
    assert(prompt.subrange(0, introduction.len() as int) =~= introduction);
    let cuts = lemma_transcript_lines(introduction, messages);
    assert(lines_stand(prompt, messages, cuts));
}

/// What a message says is what its blocks say, one after the other: a text and a thought
/// themselves, a use of a tool its name and id, and a result its id and all that it holds.
pub proof fn law_content_is_told_block_by_block(
    first: Seq<BlockView>,
    block: BlockView,
    second: Seq<BlockView>,
)
    ensures
        content_text(first.push(block) + second) == content_text(first) + (match block {
            BlockView::Text { text } => text,
            BlockView::Thinking { thinking, .. } => thinking,
            BlockView::ToolUse { tool_use_id, tool_name, .. } => "[tool use "@ + tool_name + " "@
                + tool_use_id + "]"@,
            BlockView::ToolResult { tool_use_id, content, .. } => "[tool result "@ + tool_use_id
                + "]: "@ + content,
        }) + content_text(second),
        content_text(Seq::empty()) == Seq::<char>::empty(),
    decreases second.len(),
{
    let all = first.push(block) + second;
    if second.len() == 0 {
        assert(all =~= first.push(block));
        assert(all.drop_last() =~= first);
        assert(content_text(all) + content_text(second) =~= content_text(all));
    } else {
        law_content_is_told_block_by_block(first, block, second.drop_last());
        assert(all.drop_last() =~= first.push(block) + second.drop_last());
        assert(all.last() == second.last());
        assert(content_text(all) =~= content_text(first) + block_text(block) + content_text(second));
    }
}

} // verus!
