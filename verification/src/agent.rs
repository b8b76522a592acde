//! The run of an agent, as a machine: what happens goes in, what is to be done comes out.
use vstd::prelude::*;

use crate::agent_events;
use crate::agent_events::{AgentEvent, AgentEventView};
use crate::client;
use crate::client::{ProviderRequest, RequestView, ToolDefinition, ToolView};
use crate::compaction;
use crate::compaction::{
    CompactionConfig,
    CompactionError,
    CompactionErrorView,
    CompactionPlan,
    CompactionTracker,
    CompactionTrigger,
    Reads,
    RecoveryState,
    TrackerView,
};
use crate::conversation;
use crate::conversation::{
    BlockView,
    ContentBlock,
    Conversation,
    ConversationMessage,
    MessageRole,
    MessageView,
};
use crate::events;
use crate::events::{LlmError, LlmErrorView, LlmEvent, LlmEventView, Usage};
use crate::http;
use crate::json;
use crate::session;
use crate::session::{BoundaryView, CompactBoundary, SessionError, SessionErrorView};
use crate::text;
use crate::tool_result;
use crate::tool_result::{
    Applied,
    BudgetView,
    Spill,
    SpillView,
    ToolResultBudget,
    ToolResultBudgetConfig,
    ToolResultBudgetError,
};
use crate::tools;
use crate::tools::{CallView, OutputView, PendingToolCall, PlanView, PlannedToolCall, ToolOutput};

verus! {

#[derive(Debug, PartialEq, Eq)]
pub struct AgentConfig {
    pub max_iterations: usize,
    pub tool_concurrency: usize,
    pub system_prompt: String,
    pub compaction: CompactionConfig,
    pub tool_result_budget: ToolResultBudgetConfig,
}

/// What an [`AgentConfig`] holds.
#[verifier::ext_equal]
pub struct AgentConfigView {
    pub max_iterations: usize,
    pub tool_concurrency: usize,
    pub system_prompt: Seq<char>,
    pub compaction: CompactionConfig,
    pub tool_result_budget: ToolResultBudgetConfig,
}

impl View for AgentConfig {
    type V = AgentConfigView;

    open spec fn view(&self) -> AgentConfigView {
        AgentConfigView {
            max_iterations: self.max_iterations,
            tool_concurrency: self.tool_concurrency,
            system_prompt: self.system_prompt@,
            compaction: self.compaction,
            tool_result_budget: self.tool_result_budget,
        }
    }
}

impl Default for AgentConfig {
    fn default() -> (config: Self)
        ensures
            config@ == (AgentConfigView {
                max_iterations: 50,
                tool_concurrency: 4,
                system_prompt: "You are MyCode, a terminal coding agent."@,
                compaction: compaction::default_compaction(),
                tool_result_budget: tool_result::default_budget(),
            }),
    {
        AgentConfig {
            max_iterations: 50,
            tool_concurrency: 4,
            system_prompt: text::copy_text("You are MyCode, a terminal coding agent."),
            compaction: CompactionConfig::default(),
            tool_result_budget: ToolResultBudgetConfig::default(),
        }
    }
}

/// What a provider answered.
#[derive(Debug, PartialEq, Eq)]
pub struct ProviderTurn {
    pub text: String,
    pub tool_calls: Vec<PendingToolCall>,
    pub usage: Option<Usage>,
}

/// What a [`ProviderTurn`] holds.
#[verifier::ext_equal]
pub struct TurnView {
    pub text: Seq<char>,
    pub calls: Seq<CallView>,
    pub usage: Option<Usage>,
}

impl View for ProviderTurn {
    type V = TurnView;

    open spec fn view(&self) -> TurnView {
        TurnView {
            text: self.text@,
            calls: tools::call_views(self.tool_calls@),
            usage: self.usage,
        }
    }
}

/// What follows an event of a provider.
#[derive(Debug, PartialEq, Eq)]
pub enum TurnStep {
    /// More may come.
    More,
    /// The event is reported, and more may come.
    Report(AgentEvent),
    /// The answer is complete.
    Complete,
    /// The provider failed.
    Failed(LlmError),
}

/// What a [`TurnStep`] holds.
#[verifier::ext_equal]
pub enum TurnStepView {
    More,
    Report(AgentEventView),
    Complete,
    Failed(LlmErrorView),
}

impl View for TurnStep {
    type V = TurnStepView;

    open spec fn view(&self) -> TurnStepView {
        match *self {
            TurnStep::More => TurnStepView::More,
            TurnStep::Report(event) => TurnStepView::Report(event@),
            TurnStep::Complete => TurnStepView::Complete,
            TurnStep::Failed(error) => TurnStepView::Failed(error@),
        }
    }
}

/// The answer after an event of a provider, and what follows: text and complete calls are
/// taken and reported, the end of the stream completes the answer with what was used, and
/// other events do not matter.
pub open spec fn turn_after(turn: TurnView, item: Result<LlmEventView, LlmErrorView>) -> (
    TurnView,
    TurnStepView,
) {
    match item {
        Ok(LlmEventView::TextDelta { text }) => (
            TurnView { text: turn.text + text, ..turn },
            TurnStepView::Report(AgentEventView::TextDelta { text }),
        ),
        Ok(LlmEventView::ToolCallComplete { tool_id, tool_name, arguments }) => (
            TurnView {
                calls: turn.calls.push(CallView { tool_id, tool_name, arguments }),
                ..turn
            },
            TurnStepView::Report(AgentEventView::ToolCall { tool_id, tool_name, arguments }),
        ),
        Ok(LlmEventView::StreamEnd { usage, .. }) => (
            TurnView { usage: Some(usage), ..turn },
            TurnStepView::Complete,
        ),
        Ok(_) => (turn, TurnStepView::More),
        Err(error) => (turn, TurnStepView::Failed(error)),
    }
}

impl ProviderTurn {
    pub fn new() -> (turn: Self)
        ensures
            turn@ == (TurnView { text: Seq::empty(), calls: Seq::empty(), usage: None }),
    {
        let turn = ProviderTurn { text: String::new(), tool_calls: Vec::new(), usage: None };
        assert(turn@.calls =~= Seq::<CallView>::empty());
        turn
    }

    /// Takes an event of the provider.
    pub fn take(&mut self, item: Result<LlmEvent, LlmError>) -> (step: TurnStep)
        ensures
            (final(self)@, step@) == turn_after(old(self)@, http::sent_view(item)),
    {
        let ghost before = self@;
        match item {
            Ok(LlmEvent::TextDelta { text }) => {
                self.text.append(text.as_str());
                TurnStep::Report(AgentEvent::TextDelta { text })
            },
            Ok(LlmEvent::ToolCallComplete { tool_id, tool_name, arguments }) => {
                let call = PendingToolCall { tool_id, tool_name, arguments };
                let copy = call.clone();
                self.tool_calls.push(copy);
                assert(tools::call_views(self.tool_calls@) =~= before.calls.push(call@));
                TurnStep::Report(
                    AgentEvent::ToolCall {
                        tool_id: call.tool_id,
                        tool_name: call.tool_name,
                        arguments: call.arguments,
                    },
                )
            },
            Ok(LlmEvent::StreamEnd { usage, .. }) => {
                self.usage = Some(usage);
                TurnStep::Complete
            },
            Ok(_) => TurnStep::More,
            Err(error) => TurnStep::Failed(error),
        }
    }
}

/// The uses of tools that calls are.
pub open spec fn use_blocks(calls: Seq<CallView>) -> Seq<BlockView> {
    calls.map_values(
        |call: CallView|
            BlockView::ToolUse {
                tool_use_id: call.tool_id,
                tool_name: call.tool_name,
                arguments: call.arguments,
            },
    )
}

/// The message that an answer is: its text, if any, and its calls.
pub open spec fn assistant_message_of(turn: TurnView, now: u64) -> MessageView {
    MessageView {
        role: MessageRole::Assistant,
        content: (if turn.text.len() == 0 {
            Seq::empty()
        } else {
            seq![BlockView::Text { text: turn.text }]
        }) + use_blocks(turn.calls),
        timestamp_unix_seconds: now,
    }
}

/// The message that an answer is.
pub fn assistant_message(turn: &ProviderTurn, now: u64) -> (message: ConversationMessage)
    ensures
        message@ == assistant_message_of(turn@, now),
{
    let ghost calls = turn@.calls;
    let mut content: Vec<ContentBlock> = Vec::new();
    if !turn.text.as_str().is_empty() {
        content.push(ContentBlock::Text { text: turn.text.clone() });
    }
    let ghost start = conversation::block_views(content@);
    assert(start =~= if turn@.text.len() == 0 {
        Seq::empty()
    } else {
        seq![BlockView::Text { text: turn@.text }]
    });
    let mut i: usize = 0;
    assert(start + use_blocks(calls.take(0)) =~= start);
    while i < turn.tool_calls.len()
        invariant
            i <= turn.tool_calls@.len(),
            calls == tools::call_views(turn.tool_calls@),
            conversation::block_views(content@) == start + use_blocks(calls.take(i as int)),
        decreases turn.tool_calls@.len() - i,
    {
        let call = &turn.tool_calls[i];
        assert(calls[i as int] == call@);
        let ghost before = conversation::block_views(content@);
        content.push(
            ContentBlock::ToolUse {
                tool_use_id: call.tool_id.clone(),
                tool_name: call.tool_name.clone(),
                arguments: call.arguments.clone(),
            },
        );
        proof {
            let last = BlockView::ToolUse {
                tool_use_id: call@.tool_id,
                tool_name: call@.tool_name,
                arguments: call@.arguments,
            };
            assert(content@.last()@ == last);
            assert(conversation::block_views(content@) =~= before.push(last));
            assert(use_blocks(calls.take(i + 1)) =~= use_blocks(calls.take(i as int)).push(last));
            assert(before.push(last) =~= start + use_blocks(calls.take(i + 1)));
        }
        i += 1;
    }
    assert(calls.take(i as int) =~= calls);
    ConversationMessage { role: MessageRole::Assistant, content, timestamp_unix_seconds: now }
}

/// What the text blocks of a message say, one after the other.
pub open spec fn said(content: Seq<BlockView>) -> Seq<char>
    decreases content.len(),
{
    if content.len() == 0 {
        Seq::empty()
    } else {
        said(content.drop_last()) + match content.last() {
            BlockView::Text { text } => text,
            _ => Seq::empty(),
        }
    }
}

/// Uses of tools say nothing.
proof fn lemma_uses_say_nothing(content: Seq<BlockView>, from: int)
    requires
        0 <= from <= content.len(),
        forall|i: int| from <= i < content.len() ==> (#[trigger] content[i]) is ToolUse,
    ensures
        said(content) == said(content.take(from)),
    decreases content.len(),
{
    if content.len() > from {
        let rest = content.drop_last();
        assert forall|i: int| from <= i < rest.len() implies (#[trigger] rest[i]) is ToolUse by {
            assert(rest[i] == content[i]);
        }
        lemma_uses_say_nothing(rest, from);
        assert(rest.take(from) =~= content.take(from));
        assert(content[content.len() - 1] is ToolUse);
        assert(said(rest) + Seq::<char>::empty() =~= said(rest));
    } else {
        assert(content.take(from) =~= content);
    }
}

/// An answer loses nothing on its way into the conversation: its text, if there is any, comes
/// first, whether or not tools are called, and a use of a tool follows for each call, in
/// order and with all that the call holds. The text blocks say what the answer said.
pub proof fn law_answer_is_kept_whole(turn: TurnView, now: u64)
    ensures
        ({
            let message = assistant_message_of(turn, now);
            let first: int = if turn.text.len() > 0 {
                1
            } else {
                0
            };
            &&& message.role == MessageRole::Assistant
            &&& message.timestamp_unix_seconds == now
            &&& message.content.len() == first + turn.calls.len()
            &&& turn.text.len() > 0 ==> message.content[0] == (BlockView::Text { text: turn.text })
            &&& forall|i: int|
                0 <= i < turn.calls.len() ==> message.content[first + i] == (BlockView::ToolUse {
                    tool_use_id: (#[trigger] turn.calls[i]).tool_id,
                    tool_name: turn.calls[i].tool_name,
                    arguments: turn.calls[i].arguments,
                })
            &&& said(message.content) == turn.text
        }),
{
    let message = assistant_message_of(turn, now);
    let first: int = if turn.text.len() > 0 {
        1
    } else {
        0
    };
    assert forall|i: int| first <= i < message.content.len() implies (
    #[trigger] message.content[i]) is ToolUse by {
        assert(message.content[i] == use_blocks(turn.calls)[i - first]);
    }
    lemma_uses_say_nothing(message.content, first);
    let start = message.content.take(first);
    if turn.text.len() > 0 {
        assert(start =~= seq![BlockView::Text { text: turn.text }]);
        assert(start.drop_last() =~= Seq::<BlockView>::empty());
        assert(said(start.drop_last()) =~= Seq::<char>::empty());
        assert(start.last() == BlockView::Text { text: turn.text });
        assert(said(start) =~= turn.text);
    } else {
        assert(start =~= Seq::<BlockView>::empty());
        assert(turn.text =~= Seq::<char>::empty());
    }
}

/// The text that events of a provider bring.
pub open spec fn text_brought(items: Seq<LlmEventView>) -> Seq<char>
    decreases items.len(),
{
    if items.len() == 0 {
        Seq::empty()
    } else {
        text_brought(items.drop_last()) + match items.last() {
            LlmEventView::TextDelta { text } => text,
            _ => Seq::empty(),
        }
    }
}

/// The complete calls that events of a provider bring.
pub open spec fn calls_brought(items: Seq<LlmEventView>) -> Seq<CallView>
    decreases items.len(),
{
    if items.len() == 0 {
        Seq::empty()
    } else {
        calls_brought(items.drop_last()) + match items.last() {
            LlmEventView::ToolCallComplete { tool_id, tool_name, arguments } => seq![
                CallView { tool_id, tool_name, arguments },
            ],
            _ => Seq::empty(),
        }
    }
}

/// The answer after events of a provider.
pub open spec fn turn_through(turn: TurnView, items: Seq<LlmEventView>) -> TurnView
    decreases items.len(),
{
    if items.len() == 0 {
        turn
    } else {
        turn_after(
            turn_through(turn, items.drop_last()),
            Ok::<LlmEventView, LlmErrorView>(items.last()),
        ).0
    }
}

/// An answer is what its events brought: all of the text and all complete calls, in order.
/// Text and calls are reported as they come, the end of the stream brings what was used and
/// ends the answer, and an error is the failure of the answer.
pub proof fn law_answer_is_what_came(turn: TurnView, items: Seq<LlmEventView>, error: LlmErrorView)
    ensures
        turn_through(turn, items).text == turn.text + text_brought(items),
        turn_through(turn, items).calls == turn.calls + calls_brought(items),
        items.len() > 0 ==> ({
            let (after, step) = turn_after(turn, Ok::<LlmEventView, LlmErrorView>(items[0]));
            match items[0] {
                LlmEventView::TextDelta { text } => step == TurnStepView::Report(
                    AgentEventView::TextDelta { text },
                ) && after.usage == turn.usage,
                LlmEventView::ToolCallComplete { tool_id, tool_name, arguments } => step
                    == TurnStepView::Report(
                    AgentEventView::ToolCall { tool_id, tool_name, arguments },
                ) && after.usage == turn.usage,
                LlmEventView::StreamEnd { usage, .. } => step is Complete && after.usage == Some(
                    usage,
                ),
                _ => step is More && after == turn,
            }
        }),
        turn_after(turn, Err(error)) == (turn, TurnStepView::Failed(error)),
    decreases items.len(),
{
    if items.len() > 0 {
        law_answer_is_what_came(turn, items.drop_last(), error);
        let before = turn_through(turn, items.drop_last());
        let after = turn_through(turn, items);
        assert(after.text =~= turn.text + text_brought(items));
        assert(after.calls =~= turn.calls + calls_brought(items));
    } else {
        assert(turn.text + Seq::<char>::empty() =~= turn.text);
        assert(turn.calls + Seq::<CallView>::empty() =~= turn.calls);
    }
}

/// What became of tool calls.
#[verifier::ext_equal]
pub struct ResultsView {
    pub content: Seq<BlockView>,
    pub events: Seq<AgentEventView>,
    pub reads: Reads,
}

/// What is remembered of files after a call: what was read, where it is a call that reads
/// a file.
pub open spec fn reads_with(reads: Reads, call: CallView, output: OutputView) -> Reads {
    match json::as_text(json::member(call.arguments, "file_path"@)) {
        Some(path) => if call.tool_name == "ReadFile"@ {
            compaction::reads_after(reads, path, output.output)
        } else {
            reads
        },
        None => reads,
    }
}

/// What became of the first `end` of the calls: each result in the order of the calls. A
/// call without a result is passed over.
pub open spec fn results_of(
    reads: Reads,
    calls: Seq<CallView>,
    outputs: Seq<Option<OutputView>>,
    end: int,
) -> ResultsView
    decreases end,
{
    if end <= 0 {
        ResultsView { content: Seq::empty(), events: Seq::empty(), reads }
    } else {
        let before = results_of(reads, calls, outputs, end - 1);
        match outputs[end - 1] {
            None => before,
            Some(output) => {
                let call = calls[end - 1];
                ResultsView {
                    content: before.content.push(
                        BlockView::ToolResult {
                            tool_use_id: call.tool_id,
                            content: output.output,
                            is_error: output.is_error,
                        },
                    ),
                    events: before.events.push(
                        AgentEventView::ToolResult {
                            tool_id: call.tool_id,
                            tool_name: call.tool_name,
                            content: output.output,
                            is_error: output.is_error,
                        },
                    ),
                    reads: reads_with(before.reads, call, output),
                }
            },
        }
    }
}

/// How many of the calls have a place for their result.
pub open spec fn answered_count(calls: Seq<CallView>, outputs: Seq<Option<OutputView>>) -> int {
    if calls.len() < outputs.len() {
        calls.len() as int
    } else {
        outputs.len() as int
    }
}

/// Where all calls have results, each is answered once, in the order of the calls.
pub proof fn law_results_come_in_order(
    reads: Reads,
    calls: Seq<CallView>,
    outputs: Seq<Option<OutputView>>,
    end: int,
)
    requires
        0 <= end <= calls.len(),
        end <= outputs.len(),
        forall|i: int| 0 <= i < end ==> (#[trigger] outputs[i]) is Some,
    ensures
        ({
            let results = results_of(reads, calls, outputs, end);
            &&& results.content.len() == end
            &&& results.events.len() == end
            &&& forall|i: int|
                0 <= i < end ==> (#[trigger] results.content[i]) == (BlockView::ToolResult {
                    tool_use_id: calls[i].tool_id,
                    content: outputs[i]->0.output,
                    is_error: outputs[i]->0.is_error,
                })
            &&& forall|i: int|
                0 <= i < end ==> (#[trigger] results.events[i]) == (AgentEventView::ToolResult {
                    tool_id: calls[i].tool_id,
                    tool_name: calls[i].tool_name,
                    content: outputs[i]->0.output,
                    is_error: outputs[i]->0.is_error,
                })
        }),
    decreases end,
{
    if end > 0 {
        law_results_come_in_order(reads, calls, outputs, end - 1);
        assert(outputs[end - 1] is Some);
    }
}

/// Takes the results of calls: the content of the message, and the events.
fn take_results(
    recovery: &mut RecoveryState,
    calls: Vec<PendingToolCall>,
    outputs: Vec<Option<ToolOutput>>,
) -> (results: (Vec<ContentBlock>, Vec<AgentEvent>))
    ensures
        ({
            let views = tools::call_views(calls@);
            let given = tools::output_views(outputs@);
            (ResultsView {
                content: conversation::block_views(results.0@),
                events: agent_events::event_views(results.1@),
                reads: final(recovery)@,
            }) == results_of(old(recovery)@, views, given, answered_count(views, given))
        }),
{
    let ghost views = tools::call_views(calls@);
    let ghost given = tools::output_views(outputs@);
    let ghost start = recovery@;
    let mut content: Vec<ContentBlock> = Vec::new();
    let mut reported: Vec<AgentEvent> = Vec::new();
    let mut i: usize = 0;
    assert(conversation::block_views(content@) =~= Seq::<BlockView>::empty());
    assert(agent_events::event_views(reported@) =~= Seq::<AgentEventView>::empty());
    while i < calls.len() && i < outputs.len()
        invariant
            i <= calls@.len(),
            i <= outputs@.len(),
            views == tools::call_views(calls@),
            given == tools::output_views(outputs@),
            start == old(recovery)@,
            (ResultsView {
                content: conversation::block_views(content@),
                events: agent_events::event_views(reported@),
                reads: recovery@,
            }) == results_of(start, views, given, i as int),
        decreases calls@.len() - i,
    {
        let call = &calls[i];
        assert(views[i as int] == call@);
        assert(given[i as int] == tools::optional_output(outputs@[i as int]));
        if let Some(result) = &outputs[i] {
            let ghost before = results_of(start, views, given, i as int);
            if text::same_text(call.tool_name.as_str(), "ReadFile") {
                if let Some(path) = json::text_in(call.arguments.get("file_path")) {
                    recovery.record_file_read(path.as_str(), result.output.as_str());
                }
            }
            content.push(
                ContentBlock::ToolResult {
                    tool_use_id: call.tool_id.clone(),
                    content: result.output.clone(),
                    is_error: result.is_error,
                },
            );
            reported.push(
                AgentEvent::ToolResult {
                    tool_id: call.tool_id.clone(),
                    tool_name: call.tool_name.clone(),
                    content: result.output.clone(),
                    is_error: result.is_error,
                },
            );
            assert(conversation::block_views(content@) =~= results_of(
                start,
                views,
                given,
                i + 1,
            ).content);
            assert(agent_events::event_views(reported@) =~= results_of(
                start,
                views,
                given,
                i + 1,
            ).events);
        }
        i += 1;
    }
    (content, reported)
}

/// What happens in a run.
#[derive(Debug, PartialEq, Eq)]
pub enum RunSignal {
    /// A message or a boundary was stored, or could not be.
    Stored(Result<(), SessionError>),
    /// A summary came, or the provider failed.
    Summarized(Result<String, LlmError>),
    /// Events were delivered, or nobody listens any more.
    Delivered(bool),
    /// A file was written, or could not be.
    Spilled(bool),
    /// Replacements were recorded, or could not be.
    Recorded(bool),
    /// A provider answered, or failed.
    Answered(Result<ProviderTurn, LlmError>),
    /// Nobody listens to what the provider answers.
    Unheard,
    /// Calls were held to the rules; `None` where the run was cancelled.
    Authorized(Option<Vec<PlannedToolCall>>),
    /// Calls were run, as far as they were.
    Executed(Vec<Option<ToolOutput>>),
}

/// What a [`RunSignal`] holds.
#[verifier::ext_equal]
pub enum RunSignalView {
    Stored(Result<(), SessionErrorView>),
    Summarized(Result<Seq<char>, LlmErrorView>),
    Delivered(bool),
    Spilled(bool),
    Recorded(bool),
    Answered(Result<TurnView, LlmErrorView>),
    Unheard,
    Authorized(Option<Seq<PlanView>>),
    Executed(Seq<Option<OutputView>>),
}

impl View for RunSignal {
    type V = RunSignalView;

    open spec fn view(&self) -> RunSignalView {
        match *self {
            RunSignal::Stored(Ok(_)) => RunSignalView::Stored(Ok(())),
            RunSignal::Stored(Err(error)) => RunSignalView::Stored(Err(error@)),
            RunSignal::Summarized(Ok(summary)) => RunSignalView::Summarized(Ok(summary@)),
            RunSignal::Summarized(Err(error)) => RunSignalView::Summarized(Err(error@)),
            RunSignal::Delivered(delivered) => RunSignalView::Delivered(delivered),
            RunSignal::Spilled(written) => RunSignalView::Spilled(written),
            RunSignal::Recorded(written) => RunSignalView::Recorded(written),
            RunSignal::Answered(Ok(turn)) => RunSignalView::Answered(Ok(turn@)),
            RunSignal::Answered(Err(error)) => RunSignalView::Answered(Err(error@)),
            RunSignal::Unheard => RunSignalView::Unheard,
            RunSignal::Authorized(Some(plans)) => RunSignalView::Authorized(
                Some(tools::plan_views(plans@)),
            ),
            RunSignal::Authorized(None) => RunSignalView::Authorized(None),
            RunSignal::Executed(outputs) => RunSignalView::Executed(tools::output_views(outputs@)),
        }
    }
}

/// What is to be done in a run.
#[derive(Debug, PartialEq, Eq)]
pub enum RunAction {
    /// A message is to be added to the session.
    Store(ConversationMessage),
    /// A boundary is to be added to the session.
    StoreBoundary(CompactBoundary),
    /// A provider is to be asked for a summary.
    Summarize(ProviderRequest),
    /// Events are to be delivered, in order.
    Report(Vec<AgentEvent>),
    /// A file is to be written.
    Spill(Spill),
    /// Text is to be added to the file of records.
    Record { path: String, lines: String },
    /// A provider is to be asked.
    Ask(ProviderRequest),
    /// Calls are to be held to the rules, in order.
    Authorize(Vec<PendingToolCall>),
    /// Calls are to be run, some at a time.
    Execute { plans: Vec<PlannedToolCall>, concurrency: usize },
    /// The run is over, with this event last.
    Stop(Option<AgentEvent>),
    /// The run cannot go on: what happened does not follow from what was to be done, or
    /// tokens cannot be counted.
    Abort,
}

/// What a [`RunAction`] holds.
#[verifier::ext_equal]
pub enum RunActionView {
    Store(MessageView),
    StoreBoundary(BoundaryView),
    Summarize(RequestView),
    Report(Seq<AgentEventView>),
    Spill(SpillView),
    Record { path: Seq<char>, lines: Seq<char> },
    Ask(RequestView),
    Authorize(Seq<CallView>),
    Execute { plans: Seq<PlanView>, concurrency: usize },
    Stop(Option<AgentEventView>),
    Abort,
}

impl View for RunAction {
    type V = RunActionView;

    open spec fn view(&self) -> RunActionView {
        match *self {
            RunAction::Store(message) => RunActionView::Store(message@),
            RunAction::StoreBoundary(boundary) => RunActionView::StoreBoundary(boundary@),
            RunAction::Summarize(request) => RunActionView::Summarize(request@),
            RunAction::Report(events) => RunActionView::Report(agent_events::event_views(events@)),
            RunAction::Spill(spill) => RunActionView::Spill(spill@),
            RunAction::Record { path, lines } => RunActionView::Record {
                path: path@,
                lines: lines@,
            },
            RunAction::Ask(request) => RunActionView::Ask(request@),
            RunAction::Authorize(calls) => RunActionView::Authorize(tools::call_views(calls@)),
            RunAction::Execute { plans, concurrency } => RunActionView::Execute {
                plans: tools::plan_views(plans@),
                concurrency,
            },
            RunAction::Stop(event) => RunActionView::Stop(agent_events::optional_event(event)),
            RunAction::Abort => RunActionView::Abort,
        }
    }
}

/// What a run waits for.
#[derive(Debug, PartialEq, Eq)]
enum Phase {
    Starting,
    Summarizing { trigger: CompactionTrigger, tokens_before: usize, keep_start: usize },
    Bounding { trigger: CompactionTrigger, tokens_before: usize, boundary: CompactBoundary },
    Reporting,
    Preparing { answers: Vec<bool> },
    Recording { request: ProviderRequest },
    Asking,
    Answering { turn: ProviderTurn, message: ConversationMessage },
    Authorizing,
    Executing { calls: Vec<PendingToolCall> },
    Delivering { content: Vec<ContentBlock> },
    Finishing { message: ConversationMessage },
    Over,
}

/// What a run waits for.
#[verifier::ext_equal]
pub enum PhaseView {
    /// For the message of the user to be stored.
    Starting,
    /// For a summary.
    Summarizing { trigger: CompactionTrigger, tokens_before: int, keep_start: int },
    /// For a boundary to be stored.
    Bounding { trigger: CompactionTrigger, tokens_before: int, boundary: BoundaryView },
    /// For the report that the conversation was compacted to be delivered.
    Reporting,
    /// For a file to be written.
    Preparing { answers: Seq<bool> },
    /// For replacements to be recorded.
    Recording { request: RequestView },
    /// For a provider to answer.
    Asking,
    /// For an answer to be stored.
    Answering { turn: TurnView, message: MessageView },
    /// For calls to be held to the rules.
    Authorizing,
    /// For calls to be run.
    Executing { calls: Seq<CallView> },
    /// For results to be delivered.
    Delivering { content: Seq<BlockView> },
    /// For results to be stored.
    Finishing { message: MessageView },
    /// For nothing.
    Over,
}

impl Phase {
    closed spec fn view(&self) -> PhaseView {
        match *self {
            Phase::Starting => PhaseView::Starting,
            Phase::Summarizing { trigger, tokens_before, keep_start } => PhaseView::Summarizing {
                trigger,
                tokens_before: tokens_before as int,
                keep_start: keep_start as int,
            },
            Phase::Bounding { trigger, tokens_before, boundary } => PhaseView::Bounding {
                trigger,
                tokens_before: tokens_before as int,
                boundary: boundary@,
            },
            Phase::Reporting => PhaseView::Reporting,
            Phase::Preparing { answers } => PhaseView::Preparing { answers: answers@ },
            Phase::Recording { request } => PhaseView::Recording { request: request@ },
            Phase::Asking => PhaseView::Asking,
            Phase::Answering { turn, message } => PhaseView::Answering {
                turn: turn@,
                message: message@,
            },
            Phase::Authorizing => PhaseView::Authorizing,
            Phase::Executing { calls } => PhaseView::Executing { calls: tools::call_views(calls@) },
            Phase::Delivering { content } => PhaseView::Delivering {
                content: conversation::block_views(content@),
            },
            Phase::Finishing { message } => PhaseView::Finishing { message: message@ },
            Phase::Over => PhaseView::Over,
        }
    }
}

/// A run of an agent.
#[derive(Debug, PartialEq, Eq)]
pub struct RunState {
    config: AgentConfig,
    tools: Vec<ToolDefinition>,
    conversation: Conversation,
    budget: ToolResultBudget,
    tracker: CompactionTracker,
    recovery: RecoveryState,
    iteration: usize,
    phase: Phase,
}

/// What a [`RunState`] holds.
#[verifier::ext_equal]
pub struct RunView {
    pub config: AgentConfigView,
    pub tools: Seq<ToolView>,
    pub conversation: Seq<MessageView>,
    pub budget: BudgetView,
    pub tracker: TrackerView,
    pub reads: Reads,
    /// How many turns have begun.
    pub iteration: int,
    pub phase: PhaseView,
}

impl View for RunState {
    type V = RunView;

    closed spec fn view(&self) -> RunView {
        RunView {
            config: self.config@,
            tools: client::tool_views(self.tools@),
            conversation: self.conversation@,
            budget: self.budget@,
            tracker: self.tracker@,
            reads: self.recovery@,
            iteration: self.iteration as int,
            phase: self.phase.view(),
        }
    }
}

/// The run is over, with this event last.
pub open spec fn stopped(run: RunView, event: Option<AgentEventView>) -> (RunView, RunActionView) {
    (RunView { phase: PhaseView::Over, ..run }, RunActionView::Stop(event))
}

/// The run cannot go on.
pub open spec fn aborted(run: RunView) -> (RunView, RunActionView) {
    (RunView { phase: PhaseView::Over, ..run }, RunActionView::Abort)
}

/// The run failed.
pub open spec fn failed(run: RunView, message: Seq<char>) -> (RunView, RunActionView) {
    stopped(run, Some(AgentEventView::RunError { message }))
}

/// The budget is applied to the conversation; `answers` says of each file that was to be
/// written whether it could be. Then new replacements are recorded, and the provider is
/// asked.
pub open spec fn prepared(run: RunView, answers: Seq<bool>) -> (RunView, RunActionView) {
    match tool_result::applied(
        run.budget.ledger,
        tool_result::setting_of(run.budget, run.conversation, answers),
    ) {
        Err(spill) => (
            RunView { phase: PhaseView::Preparing { answers }, ..run },
            RunActionView::Spill(spill),
        ),
        Ok((ledger, sent)) => {
            let records = tool_result::unrecorded(ledger.replaced, run.budget.recorded);
            let request = RequestView {
                system_prompt: run.config.system_prompt,
                conversation: sent,
                tools: run.tools,
            };
            let run = RunView { budget: BudgetView { ledger, ..run.budget }, ..run };
            if records.len() == 0 {
                (RunView { phase: PhaseView::Asking, ..run }, RunActionView::Ask(request))
            } else {
                (
                    RunView { phase: PhaseView::Recording { request }, ..run },
                    RunActionView::Record {
                        path: run.budget.records_path,
                        lines: tool_result::replacement_text(records),
                    },
                )
            }
        },
    }
}

/// A turn begins: the conversation is compacted where that is due, and the provider is
/// asked.
pub open spec fn turn_begun(run: RunView, now: u64) -> (RunView, RunActionView) {
    if run.iteration >= run.config.max_iterations {
        stopped(
            run,
            Some(AgentEventView::MaxIterationsReached { limit: run.config.max_iterations }),
        )
    } else {
        let run = RunView { iteration: run.iteration + 1, ..run };
        let config = run.config.compaction;
        let used = compaction::used(run.tracker.anchor, run.conversation);
        let trigger = compaction::trigger_at(config, used, run.tracker.failures as int);
        if used > usize::MAX {
            aborted(run)
        } else if trigger is NotNeeded {
            prepared(run, Seq::empty())
        } else if !compaction::can_compact(run.conversation, config) {
            aborted(run)
        } else {
            let first = compaction::keep_start(run.conversation, config);
            if first == 0 {
                prepared(
                    RunView { tracker: TrackerView { failures: 0, ..run.tracker }, ..run },
                    Seq::empty(),
                )
            } else {
                (
                    RunView {
                        phase: PhaseView::Summarizing {
                            trigger,
                            tokens_before: compaction::tokens_in(run.conversation) as int,
                            keep_start: first,
                        },
                        ..run
                    },
                    RunActionView::Summarize(
                        compaction::summary_request_of(run.conversation.take(first), now),
                    ),
                )
            }
        }
    }
}

/// Compacting failed: the run fails where it was urgent, and goes on otherwise.
pub open spec fn compaction_failed(
    run: RunView,
    trigger: CompactionTrigger,
    error: CompactionErrorView,
) -> (RunView, RunActionView) {
    if trigger is Hard {
        failed(run, compaction::compaction_error_text(error))
    } else if run.tracker.failures == usize::MAX {
        aborted(run)
    } else {
        prepared(
            RunView {
                tracker: TrackerView {
                    failures: (run.tracker.failures + 1) as usize,
                    ..run.tracker
                },
                ..run
            },
            Seq::empty(),
        )
    }
}

/// A summary came, or the provider failed.
pub open spec fn summarized(
    run: RunView,
    trigger: CompactionTrigger,
    tokens_before: int,
    keep_start: int,
    outcome: Result<Seq<char>, LlmErrorView>,
) -> (RunView, RunActionView) {
    match outcome {
        Err(error) => compaction_failed(run, trigger, CompactionErrorView::Provider(error)),
        Ok(summary) => if keep_start > run.conversation.len() {
            aborted(run)
        } else if text::is_blank(summary) {
            compaction_failed(run, trigger, CompactionErrorView::EmptySummary)
        } else {
            let boundary = BoundaryView { summary, keep: run.conversation.skip(keep_start) };
            (
                RunView {
                    phase: PhaseView::Bounding { trigger, tokens_before, boundary },
                    ..run
                },
                RunActionView::StoreBoundary(boundary),
            )
        },
    }
}

/// A boundary was stored, or could not be.
pub open spec fn bounded(
    run: RunView,
    trigger: CompactionTrigger,
    tokens_before: int,
    boundary: BoundaryView,
    outcome: Result<(), SessionErrorView>,
    now: u64,
) -> (RunView, RunActionView) {
    match outcome {
        Err(error) => compaction_failed(run, trigger, CompactionErrorView::Session(error)),
        Ok(_) => {
            let messages = compaction::compacted(
                boundary,
                Some(
                    compaction::recovery_text(
                        run.reads,
                        run.tools,
                        run.config.compaction.recovery_token_budget as int,
                    ),
                ),
                now,
            );
            let tokens_after = compaction::tokens_in(messages);
            if tokens_after > usize::MAX {
                aborted(run)
            } else {
                (
                    RunView {
                        conversation: messages,
                        tracker: TrackerView { anchor: compaction::no_anchor(), ..run.tracker },
                        phase: PhaseView::Reporting,
                        ..run
                    },
                    RunActionView::Report(
                        seq![
                            AgentEventView::Compacted {
                                message: "Compacted: "@ + text::decimal(tokens_before as nat)
                                    + " \u{2192} "@ + text::decimal(tokens_after)
                                    + " estimated tokens"@,
                            },
                        ],
                    ),
                )
            }
        },
    }
}

/// An answer was stored, or could not be.
pub open spec fn answer_stored(
    run: RunView,
    turn: TurnView,
    message: MessageView,
    outcome: Result<(), SessionErrorView>,
) -> (RunView, RunActionView) {
    match outcome {
        Err(error) => failed(run, session::session_error_text(error)),
        Ok(_) => {
            let messages = run.conversation.push(message);
            let run = RunView { conversation: messages, ..run };
            match turn.usage {
                Some(usage) if compaction::usage_sum(usage) > u64::MAX => aborted(run),
                _ => {
                    let run = RunView {
                        tracker: match turn.usage {
                            Some(usage) => TrackerView {
                                anchor: compaction::anchor_of(usage, messages.len() as usize),
                                ..run.tracker
                            },
                            None => run.tracker,
                        },
                        ..run
                    };
                    if turn.calls.len() == 0 {
                        stopped(run, Some(AgentEventView::RunCompleted { final_text: turn.text }))
                    } else {
                        (
                            RunView { phase: PhaseView::Authorizing, ..run },
                            RunActionView::Authorize(turn.calls),
                        )
                    }
                },
            }
        },
    }
}

/// Results were stored, or could not be.
pub open spec fn results_stored(
    run: RunView,
    message: MessageView,
    outcome: Result<(), SessionErrorView>,
    now: u64,
    cancelled: bool,
) -> (RunView, RunActionView) {
    match outcome {
        Err(error) => if cancelled {
            stopped(run, Some(AgentEventView::RunCancelled))
        } else {
            failed(run, session::session_error_text(error))
        },
        Ok(_) => {
            let run = RunView { conversation: run.conversation.push(message), ..run };
            if cancelled {
                stopped(run, Some(AgentEventView::RunCancelled))
            } else {
                turn_begun(run, now)
            }
        },
    }
}

/// The calls of plans.
pub open spec fn planned_calls(plans: Seq<PlanView>) -> Seq<CallView> {
    plans.map_values(|plan: PlanView| plan.call)
}

/// The run after something happened, and what is to be done: `now` is the time, and
/// `cancelled` says whether the run has been cancelled.
pub open spec fn advanced(run: RunView, signal: RunSignalView, now: u64, cancelled: bool) -> (
    RunView,
    RunActionView,
) {
    match (run.phase, signal) {
        (PhaseView::Starting, RunSignalView::Stored(Ok(_))) => turn_begun(run, now),
        (PhaseView::Starting, RunSignalView::Stored(Err(error))) => failed(
            run,
            session::session_error_text(error),
        ),
        (
            PhaseView::Summarizing { trigger, tokens_before, keep_start },
            RunSignalView::Summarized(outcome),
        ) => summarized(run, trigger, tokens_before, keep_start, outcome),
        (
            PhaseView::Bounding { trigger, tokens_before, boundary },
            RunSignalView::Stored(outcome),
        ) => bounded(run, trigger, tokens_before, boundary, outcome, now),
        (PhaseView::Reporting, RunSignalView::Delivered(delivered)) => if delivered {
            prepared(run, Seq::empty())
        } else {
            stopped(run, None)
        },
        (PhaseView::Preparing { answers }, RunSignalView::Spilled(written)) => prepared(
            run,
            answers.push(written),
        ),
        (PhaseView::Recording { request }, RunSignalView::Recorded(written)) => (
            RunView {
                budget: if written {
                    BudgetView {
                        recorded: run.budget.recorded.union(
                            tool_result::ids_of(run.budget.ledger.replaced),
                        ),
                        ..run.budget
                    }
                } else {
                    run.budget
                },
                phase: PhaseView::Asking,
                ..run
            },
            RunActionView::Ask(request),
        ),
        (PhaseView::Asking, RunSignalView::Answered(Ok(turn))) => {
            let message = assistant_message_of(turn, now);
            (
                RunView { phase: PhaseView::Answering { turn, message }, ..run },
                RunActionView::Store(message),
            )
        },
        (PhaseView::Asking, RunSignalView::Answered(Err(error))) => if error is Cancelled {
            stopped(run, Some(AgentEventView::RunCancelled))
        } else {
            failed(run, events::error_text(error))
        },
        (PhaseView::Asking, RunSignalView::Unheard) => stopped(run, None),
        (PhaseView::Answering { turn, message }, RunSignalView::Stored(outcome)) => answer_stored(
            run,
            turn,
            message,
            outcome,
        ),
        (PhaseView::Authorizing, RunSignalView::Authorized(None)) => stopped(
            run,
            Some(AgentEventView::RunCancelled),
        ),
        (PhaseView::Authorizing, RunSignalView::Authorized(Some(plans))) => (
            RunView { phase: PhaseView::Executing { calls: planned_calls(plans) }, ..run },
            RunActionView::Execute { plans, concurrency: run.config.tool_concurrency },
        ),
        (PhaseView::Executing { calls }, RunSignalView::Executed(outputs)) => {
            let results = results_of(run.reads, calls, outputs, answered_count(calls, outputs));
            (
                RunView {
                    reads: results.reads,
                    phase: PhaseView::Delivering { content: results.content },
                    ..run
                },
                RunActionView::Report(results.events),
            )
        },
        (PhaseView::Delivering { content }, RunSignalView::Delivered(delivered)) => if !delivered {
            stopped(run, None)
        } else if content.len() == 0 && cancelled {
            stopped(run, Some(AgentEventView::RunCancelled))
        } else {
            let message = MessageView {
                role: MessageRole::User,
                content,
                timestamp_unix_seconds: now,
            };
            (
                RunView { phase: PhaseView::Finishing { message }, ..run },
                RunActionView::Store(message),
            )
        },
        (PhaseView::Finishing { message }, RunSignalView::Stored(outcome)) => results_stored(
            run,
            message,
            outcome,
            now,
            cancelled,
        ),
        _ => aborted(run),
    }
}

/// The view of a run and of what is to be done.
spec fn step_view(step: (RunState, RunAction)) -> (RunView, RunActionView) {
    (step.0@, step.1@)
}

/// The list that holds `event` alone.
fn one_event(event: AgentEvent) -> (reported: Vec<AgentEvent>)
    ensures
        agent_events::event_views(reported@) == seq![event@],
{
    let mut reported: Vec<AgentEvent> = Vec::new();
    reported.push(event);
    assert(agent_events::event_views(reported@) =~= seq![event@]);
    reported
}

/// What comes of starting a run.
pub open spec fn begun(
    config: AgentConfigView,
    tools: Seq<ToolView>,
    loaded: Seq<MessageView>,
    budget: BudgetView,
    prompt: Seq<char>,
    now: u64,
) -> RunView {
    RunView {
        config,
        tools,
        conversation: loaded.push(compaction::user_message(prompt, now)),
        budget: BudgetView {
            ledger: tool_result::Ledger {
                seen: tool_result::seen_through(
                    budget.ledger.seen,
                    loaded,
                    loaded.len() as int,
                ),
                ..budget.ledger
            },
            ..budget
        },
        tracker: TrackerView { anchor: compaction::no_anchor(), failures: 0 },
        reads: Seq::empty(),
        iteration: 0,
        phase: PhaseView::Starting,
    }
}

/// The messages of a session, none where there is no session.
pub open spec fn loaded_messages(loaded: Option<Vec<ConversationMessage>>) -> Seq<MessageView> {
    match loaded {
        Some(messages) => conversation::message_views(messages@),
        None => Seq::empty(),
    }
}

impl RunState {
    /// Starts a run with the messages of its session, if there is one, and the budget of
    /// its tool results. The message of the user is to be stored. Where the messages or
    /// the budget could not be had, the run is over with that event.
    pub fn begin(
        config: AgentConfig,
        tools: Vec<ToolDefinition>,
        loaded: Result<Option<Vec<ConversationMessage>>, SessionError>,
        budget: Result<ToolResultBudget, ToolResultBudgetError>,
        prompt: String,
        now: u64,
    ) -> (run: Result<(RunState, RunAction), AgentEvent>)
        ensures
            match (loaded, budget) {
                (Err(error), _) => run matches Err(event) && event@ == (AgentEventView::RunError {
                    message: session::session_error_text(error@),
                }),
                (Ok(_), Err(error)) => run matches Err(event) && event@
                    == (AgentEventView::RunError { message: tool_result::budget_error_text(error) }),
                (Ok(loaded), Ok(budget)) => run matches Ok((state, action)) && state@ == begun(
                    config@,
                    client::tool_views(tools@),
                    loaded_messages(loaded),
                    budget@,
                    prompt@,
                    now,
                ) && action@ == RunActionView::Store(compaction::user_message(prompt@, now)),
            },
    {
        let messages = match loaded {
            Ok(Some(messages)) => messages,
            Ok(None) => {
                let none: Vec<ConversationMessage> = Vec::new();
                assert(conversation::message_views(none@) =~= Seq::<MessageView>::empty());
                none
            },
            Err(error) => {
                return Err(AgentEvent::RunError { message: error.message() });
            },
        };
        let mut budget = match budget {
            Ok(budget) => budget,
            Err(error) => {
                return Err(AgentEvent::RunError { message: error.message() });
            },
        };
        let mut conversation = Conversation::from_messages(messages);
        budget.reconstruct(&conversation);
        let message = compaction::user_text(prompt, now);
        let stored = message.clone();
        conversation.push(message);
        let state = RunState {
            config,
            tools,
            conversation,
            budget,
            tracker: CompactionTracker::default(),
            recovery: RecoveryState::default(),
            iteration: 0,
            phase: Phase::Starting,
        };
        Ok((state, RunAction::Store(stored)))
    }

    fn stop(self, event: Option<AgentEvent>) -> (step: (RunState, RunAction))
        ensures
            step_view(step) == stopped(self@, agent_events::optional_event(event)),
    {
        let mut run = self;
        run.phase = Phase::Over;
        (run, RunAction::Stop(event))
    }

    fn abort(self) -> (step: (RunState, RunAction))
        ensures
            step_view(step) == aborted(self@),
    {
        let mut run = self;
        run.phase = Phase::Over;
        (run, RunAction::Abort)
    }

    fn fail(self, message: String) -> (step: (RunState, RunAction))
        ensures
            step_view(step) == failed(self@, message@),
    {
        self.stop(Some(AgentEvent::RunError { message }))
    }

    fn prepare(self, answers: Vec<bool>) -> (step: (RunState, RunAction))
        ensures
            step_view(step) == prepared(self@, answers@),
    {
        let mut run = self;
        match run.budget.apply(&run.conversation, &answers) {
            Applied::Spill(spill) => {
                run.phase = Phase::Preparing { answers };
                (run, RunAction::Spill(spill))
            },
            Applied::Done(sent) => {
                let request = ProviderRequest {
                    system_prompt: run.config.system_prompt.clone(),
                    conversation: sent,
                    tools: client::copy_tools(&run.tools),
                };
                let records = run.budget.new_replacement_records();
                assert(records@.len() == tool_result::replacement_views(records@).len());
                if records.len() == 0 {
                    run.phase = Phase::Asking;
                    (run, RunAction::Ask(request))
                } else {
                    let path = text::copy_text(run.budget.records_path());
                    let lines = tool_result::replacement_lines(&records);
                    run.phase = Phase::Recording { request };
                    (run, RunAction::Record { path, lines })
                }
            },
        }
    }

    fn begin_turn(self, now: u64) -> (step: (RunState, RunAction))
        ensures
            step_view(step) == turn_begun(self@, now),
    {
        let limit = self.config.max_iterations;
        if self.iteration >= limit {
            return self.stop(Some(AgentEvent::MaxIterationsReached { limit }));
        }
        let mut run = self;
        run.iteration += 1;
        let config = run.config.compaction;
        let trigger = match run.tracker.trigger_for(run.conversation.messages(), &config) {
            Some(trigger) => trigger,
            None => {
                return run.abort();
            },
        };
        let nothing: Vec<bool> = Vec::new();
        assert(nothing@ =~= Seq::<bool>::empty());
        if let CompactionTrigger::NotNeeded = trigger {
            return run.prepare(nothing);
        }
        match compaction::plan_compaction(&run.conversation, &config) {
            None => run.abort(),
            Some(CompactionPlan::Unchanged(_)) => {
                run.tracker.record_auto_success();
                run.prepare(nothing)
            },
            Some(CompactionPlan::Summarize { estimated_tokens_before, keep_start }) => {
                let request = compaction::summary_request(
                    run.conversation.messages(),
                    keep_start,
                    now,
                );
                run.phase = Phase::Summarizing {
                    trigger,
                    tokens_before: estimated_tokens_before,
                    keep_start,
                };
                (run, RunAction::Summarize(request))
            },
        }
    }

    fn fail_compaction(self, trigger: CompactionTrigger, error: CompactionError) -> (step: (
        RunState,
        RunAction,
    ))
        ensures
            step_view(step) == compaction_failed(self@, trigger, error@),
    {
        if let CompactionTrigger::Hard = trigger {
            return self.fail(error.message());
        }
        if self.tracker.auto_failures() == usize::MAX {
            return self.abort();
        }
        let mut run = self;
        let config = run.config.compaction;
        run.tracker.record_auto_failure(&config);
        let nothing: Vec<bool> = Vec::new();
        assert(nothing@ =~= Seq::<bool>::empty());
        run.prepare(nothing)
    }

    fn take_summary(
        self,
        trigger: CompactionTrigger,
        tokens_before: usize,
        keep_start: usize,
        outcome: Result<String, LlmError>,
    ) -> (step: (RunState, RunAction))
        ensures
            step_view(step) == summarized(
                self@,
                trigger,
                tokens_before as int,
                keep_start as int,
                match outcome {
                    Ok(summary) => Ok(summary@),
                    Err(error) => Err(error@),
                },
            ),
    {
        let summary = match outcome {
            Ok(summary) => summary,
            Err(error) => {
                return self.fail_compaction(trigger, CompactionError::Provider(error));
            },
        };
        if keep_start > self.conversation.messages().len() {
            return self.abort();
        }
        match compaction::boundary_for(&self.conversation, keep_start, summary) {
            Err(_) => self.fail_compaction(trigger, CompactionError::EmptySummary),
            Ok(boundary) => {
                let mut run = self;
                let stored = boundary.clone();
                run.phase = Phase::Bounding { trigger, tokens_before, boundary };
                (run, RunAction::StoreBoundary(stored))
            },
        }
    }

    fn take_boundary(
        self,
        trigger: CompactionTrigger,
        tokens_before: usize,
        boundary: CompactBoundary,
        outcome: Result<(), SessionError>,
        now: u64,
    ) -> (step: (RunState, RunAction))
        ensures
            step_view(step) == bounded(
                self@,
                trigger,
                tokens_before as int,
                boundary@,
                match outcome {
                    Ok(_) => Ok(()),
                    Err(error) => Err(error@),
                },
                now,
            ),
    {
        if let Err(error) = outcome {
            return self.fail_compaction(trigger, CompactionError::Session(error));
        }
        let mut run = self;
        let config = run.config.compaction;
        let finished = compaction::finish_compaction(
            tokens_before,
            boundary,
            &config,
            Some(&run.recovery),
            run.tools.as_slice(),
            now,
        );
        match finished {
            None => run.abort(),
            Some(outcome) => {
                let mut message = text::concat3(
                    "Compacted: ",
                    text::decimal_text(outcome.estimated_tokens_before as u64).as_str(),
                    " \u{2192} ",
                );
                message.append(
                    text::decimal_text(outcome.estimated_tokens_after as u64).as_str(),
                );
                message.append(" estimated tokens");
                run.conversation = outcome.compacted_conversation;
                run.tracker.reset_after_compaction();
                run.phase = Phase::Reporting;
                let reported = one_event(AgentEvent::Compacted { message });
                (run, RunAction::Report(reported))
            },
        }
    }

    fn take_stored_answer(
        self,
        turn: ProviderTurn,
        message: ConversationMessage,
        outcome: Result<(), SessionError>,
    ) -> (step: (RunState, RunAction))
        ensures
            step_view(step) == answer_stored(
                self@,
                turn@,
                message@,
                match outcome {
                    Ok(_) => Ok(()),
                    Err(error) => Err(error@),
                },
            ),
    {
        if let Err(error) = outcome {
            return self.fail(error.message());
        }
        let mut run = self;
        run.conversation.push(message);
        assert(turn.tool_calls@.len() == turn@.calls.len());
        if let Some(usage) = turn.usage {
            if compaction::usage_total(usage).is_none() {
                return run.abort();
            }
            let count = run.conversation.messages().len();
            assert(count == run.conversation@.len());
            run.tracker.record_usage(usage, count);
        }
        if turn.tool_calls.len() == 0 {
            return run.stop(Some(AgentEvent::RunCompleted { final_text: turn.text }));
        }
        run.phase = Phase::Authorizing;
        (run, RunAction::Authorize(turn.tool_calls))
    }

    fn take_stored_results(
        self,
        message: ConversationMessage,
        outcome: Result<(), SessionError>,
        now: u64,
        cancelled: bool,
    ) -> (step: (RunState, RunAction))
        ensures
            step_view(step) == results_stored(
                self@,
                message@,
                match outcome {
                    Ok(_) => Ok(()),
                    Err(error) => Err(error@),
                },
                now,
                cancelled,
            ),
    {
        if let Err(error) = outcome {
            return if cancelled {
                self.stop(Some(AgentEvent::RunCancelled))
            } else {
                self.fail(error.message())
            };
        }
        let mut run = self;
        run.conversation.push(message);
        if cancelled {
            return run.stop(Some(AgentEvent::RunCancelled));
        }
        run.begin_turn(now)
    }

    /// Goes on after something happened. The result is the run and what is to be done.
    #[verifier::spinoff_prover]
    #[verifier::rlimit(40)]
    pub fn advance(self, signal: RunSignal, now: u64, cancelled: bool) -> (step: (
        RunState,
        RunAction,
    ))
        ensures
            (step.0@, step.1@) == advanced(self@, signal@, now, cancelled),
    {
        let ghost before = self@;
        let mut run = self;
        let mut phase = Phase::Over;
        core::mem::swap(&mut run.phase, &mut phase);
        let ghost resting = run@;
        assert(before == RunView { phase: phase.view(), ..resting });
        let nothing: Vec<bool> = Vec::new();
        assert(nothing@ =~= Seq::<bool>::empty());
        match (phase, signal) {
            (Phase::Starting, RunSignal::Stored(Ok(_))) => run.begin_turn(now),
            (Phase::Starting, RunSignal::Stored(Err(error))) => run.fail(error.message()),
            (
                Phase::Summarizing { trigger, tokens_before, keep_start },
                RunSignal::Summarized(outcome),
            ) => run.take_summary(trigger, tokens_before, keep_start, outcome),
            (Phase::Bounding { trigger, tokens_before, boundary }, RunSignal::Stored(outcome)) =>
                run.take_boundary(trigger, tokens_before, boundary, outcome, now),
            (Phase::Reporting, RunSignal::Delivered(delivered)) => {
                if delivered {
                    run.prepare(nothing)
                } else {
                    run.stop(None)
                }
            },
            (Phase::Preparing { answers }, RunSignal::Spilled(written)) => {
                let mut answers = answers;
                answers.push(written);
                run.prepare(answers)
            },
            (Phase::Recording { request }, RunSignal::Recorded(written)) => {
                if written {
                    run.budget.records_written();
                }
                run.phase = Phase::Asking;
                (run, RunAction::Ask(request))
            },
            (Phase::Asking, RunSignal::Answered(Ok(turn))) => {
                let message = assistant_message(&turn, now);
                let stored = message.clone();
                run.phase = Phase::Answering { turn, message };
                (run, RunAction::Store(stored))
            },
            (Phase::Asking, RunSignal::Answered(Err(error))) => match error {
                LlmError::Cancelled => run.stop(Some(AgentEvent::RunCancelled)),
                _ => run.fail(error.message()),
            },
            (Phase::Asking, RunSignal::Unheard) => run.stop(None),
            (Phase::Answering { turn, message }, RunSignal::Stored(outcome)) =>
                run.take_stored_answer(turn, message, outcome),
            (Phase::Authorizing, RunSignal::Authorized(None)) => run.stop(
                Some(AgentEvent::RunCancelled),
            ),
            (Phase::Authorizing, RunSignal::Authorized(Some(plans))) => {
                let calls = calls_of(&plans);
                let concurrency = run.config.tool_concurrency;
                run.phase = Phase::Executing { calls };
                (run, RunAction::Execute { plans, concurrency })
            },
            (Phase::Executing { calls }, RunSignal::Executed(outputs)) => {
                let (content, reported) = take_results(&mut run.recovery, calls, outputs);
                run.phase = Phase::Delivering { content };
                (run, RunAction::Report(reported))
            },
            (Phase::Delivering { content }, RunSignal::Delivered(delivered)) => {
                assert(content@.len() == conversation::block_views(content@).len());
                if !delivered {
                    return run.stop(None);
                }
                if content.len() == 0 && cancelled {
                    return run.stop(Some(AgentEvent::RunCancelled));
                }
                let message = ConversationMessage {
                    role: MessageRole::User,
                    content,
                    timestamp_unix_seconds: now,
                };
                let stored = message.clone();
                run.phase = Phase::Finishing { message };
                (run, RunAction::Store(stored))
            },
            (Phase::Finishing { message }, RunSignal::Stored(outcome)) => run.take_stored_results(
                message,
                outcome,
                now,
                cancelled,
            ),
            _ => run.abort(),
        }
    }
}

/// The calls of plans.
fn calls_of(plans: &Vec<PlannedToolCall>) -> (calls: Vec<PendingToolCall>)
    ensures
        tools::call_views(calls@) == planned_calls(tools::plan_views(plans@)),
{
    let mut calls: Vec<PendingToolCall> = Vec::new();
    let mut i: usize = 0;
    while i < plans.len()
        invariant
            i <= plans@.len(),
            calls@.len() == i,
            forall|j: int| 0 <= j < i ==> (#[trigger] calls@[j])@ == plans@[j].tool_call@,
        decreases plans@.len() - i,
    {
        calls.push(plans[i].tool_call.clone());
        i += 1;
    }
    assert(tools::call_views(calls@) =~= planned_calls(tools::plan_views(plans@)));
    calls
}

/// A run that is over does nothing more, whatever happens.
pub proof fn law_over_is_over(run: RunView, signal: RunSignalView, now: u64, cancelled: bool)
    requires
        run.phase is Over,
    ensures
        advanced(run, signal, now, cancelled) == (run, RunActionView::Abort),
{
}

/// A run that stops or cannot go on is over, and only such a run is.
#[verifier::spinoff_prover]
#[verifier::rlimit(40)]
pub proof fn law_stopping_is_over(run: RunView, signal: RunSignalView, now: u64, cancelled: bool)
    ensures
        ({
            let (after, action) = advanced(run, signal, now, cancelled);
            after.phase is Over <==> (action is Stop || action is Abort)
        }),
{
}

/// Whether an event is the last one of a run.
pub open spec fn is_last(event: AgentEventView) -> bool {
    match event {
        AgentEventView::RunCompleted { .. } => true,
        AgentEventView::MaxIterationsReached { .. } => true,
        AgentEventView::RunError { .. } => true,
        AgentEventView::RunCancelled => true,
        _ => false,
    }
}

/// The events of results are no last events.
proof fn lemma_results_are_not_last(
    reads: Reads,
    calls: Seq<CallView>,
    outputs: Seq<Option<OutputView>>,
    end: int,
)
    ensures
        forall|i: int|
            0 <= i < results_of(reads, calls, outputs, end).events.len() ==> !is_last(
                #[trigger] results_of(reads, calls, outputs, end).events[i],
            ),
    decreases end,
{
    if end > 0 {
        lemma_results_are_not_last(reads, calls, outputs, end - 1);
        let before = results_of(reads, calls, outputs, end - 1).events;
        let after = results_of(reads, calls, outputs, end).events;
        assert forall|i: int| 0 <= i < after.len() implies !is_last(#[trigger] after[i]) by {
            if i < before.len() {
                assert(after[i] == before[i]);
            }
        }
    }
}

/// A run tells of its end once: the event with which it stops is a last event, and no event
/// that it reports before is.
#[verifier::spinoff_prover]
#[verifier::rlimit(40)]
pub proof fn law_only_stopping_ends(
    run: RunView,
    signal: RunSignalView,
    now: u64,
    cancelled: bool,
)
    ensures
        match advanced(run, signal, now, cancelled).1 {
            RunActionView::Stop(Some(event)) => is_last(event),
            RunActionView::Report(events) => forall|i: int|
                0 <= i < events.len() ==> !is_last(#[trigger] events[i]),
            _ => true,
        },
{
    if let (PhaseView::Executing { calls }, RunSignalView::Executed(outputs)) = (
        run.phase,
        signal,
    ) {
        lemma_results_are_not_last(run.reads, calls, outputs, answered_count(calls, outputs));
    }
}

/// What is reported of an answer while it comes is no last event.
pub proof fn law_answers_do_not_end(turn: TurnView, item: Result<LlmEventView, LlmErrorView>)
    ensures
        turn_after(turn, item).1 matches TurnStepView::Report(event) ==> !is_last(event),
{
}

/// What happens in a run, with the time and whether the run has been cancelled.
pub type Happenings = Seq<(RunSignalView, u64, bool)>;

/// How often the provider is asked in the course of what happens.
pub open spec fn asks(run: RunView, happenings: Happenings) -> int
    decreases happenings.len(),
{
    if happenings.len() == 0 {
        0
    } else {
        let (signal, now, cancelled) = happenings[0];
        let (after, action) = advanced(run, signal, now, cancelled);
        (if action is Ask {
            1int
        } else {
            0int
        }) + asks(after, happenings.skip(1))
    }
}

/// How often the provider may still be asked.
pub open spec fn asks_left(run: RunView) -> int {
    let turns = if run.iteration < run.config.max_iterations {
        run.config.max_iterations - run.iteration
    } else {
        0
    };
    match run.phase {
        PhaseView::Summarizing { .. }
        | PhaseView::Bounding { .. }
        | PhaseView::Reporting
        | PhaseView::Preparing { .. }
        | PhaseView::Recording { .. } => turns + 1,
        _ => turns,
    }
}

/// What happens never adds to how often the provider may be asked.
#[verifier::spinoff_prover]
#[verifier::rlimit(40)]
proof fn lemma_asks_left(run: RunView, signal: RunSignalView, now: u64, cancelled: bool)
    ensures
        ({
            let (after, action) = advanced(run, signal, now, cancelled);
            asks_left(after) + (if action is Ask {
                1int
            } else {
                0int
            }) <= asks_left(run)
        }),
{
}

/// Whatever happens, the provider is asked no more often than there may be turns.
pub proof fn law_turns_are_limited(run: RunView, happenings: Happenings)
    ensures
        asks(run, happenings) <= asks_left(run),
        run.phase is Starting && run.iteration == 0 ==> asks(run, happenings)
            <= run.config.max_iterations,
    decreases happenings.len(),
{
    if happenings.len() > 0 {
        let (signal, now, cancelled) = happenings[0];
        lemma_asks_left(run, signal, now, cancelled);
        law_turns_are_limited(advanced(run, signal, now, cancelled).0, happenings.skip(1));
    }
}

/// A conversation holds what its session holds: it changes only once a message or a
/// boundary has been stored; then that message comes last, or the messages that the
/// boundary keeps follow the summary.
#[verifier::spinoff_prover]
#[verifier::rlimit(40)]
pub proof fn law_conversation_holds_what_is_stored(
    run: RunView,
    signal: RunSignalView,
    now: u64,
    cancelled: bool,
)
    ensures
        ({
            let (after, action) = advanced(run, signal, now, cancelled);
            &&& after.conversation == run.conversation || (signal is Stored && signal->Stored_0 is Ok
                && match run.phase {
                PhaseView::Answering { message, .. } => after.conversation
                    == run.conversation.push(message),
                PhaseView::Finishing { message } => after.conversation == run.conversation.push(
                    message,
                ),
                PhaseView::Bounding { boundary, .. } => after.conversation.skip(1) == boundary.keep
                    && after.conversation.len() == boundary.keep.len() + 1,
                _ => false,
            })
            &&& match action {
                RunActionView::Store(stored) => match after.phase {
                    PhaseView::Answering { message, .. } => stored == message,
                    PhaseView::Finishing { message } => stored == message,
                    _ => false,
                },
                RunActionView::StoreBoundary(stored) => after.phase matches PhaseView::Bounding {
                    boundary,
                    ..
                } && stored == boundary,
                _ => true,
            }
        }),
{
    let (after, action) = advanced(run, signal, now, cancelled);
    if let PhaseView::Bounding { boundary, .. } = run.phase {
        let messages = compaction::compacted(
            boundary,
            Some(
                compaction::recovery_text(
                    run.reads,
                    run.tools,
                    run.config.compaction.recovery_token_budget as int,
                ),
            ),
            now,
        );
        assert(messages.skip(1) =~= boundary.keep);
    }
}

/// A run that is cancelled while calls run asks the provider no more. The results that there
/// are get reported and stored, and the last event is that the run was cancelled, whether or
/// not they could be stored. Without results nothing is stored.
pub proof fn law_cancelled_run_ends(
    run: RunView,
    outputs: Seq<Option<OutputView>>,
    outcome: Result<(), SessionErrorView>,
    now: u64,
)
    requires
        run.phase is Executing,
    ensures
        ({
            let calls = run.phase->calls;
            let results = results_of(run.reads, calls, outputs, answered_count(calls, outputs));
            let ended = RunActionView::Stop(Some(AgentEventView::RunCancelled));
            let (delivering, report) = advanced(run, RunSignalView::Executed(outputs), now, true);
            let (finishing, store) = advanced(
                delivering,
                RunSignalView::Delivered(true),
                now,
                true,
            );
            let (over, last) = advanced(finishing, RunSignalView::Stored(outcome), now, true);
            &&& report == RunActionView::Report(results.events)
            &&& results.content.len() == 0 ==> store == ended && finishing.phase is Over
            &&& results.content.len() > 0 ==> store is Store && store->Store_0.content
                == results.content && last == ended && over.phase is Over
        }),
{
}

/// Calls are answered together, and only once they are: what is stored after calls are
/// their results, in their order, those that there are.
pub proof fn law_results_answer_the_calls(
    run: RunView,
    outputs: Seq<Option<OutputView>>,
    now: u64,
    cancelled: bool,
)
    requires
        run.phase is Executing,
        outputs.len() == run.phase->calls.len(),
        forall|i: int| 0 <= i < outputs.len() ==> (#[trigger] outputs[i]) is Some,
    ensures
        ({
            let calls = run.phase->calls;
            let (delivering, report) = advanced(
                run,
                RunSignalView::Executed(outputs),
                now,
                cancelled,
            );
            let (finishing, store) = advanced(
                delivering,
                RunSignalView::Delivered(true),
                now,
                cancelled,
            );
            &&& report is Report && report->Report_0.len() == calls.len()
            &&& calls.len() > 0 ==> store is Store && store->Store_0.role == MessageRole::User
                && store->Store_0.content.len() == calls.len() && forall|i: int|
                0 <= i < calls.len() ==> (#[trigger] store->Store_0.content[i])
                    == (BlockView::ToolResult {
                    tool_use_id: calls[i].tool_id,
                    content: outputs[i]->0.output,
                    is_error: outputs[i]->0.is_error,
                })
        }),
{
    law_results_come_in_order(run.reads, run.phase->calls, outputs, outputs.len() as int);
}

} // verus!
