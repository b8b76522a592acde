//! The Chat Completions protocol: requests and the events of the answer.
use std::collections::BTreeMap;

use vstd::prelude::*;

use crate::client::{ProviderRequest, RequestView, ToolDefinition, ToolView};
use crate::client;
use crate::config::ProviderConfig;
use crate::conversation::{BlockView, ContentBlock, ConversationMessage, MessageRole, MessageView};
use crate::conversation;
use crate::events::{
    LlmError, LlmErrorView, LlmEvent, LlmEventView, StopReason, StopReasonView, Usage,
};
use crate::events;
use crate::http::SseDecoder;
use crate::json::{Json, JsonView, Members};
use crate::json;
use crate::limits;
use crate::response;
use crate::sse::{SseEvent, SseEventView};
use crate::text;

verus! {

/// A tool call of the answer.
#[derive(Debug)]
pub struct ChatToolCall {
    id: String,
    name: String,
    arguments: String,
    started: bool,
    completed: bool,
}

/// What a [`ChatToolCall`] holds.
#[verifier::ext_equal]
pub struct CallView {
    pub id: Seq<char>,
    pub name: Seq<char>,
    pub arguments: Seq<char>,
    pub started: bool,
    pub completed: bool,
}

impl View for ChatToolCall {
    type V = CallView;

    closed spec fn view(&self) -> CallView {
        CallView {
            id: self.id@,
            name: self.name@,
            arguments: self.arguments@,
            started: self.started,
            completed: self.completed,
        }
    }
}

/// A tool call of which nothing is known.
pub open spec fn fresh_call() -> CallView {
    CallView {
        id: Seq::empty(),
        name: Seq::empty(),
        arguments: Seq::empty(),
        started: false,
        completed: false,
    }
}

impl Default for ChatToolCall {
    fn default() -> (call: Self)
        ensures
            call@ == fresh_call(),
    {
        ChatToolCall {
            id: String::new(),
            name: String::new(),
            arguments: String::new(),
            started: false,
            completed: false,
        }
    }
}

/// What is remembered of the answer so far.
#[derive(Debug)]
pub struct ChatCompletionsStreamState {
    usage: Usage,
    stop_reason: Option<StopReason>,
    stream_end_emitted: bool,
    tool_calls: BTreeMap<u64, ChatToolCall>,
}

/// What a [`ChatCompletionsStreamState`] holds.
#[verifier::ext_equal]
pub struct ChatMemory {
    pub usage: Usage,
    pub stop_reason: Option<StopReasonView>,
    pub stream_end_emitted: bool,
    pub tool_calls: Map<u64, CallView>,
}

impl View for ChatCompletionsStreamState {
    type V = ChatMemory;

    closed spec fn view(&self) -> ChatMemory {
        ChatMemory {
            usage: self.usage,
            stop_reason: events::optional_stop_reason(self.stop_reason),
            stream_end_emitted: self.stream_end_emitted,
            tool_calls: self.tool_calls@.map_values(|call: ChatToolCall| call@),
        }
    }
}

/// What is remembered before anything has arrived.
pub open spec fn fresh_memory() -> ChatMemory {
    ChatMemory {
        usage: events::no_usage(),
        stop_reason: None,
        stream_end_emitted: false,
        tool_calls: Map::empty(),
    }
}

impl Default for ChatCompletionsStreamState {
    fn default() -> (state: Self)
        ensures
            state@ == fresh_memory(),
    {
        let state = ChatCompletionsStreamState {
            usage: Usage::default(),
            stop_reason: None,
            stream_end_emitted: false,
            tool_calls: BTreeMap::new(),
        };
        assert(state@.tool_calls =~= fresh_memory().tool_calls);
        state
    }
}

/// What an event comes to: what is remembered after it, and what it stands for.
pub type Decoding = (ChatMemory, Result<Seq<LlmEventView>, LlmErrorView>);

/// What happens to the tool calls, and what is reported of it.
pub type CallChange = (Map<u64, CallView>, Result<Seq<LlmEventView>, LlmErrorView>);

/// The stop reason that the provider calls `value`.
pub open spec fn stop_reason_named(value: Seq<char>) -> StopReasonView {
    if value == "tool_calls"@ {
        StopReasonView::ToolUse
    } else if value == "stop"@ {
        StopReasonView::EndTurn
    } else if value == "length"@ {
        StopReasonView::MaxTokens
    } else {
        StopReasonView::Other(value)
    }
}

/// The stop reason that the provider calls `value`.
pub fn chat_stop_reason(value: &str) -> (reason: StopReason)
    ensures
        reason@ == stop_reason_named(value@),
{
    if text::same_text(value, "tool_calls") {
        StopReason::ToolUse
    } else if text::same_text(value, "stop") {
        StopReason::EndTurn
    } else if text::same_text(value, "length") {
        StopReason::MaxTokens
    } else {
        StopReason::Other(text::copy_text(value))
    }
}

/// The end of the answer. It is reported once.
pub open spec fn ended(memory: ChatMemory) -> (ChatMemory, Seq<LlmEventView>) {
    if memory.stream_end_emitted {
        (memory, Seq::empty())
    } else {
        (
            ChatMemory { stream_end_emitted: true, ..memory },
            seq![
                LlmEventView::StreamEnd {
                    stop_reason: events::stop_reason_or_end(memory.stop_reason),
                    usage: memory.usage,
                },
            ],
        )
    }
}

/// The usage after an event: what the event reports, where it reports that something
/// was read. What was read from the cache does not count as read anew.
pub open spec fn usage_after(usage: Usage, data: JsonView) -> Usage {
    match json::member(data, "usage"@) {
        Some(reported) => {
            let prompt = json::unsigned_or_zero(json::member(reported, "prompt_tokens"@));
            let cached = json::unsigned_or_zero(
                json::member_of_member(reported, "prompt_tokens_details"@, "cached_tokens"@),
            );
            if prompt > 0 {
                Usage {
                    input_tokens: if prompt >= cached {
                        (prompt - cached) as u64
                    } else {
                        0u64
                    },
                    output_tokens: json::unsigned_or_zero(
                        json::member(reported, "completion_tokens"@),
                    ),
                    cache_read_tokens: cached,
                    cache_creation_tokens: 0,
                }
            } else {
                usage
            }
        },
        None => usage,
    }
}

/// The first choice of an event.
pub open spec fn first_choice(data: JsonView) -> Option<JsonView> {
    match json::as_items(json::member(data, "choices"@)) {
        Some(choices) => if choices.len() > 0 {
            Some(choices[0])
        } else {
            None
        },
        None => None,
    }
}

/// The text that a choice adds, if it adds any.
pub open spec fn text_events(choice: JsonView) -> Seq<LlmEventView> {
    match json::as_text(json::member_of_member(choice, "delta"@, "content"@)) {
        Some(text) => if text.len() > 0 {
            seq![LlmEventView::TextDelta { text }]
        } else {
            Seq::empty()
        },
        None => Seq::empty(),
    }
}

/// A tool call with what a piece says of it.
pub open spec fn extended(call: CallView, piece: JsonView) -> CallView {
    let name = match json::as_text(json::member_of_member(piece, "function"@, "name"@)) {
        Some(name) => name,
        None => call.name,
    };
    CallView {
        id: match json::as_text(json::member(piece, "id"@)) {
            Some(id) => id,
            None => call.id,
        },
        name,
        arguments: call.arguments + piece_arguments(piece),
        started: call.started || name.len() > 0,
        completed: call.completed,
    }
}

/// The arguments that a piece of a tool call adds.
pub open spec fn piece_arguments(piece: JsonView) -> Seq<char> {
    match json::as_text(json::member_of_member(piece, "function"@, "arguments"@)) {
        Some(arguments) => arguments,
        None => Seq::empty(),
    }
}

/// What is reported of a piece of a tool call: its start once its name is known, and
/// the arguments that it adds.
pub open spec fn piece_events(call: CallView, piece: JsonView) -> Seq<LlmEventView> {
    let after = extended(call, piece);
    let start = if !call.started && after.started {
        seq![LlmEventView::ToolCallStart { tool_id: after.id, tool_name: after.name }]
    } else {
        Seq::empty()
    };
    let more = if piece_arguments(piece).len() > 0 {
        seq![LlmEventView::ToolCallDelta { text: piece_arguments(piece) }]
    } else {
        Seq::empty()
    };
    start + more
}

/// The tool call under `index`, or a fresh one.
pub open spec fn call_at(calls: Map<u64, CallView>, index: u64) -> CallView {
    if calls.contains_key(index) {
        calls[index]
    } else {
        fresh_call()
    }
}

/// The error for a piece of a tool call that does not say which.
pub open spec fn missing_index() -> LlmErrorView {
    response::invalid("OpenAI-compatible tool call is missing index"@)
}

/// What a piece of a tool call does.
pub open spec fn piece_added(calls: Map<u64, CallView>, piece: JsonView) -> CallChange {
    match json::as_unsigned(json::member(piece, "index"@)) {
        None => (calls, Err(missing_index())),
        Some(index) => (
            calls.insert(index, extended(call_at(calls, index), piece)),
            Ok(piece_events(call_at(calls, index), piece)),
        ),
    }
}

/// What pieces of tool calls do, one after the other up to an error.
pub open spec fn pieces_added(calls: Map<u64, CallView>, pieces: Seq<JsonView>) -> CallChange
    decreases pieces.len(),
{
    if pieces.len() == 0 {
        (calls, Ok(Seq::empty()))
    } else {
        let (before, outcome) = pieces_added(calls, pieces.drop_last());
        match outcome {
            Err(error) => (before, Err(error)),
            Ok(reported) => {
                let (after, last) = piece_added(before, pieces.last());
                match last {
                    Err(error) => (after, Err(error)),
                    Ok(more) => (after, Ok(reported + more)),
                }
            },
        }
    }
}

/// The pieces of tool calls in a choice.
pub open spec fn call_pieces(choice: JsonView) -> Seq<JsonView> {
    match json::as_items(json::member_of_member(choice, "delta"@, "tool_calls"@)) {
        Some(pieces) => pieces,
        None => Seq::empty(),
    }
}

/// What the end of the tool call under `index` does: it is reported, unless it was
/// before.
pub open spec fn call_ended(calls: Map<u64, CallView>, index: u64) -> CallChange {
    let call = calls[index];
    if call.completed {
        (calls, Ok(Seq::empty()))
    } else {
        (
            calls.insert(index, CallView { completed: true, ..call }),
            response::call_completed(
                "OpenAI-compatible"@,
                call.id,
                call.name,
                response::collected_arguments(call.arguments),
            ),
        )
    }
}

/// What the end of the tool calls under `keys` does, one after the other up to an
/// error.
pub open spec fn calls_ended(calls: Map<u64, CallView>, keys: Seq<u64>) -> CallChange
    decreases keys.len(),
{
    if keys.len() == 0 {
        (calls, Ok(Seq::empty()))
    } else {
        let (before, outcome) = calls_ended(calls, keys.drop_last());
        match outcome {
            Err(error) => (before, Err(error)),
            Ok(reported) => {
                let (after, last) = call_ended(before, keys.last());
                match last {
                    Err(error) => (after, Err(error)),
                    Ok(more) => (after, Ok(reported + more)),
                }
            },
        }
    }
}

/// Whether `keys` are the members of `set` in ascending order.
pub open spec fn in_order(keys: Seq<u64>, set: Set<u64>) -> bool {
    &&& forall|i: int, j: int| 0 <= i < j < keys.len() ==> keys[i] < keys[j]
    &&& forall|key: u64| set.contains(key) <==> keys.contains(key)
}

/// The members of `set` in ascending order.
pub open spec fn ascending(set: Set<u64>) -> Seq<u64> {
    choose|keys: Seq<u64>| in_order(keys, set)
}

/// What a choice comes to.
pub open spec fn choice_made(memory: ChatMemory, choice: JsonView) -> Decoding {
    let (calls, outcome) = pieces_added(memory.tool_calls, call_pieces(choice));
    let after = ChatMemory { tool_calls: calls, ..memory };
    match outcome {
        Err(error) => (after, Err(error)),
        Ok(pieces) => {
            let reported = text_events(choice) + pieces;
            match json::as_text(json::member(choice, "finish_reason"@)) {
                None => (after, Ok(reported)),
                Some(reason) => {
                    let (done, last) = calls_ended(calls, ascending(calls.dom()));
                    let finished = ChatMemory {
                        stop_reason: Some(stop_reason_named(reason)),
                        tool_calls: done,
                        ..memory
                    };
                    match last {
                        Err(error) => (finished, Err(error)),
                        Ok(more) => (finished, Ok(reported + more)),
                    }
                },
            }
        },
    }
}

/// What the data of an event comes to. An event without a choice ends the answer,
/// once the usage is known.
pub open spec fn data_received(memory: ChatMemory, data: JsonView) -> Decoding {
    let counted = ChatMemory { usage: usage_after(memory.usage, data), ..memory };
    match first_choice(data) {
        Some(choice) => choice_made(counted, choice),
        None => if counted.usage.input_tokens > 0 || counted.usage.output_tokens > 0 {
            let (after, reported) = ended(counted);
            (after, Ok(reported))
        } else {
            (counted, Ok(Seq::empty()))
        },
    }
}

/// What an event comes to, `data` being what was read of its data.
pub open spec fn decoded_data(memory: ChatMemory, data: Result<JsonView, Seq<char>>) -> Decoding {
    match data {
        Ok(data) => data_received(memory, data),
        Err(message) => (memory, Err(response::no_json("OpenAI-compatible"@, message))),
    }
}

/// Two ascending sequences of the same members are the same.
proof fn lemma_order_is_unique(left: Seq<u64>, right: Seq<u64>, set: Set<u64>)
    requires
        in_order(left, set),
        in_order(right, set),
    ensures
        left == right,
    decreases left.len(),
{
    if left.len() == 0 {
        if right.len() > 0 {
            assert(right.contains(right[0]));
            assert(left.contains(right[0]));
        }
        assert(left =~= right);
    } else {
        let top = left.last();
        assert(left.contains(left[left.len() - 1]));
        assert(right.contains(top));
        let at = choose|i: int| 0 <= i < right.len() && right[i] == top;
        if at < right.len() - 1 {
            let higher = right.last();
            assert(right.contains(right[right.len() - 1]));
            assert(left.contains(higher));
            let other = choose|i: int| 0 <= i < left.len() && left[i] == higher;
            assert(other == left.len() - 1 || left[other] < left[left.len() - 1]);
            assert(right[at] < right[right.len() - 1]);
            assert(false);
        }
        let rest = set.remove(top);
        lemma_order_without_last(left, set);
        lemma_order_without_last(right, set);
        lemma_order_is_unique(left.drop_last(), right.drop_last(), rest);
        assert(left =~= left.drop_last().push(top));
        assert(right =~= right.drop_last().push(top));
    }
}

/// Without its last member, an ascending sequence is that of the other members.
proof fn lemma_order_without_last(keys: Seq<u64>, set: Set<u64>)
    requires
        in_order(keys, set),
        keys.len() > 0,
    ensures
        in_order(keys.drop_last(), set.remove(keys.last())),
{
    let fewer = keys.drop_last();
    assert forall|key: u64| set.remove(keys.last()).contains(key) <==> fewer.contains(key) by {
        if set.remove(keys.last()).contains(key) {
            assert(keys.contains(key));
            let at = choose|i: int| 0 <= i < keys.len() && keys[i] == key;
            assert(fewer[at] == key);
        }
        if fewer.contains(key) {
            let at = choose|i: int| 0 <= i < fewer.len() && fewer[i] == key;
            assert(keys[at] == key);
            assert(keys.contains(key));
            assert(keys[at] < keys[keys.len() - 1]);
        }
    }
}

/// An ascending sequence of the members of a set is [`ascending`].
proof fn lemma_ascending(keys: Seq<u64>, set: Set<u64>)
    requires
        in_order(keys, set),
    ensures
        ascending(set) == keys,
{
    lemma_order_is_unique(ascending(set), keys, set);
}

/// The keys of entries.
spec fn entry_keys(entries: Seq<(&u64, &ChatToolCall)>) -> Seq<u64> {
    entries.map_values(|entry: (&u64, &ChatToolCall)| *entry.0)
}

/// The keys of the entries of a map, where they ascend, are its keys in order.
broadcast proof fn lemma_entry_keys(
    entries: Seq<(&u64, &ChatToolCall)>,
    calls: Map<u64, ChatToolCall>,
)
    requires
        entries.unref().to_set() == #[trigger] calls.kv_pairs(),
        vstd::std_specs::btree::increasing_seq(#[trigger] entry_keys(entries)),
    ensures
        in_order(entry_keys(entries), calls.dom()),
{
    broadcast use vstd::std_specs::btree::group_btree_axioms;
    broadcast use vstd::laws_cmp::group_laws_cmp;

    let keys = entry_keys(entries);
    assert(vstd::laws_cmp::obeys_cmp::<u64>());
    assert forall|i: int, j: int| 0 <= i < j < keys.len() implies keys[i] < keys[j] by {
        assert(vstd::std_specs::cmp::OrdSpec::cmp_spec(&keys[i], &keys[j]) is Less);
    }
    assert forall|key: u64| calls.dom().contains(key) <==> keys.contains(key) by {
        if calls.dom().contains(key) {
            assert(calls.kv_pairs().contains((key, calls[key])));
            assert(entries.unref().contains((key, calls[key])));
            let at = choose|i: int|
                0 <= i < entries.unref().len() && entries.unref()[i] == (key, calls[key]);
            assert(keys[at] == key);
        }
        if keys.contains(key) {
            let at = choose|i: int| 0 <= i < keys.len() && keys[i] == key;
            assert(entries.unref()[at].0 == key);
            assert(entries.unref().contains(entries.unref()[at]));
            assert(entries.unref().to_set().contains(entries.unref()[at]));
        }
    }
}

/// The keys of the tool calls in ascending order.
fn call_keys(calls: &BTreeMap<u64, ChatToolCall>) -> (keys: Vec<u64>)
    ensures
        keys@ == ascending(calls@.dom()),
        in_order(keys@, calls@.dom()),
{
    broadcast use vstd::std_specs::btree::group_btree_axioms;
    broadcast use vstd::laws_cmp::group_laws_cmp;
    broadcast use lemma_entry_keys;

    let mut keys: Vec<u64> = Vec::new();
    for entry in iter: calls.iter()
        invariant
            keys@ == entry_keys(iter.seq()).take(iter.index()),
            in_order(entry_keys(iter.seq()), calls@.dom()),
            iter.index() == iter.seq().len() ==> keys@ =~= entry_keys(iter.seq()),
    {
        keys.push(*entry.0);
        assert(keys@ =~= entry_keys(iter.seq()).take(iter.index() + 1));
    }
    proof {
        lemma_ascending(keys@, calls@.dom());
    }
    keys
}

impl ChatToolCall {
    /// Takes in what a piece says of the call, and gives what is reported of it.
    fn extend(&mut self, piece: &Json) -> (reported: Vec<LlmEvent>)
        ensures
            final(self)@ == extended(old(self)@, piece@),
            events::event_views(reported@) == piece_events(old(self)@, piece@),
    {
        let mut reported: Vec<LlmEvent> = Vec::new();
        if let Some(id) = json::text_in(piece.get("id")) {
            self.id = id;
        }
        if let Some(name) = json::text_in(piece.get_in("function", "name")) {
            self.name = name;
        }
        if !self.started && !self.name.as_str().is_empty() {
            self.started = true;
            reported.push(
                LlmEvent::ToolCallStart { tool_id: self.id.clone(), tool_name: self.name.clone() },
            );
        }
        let ghost first = events::event_views(reported@);
        if let Some(arguments) = json::text_in(piece.get_in("function", "arguments")) {
            self.arguments.append(arguments.as_str());
            if !arguments.as_str().is_empty() {
                reported.push(LlmEvent::ToolCallDelta { text: arguments });
            }
        }
        assert(self@.arguments =~= extended(old(self)@, piece@).arguments);
        assert(events::event_views(reported@) =~= piece_events(old(self)@, piece@));
        reported
    }
}

impl ChatCompletionsStreamState {
    /// The end of the answer, which is reported once.
    fn stream_end(&mut self) -> (reported: Vec<LlmEvent>)
        ensures
            ended(old(self)@) == (final(self)@, events::event_views(reported@)),
    {
        if self.stream_end_emitted {
            return events::no_events();
        }
        self.stream_end_emitted = true;
        events::one_event(
            LlmEvent::StreamEnd {
                stop_reason: events::reported_stop_reason(&self.stop_reason),
                usage: self.usage,
            },
        )
    }

    /// Puts a call under `index`.
    fn put_call(&mut self, index: u64, call: ChatToolCall)
        ensures
            final(self)@ == (ChatMemory {
                tool_calls: old(self)@.tool_calls.insert(index, call@),
                ..old(self)@
            }),
    {
        self.tool_calls.insert(index, call);
        assert(self@.tool_calls =~= old(self)@.tool_calls.insert(index, call@));
    }

    /// Takes the call under `index` out.
    fn take_call(&mut self, index: u64) -> (call: Option<ChatToolCall>)
        ensures
            final(self)@ == (ChatMemory {
                tool_calls: old(self)@.tool_calls.remove(index),
                ..old(self)@
            }),
            match call {
                Some(call) => old(self)@.tool_calls.contains_key(index)
                    && old(self)@.tool_calls[index] == call@,
                None => !old(self)@.tool_calls.contains_key(index),
            },
    {
        let call = self.tool_calls.remove(&index);
        assert(self@.tool_calls =~= old(self)@.tool_calls.remove(index));
        call
    }

    /// Takes in a piece of a tool call.
    fn decode_tool_call(&mut self, tool_call: &Json) -> (outcome: Result<Vec<LlmEvent>, LlmError>)
        ensures
            piece_added(old(self)@.tool_calls, tool_call@) == (
                final(self)@.tool_calls,
                events::decoded_view(outcome),
            ),
            final(self)@ == (ChatMemory { tool_calls: final(self)@.tool_calls, ..old(self)@ }),
    {
        let index = match json::unsigned_in(tool_call.get("index")) {
            Some(index) => index,
            None => {
                return Err(
                    LlmError::InvalidResponse {
                        message: text::copy_text("OpenAI-compatible tool call is missing index"),
                    },
                );
            },
        };
        let mut call = match self.take_call(index) {
            Some(call) => call,
            None => ChatToolCall::default(),
        };
        let reported = call.extend(tool_call);
        self.put_call(index, call);
        assert(self@.tool_calls =~= old(self)@.tool_calls.insert(index, call@));
        Ok(reported)
    }

    /// Takes in pieces of tool calls, and adds what is reported of them to `reported`.
    fn decode_tool_calls(&mut self, pieces: &Vec<Json>, reported: &mut Vec<LlmEvent>) -> (outcome:
        Result<(), LlmError>)
        ensures
            ({
                let (calls, change) = pieces_added(
                    old(self)@.tool_calls,
                    json::json_views(pieces@),
                );
                &&& final(self)@ == (ChatMemory { tool_calls: calls, ..old(self)@ })
                &&& match outcome {
                    Ok(_) => change is Ok && events::event_views(final(reported)@)
                        == events::event_views(old(reported)@) + change->Ok_0,
                    Err(error) => change is Err && error@ == change->Err_0,
                }
            }),
    {
        let ghost all = json::json_views(pieces@);
        let ghost before = events::event_views(reported@);
        let mut i: usize = 0;
        assert(before + Seq::<LlmEventView>::empty() =~= before);
        while i < pieces.len()
            invariant
                i <= pieces@.len(),
                all == json::json_views(pieces@),
                pieces_added(old(self)@.tool_calls, all.take(i as int)).1 is Ok,
                self@ == (ChatMemory {
                    tool_calls: pieces_added(old(self)@.tool_calls, all.take(i as int)).0,
                    ..old(self)@
                }),
                events::event_views(reported@) == before + pieces_added(
                    old(self)@.tool_calls,
                    all.take(i as int),
                ).1->Ok_0,
            decreases pieces@.len() - i,
        {
            assert(all.take(i + 1).drop_last() =~= all.take(i as int));
            assert(all.take(i + 1).last() == pieces@[i as int]@);
            let ghost so_far = events::event_views(reported@);
            match self.decode_tool_call(&pieces[i]) {
                Ok(more) => {
                    let ghost added = events::event_views(more@);
                    let mut more = more;
                    reported.append(&mut more);
                    assert(events::event_views(reported@) =~= so_far + added);
                    assert(so_far + added =~= before + (pieces_added(
                        old(self)@.tool_calls,
                        all.take(i as int),
                    ).1->Ok_0 + added));
                },
                Err(error) => {
                    proof {
                        lemma_error_stays(old(self)@.tool_calls, all, i + 1);
                    }
                    return Err(error);
                },
            }
            i += 1;
        }
        assert(all.take(i as int) =~= all);
        Ok(())
    }

    /// Ends the tool calls, and adds what is reported of them to `reported`.
    fn end_tool_calls(&mut self, reported: &mut Vec<LlmEvent>) -> (outcome: Result<(), LlmError>)
        ensures
            ({
                let (calls, change) = calls_ended(
                    old(self)@.tool_calls,
                    ascending(old(self)@.tool_calls.dom()),
                );
                &&& final(self)@ == (ChatMemory { tool_calls: calls, ..old(self)@ })
                &&& match outcome {
                    Ok(_) => change is Ok && events::event_views(final(reported)@)
                        == events::event_views(old(reported)@) + change->Ok_0,
                    Err(error) => change is Err && error@ == change->Err_0,
                }
            }),
    {
        let keys = call_keys(&self.tool_calls);
        let ghost all = keys@;
        let ghost before = events::event_views(reported@);
        assert(self.tool_calls@.dom() =~= self@.tool_calls.dom());
        proof {
            lemma_has_order(self.tool_calls@.dom(), all);
        }
        let mut i: usize = 0;
        assert(before + Seq::<LlmEventView>::empty() =~= before);
        while i < keys.len()
            invariant
                i <= keys@.len(),
                all == keys@,
                calls_ended(old(self)@.tool_calls, all.take(i as int)).1 is Ok,
                self@ == (ChatMemory {
                    tool_calls: calls_ended(old(self)@.tool_calls, all.take(i as int)).0,
                    ..old(self)@
                }),
                self@.tool_calls.dom() == old(self)@.tool_calls.dom(),
                forall|j: int| 0 <= j < all.len() ==> old(self)@.tool_calls.contains_key(all[j]),
                all == ascending(old(self)@.tool_calls.dom()),
                events::event_views(reported@) == before + calls_ended(
                    old(self)@.tool_calls,
                    all.take(i as int),
                ).1->Ok_0,
            decreases keys@.len() - i,
        {
            assert(all.take(i + 1).drop_last() =~= all.take(i as int));
            assert(all.take(i + 1).last() == all[i as int]);
            let ghost so_far = events::event_views(reported@);
            let ghost calls = self@.tool_calls;
            let index = keys[i];
            assert(old(self)@.tool_calls.contains_key(all[i as int]));
            assert(calls.contains_key(index));
            if let Some(call) = self.take_call(index) {
                let mut call = call;
                if call.completed {
                    self.put_call(index, call);
                    assert(self@.tool_calls =~= calls);
                    assert(so_far + Seq::<LlmEventView>::empty() =~= so_far);
                    assert(events::event_views(reported@) =~= before + (calls_ended(
                        old(self)@.tool_calls,
                        all.take(i as int),
                    ).1->Ok_0 + Seq::<LlmEventView>::empty()));
                } else {
                    call.completed = true;
                    let outcome = response::complete_call(
                        "OpenAI-compatible",
                        call.id.clone(),
                        call.name.clone(),
                        response::collect_arguments(call.arguments.as_str()),
                    );
                    self.put_call(index, call);
                    assert(self@.tool_calls =~= call_ended(calls, index).0);
                    assert(self@.tool_calls.dom() =~= calls.dom());
                    match outcome {
                        Ok(more) => {
                            let ghost added = events::event_views(more@);
                            let mut more = more;
                            reported.append(&mut more);
                            assert(events::event_views(reported@) =~= so_far + added);
                            assert(so_far + added =~= before + (calls_ended(
                                old(self)@.tool_calls,
                                all.take(i as int),
                            ).1->Ok_0 + added));
                        },
                        Err(error) => {
                            proof {
                                lemma_end_error_stays(old(self)@.tool_calls, all, i + 1);
                            }
                            return Err(error);
                        },
                    }
                }
            }
            i += 1;
        }
        assert(all.take(i as int) =~= all);
        Ok(())
    }

    /// Takes in the usage that an event reports.
    fn count(&mut self, data: &Json)
        ensures
            final(self)@ == (ChatMemory {
                usage: usage_after(old(self)@.usage, data@),
                ..old(self)@
            }),
    {
        if let Some(usage) = data.get("usage") {
            let prompt = json::unsigned_in_or_zero(usage.get("prompt_tokens"));
            if prompt > 0 {
                let cached = json::unsigned_in_or_zero(
                    usage.get_in("prompt_tokens_details", "cached_tokens"),
                );
                self.usage = Usage {
                    input_tokens: if prompt >= cached {
                        prompt - cached
                    } else {
                        0
                    },
                    output_tokens: json::unsigned_in_or_zero(usage.get("completion_tokens")),
                    cache_read_tokens: cached,
                    cache_creation_tokens: 0,
                };
            }
        }
    }

    /// What a choice comes to.
    fn choose_first(&mut self, choice: &Json) -> (outcome: Result<Vec<LlmEvent>, LlmError>)
        ensures
            choice_made(old(self)@, choice@) == (final(self)@, events::decoded_view(outcome)),
    {
        let mut reported: Vec<LlmEvent> = Vec::new();
        if let Some(content) = json::text_in(choice.get_in("delta", "content")) {
            if !content.as_str().is_empty() {
                reported.push(LlmEvent::TextDelta { text: content });
            }
        }
        assert(events::event_views(reported@) =~= text_events(choice@));
        if let Some(pieces) = choice.get_in("delta", "tool_calls") {
            proof {
                json::lemma_container_views(*pieces);
            }
            if let Json::Array(pieces) = pieces {
                match self.decode_tool_calls(pieces, &mut reported) {
                    Ok(_) => {},
                    Err(error) => {
                        return Err(error);
                    },
                }
            }
        }
        let ghost after = ChatMemory {
            tool_calls: pieces_added(old(self)@.tool_calls, call_pieces(choice@)).0,
            ..old(self)@
        };
        assert(self@ =~= after);
        assert(events::event_views(reported@) =~= text_events(choice@) + pieces_added(
            old(self)@.tool_calls,
            call_pieces(choice@),
        ).1->Ok_0);
        if let Some(reason) = json::text_in(choice.get("finish_reason")) {
            self.stop_reason = Some(chat_stop_reason(reason.as_str()));
            match self.end_tool_calls(&mut reported) {
                Ok(_) => {},
                Err(error) => {
                    return Err(error);
                },
            }
        }
        Ok(reported)
    }

    /// What an event comes to, `data` being what was read of its data.
    pub fn decode_data(&mut self, data: Result<Json, String>) -> (outcome: Result<
        Vec<LlmEvent>,
        LlmError,
    >)
        ensures
            decoded_data(old(self)@, json::outcome_view(data)) == (
                final(self)@,
                events::decoded_view(outcome),
            ),
    {
        let data = match data {
            Ok(data) => data,
            Err(message) => {
                return Err(response::no_json_error("OpenAI-compatible", message.as_str()));
            },
        };
        self.count(&data);
        if let Some(choices) = data.get("choices") {
            proof {
                json::lemma_container_views(*choices);
            }
            if let Json::Array(choices) = choices {
                if choices.len() > 0 {
                    return self.choose_first(&choices[0]);
                }
            }
        }
        if self.usage.input_tokens > 0 || self.usage.output_tokens > 0 {
            return Ok(self.stream_end());
        }
        Ok(events::no_events())
    }
}

/// Once a piece of a tool call is wrong, what comes after it does nothing.
proof fn lemma_error_stays(calls: Map<u64, CallView>, pieces: Seq<JsonView>, at: int)
    requires
        0 <= at <= pieces.len(),
        pieces_added(calls, pieces.take(at)).1 is Err,
    ensures
        pieces_added(calls, pieces) == pieces_added(calls, pieces.take(at)),
    decreases pieces.len() - at,
{
    if at == pieces.len() {
        assert(pieces.take(at) =~= pieces);
    } else {
        assert(pieces.take(at + 1).drop_last() =~= pieces.take(at));
        lemma_error_stays(calls, pieces, at + 1);
    }
}

/// Once the end of a tool call is wrong, the ends after it do nothing.
proof fn lemma_end_error_stays(calls: Map<u64, CallView>, keys: Seq<u64>, at: int)
    requires
        0 <= at <= keys.len(),
        calls_ended(calls, keys.take(at)).1 is Err,
    ensures
        calls_ended(calls, keys) == calls_ended(calls, keys.take(at)),
    decreases keys.len() - at,
{
    if at == keys.len() {
        assert(keys.take(at) =~= keys);
    } else {
        assert(keys.take(at + 1).drop_last() =~= keys.take(at));
        lemma_end_error_stays(calls, keys, at + 1);
    }
}

/// Each key of an ascending enumeration of a set belongs to the set.
proof fn lemma_has_order(set: Set<u64>, keys: Seq<u64>)
    requires
        in_order(keys, set),
    ensures
        forall|j: int| 0 <= j < keys.len() ==> set.contains(keys[j]),
{
    assert forall|j: int| 0 <= j < keys.len() implies set.contains(keys[j]) by {
        assert(keys.contains(keys[j]));
    }
}

impl SseDecoder for ChatCompletionsStreamState {
    type Memory = ChatMemory;

    open spec fn memory(&self) -> ChatMemory {
        self@
    }

    open spec fn decoding(memory: ChatMemory, event: SseEventView) -> (
        ChatMemory,
        Result<Seq<LlmEventView>, LlmErrorView>,
    ) {
        if text::trimmed(event.data) == "[DONE]"@ {
            let (after, reported) = ended(memory);
            (after, Ok(reported))
        } else {
            decoded_data(memory, json::parsed_json(event.data))
        }
    }

    open spec fn finishing(memory: ChatMemory) -> (
        ChatMemory,
        Result<Seq<LlmEventView>, LlmErrorView>,
    ) {
        let (after, reported) = ended(memory);
        (after, Ok(reported))
    }

    fn decode(&mut self, event: &SseEvent) -> (outcome: Result<Vec<LlmEvent>, LlmError>) {
        let trimmed = text::trim(event.data.as_str());
        if text::same_text(trimmed.as_str(), "[DONE]") {
            return Ok(self.stream_end());
        }
        let data = Json::parse(event.data.as_str());
        self.decode_data(data)
    }

    fn finish(&mut self) -> (outcome: Result<Vec<LlmEvent>, LlmError>) {
        Ok(self.stream_end())
    }
}

/// Whether one of `reported` is the end of the answer.
pub open spec fn reports_end(reported: Seq<LlmEventView>) -> bool {
    exists|i: int| 0 <= i < reported.len() && (#[trigger] reported[i]) is StreamEnd
}

/// What pieces of tool calls report is not the end of the answer.
proof fn lemma_pieces_do_not_end(calls: Map<u64, CallView>, pieces: Seq<JsonView>)
    ensures
        pieces_added(calls, pieces).1 is Ok ==> !reports_end(pieces_added(calls, pieces).1->Ok_0),
    decreases pieces.len(),
{
    if pieces.len() > 0 {
        lemma_pieces_do_not_end(calls, pieces.drop_last());
        if pieces_added(calls, pieces).1 is Ok {
            let before = pieces_added(calls, pieces.drop_last()).1->Ok_0;
            let all = pieces_added(calls, pieces).1->Ok_0;
            assert forall|i: int| 0 <= i < all.len() implies !(#[trigger] all[i] is StreamEnd) by {
                if i < before.len() {
                    assert(all[i] == before[i]);
                    assert(!(before[i] is StreamEnd));
                }
            }
        }
    }
}

/// What the ends of tool calls report is not the end of the answer.
proof fn lemma_call_ends_do_not_end(calls: Map<u64, CallView>, keys: Seq<u64>)
    ensures
        calls_ended(calls, keys).1 is Ok ==> !reports_end(calls_ended(calls, keys).1->Ok_0),
    decreases keys.len(),
{
    if keys.len() > 0 {
        lemma_call_ends_do_not_end(calls, keys.drop_last());
        if calls_ended(calls, keys).1 is Ok {
            let before = calls_ended(calls, keys.drop_last()).1->Ok_0;
            let all = calls_ended(calls, keys).1->Ok_0;
            assert forall|i: int| 0 <= i < all.len() implies !(#[trigger] all[i] is StreamEnd) by {
                if i < before.len() {
                    assert(all[i] == before[i]);
                    assert(!(before[i] is StreamEnd));
                }
            }
        }
    }
}

/// The end of an answer is reported at most once: an event that reports it is
/// remembered, what is remembered is never forgotten, and once it is remembered
/// neither an event nor the end of the stream reports it again.
pub proof fn law_end_is_reported_once(memory: ChatMemory, event: SseEventView)
    ensures
        memory.stream_end_emitted ==> ChatCompletionsStreamState::decoding(
            memory,
            event,
        ).0.stream_end_emitted,
        ({
            let (after, outcome) = ChatCompletionsStreamState::decoding(memory, event);
            outcome is Ok && reports_end(outcome->Ok_0) ==> !memory.stream_end_emitted
                && after.stream_end_emitted && outcome->Ok_0.len() == 1
        }),
        ({
            let (after, outcome) = ChatCompletionsStreamState::finishing(memory);
            outcome is Ok && after.stream_end_emitted && (reports_end(outcome->Ok_0)
                <==> !memory.stream_end_emitted) && outcome->Ok_0.len() <= 1
        }),
{
    let (closing, last) = ended(memory);
    if !memory.stream_end_emitted {
        assert(last[0] is StreamEnd);
    }
    if let Ok(data) = json::parsed_json(event.data) {
        let counted = ChatMemory { usage: usage_after(memory.usage, data), ..memory };
        if let Some(choice) = first_choice(data) {
            lemma_pieces_do_not_end(counted.tool_calls, call_pieces(choice));
            let (calls, outcome) = pieces_added(counted.tool_calls, call_pieces(choice));
            lemma_call_ends_do_not_end(calls, ascending(calls.dom()));
            let (after, result) = choice_made(counted, choice);
            if result is Ok {
                let pieces = outcome->Ok_0;
                let first = text_events(choice) + pieces;
                let all = result->Ok_0;
                assert forall|i: int| 0 <= i < all.len() implies !(#[trigger] all[i] is StreamEnd) by {
                    if i < text_events(choice).len() {
                        assert(all[i] == text_events(choice)[i]);
                    } else if i < first.len() {
                        assert(all[i] == pieces[i - text_events(choice).len()]);
                        assert(!(pieces[i - text_events(choice).len()] is StreamEnd));
                    } else {
                        let more = calls_ended(calls, ascending(calls.dom())).1->Ok_0;
                        assert(all[i] == more[i - first.len()]);
                        assert(!(more[i - first.len()] is StreamEnd));
                    }
                }
            }
        }
    }
}

/// What is needed to ask the provider.
#[derive(Debug, PartialEq, Eq)]
pub struct OpenAiCompatClient {
    api_key: String,
    base_url: String,
    model: String,
    max_output_tokens: u64,
}

/// What an [`OpenAiCompatClient`] holds.
#[verifier::ext_equal]
pub struct OpenAiCompatClientView {
    pub api_key: Seq<char>,
    pub base_url: Seq<char>,
    pub model: Seq<char>,
    pub max_output_tokens: u64,
}

impl View for OpenAiCompatClient {
    type V = OpenAiCompatClientView;

    closed spec fn view(&self) -> OpenAiCompatClientView {
        OpenAiCompatClientView {
            api_key: self.api_key@,
            base_url: self.base_url@,
            model: self.model@,
            max_output_tokens: self.max_output_tokens,
        }
    }
}

/// The texts of text blocks, one after the other.
pub open spec fn text_of(content: Seq<BlockView>) -> Seq<char>
    decreases content.len(),
{
    if content.len() == 0 {
        Seq::empty()
    } else {
        match content.last() {
            BlockView::Text { text } => text_of(content.drop_last()) + text,
            _ => text_of(content.drop_last()),
        }
    }
}

/// A message of text from that role.
pub open spec fn plain_message(role: Seq<char>, text: Seq<char>) -> JsonView {
    JsonView::Object(seq![("content"@, JsonView::Text(text)), ("role"@, JsonView::Text(role))])
}

/// A message of text from that role, unless there is no text.
pub open spec fn plain_messages(role: Seq<char>, text: Seq<char>) -> Seq<JsonView> {
    if text.len() > 0 {
        seq![plain_message(role, text)]
    } else {
        Seq::empty()
    }
}

/// The form of a tool call in a request. Its arguments are given as text.
pub open spec fn wire_call(
    tool_use_id: Seq<char>,
    tool_name: Seq<char>,
    arguments: JsonView,
) -> JsonView {
    JsonView::Object(
        seq![
            (
                "function"@,
                JsonView::Object(
                    seq![
                        ("arguments"@, JsonView::Text(json::json_text(arguments))),
                        ("name"@, JsonView::Text(tool_name)),
                    ],
                ),
            ),
            ("id"@, JsonView::Text(tool_use_id)),
            ("type"@, JsonView::Text("function"@)),
        ],
    )
}

/// The forms of the tool calls of a message.
pub open spec fn wire_calls(content: Seq<BlockView>) -> Seq<JsonView>
    decreases content.len(),
{
    if content.len() == 0 {
        Seq::empty()
    } else {
        match content.last() {
            BlockView::ToolUse { tool_use_id, tool_name, arguments } => wire_calls(
                content.drop_last(),
            ).push(wire_call(tool_use_id, tool_name, arguments)),
            _ => wire_calls(content.drop_last()),
        }
    }
}

/// The messages for the tool results of a message.
pub open spec fn result_messages(content: Seq<BlockView>) -> Seq<JsonView>
    decreases content.len(),
{
    if content.len() == 0 {
        Seq::empty()
    } else {
        match content.last() {
            BlockView::ToolResult { tool_use_id, content: text, .. } => result_messages(
                content.drop_last(),
            ).push(result_message(tool_use_id, text)),
            _ => result_messages(content.drop_last()),
        }
    }
}

/// The message for a tool result.
pub open spec fn result_message(tool_use_id: Seq<char>, text: Seq<char>) -> JsonView {
    JsonView::Object(
        seq![
            ("content"@, JsonView::Text(text)),
            ("role"@, JsonView::Text("tool"@)),
            ("tool_call_id"@, JsonView::Text(tool_use_id)),
        ],
    )
}

/// The message of an assistant that calls tools.
pub open spec fn calling_message(text: Seq<char>, calls: Seq<JsonView>) -> JsonView {
    if text.len() > 0 {
        JsonView::Object(
            seq![
                ("content"@, JsonView::Text(text)),
                ("role"@, JsonView::Text("assistant"@)),
                ("tool_calls"@, JsonView::Array(calls)),
            ],
        )
    } else {
        JsonView::Object(
            seq![
                ("role"@, JsonView::Text("assistant"@)),
                ("tool_calls"@, JsonView::Array(calls)),
            ],
        )
    }
}

/// The messages of a request for one message of the conversation. Thinking is left
/// out, and so is a message that says nothing.
pub open spec fn messages_for(message: MessageView) -> Seq<JsonView> {
    let text = text_of(message.content);
    match message.role {
        MessageRole::System => plain_messages("system"@, text),
        MessageRole::Assistant => if wire_calls(message.content).len() == 0 {
            plain_messages("assistant"@, text)
        } else {
            seq![calling_message(text, wire_calls(message.content))]
        },
        MessageRole::User => plain_messages("user"@, text) + result_messages(message.content),
    }
}

/// The messages of a request for a conversation.
pub open spec fn messages_of(system_prompt: Seq<char>, conversation: Seq<MessageView>) -> Seq<
    JsonView,
>
    decreases conversation.len(),
{
    if conversation.len() == 0 {
        plain_messages("system"@, system_prompt)
    } else {
        messages_of(system_prompt, conversation.drop_last()) + messages_for(conversation.last())
    }
}

/// The form of a tool in a request.
pub open spec fn wire_tool(tool: ToolView) -> JsonView {
    JsonView::Object(
        seq![
            (
                "function"@,
                JsonView::Object(
                    seq![
                        ("description"@, JsonView::Text(tool.description)),
                        ("name"@, JsonView::Text(tool.name)),
                        ("parameters"@, tool.parameters),
                        ("strict"@, JsonView::Bool(false)),
                    ],
                ),
            ),
            ("type"@, JsonView::Text("function"@)),
        ],
    )
}

/// The body of a request.
pub open spec fn body_of(client: OpenAiCompatClientView, request: RequestView) -> JsonView {
    let always = seq![
        ("max_tokens"@, JsonView::Unsigned(client.max_output_tokens)),
        (
            "messages"@,
            JsonView::Array(messages_of(request.system_prompt, request.conversation)),
        ),
        ("model"@, JsonView::Text(client.model)),
        ("stream"@, JsonView::Bool(true)),
        ("stream_options"@, JsonView::Object(seq![("include_usage"@, JsonView::Bool(true))])),
    ];
    let tools = if request.tools.len() > 0 {
        seq![
            (
                "tools"@,
                JsonView::Array(request.tools.map_values(|tool: ToolView| wire_tool(tool))),
            ),
        ]
    } else {
        Seq::empty()
    };
    JsonView::Object(always + tools)
}

/// The texts of text blocks, one after the other.
pub fn text_blocks(blocks: &Vec<ContentBlock>) -> (result: String)
    ensures
        result@ == text_of(conversation::block_views(blocks@)),
{
    let ghost all = conversation::block_views(blocks@);
    let mut result = String::new();
    let mut i: usize = 0;
    assert(result@ =~= text_of(all.take(0)));
    while i < blocks.len()
        invariant
            i <= blocks@.len(),
            all == conversation::block_views(blocks@),
            result@ == text_of(all.take(i as int)),
        decreases blocks@.len() - i,
    {
        assert(all.take(i + 1).drop_last() =~= all.take(i as int));
        assert(all.take(i + 1).last() == blocks@[i as int]@);
        if let ContentBlock::Text { text } = &blocks[i] {
            result.append(text.as_str());
        }
        i += 1;
    }
    assert(all.take(i as int) =~= all);
    result
}

/// Adds a message of text from that role, unless there is no text.
fn push_plain(messages: &mut Vec<Json>, role: &str, text: &str)
    ensures
        json::json_views(final(messages)@) == json::json_views(old(messages)@) + plain_messages(
            role@,
            text@,
        ),
{
    let ghost before = json::json_views(messages@);
    if !text.is_empty() {
        let message = Members::new().with("content", json::text_value(text)).with(
            "role",
            json::text_value(role),
        ).object();
        assert(message@->Object_0 =~= plain_message(role@, text@)->Object_0);
        messages.push(message);
        assert(json::json_views(messages@) =~= before + plain_messages(role@, text@));
    } else {
        assert(before + plain_messages(role@, text@) =~= before);
    }
}

/// The forms of the tool calls of a message.
fn call_values(blocks: &Vec<ContentBlock>) -> (calls: Vec<Json>)
    ensures
        json::json_views(calls@) == wire_calls(conversation::block_views(blocks@)),
{
    let ghost all = conversation::block_views(blocks@);
    let mut calls: Vec<Json> = Vec::new();
    let mut i: usize = 0;
    assert(json::json_views(calls@) =~= wire_calls(all.take(0)));
    while i < blocks.len()
        invariant
            i <= blocks@.len(),
            all == conversation::block_views(blocks@),
            json::json_views(calls@) == wire_calls(all.take(i as int)),
        decreases blocks@.len() - i,
    {
        assert(all.take(i + 1).drop_last() =~= all.take(i as int));
        assert(all.take(i + 1).last() == blocks@[i as int]@);
        let ghost before = json::json_views(calls@);
        if let ContentBlock::ToolUse { tool_use_id, tool_name, arguments } = &blocks[i] {
            let function = Members::new().with("arguments", Json::Text(arguments.to_text())).with(
                "name",
                json::text_value(tool_name.as_str()),
            ).object();
            assert(function@->Object_0 =~= seq![
                ("arguments"@, JsonView::Text(json::json_text(arguments@))),
                ("name"@, JsonView::Text(tool_name@)),
            ]);
            let call = Members::new().with("function", function).with(
                "id",
                json::text_value(tool_use_id.as_str()),
            ).with("type", json::text_value("function")).object();
            assert(call@->Object_0 =~= wire_call(
                tool_use_id@,
                tool_name@,
                arguments@,
            )->Object_0);
            calls.push(call);
            assert(json::json_views(calls@) =~= before.push(call@));
        }
        i += 1;
    }
    assert(all.take(i as int) =~= all);
    calls
}

/// Adds the messages for the tool results of a message.
fn push_results(messages: &mut Vec<Json>, blocks: &Vec<ContentBlock>)
    ensures
        json::json_views(final(messages)@) == json::json_views(old(messages)@) + result_messages(
            conversation::block_views(blocks@),
        ),
{
    let ghost all = conversation::block_views(blocks@);
    let ghost start = json::json_views(messages@);
    let mut i: usize = 0;
    assert(start + result_messages(all.take(0)) =~= start);
    while i < blocks.len()
        invariant
            i <= blocks@.len(),
            all == conversation::block_views(blocks@),
            json::json_views(messages@) == start + result_messages(all.take(i as int)),
        decreases blocks@.len() - i,
    {
        assert(all.take(i + 1).drop_last() =~= all.take(i as int));
        assert(all.take(i + 1).last() == blocks@[i as int]@);
        let ghost before = json::json_views(messages@);
        if let ContentBlock::ToolResult { tool_use_id, content, .. } = &blocks[i] {
            let message = Members::new().with("content", json::text_value(content.as_str())).with(
                "role",
                json::text_value("tool"),
            ).with("tool_call_id", json::text_value(tool_use_id.as_str())).object();
            assert(message@->Object_0 =~= result_message(tool_use_id@, content@)->Object_0);
            messages.push(message);
            assert(json::json_views(messages@) =~= before.push(message@));
            assert((start + result_messages(all.take(i as int))).push(message@) =~= start
                + result_messages(all.take(i as int)).push(message@));
        }
        i += 1;
    }
    assert(all.take(i as int) =~= all);
}

/// Adds the messages for one message of the conversation.
fn push_message(messages: &mut Vec<Json>, message: &ConversationMessage)
    ensures
        json::json_views(final(messages)@) == json::json_views(old(messages)@) + messages_for(
            message@,
        ),
{
    let ghost before = json::json_views(messages@);
    let text = text_blocks(&message.content);
    match message.role {
        MessageRole::System => {
            push_plain(messages, "system", text.as_str());
        },
        MessageRole::Assistant => {
            let calls = call_values(&message.content);
            assert(calls@.len() == json::json_views(calls@).len());
            if calls.len() == 0 {
                push_plain(messages, "assistant", text.as_str());
            } else {
                let mut members = Members::new();
                if !text.as_str().is_empty() {
                    members = members.with("content", json::text_value(text.as_str()));
                }
                let assistant = members.with("role", json::text_value("assistant")).with(
                    "tool_calls",
                    json::array_value(calls),
                ).object();
                assert(assistant@->Object_0 =~= calling_message(
                    text@,
                    wire_calls(message@.content),
                )->Object_0);
                messages.push(assistant);
                assert(json::json_views(messages@) =~= before + messages_for(message@));
            }
        },
        MessageRole::User => {
            push_plain(messages, "user", text.as_str());
            push_results(messages, &message.content);
            assert(json::json_views(messages@) =~= before + messages_for(message@));
        },
    }
}

/// The messages of a request for a conversation.
pub fn chat_completion_messages(system_prompt: &str, conversation: &[ConversationMessage]) -> (
    messages: Vec<Json>)
    ensures
        json::json_views(messages@) == messages_of(
            system_prompt@,
            conversation::message_views(conversation@),
        ),
{
    let ghost all = conversation::message_views(conversation@);
    let mut messages: Vec<Json> = Vec::new();
    assert(json::json_views(messages@) + plain_messages("system"@, system_prompt@)
        =~= plain_messages("system"@, system_prompt@));
    push_plain(&mut messages, "system", system_prompt);
    let mut i: usize = 0;
    assert(json::json_views(messages@) =~= messages_of(system_prompt@, all.take(0)));
    while i < conversation.len()
        invariant
            i <= conversation@.len(),
            all == conversation::message_views(conversation@),
            json::json_views(messages@) == messages_of(system_prompt@, all.take(i as int)),
        decreases conversation@.len() - i,
    {
        assert(all.take(i + 1).drop_last() =~= all.take(i as int));
        assert(all.take(i + 1).last() == conversation@[i as int]@);
        push_message(&mut messages, &conversation[i]);
        i += 1;
    }
    assert(all.take(i as int) =~= all);
    messages
}

/// The form of a tool in a request.
pub fn chat_completion_tool(tool: &ToolDefinition) -> (json: Json)
    ensures
        json@ == wire_tool(tool@),
{
    let function = Members::new().with(
        "description",
        json::text_value(tool.description.as_str()),
    ).with("name", json::text_value(tool.name.as_str())).with(
        "parameters",
        tool.parameters.clone(),
    ).with("strict", Json::Bool(false)).object();
    assert(function@->Object_0 =~= seq![
        ("description"@, JsonView::Text(tool.description@)),
        ("name"@, JsonView::Text(tool.name@)),
        ("parameters"@, tool.parameters@),
        ("strict"@, JsonView::Bool(false)),
    ]);
    let json = Members::new().with("function", function).with(
        "type",
        json::text_value("function"),
    ).object();
    assert(json@->Object_0 =~= wire_tool(tool@)->Object_0);
    json
}

impl OpenAiCompatClient {
    /// A client for a provider. `api_key` is what
    /// [`ProviderConfig::resolve_api_key_with`] gave for it.
    pub fn new(provider: &ProviderConfig, api_key: Option<String>) -> (client: Result<
        Self,
        LlmError,
    >)
        ensures
            match client {
                Ok(client) => api_key is Some && client@ == (OpenAiCompatClientView {
                    api_key: api_key->0@,
                    base_url: text::without_trailing(provider.base_url@, '/'),
                    model: provider.model@,
                    max_output_tokens: limits::output_limit(*provider),
                }),
                Err(error) => api_key is None && error@ == (LlmErrorView::Authentication {
                    message:
                        "OpenAI-compatible API key not found; set provider api_key or OPENAI_API_KEY"@,
                }),
            },
    {
        match api_key {
            Some(api_key) => Ok(
                OpenAiCompatClient {
                    api_key,
                    base_url: text::trim_end_char(provider.base_url.as_str(), '/'),
                    model: provider.model.clone(),
                    max_output_tokens: limits::max_output_tokens(provider),
                },
            ),
            None => Err(
                LlmError::Authentication {
                    message: text::copy_text(
                        "OpenAI-compatible API key not found; set provider api_key or OPENAI_API_KEY",
                    ),
                },
            ),
        }
    }

    /// The body of a request.
    pub fn request_body(&self, request: &ProviderRequest) -> (body: Json)
        ensures
            body@ == body_of(self@, request@),
    {
        let messages = chat_completion_messages(
            request.system_prompt.as_str(),
            request.conversation.messages(),
        );
        let options = Members::new().with("include_usage", Json::Bool(true)).object();
        assert(options@->Object_0 =~= seq![("include_usage"@, JsonView::Bool(true))]);
        let mut body = Members::new().with(
            "max_tokens",
            Json::Unsigned(self.max_output_tokens),
        ).with("messages", json::array_value(messages)).with(
            "model",
            json::text_value(self.model.as_str()),
        ).with("stream", Json::Bool(true)).with("stream_options", options);
        if request.tools.len() > 0 {
            let mut tools: Vec<Json> = Vec::new();
            let mut k: usize = 0;
            while k < request.tools.len()
                invariant
                    k <= request.tools.len(),
                    tools@.len() == k,
                    forall|m: int|
                        0 <= m < k ==> (#[trigger] tools@[m])@ == wire_tool(request.tools@[m]@),
                decreases request.tools@.len() - k,
            {
                tools.push(chat_completion_tool(&request.tools[k]));
                k += 1;
            }
            assert(json::json_views(tools@) =~= request@.tools.map_values(
                |tool: ToolView| wire_tool(tool),
            ));
            body = body.with("tools", json::array_value(tools));
        }
        let json = body.object();
        assert(json@->Object_0 =~= body_of(self@, request@)->Object_0);
        json
    }

    /// Where requests go.
    pub fn endpoint(&self) -> (url: String)
        ensures
            url@ == self@.base_url + "/chat/completions"@,
    {
        text::concat(self.base_url.as_str(), "/chat/completions")
    }

    /// The headers of a request.
    pub fn headers(&self) -> (headers: Vec<(String, String)>)
        ensures
            headers@.len() == 1,
            headers@[0].0@ == "authorization"@,
            headers@[0].1@ == "Bearer "@ + self@.api_key,
    {
        let mut headers: Vec<(String, String)> = Vec::new();
        headers.push(
            (text::copy_text("authorization"), text::concat("Bearer ", self.api_key.as_str())),
        );
        headers
    }
}

/// The arguments that pieces bring for a call, one after the other.
pub open spec fn arguments_for(pieces: Seq<JsonView>, index: u64) -> Seq<char>
    decreases pieces.len(),
{
    if pieces.len() == 0 {
        Seq::empty()
    } else {
        let before = arguments_for(pieces.drop_last(), index);
        let more = json::as_text(
            json::member_of_member(pieces.last(), "function"@, "arguments"@),
        );
        if json::member(pieces.last(), "index"@) == Some(JsonView::Unsigned(index)) && more is Some {
            before + more->0
        } else {
            before
        }
    }
}

/// The last id that pieces give to a call.
pub open spec fn id_for(pieces: Seq<JsonView>, index: u64, first: Seq<char>) -> Seq<char>
    decreases pieces.len(),
{
    if pieces.len() == 0 {
        first
    } else {
        let id = json::as_text(json::member(pieces.last(), "id"@));
        if json::member(pieces.last(), "index"@) == Some(JsonView::Unsigned(index)) && id is Some {
            id->0
        } else {
            id_for(pieces.drop_last(), index, first)
        }
    }
}

/// The last name that pieces give to the tool of a call.
pub open spec fn name_for(pieces: Seq<JsonView>, index: u64, first: Seq<char>) -> Seq<char>
    decreases pieces.len(),
{
    if pieces.len() == 0 {
        first
    } else {
        let name = json::as_text(json::member_of_member(pieces.last(), "function"@, "name"@));
        if json::member(pieces.last(), "index"@) == Some(JsonView::Unsigned(index)) && name is Some {
            name->0
        } else {
            name_for(pieces.drop_last(), index, first)
        }
    }
}

/// A call collects its own pieces: its arguments are those it had and all pieces of arguments
/// under its index, in order, and its id and the name of its tool are the last ones given
/// under its index. What comes for one call does not change another, and pieces are refused
/// only where one does not say which call it is for.
pub proof fn law_calls_collect_their_own_pieces(
    calls: Map<u64, CallView>,
    pieces: Seq<JsonView>,
    index: u64,
)
    ensures
        ({
            let (after, told) = pieces_added(calls, pieces);
            let before = call_at(calls, index);
            let call = call_at(after, index);
            &&& told is Ok <==> forall|i: int|
                0 <= i < pieces.len() ==> json::as_unsigned(
                    json::member(#[trigger] pieces[i], "index"@),
                ) is Some
            &&& told is Err ==> told->Err_0 is InvalidResponse
            &&& told is Ok ==> {
                &&& call.arguments == before.arguments + arguments_for(pieces, index)
                &&& call.id == id_for(pieces, index, before.id)
                &&& call.name == name_for(pieces, index, before.name)
                &&& call.completed == before.completed
                &&& after.contains_key(index) <==> calls.contains_key(index) || exists|i: int|
                    0 <= i < pieces.len() && json::member(#[trigger] pieces[i], "index"@) == Some(
                        JsonView::Unsigned(index),
                    )
            }
        }),
    decreases pieces.len(),
{
    let initial = call_at(calls, index);
    if pieces.len() > 0 {
        let earlier = pieces.drop_last();
        law_calls_collect_their_own_pieces(calls, earlier, index);
        let last = pieces.last();
        assert(last == pieces[pieces.len() - 1]);
        assert forall|i: int| 0 <= i < earlier.len() implies earlier[i] == #[trigger] pieces[i] by {}
        let (middle, told) = pieces_added(calls, earlier);
        if told is Ok {
            assert forall|i: int| 0 <= i < pieces.len() - 1 implies json::as_unsigned(
                json::member(#[trigger] pieces[i], "index"@),
            ) is Some by {
                assert(earlier[i] == pieces[i]);
            }
            let more = piece_arguments(last);
            let had = arguments_for(earlier, index);
            assert((initial.arguments + had) + more =~= initial.arguments + (had + more));
            assert(had + Seq::<char>::empty() =~= had);
            let after = pieces_added(calls, pieces).0;
            if middle.contains_key(index) && !calls.contains_key(index) {
                let i = choose|i: int|
                    0 <= i < earlier.len() && json::member(#[trigger] earlier[i], "index"@) == Some(
                        JsonView::Unsigned(index),
                    );
                assert(pieces[i] == earlier[i]);
            }
            if exists|i: int|
                0 <= i < pieces.len() && json::member(#[trigger] pieces[i], "index"@) == Some(
                    JsonView::Unsigned(index),
                ) {
                let i = choose|i: int|
                    0 <= i < pieces.len() && json::member(#[trigger] pieces[i], "index"@) == Some(
                        JsonView::Unsigned(index),
                    );
                if i < earlier.len() {
                    assert(earlier[i] == pieces[i]);
                }
            }
        } else {
            let i = choose|i: int|
                0 <= i < earlier.len() && json::as_unsigned(
                    json::member(#[trigger] earlier[i], "index"@),
                ) is None;
            assert(pieces[i] == earlier[i]);
        }
    } else {
        assert(initial.arguments + Seq::<char>::empty() =~= initial.arguments);
    }
}

/// What a piece is told of: that a call has started, once its tool has a name for the first
/// time, and then the arguments that it brings.
pub proof fn law_pieces_are_passed_on(call: CallView, piece: JsonView, more: Seq<char>)
    ensures
        ({
            let name = name_for(
                seq![piece],
                json::as_unsigned(json::member(piece, "index"@))->0,
                call.name,
            );
            let id = id_for(
                seq![piece],
                json::as_unsigned(json::member(piece, "index"@))->0,
                call.id,
            );
            let brought = json::as_text(
                json::member_of_member(piece, "function"@, "arguments"@),
            );
            let told = piece_events(call, piece);
            let start: int = if !call.started && name.len() > 0 {
                1
            } else {
                0
            };
            json::as_unsigned(json::member(piece, "index"@)) is Some ==> {
                &&& start == 1 ==> told.len() > 0 && told[0] == (LlmEventView::ToolCallStart {
                    tool_id: id,
                    tool_name: name,
                })
                &&& brought == Some(more) && more.len() > 0 ==> told.len() == start + 1
                    && told.last() == (LlmEventView::ToolCallDelta { text: more })
                &&& brought is None || (brought->0).len() == 0 ==> told.len() == start
                &&& extended(call, piece).started <==> call.started || name.len() > 0
            }
        }),
{
    let one = seq![piece];
    assert(one.drop_last() =~= Seq::<JsonView>::empty());
    assert(one.last() == piece);
    reveal_with_fuel(name_for, 2);
    reveal_with_fuel(id_for, 2);
}

/// The calls that are still to be completed, with their arguments, in the order of the keys.
pub open spec fn owed(calls: Map<u64, CallView>, keys: Seq<u64>) -> Seq<LlmEventView>
    decreases keys.len(),
{
    if keys.len() == 0 {
        Seq::empty()
    } else {
        let call = calls[keys.last()];
        if call.completed {
            owed(calls, keys.drop_last())
        } else {
            owed(calls, keys.drop_last()).push(
                LlmEventView::ToolCallComplete {
                    tool_id: call.id,
                    tool_name: call.name,
                    arguments: if call.arguments.len() == 0 {
                        JsonView::Object(Seq::empty())
                    } else {
                        json::parsed_json(call.arguments)->Ok_0
                    },
                },
            )
        }
    }
}

/// Whether the arguments of a call are none or JSON.
pub open spec fn can_complete(call: CallView) -> bool {
    call.completed || call.arguments.len() == 0 || json::parsed_json(call.arguments) is Ok
}

/// The end completes each call that is not complete yet, once and in the order of the keys,
/// with its id, its name and the JSON of its arguments. It fails just where the arguments of
/// such a call are no JSON.
pub proof fn law_end_completes_every_call(calls: Map<u64, CallView>, keys: Seq<u64>)
    requires
        forall|i: int, j: int| 0 <= i < j < keys.len() ==> keys[i] < keys[j],
        forall|i: int| 0 <= i < keys.len() ==> calls.contains_key(#[trigger] keys[i]),
    ensures
        ({
            let (after, told) = calls_ended(calls, keys);
            &&& told is Ok <==> forall|i: int|
                0 <= i < keys.len() ==> can_complete(calls[#[trigger] keys[i]])
            &&& told is Ok ==> told->Ok_0 == owed(calls, keys)
            &&& told is Ok ==> forall|i: int|
                0 <= i < keys.len() ==> (#[trigger] after[keys[i]]).completed
            &&& told is Err ==> told->Err_0 is InvalidResponse
            &&& forall|key: u64|
                !keys.contains(key) ==> #[trigger] after.contains_key(key) == calls.contains_key(
                    key,
                ) && after[key] == calls[key]
            &&& forall|i: int|
                0 <= i < keys.len() ==> after.contains_key(#[trigger] keys[i])
        }),
    decreases keys.len(),
{
    if keys.len() > 0 {
        let earlier = keys.drop_last();
        assert forall|i: int| 0 <= i < earlier.len() implies calls.contains_key(
            #[trigger] earlier[i],
        ) by {
            assert(earlier[i] == keys[i]);
        }
        law_end_completes_every_call(calls, earlier);
        let last = keys.last();
        assert(last == keys[keys.len() - 1]);
        assert(!earlier.contains(last)) by {
            if earlier.contains(last) {
                let i = choose|i: int| 0 <= i < earlier.len() && earlier[i] == last;
                assert(keys[i] < keys[keys.len() - 1]);
            }
        }
        let (middle, told) = calls_ended(calls, earlier);
        assert(middle.contains_key(last) == calls.contains_key(last));
        assert(middle[last] == calls[last]);
        let (after, all) = calls_ended(calls, keys);
        assert forall|key: u64| !keys.contains(key) implies #[trigger] after.contains_key(key)
            == calls.contains_key(key) && after[key] == calls[key] by {
            if earlier.contains(key) {
                let i = choose|i: int| 0 <= i < earlier.len() && earlier[i] == key;
                assert(keys[i] == key);
            }
            assert(key != last);
            assert(middle.contains_key(key) == calls.contains_key(key));
        }
        assert forall|i: int| 0 <= i < keys.len() implies after.contains_key(#[trigger] keys[i]) by {
            if i < earlier.len() {
                assert(earlier[i] == keys[i]);
                assert(middle.contains_key(earlier[i]));
            }
        }
        if told is Ok {
            assert forall|i: int| 0 <= i < earlier.len() implies can_complete(
                calls[#[trigger] keys[i]],
            ) by {
                assert(earlier[i] == keys[i]);
            }
            if all is Ok {
                assert(all->Ok_0 =~= owed(calls, keys));
                assert forall|i: int| 0 <= i < keys.len() implies (
                #[trigger] after[keys[i]]).completed by {
                    if i < earlier.len() {
                        assert(earlier[i] == keys[i]);
                        assert(middle[earlier[i]].completed);
                        assert(keys[i] != last);
                    }
                }
            }
        } else {
            let i = choose|i: int|
                0 <= i < earlier.len() && !can_complete(calls[#[trigger] earlier[i]]);
            assert(keys[i] == earlier[i]);
            assert(!can_complete(calls[keys[i]]));
        }
    }
}

/// What a choice is told of: its text, unless it is empty, then what its pieces of calls say,
/// and, where it says why the answer ended, the calls that are to be completed.
pub proof fn law_choice_tells_text_pieces_and_calls(
    memory: ChatMemory,
    choice: JsonView,
    reason: Seq<char>,
)
    ensures
        ({
            let content = json::as_text(json::member_of_member(choice, "delta"@, "content"@));
            let pieces = match json::as_items(
                json::member_of_member(choice, "delta"@, "tool_calls"@),
            ) {
                Some(pieces) => pieces,
                None => Seq::empty(),
            };
            let text = if content is Some && (content->0).len() > 0 {
                seq![LlmEventView::TextDelta { text: content->0 }]
            } else {
                Seq::empty()
            };
            let (calls, pieces_told) = pieces_added(memory.tool_calls, pieces);
            let finish = json::as_text(json::member(choice, "finish_reason"@));
            let (after, told) = choice_made(memory, choice);
            let (ended, calls_told) = calls_ended(calls, ascending(calls.dom()));
            &&& after.usage == memory.usage
            &&& after.stream_end_emitted == memory.stream_end_emitted
            &&& pieces_told is Err ==> told is Err && after.tool_calls == calls && after.stop_reason
                == memory.stop_reason
            &&& pieces_told is Ok && finish is None ==> told == Ok::<_, LlmErrorView>(
                text + pieces_told->Ok_0,
            ) && after.tool_calls == calls && after.stop_reason == memory.stop_reason
            &&& pieces_told is Ok && finish is Some ==> after.tool_calls == ended && (calls_told
                is Ok ==> told == Ok::<_, LlmErrorView>(
                text + pieces_told->Ok_0 + calls_told->Ok_0,
            )) && (calls_told is Err ==> told is Err)
            &&& pieces_told is Ok && finish == Some("tool_calls"@) ==> after.stop_reason == Some(
                StopReasonView::ToolUse,
            )
            &&& pieces_told is Ok && finish == Some("stop"@) ==> after.stop_reason == Some(
                StopReasonView::EndTurn,
            )
            &&& pieces_told is Ok && finish == Some("length"@) ==> after.stop_reason == Some(
                StopReasonView::MaxTokens,
            )
            &&& pieces_told is Ok && finish == Some(reason) && reason != "tool_calls"@ && reason
                != "stop"@ && reason != "length"@ ==> after.stop_reason == Some(
                StopReasonView::Other(reason),
            )
        }),
{
    reveal_strlit("tool_calls");
    reveal_strlit("stop");
    reveal_strlit("length");
    assert("tool_calls"@.len() == 10 && "stop"@.len() == 4 && "length"@.len() == 6);
}

/// The end of an answer tells what was used, as last reported: input that was read from the
/// cache counts once, as read from the cache. A report without input counts for nothing. Data
/// without a choice ends the answer once something was used.
pub proof fn law_end_tells_of_usage(
    memory: ChatMemory,
    data: JsonView,
    prompt: u64,
    cached: u64,
    completion: u64,
)
    ensures
        ({
            let reported = json::member(data, "usage"@);
            let (after, told) = data_received(memory, data);
            let says = reported is Some && json::member(reported->0, "prompt_tokens"@) == Some(
                JsonView::Unsigned(prompt),
            ) && json::member_of_member(
                reported->0,
                "prompt_tokens_details"@,
                "cached_tokens"@,
            ) == Some(JsonView::Unsigned(cached)) && json::member(
                reported->0,
                "completion_tokens"@,
            ) == Some(JsonView::Unsigned(completion));
            let choices = json::as_items(json::member(data, "choices"@));
            let no_choice = choices is None || (choices->0).len() == 0;
            &&& says && prompt > 0 ==> {
                &&& after.usage.input_tokens + after.usage.cache_read_tokens == (if prompt
                    >= cached {
                    prompt
                } else {
                    cached
                })
                &&& after.usage.cache_read_tokens == cached
                &&& after.usage.output_tokens == completion
                &&& after.usage.cache_creation_tokens == 0
            }
            &&& reported is None || (says && prompt == 0) ==> after.usage == memory.usage
            &&& no_choice ==> {
                let used = after.usage.input_tokens > 0 || after.usage.output_tokens > 0;
                &&& told is Ok
                &&& used && !memory.stream_end_emitted ==> after.stream_end_emitted && told->Ok_0
                    == seq![
                    LlmEventView::StreamEnd {
                        stop_reason: match memory.stop_reason {
                            Some(reason) => reason,
                            None => StopReasonView::EndTurn,
                        },
                        usage: after.usage,
                    },
                ]
                &&& !used || memory.stream_end_emitted ==> (told->Ok_0).len() == 0
                    && after.stream_end_emitted == memory.stream_end_emitted
            }
        }),
{
    if let Some(choice) = first_choice(data) {
        let counted = ChatMemory { usage: usage_after(memory.usage, data), ..memory };
        law_choice_tells_text_pieces_and_calls(counted, choice, Seq::<char>::empty());
    }
}

/// What is sent of a conversation is what is sent of its messages, in their order, after the
/// system prompt.
pub proof fn law_all_is_sent_in_order(
    system_prompt: Seq<char>,
    first: Seq<MessageView>,
    message: MessageView,
    second: Seq<MessageView>,
)
    ensures
        messages_of(system_prompt, first.push(message) + second) == messages_of(
            system_prompt,
            first,
        ) + messages_for(message) + messages_of(Seq::empty(), second),
        system_prompt.len() == 0 ==> messages_of(system_prompt, Seq::empty()).len() == 0,
        system_prompt.len() > 0 ==> {
            let start = messages_of(system_prompt, Seq::empty());
            &&& start.len() == 1
            &&& json::member(start[0], "role"@) == Some(JsonView::Text("system"@))
            &&& json::member(start[0], "content"@) == Some(JsonView::Text(system_prompt))
        },
    decreases second.len(),
{
    lemma_plain_message("system"@, system_prompt);
    let all = first.push(message) + second;
    if second.len() == 0 {
        assert(all =~= first.push(message));
        assert(all.drop_last() =~= first);
        assert(messages_of(system_prompt, all) + messages_of(Seq::empty(), second) =~= messages_of(
            system_prompt,
            all,
        ));
    } else {
        law_all_is_sent_in_order(system_prompt, first, message, second.drop_last());
        assert(all.drop_last() =~= first.push(message) + second.drop_last());
        assert(all.last() == second.last());
        assert(messages_of(system_prompt, all) =~= messages_of(system_prompt, first)
            + messages_for(message) + messages_of(Seq::empty(), second));
    }
}

proof fn lemma_plain_message(role: Seq<char>, text: Seq<char>)
    ensures
        json::member(plain_message(role, text), "role"@) == Some(JsonView::Text(role)),
        json::member(plain_message(role, text), "content"@) == Some(JsonView::Text(text)),
{
    reveal_with_fuel(json::entry_from, 3);
    reveal_strlit("role");
    reveal_strlit("content");
    assert("role"@.len() == 4 && "content"@.len() == 7);
}

/// What is sent of a message: its text, unless it is empty, under the role of its speaker,
/// then, for the user, its results. An answer that calls tools is one message that holds its
/// calls and, unless it is empty, its text.
pub proof fn law_messages_keep_their_speaker(message: MessageView)
    ensures
        ({
            let messages = messages_for(message);
            let text = text_of(message.content);
            let calls = wire_calls(message.content);
            let results = result_messages(message.content);
            let first: int = if text.len() > 0 {
                1
            } else {
                0
            };
            match message.role {
                MessageRole::User => {
                    &&& messages.len() == first + results.len()
                    &&& messages.skip(first) == results
                    &&& first == 1 ==> json::member(messages[0], "role"@) == Some(
                        JsonView::Text("user"@),
                    ) && json::member(messages[0], "content"@) == Some(JsonView::Text(text))
                },
                MessageRole::System => {
                    &&& messages.len() == first
                    &&& first == 1 ==> json::member(messages[0], "role"@) == Some(
                        JsonView::Text("system"@),
                    ) && json::member(messages[0], "content"@) == Some(JsonView::Text(text))
                },
                MessageRole::Assistant => {
                    &&& calls.len() == 0 ==> messages.len() == first
                    &&& calls.len() > 0 ==> messages.len() == 1 && json::member(
                        messages[0],
                        "tool_calls"@,
                    ) == Some(JsonView::Array(calls))
                    &&& messages.len() > 0 ==> json::member(messages[0], "role"@) == Some(
                        JsonView::Text("assistant"@),
                    )
                    &&& messages.len() > 0 ==> json::member(messages[0], "content"@) == (if first
                        == 1 {
                        Some(JsonView::Text(text))
                    } else {
                        None
                    })
                },
            }
        }),
{
    let text = text_of(message.content);
    lemma_plain_message("user"@, text);
    lemma_plain_message("system"@, text);
    lemma_plain_message("assistant"@, text);
    reveal_with_fuel(json::entry_from, 4);
    reveal_strlit("role");
    reveal_strlit("content");
    reveal_strlit("tool_calls");
    assert("role"@.len() == 4 && "content"@.len() == 7 && "tool_calls"@.len() == 10);
    let messages = messages_for(message);
    if message.role == MessageRole::User {
        let first: int = if text.len() > 0 {
            1
        } else {
            0
        };
        assert(messages.skip(first) =~= result_messages(message.content));
    }
}

/// The text of a message joins its texts, its calls are its uses of tools and its results are
/// its results, each in order and with all that it holds.
pub proof fn law_blocks_keep_what_they_hold(
    first: Seq<BlockView>,
    block: BlockView,
    second: Seq<BlockView>,
)
    ensures
        ({
            let all = first.push(block) + second;
            let calls = wire_calls(all);
            let results = result_messages(all);
            let call = calls[wire_calls(first).len() as int];
            let function = json::member(call, "function"@)->0;
            let result = results[result_messages(first).len() as int];
            &&& text_of(all) == text_of(first) + (match block {
                BlockView::Text { text } => text,
                _ => Seq::empty(),
            }) + text_of(second)
            &&& calls.len() == wire_calls(first).len() + wire_calls(second).len() + (if block
                is ToolUse {
                1int
            } else {
                0int
            })
            &&& results.len() == result_messages(first).len() + result_messages(second).len() + (
            if block is ToolResult {
                1int
            } else {
                0int
            })
            &&& match block {
                BlockView::ToolUse { tool_use_id, tool_name, arguments } => {
                    &&& json::member(call, "id"@) == Some(JsonView::Text(tool_use_id))
                    &&& json::member(call, "type"@) == Some(JsonView::Text("function"@))
                    &&& json::member(call, "function"@) is Some
                    &&& json::member(function, "name"@) == Some(JsonView::Text(tool_name))
                    &&& json::member(function, "arguments"@) == Some(
                        JsonView::Text(json::json_text(arguments)),
                    )
                },
                BlockView::ToolResult { tool_use_id, content, .. } => {
                    &&& json::member(result, "role"@) == Some(JsonView::Text("tool"@))
                    &&& json::member(result, "tool_call_id"@) == Some(JsonView::Text(tool_use_id))
                    &&& json::member(result, "content"@) == Some(JsonView::Text(content))
                },
                _ => true,
            }
        }),
        text_of(Seq::empty()).len() == 0,
        wire_calls(Seq::empty()).len() == 0,
        result_messages(Seq::empty()).len() == 0,
    decreases second.len(),
{
    let all = first.push(block) + second;
    if second.len() == 0 {
        assert(all =~= first.push(block));
        assert(all.drop_last() =~= first);
        assert(all.last() == block);
        assert(text_of(all) =~= text_of(first) + (match block {
            BlockView::Text { text } => text,
            _ => Seq::empty(),
        }) + text_of(second));
        reveal_with_fuel(json::entry_from, 4);
        reveal_strlit("id");
        reveal_strlit("type");
        reveal_strlit("function");
        reveal_strlit("name");
        reveal_strlit("arguments");
        reveal_strlit("role");
        reveal_strlit("tool_call_id");
        reveal_strlit("content");
        assert("id"@.len() == 2 && "type"@.len() == 4 && "function"@.len() == 8);
        assert("name"@.len() == 4 && "arguments"@.len() == 9);
        assert("role"@.len() == 4 && "tool_call_id"@.len() == 12 && "content"@.len() == 7);
    } else {
        law_blocks_keep_what_they_hold(first, block, second.drop_last());
        assert(all.drop_last() =~= first.push(block) + second.drop_last());
        assert(all.last() == second.last());
        assert(text_of(all) =~= text_of(first) + (match block {
            BlockView::Text { text } => text,
            _ => Seq::empty(),
        }) + text_of(second));
    }
}

/// A request asks the model for what is wanted: it names the model and the limit, asks for a
/// stream that tells what was used, sends the conversation after the system prompt, and
/// describes every tool in order.
pub proof fn law_request_asks_for_what_is_wanted(
    client: OpenAiCompatClientView,
    request: RequestView,
    index: int,
)
    ensures
        ({
            let body = body_of(client, request);
            &&& json::member(body, "model"@) == Some(JsonView::Text(client.model))
            &&& json::member(body, "max_tokens"@) == Some(
                JsonView::Unsigned(client.max_output_tokens),
            )
            &&& json::member(body, "stream"@) == Some(JsonView::Bool(true))
            &&& json::member_of_member(body, "stream_options"@, "include_usage"@) == Some(
                JsonView::Bool(true),
            )
            &&& json::member(body, "messages"@) == Some(
                JsonView::Array(messages_of(request.system_prompt, request.conversation)),
            )
            &&& json::member(body, "tools"@) is Some <==> request.tools.len() > 0
            &&& 0 <= index < request.tools.len() ==> {
                let tools = json::as_items(json::member(body, "tools"@));
                let tool = (tools->0)[index];
                let function = json::member(tool, "function"@);
                &&& tools is Some && (tools->0).len() == request.tools.len()
                &&& json::member(tool, "type"@) == Some(JsonView::Text("function"@))
                &&& function is Some
                &&& json::member(function->0, "name"@) == Some(
                    JsonView::Text(request.tools[index].name),
                )
                &&& json::member(function->0, "description"@) == Some(
                    JsonView::Text(request.tools[index].description),
                )
                &&& json::member(function->0, "parameters"@) == Some(
                    request.tools[index].parameters,
                )
                &&& json::member(function->0, "strict"@) == Some(JsonView::Bool(false))
            }
        }),
{
    reveal_with_fuel(json::entry_from, 7);
    reveal_strlit("model");
    reveal_strlit("max_tokens");
    reveal_strlit("stream");
    reveal_strlit("stream_options");
    reveal_strlit("include_usage");
    reveal_strlit("messages");
    reveal_strlit("tools");
    reveal_strlit("type");
    reveal_strlit("function");
    reveal_strlit("name");
    reveal_strlit("description");
    reveal_strlit("parameters");
    reveal_strlit("strict");
    assert("max_tokens"@.len() == 10 && "messages"@.len() == 8 && "model"@.len() == 5);
    assert("stream"@.len() == 6 && "stream_options"@.len() == 14 && "tools"@.len() == 5);
    assert("type"@.len() == 4 && "function"@.len() == 8 && "name"@.len() == 4);
    assert("description"@.len() == 11 && "parameters"@.len() == 10 && "strict"@.len() == 6);
    assert("model"@[0] == 'm' && "tools"@[0] == 't');
    let body = body_of(client, request);
    let entries = body->Object_0;
    assert(entries[0].0 == "max_tokens"@);
    assert(entries[1].0 == "messages"@);
    assert(entries[2].0 == "model"@);
    assert(entries[3].0 == "stream"@);
    assert(entries[4].0 == "stream_options"@);
    assert(request.tools.len() > 0 ==> entries[5].0 == "tools"@);
    assert(entries.len() == if request.tools.len() > 0 {
        6int
    } else {
        5
    });
}

/// The mark of the end, or the end of the stream itself, ends the answer, once; all else is read
/// as JSON.
pub proof fn law_mark_ends_the_answer(memory: ChatMemory, event: SseEventView)
    ensures
        ({
            let (after, told) = <ChatCompletionsStreamState as SseDecoder>::decoding(
                memory,
                event,
            );
            let (last, last_told) = <ChatCompletionsStreamState as SseDecoder>::finishing(memory);
            let end = seq![
                LlmEventView::StreamEnd {
                    stop_reason: match memory.stop_reason {
                        Some(reason) => reason,
                        None => StopReasonView::EndTurn,
                    },
                    usage: memory.usage,
                },
            ];
            let owed = if memory.stream_end_emitted {
                Seq::empty()
            } else {
                end
            };
            &&& text::trimmed(event.data) == "[DONE]"@ ==> told == Ok::<_, LlmErrorView>(owed)
                && after.stream_end_emitted
            &&& last_told == Ok::<_, LlmErrorView>(owed) && last.stream_end_emitted
            &&& text::trimmed(event.data) != "[DONE]"@ ==> match json::parsed_json(event.data) {
                Ok(data) => (after, told) == data_received(memory, data),
                Err(_) => after == memory && told is Err && told->Err_0 is InvalidResponse,
            }
        }),
{
}

/// Calls are completed in the order of their indexes.
pub proof fn law_calls_are_completed_in_order(calls: Map<u64, CallView>, keys: Seq<u64>)
    requires
        forall|i: int, j: int| 0 <= i < j < keys.len() ==> keys[i] < keys[j],
        forall|key: u64| calls.contains_key(key) <==> keys.contains(key),
    ensures
        ascending(calls.dom()) == keys,
{
    assert(in_order(keys, calls.dom()));
    lemma_ascending(keys, calls.dom());
}

} // verus!
