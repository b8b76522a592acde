//! What an agent reports of its run.
use vstd::prelude::*;

use crate::json;
use crate::json::{Json, JsonView};
use crate::text;

verus! {

#[derive(Debug, PartialEq, Eq)]
pub enum AgentEvent {
    TextDelta { text: String },
    ToolCall { tool_id: String, tool_name: String, arguments: Json },
    PermissionRequest { request_id: String, tool_name: String, arguments: Json, reason: String },
    PermissionDecision { request_id: String, allowed: bool },
    ToolResult { tool_id: String, tool_name: String, content: String, is_error: bool },
    Compacted { message: String },
    RunCompleted { final_text: String },
    MaxIterationsReached { limit: usize },
    RunError { message: String },
    RunCancelled,
}

/// What an [`AgentEvent`] holds.
#[verifier::ext_equal]
pub enum AgentEventView {
    TextDelta { text: Seq<char> },
    ToolCall { tool_id: Seq<char>, tool_name: Seq<char>, arguments: JsonView },
    PermissionRequest {
        request_id: Seq<char>,
        tool_name: Seq<char>,
        arguments: JsonView,
        reason: Seq<char>,
    },
    PermissionDecision { request_id: Seq<char>, allowed: bool },
    ToolResult { tool_id: Seq<char>, tool_name: Seq<char>, content: Seq<char>, is_error: bool },
    Compacted { message: Seq<char> },
    RunCompleted { final_text: Seq<char> },
    MaxIterationsReached { limit: usize },
    RunError { message: Seq<char> },
    RunCancelled,
}

impl View for AgentEvent {
    type V = AgentEventView;

    open spec fn view(&self) -> AgentEventView {
        match *self {
            AgentEvent::TextDelta { text } => AgentEventView::TextDelta { text: text@ },
            AgentEvent::ToolCall { tool_id, tool_name, arguments } => AgentEventView::ToolCall {
                tool_id: tool_id@,
                tool_name: tool_name@,
                arguments: arguments@,
            },
            AgentEvent::PermissionRequest { request_id, tool_name, arguments, reason } =>
                AgentEventView::PermissionRequest {
                request_id: request_id@,
                tool_name: tool_name@,
                arguments: arguments@,
                reason: reason@,
            },
            AgentEvent::PermissionDecision { request_id, allowed } =>
                AgentEventView::PermissionDecision { request_id: request_id@, allowed },
            AgentEvent::ToolResult { tool_id, tool_name, content, is_error } =>
                AgentEventView::ToolResult {
                tool_id: tool_id@,
                tool_name: tool_name@,
                content: content@,
                is_error,
            },
            AgentEvent::Compacted { message } => AgentEventView::Compacted { message: message@ },
            AgentEvent::RunCompleted { final_text } => AgentEventView::RunCompleted {
                final_text: final_text@,
            },
            AgentEvent::MaxIterationsReached { limit } => AgentEventView::MaxIterationsReached {
                limit,
            },
            AgentEvent::RunError { message } => AgentEventView::RunError { message: message@ },
            AgentEvent::RunCancelled => AgentEventView::RunCancelled,
        }
    }
}

/// The views of a sequence of events.
pub open spec fn event_views(events: Seq<AgentEvent>) -> Seq<AgentEventView> {
    events.map_values(|event: AgentEvent| event@)
}

/// The view of an optional event.
pub open spec fn optional_event(event: Option<AgentEvent>) -> Option<AgentEventView> {
    match event {
        Some(event) => Some(event@),
        None => None,
    }
}

/// A member of an object: its name in quotes, and its value.
pub open spec fn member_text(name: Seq<char>, value: Seq<char>) -> Seq<char> {
    ",\""@ + name + "\":"@ + value
}

/// A text in JSON.
pub open spec fn text_json(content: Seq<char>) -> Seq<char> {
    json::json_text(JsonView::Text(content))
}

/// A truth value in JSON.
pub open spec fn truth_json(value: bool) -> Seq<char> {
    if value {
        "true"@
    } else {
        "false"@
    }
}

/// The kind of an event.
pub open spec fn kind_text(event: AgentEventView) -> Seq<char> {
    match event {
        AgentEventView::TextDelta { .. } => "text_delta"@,
        AgentEventView::ToolCall { .. } => "tool_call"@,
        AgentEventView::PermissionRequest { .. } => "permission_request"@,
        AgentEventView::PermissionDecision { .. } => "permission_decision"@,
        AgentEventView::ToolResult { .. } => "tool_result"@,
        AgentEventView::Compacted { .. } => "compacted"@,
        AgentEventView::RunCompleted { .. } => "run_completed"@,
        AgentEventView::MaxIterationsReached { .. } => "max_iterations_reached"@,
        AgentEventView::RunError { .. } => "run_error"@,
        AgentEventView::RunCancelled => "run_cancelled"@,
    }
}

/// What an event holds, as members of an object.
pub open spec fn members_text(event: AgentEventView) -> Seq<char> {
    match event {
        AgentEventView::TextDelta { text } => member_text("text"@, text_json(text)),
        AgentEventView::ToolCall { tool_id, tool_name, arguments } => member_text(
            "tool_id"@,
            text_json(tool_id),
        ) + member_text("tool_name"@, text_json(tool_name)) + member_text(
            "arguments"@,
            json::json_text(arguments),
        ),
        AgentEventView::PermissionRequest { request_id, tool_name, arguments, reason } =>
            member_text("request_id"@, text_json(request_id)) + member_text(
                "tool_name"@,
                text_json(tool_name),
            ) + member_text("arguments"@, json::json_text(arguments)) + member_text(
                "reason"@,
                text_json(reason),
            ),
        AgentEventView::PermissionDecision { request_id, allowed } => member_text(
            "request_id"@,
            text_json(request_id),
        ) + member_text("allowed"@, truth_json(allowed)),
        AgentEventView::ToolResult { tool_id, tool_name, content, is_error } => member_text(
            "tool_id"@,
            text_json(tool_id),
        ) + member_text("tool_name"@, text_json(tool_name)) + member_text(
            "content"@,
            text_json(content),
        ) + member_text("is_error"@, truth_json(is_error)),
        AgentEventView::Compacted { message } => member_text("message"@, text_json(message)),
        AgentEventView::RunCompleted { final_text } => member_text(
            "final_text"@,
            text_json(final_text),
        ),
        AgentEventView::MaxIterationsReached { limit } => member_text(
            "limit"@,
            text::decimal(limit as nat),
        ),
        AgentEventView::RunError { message } => member_text("message"@, text_json(message)),
        AgentEventView::RunCancelled => Seq::empty(),
    }
}

/// An event as a JSON object on one line: its kind, then what it holds.
pub open spec fn event_text(event: AgentEventView) -> Seq<char> {
    "{\"type\":\""@ + kind_text(event) + "\""@ + members_text(event) + "}"@
}

/// Adds a member to the text of an object.
fn add_member(line: &mut String, name: &str, value: &str)
    ensures
        final(line)@ == old(line)@ + member_text(name@, value@),
{
    let ghost before = line@;
    line.append(",\"");
    line.append(name);
    line.append("\":");
    line.append(value);
    assert(line@ =~= before + member_text(name@, value@));
}

/// Adds a text member to the text of an object.
fn add_text(line: &mut String, name: &str, value: &str)
    ensures
        final(line)@ == old(line)@ + member_text(name@, text_json(value@)),
{
    add_member(line, name, json::text_value(value).to_text().as_str());
}

/// Adds a truth value to the text of an object.
fn add_truth(line: &mut String, name: &str, value: bool)
    ensures
        final(line)@ == old(line)@ + member_text(name@, truth_json(value)),
{
    add_member(
        line,
        name,
        if value {
            "true"
        } else {
            "false"
        },
    );
}

impl AgentEvent {
    /// The kind of the event.
    pub fn kind(&self) -> (kind: &'static str)
        ensures
            kind@ == kind_text(self@),
    {
        match self {
            AgentEvent::TextDelta { .. } => "text_delta",
            AgentEvent::ToolCall { .. } => "tool_call",
            AgentEvent::PermissionRequest { .. } => "permission_request",
            AgentEvent::PermissionDecision { .. } => "permission_decision",
            AgentEvent::ToolResult { .. } => "tool_result",
            AgentEvent::Compacted { .. } => "compacted",
            AgentEvent::RunCompleted { .. } => "run_completed",
            AgentEvent::MaxIterationsReached { .. } => "max_iterations_reached",
            AgentEvent::RunError { .. } => "run_error",
            AgentEvent::RunCancelled => "run_cancelled",
        }
    }

    /// The event as a JSON object on one line.
    pub fn to_line(&self) -> (line: String)
        ensures
            line@ == event_text(self@),
    {
        let mut line = text::concat3("{\"type\":\"", self.kind(), "\"");
        let ghost start = line@;
        match self {
            AgentEvent::TextDelta { text } => add_text(&mut line, "text", text.as_str()),
            AgentEvent::ToolCall { tool_id, tool_name, arguments } => {
                add_text(&mut line, "tool_id", tool_id.as_str());
                add_text(&mut line, "tool_name", tool_name.as_str());
                add_member(&mut line, "arguments", arguments.to_text().as_str());
            },
            AgentEvent::PermissionRequest { request_id, tool_name, arguments, reason } => {
                add_text(&mut line, "request_id", request_id.as_str());
                add_text(&mut line, "tool_name", tool_name.as_str());
                add_member(&mut line, "arguments", arguments.to_text().as_str());
                add_text(&mut line, "reason", reason.as_str());
            },
            AgentEvent::PermissionDecision { request_id, allowed } => {
                add_text(&mut line, "request_id", request_id.as_str());
                add_truth(&mut line, "allowed", *allowed);
            },
            AgentEvent::ToolResult { tool_id, tool_name, content, is_error } => {
                add_text(&mut line, "tool_id", tool_id.as_str());
                add_text(&mut line, "tool_name", tool_name.as_str());
                add_text(&mut line, "content", content.as_str());
                add_truth(&mut line, "is_error", *is_error);
            },
            AgentEvent::Compacted { message } => add_text(&mut line, "message", message.as_str()),
            AgentEvent::RunCompleted { final_text } => add_text(
                &mut line,
                "final_text",
                final_text.as_str(),
            ),
            AgentEvent::MaxIterationsReached { limit } => add_member(
                &mut line,
                "limit",
                text::decimal_text(*limit as u64).as_str(),
            ),
            AgentEvent::RunError { message } => add_text(&mut line, "message", message.as_str()),
            AgentEvent::RunCancelled => {},
        }
        assert(line@ =~= start + members_text(self@));
        line.append("}");
        line
    }
}

impl Clone for AgentEvent {
    fn clone(&self) -> (copy: Self)
        ensures
            copy@ == self@,
    {
        match self {
            AgentEvent::TextDelta { text } => AgentEvent::TextDelta { text: text.clone() },
            AgentEvent::ToolCall { tool_id, tool_name, arguments } => AgentEvent::ToolCall {
                tool_id: tool_id.clone(),
                tool_name: tool_name.clone(),
                arguments: arguments.clone(),
            },
            AgentEvent::PermissionRequest { request_id, tool_name, arguments, reason } =>
                AgentEvent::PermissionRequest {
                request_id: request_id.clone(),
                tool_name: tool_name.clone(),
                arguments: arguments.clone(),
                reason: reason.clone(),
            },
            AgentEvent::PermissionDecision { request_id, allowed } =>
                AgentEvent::PermissionDecision {
                request_id: request_id.clone(),
                allowed: *allowed,
            },
            AgentEvent::ToolResult { tool_id, tool_name, content, is_error } =>
                AgentEvent::ToolResult {
                tool_id: tool_id.clone(),
                tool_name: tool_name.clone(),
                content: content.clone(),
                is_error: *is_error,
            },
            AgentEvent::Compacted { message } => AgentEvent::Compacted { message: message.clone() },
            AgentEvent::RunCompleted { final_text } => AgentEvent::RunCompleted {
                final_text: final_text.clone(),
            },
            AgentEvent::MaxIterationsReached { limit } => AgentEvent::MaxIterationsReached {
                limit: *limit,
            },
            AgentEvent::RunError { message } => AgentEvent::RunError { message: message.clone() },
            AgentEvent::RunCancelled => AgentEvent::RunCancelled,
        }
    }
}

/// The line of an event is a JSON object that says the kind of the event first and then, by name
/// and in order, all that the event holds.
pub proof fn law_lines_say_all_of_an_event(event: AgentEventView)
    ensures
        event_text(event) == (match event {
            AgentEventView::TextDelta { text } => "{\"type\":\"text_delta\",\"text\":"@
                + json::json_text(JsonView::Text(text)) + "}"@,
            AgentEventView::Compacted { message } => "{\"type\":\"compacted\",\"message\":"@
                + json::json_text(JsonView::Text(message)) + "}"@,
            AgentEventView::RunCompleted { final_text } =>
                "{\"type\":\"run_completed\",\"final_text\":"@ + json::json_text(
                JsonView::Text(final_text),
            ) + "}"@,
            AgentEventView::MaxIterationsReached { limit } =>
                "{\"type\":\"max_iterations_reached\",\"limit\":"@ + text::decimal(limit as nat)
                + "}"@,
            AgentEventView::RunError { message } => "{\"type\":\"run_error\",\"message\":"@
                + json::json_text(JsonView::Text(message)) + "}"@,
            AgentEventView::RunCancelled => "{\"type\":\"run_cancelled\"}"@,
            AgentEventView::PermissionDecision { request_id, allowed } =>
                "{\"type\":\"permission_decision\",\"request_id\":"@ + json::json_text(
                JsonView::Text(request_id),
            ) + ",\"allowed\":"@ + (if allowed {
                "true"@
            } else {
                "false"@
            }) + "}"@,
            AgentEventView::ToolCall { tool_id, tool_name, arguments } =>
                "{\"type\":\"tool_call\",\"tool_id\":"@ + json::json_text(JsonView::Text(tool_id))
                + ",\"tool_name\":"@ + json::json_text(JsonView::Text(tool_name))
                + ",\"arguments\":"@ + json::json_text(arguments) + "}"@,
            AgentEventView::ToolResult { tool_id, tool_name, content, is_error } =>
                "{\"type\":\"tool_result\",\"tool_id\":"@ + json::json_text(
                JsonView::Text(tool_id),
            ) + ",\"tool_name\":"@ + json::json_text(JsonView::Text(tool_name)) + ",\"content\":"@
                + json::json_text(JsonView::Text(content)) + ",\"is_error\":"@ + (if is_error {
                "true"@
            } else {
                "false"@
            }) + "}"@,
            AgentEventView::PermissionRequest { request_id, tool_name, arguments, reason } =>
                "{\"type\":\"permission_request\",\"request_id\":"@ + json::json_text(
                JsonView::Text(request_id),
            ) + ",\"tool_name\":"@ + json::json_text(JsonView::Text(tool_name))
                + ",\"arguments\":"@ + json::json_text(arguments) + ",\"reason\":"@
                + json::json_text(JsonView::Text(reason)) + "}"@,
        }),
{
    reveal_strlit("{\"type\":\"");
    reveal_strlit("\"");
    reveal_strlit(",\"");
    reveal_strlit("\":");
    reveal_strlit("}");
    let told = event_text(event);
    match event {
        AgentEventView::TextDelta { text } => {
            reveal_strlit("text_delta");
            reveal_strlit("text");
            reveal_strlit("{\"type\":\"text_delta\",\"text\":");
            assert(told =~= "{\"type\":\"text_delta\",\"text\":"@ + json::json_text(
                JsonView::Text(text),
            ) + "}"@);
        },
        AgentEventView::Compacted { message } => {
            reveal_strlit("compacted");
            reveal_strlit("message");
            reveal_strlit("{\"type\":\"compacted\",\"message\":");
            assert(told =~= "{\"type\":\"compacted\",\"message\":"@ + json::json_text(
                JsonView::Text(message),
            ) + "}"@);
        },
        AgentEventView::RunCompleted { final_text } => {
            reveal_strlit("run_completed");
            reveal_strlit("final_text");
            reveal_strlit("{\"type\":\"run_completed\",\"final_text\":");
            assert(told =~= "{\"type\":\"run_completed\",\"final_text\":"@ + json::json_text(
                JsonView::Text(final_text),
            ) + "}"@);
        },
        AgentEventView::MaxIterationsReached { limit } => {
            reveal_strlit("max_iterations_reached");
            reveal_strlit("limit");
            reveal_strlit("{\"type\":\"max_iterations_reached\",\"limit\":");
            assert(told =~= "{\"type\":\"max_iterations_reached\",\"limit\":"@ + text::decimal(
                limit as nat,
            ) + "}"@);
        },
        AgentEventView::RunError { message } => {
            reveal_strlit("run_error");
            reveal_strlit("message");
            reveal_strlit("{\"type\":\"run_error\",\"message\":");
            assert(told =~= "{\"type\":\"run_error\",\"message\":"@ + json::json_text(
                JsonView::Text(message),
            ) + "}"@);
        },
        AgentEventView::RunCancelled => {
            reveal_strlit("run_cancelled");
            reveal_strlit("{\"type\":\"run_cancelled\"}");
            assert(told =~= "{\"type\":\"run_cancelled\"}"@);
        },
        AgentEventView::PermissionDecision { request_id, allowed } => {
            reveal_strlit("permission_decision");
            reveal_strlit("request_id");
            reveal_strlit("allowed");
            reveal_strlit("{\"type\":\"permission_decision\",\"request_id\":");
            reveal_strlit(",\"allowed\":");
            assert(told =~= "{\"type\":\"permission_decision\",\"request_id\":"@ + json::json_text(
                JsonView::Text(request_id),
            ) + ",\"allowed\":"@ + truth_json(allowed) + "}"@);
        },
        AgentEventView::ToolCall { tool_id, tool_name, arguments } => {
            reveal_strlit("tool_call");
            reveal_strlit("tool_id");
            reveal_strlit("tool_name");
            reveal_strlit("arguments");
            reveal_strlit("{\"type\":\"tool_call\",\"tool_id\":");
            reveal_strlit(",\"tool_name\":");
            reveal_strlit(",\"arguments\":");
            assert(told =~= "{\"type\":\"tool_call\",\"tool_id\":"@ + json::json_text(
                JsonView::Text(tool_id),
            ) + ",\"tool_name\":"@ + json::json_text(JsonView::Text(tool_name))
                + ",\"arguments\":"@ + json::json_text(arguments) + "}"@);
        },
        AgentEventView::ToolResult { tool_id, tool_name, content, is_error } => {
            reveal_strlit("tool_result");
            reveal_strlit("tool_id");
            reveal_strlit("tool_name");
            reveal_strlit("content");
            reveal_strlit("is_error");
            reveal_strlit("{\"type\":\"tool_result\",\"tool_id\":");
            reveal_strlit(",\"tool_name\":");
            reveal_strlit(",\"content\":");
            reveal_strlit(",\"is_error\":");
            assert(told =~= "{\"type\":\"tool_result\",\"tool_id\":"@ + json::json_text(
                JsonView::Text(tool_id),
            ) + ",\"tool_name\":"@ + json::json_text(JsonView::Text(tool_name)) + ",\"content\":"@
                + json::json_text(JsonView::Text(content)) + ",\"is_error\":"@ + truth_json(
                is_error,
            ) + "}"@);
        },
        AgentEventView::PermissionRequest { request_id, tool_name, arguments, reason } => {
            reveal_strlit("permission_request");
            reveal_strlit("request_id");
            reveal_strlit("tool_name");
            reveal_strlit("arguments");
            reveal_strlit("reason");
            reveal_strlit("{\"type\":\"permission_request\",\"request_id\":");
            reveal_strlit(",\"tool_name\":");
            reveal_strlit(",\"arguments\":");
            reveal_strlit(",\"reason\":");
            assert(told =~= "{\"type\":\"permission_request\",\"request_id\":"@ + json::json_text(
                JsonView::Text(request_id),
            ) + ",\"tool_name\":"@ + json::json_text(JsonView::Text(tool_name))
                + ",\"arguments\":"@ + json::json_text(arguments) + ",\"reason\":"@
                + json::json_text(JsonView::Text(reason)) + "}"@);
        },
    }
}

} // verus!
