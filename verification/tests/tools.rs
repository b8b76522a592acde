use mycode::agent_events::AgentEvent;
use mycode::json::Json;
use mycode::tools::{
    advance_permission, authorize_tool, execute_plan, tool_definition, Authorization, Execution,
    PendingToolCall, PermissionDecision, PermissionEffect, PermissionResponse, PermissionSignal,
    PermissionStep, PlannedToolCall, Schedule, ToolOutput,
};

fn call() -> PendingToolCall {
    PendingToolCall {
        tool_id: "call-1".into(),
        tool_name: "WriteFile".into(),
        arguments: Json::parse(r#"{"file_path": "created.txt"}"#).expect("valid JSON"),
    }
}

fn decision(effect: PermissionEffect) -> Option<PermissionDecision> {
    Some(PermissionDecision {
        effect,
        reason: "the reason".into(),
    })
}

fn refused(reason: &str) -> PlannedToolCall {
    PlannedToolCall {
        tool_call: call(),
        denial_reason: Some(reason.into()),
        authorization: None,
    }
}

fn output(text: &str) -> ToolOutput {
    ToolOutput {
        output: text.into(),
        is_error: false,
    }
}

#[test]
fn calls_are_held_to_the_rules() {
    let unknown = Authorization::Planned(refused("unknown tool: WriteFile"));
    assert_eq!(
        authorize_tool(&call(), false, decision(PermissionEffect::Allow)),
        unknown
    );
    assert_eq!(authorize_tool(&call(), true, None), unknown);
    assert_eq!(
        authorize_tool(&call(), true, decision(PermissionEffect::Deny)),
        Authorization::Planned(refused("tool denied: the reason"))
    );
    assert_eq!(
        authorize_tool(&call(), true, decision(PermissionEffect::Allow)),
        Authorization::Planned(PlannedToolCall {
            tool_call: call(),
            denial_reason: None,
            authorization: decision(PermissionEffect::Allow),
        })
    );
    assert_eq!(
        authorize_tool(&call(), true, decision(PermissionEffect::Ask)),
        Authorization::Ask(AgentEvent::PermissionRequest {
            request_id: "call-1".into(),
            tool_name: "WriteFile".into(),
            arguments: call().arguments,
            reason: "the reason".into(),
        })
    );
}

#[test]
fn a_user_decides_what_was_asked() {
    let answer = |id: &str, allowed| {
        advance_permission(
            &call(),
            PermissionSignal::Response(PermissionResponse {
                request_id: id.into(),
                allowed,
            }),
        )
    };
    assert_eq!(answer("other", true), PermissionStep::Wait);
    assert_eq!(
        answer("call-1", true),
        PermissionStep::Planned {
            event: Some(AgentEvent::PermissionDecision {
                request_id: "call-1".into(),
                allowed: true,
            }),
            plan: PlannedToolCall {
                tool_call: call(),
                denial_reason: None,
                authorization: Some(PermissionDecision {
                    effect: PermissionEffect::Allow,
                    reason: "user confirmation granted".into(),
                }),
            },
        }
    );
    let denied = PermissionStep::Planned {
        event: Some(AgentEvent::PermissionDecision {
            request_id: "call-1".into(),
            allowed: false,
        }),
        plan: refused("tool denied by user: WriteFile"),
    };
    assert_eq!(answer("call-1", false), denied);
    assert_eq!(
        advance_permission(&call(), PermissionSignal::Closed),
        denied
    );
    assert_eq!(
        advance_permission(&call(), PermissionSignal::Cancelled),
        PermissionStep::Cancelled
    );
    assert_eq!(
        advance_permission(&call(), PermissionSignal::Unheard),
        PermissionStep::Planned {
            event: None,
            plan: refused("agent event stream closed"),
        }
    );
}

#[test]
fn refused_calls_give_their_reason_as_an_error() {
    assert_eq!(
        execute_plan(refused("no")),
        Execution::Refused(ToolOutput {
            output: "no".into(),
            is_error: true,
        })
    );
    let allowed = PlannedToolCall {
        tool_call: call(),
        denial_reason: None,
        authorization: decision(PermissionEffect::Allow),
    };
    assert!(matches!(
        execute_plan(allowed),
        Execution::Run { tool_call, .. } if tool_call == call()
    ));
}

#[test]
fn calls_run_bounded_and_results_keep_their_order() {
    let mut schedule = Schedule::new(3, 2);
    assert_eq!(schedule.started(), 2);
    assert!(schedule.is_running());
    assert_eq!(schedule.complete(1, output("two"), false), Some(2));
    assert_eq!(schedule.complete(2, output("three"), false), None);
    assert!(schedule.is_running());
    assert_eq!(schedule.complete(0, output("one"), false), None);
    assert!(!schedule.is_running());
    assert_eq!(
        schedule.into_results(),
        vec![
            Some(output("one")),
            Some(output("two")),
            Some(output("three"))
        ]
    );
}

#[test]
fn no_call_starts_once_a_run_is_cancelled() {
    let mut schedule = Schedule::new(3, 0);
    assert_eq!(schedule.started(), 1);
    assert_eq!(schedule.complete(0, output("kept"), false), Some(1));
    assert_eq!(schedule.complete(1, output("dropped"), true), None);
    assert!(!schedule.is_running());
    assert_eq!(schedule.started(), 2);
    assert_eq!(
        schedule.into_results(),
        vec![Some(output("kept")), None, None]
    );
    assert!(!Schedule::new(0, 4).is_running());
}

#[test]
fn providers_are_told_what_a_tool_takes() {
    let schema =
        Json::parse(r#"{"name": "Read", "input_schema": {"type": "string"}}"#).expect("valid JSON");
    let tool = tool_definition("Read", "Reads", &schema);
    assert_eq!(tool.name, "Read");
    assert_eq!(tool.description, "Reads");
    assert_eq!(tool.parameters.to_text(), r#"{"type":"string"}"#);
    assert_eq!(
        tool_definition("Read", "Reads", &Json::Null)
            .parameters
            .to_text(),
        r#"{"properties":{},"type":"object"}"#
    );
}
