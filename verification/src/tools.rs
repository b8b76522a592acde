//! Tool calls: whether they may run, and in what order they run.
use vstd::prelude::*;

use crate::agent_events;
use crate::agent_events::{AgentEvent, AgentEventView};
use crate::client::{ToolDefinition, ToolView};
use crate::json;
use crate::json::{Json, JsonView, Members};
use crate::text;

verus! {

/// The answer to a request for permission.
#[derive(Debug, PartialEq, Eq)]
pub struct PermissionResponse {
    pub request_id: String,
    pub allowed: bool,
}

/// A tool call that a provider asks for.
#[derive(Debug, PartialEq, Eq)]
pub struct PendingToolCall {
    pub tool_id: String,
    pub tool_name: String,
    pub arguments: Json,
}

/// What a [`PendingToolCall`] holds.
#[verifier::ext_equal]
pub struct CallView {
    pub tool_id: Seq<char>,
    pub tool_name: Seq<char>,
    pub arguments: JsonView,
}

impl View for PendingToolCall {
    type V = CallView;

    open spec fn view(&self) -> CallView {
        CallView {
            tool_id: self.tool_id@,
            tool_name: self.tool_name@,
            arguments: self.arguments@,
        }
    }
}

impl Clone for PendingToolCall {
    fn clone(&self) -> (copy: Self)
        ensures
            copy@ == self@,
    {
        PendingToolCall {
            tool_id: self.tool_id.clone(),
            tool_name: self.tool_name.clone(),
            arguments: self.arguments.clone(),
        }
    }
}

/// The views of a sequence of calls.
pub open spec fn call_views(calls: Seq<PendingToolCall>) -> Seq<CallView> {
    calls.map_values(|call: PendingToolCall| call@)
}

/// What the rules say of a tool call.
#[derive(Debug, Clone, Copy, PartialEq, Eq, Structural)]
pub enum PermissionEffect {
    Allow,
    Deny,
    Ask,
}

/// What the rules say of a tool call, and why.
#[derive(Debug, PartialEq, Eq)]
pub struct PermissionDecision {
    pub effect: PermissionEffect,
    pub reason: String,
}

/// What a [`PermissionDecision`] holds.
#[verifier::ext_equal]
pub struct DecisionView {
    pub effect: PermissionEffect,
    pub reason: Seq<char>,
}

impl View for PermissionDecision {
    type V = DecisionView;

    open spec fn view(&self) -> DecisionView {
        DecisionView { effect: self.effect, reason: self.reason@ }
    }
}

/// The view of an optional decision.
pub open spec fn optional_decision(decision: Option<PermissionDecision>) -> Option<DecisionView> {
    match decision {
        Some(decision) => Some(decision@),
        None => None,
    }
}

/// A tool call that is refused, or allowed with the decision that allows it.
#[derive(Debug, PartialEq, Eq)]
pub struct PlannedToolCall {
    pub tool_call: PendingToolCall,
    pub denial_reason: Option<String>,
    pub authorization: Option<PermissionDecision>,
}

/// What a [`PlannedToolCall`] holds.
#[verifier::ext_equal]
pub struct PlanView {
    pub call: CallView,
    pub denial: Option<Seq<char>>,
    pub authorization: Option<DecisionView>,
}

impl View for PlannedToolCall {
    type V = PlanView;

    open spec fn view(&self) -> PlanView {
        PlanView {
            call: self.tool_call@,
            denial: text::optional_text(self.denial_reason),
            authorization: optional_decision(self.authorization),
        }
    }
}

/// The views of a sequence of plans.
pub open spec fn plan_views(plans: Seq<PlannedToolCall>) -> Seq<PlanView> {
    plans.map_values(|plan: PlannedToolCall| plan@)
}

/// The plan of a call that is refused.
pub open spec fn refused(call: CallView, reason: Seq<char>) -> PlanView {
    PlanView { call, denial: Some(reason), authorization: None }
}

/// The plan of a call that is allowed.
pub open spec fn allowed(call: CallView, decision: DecisionView) -> PlanView {
    PlanView { call, denial: None, authorization: Some(decision) }
}

fn refuse(call: &PendingToolCall, reason: String) -> (plan: PlannedToolCall)
    ensures
        plan@ == refused(call@, reason@),
{
    PlannedToolCall {
        tool_call: call.clone(),
        denial_reason: Some(reason),
        authorization: None,
    }
}

/// What comes of holding a call to the rules.
#[derive(Debug, PartialEq, Eq)]
pub enum Authorization {
    Planned(PlannedToolCall),
    /// A user is to be asked, with this event.
    Ask(AgentEvent),
}

/// What an [`Authorization`] holds.
#[verifier::ext_equal]
pub enum AuthorizationView {
    Planned(PlanView),
    Ask(AgentEventView),
}

impl View for Authorization {
    type V = AuthorizationView;

    open spec fn view(&self) -> AuthorizationView {
        match *self {
            Authorization::Planned(plan) => AuthorizationView::Planned(plan@),
            Authorization::Ask(event) => AuthorizationView::Ask(event@),
        }
    }
}

/// What comes of holding a call to the rules. A call of a tool that is not known, and one
/// of which the rules say nothing, is refused.
pub open spec fn authorized(call: CallView, known: bool, decision: Option<DecisionView>)
    -> AuthorizationView {
    if !known || decision is None {
        AuthorizationView::Planned(refused(call, "unknown tool: "@ + call.tool_name))
    } else {
        let decision = decision->0;
        match decision.effect {
            PermissionEffect::Allow => AuthorizationView::Planned(allowed(call, decision)),
            PermissionEffect::Deny => AuthorizationView::Planned(
                refused(call, "tool denied: "@ + decision.reason),
            ),
            PermissionEffect::Ask => AuthorizationView::Ask(
                AgentEventView::PermissionRequest {
                    request_id: call.tool_id,
                    tool_name: call.tool_name,
                    arguments: call.arguments,
                    reason: decision.reason,
                },
            ),
        }
    }
}

/// Holds a call to the rules: `known` says whether there is such a tool, and `decision`
/// what the rules say.
pub fn authorize_tool(
    call: &PendingToolCall,
    known: bool,
    decision: Option<PermissionDecision>,
) -> (authorization: Authorization)
    ensures
        authorization@ == authorized(call@, known, optional_decision(decision)),
{
    let decision = match decision {
        Some(decision) if known => decision,
        _ => {
            return Authorization::Planned(
                refuse(call, text::concat("unknown tool: ", call.tool_name.as_str())),
            );
        },
    };
    match decision.effect {
        PermissionEffect::Allow => Authorization::Planned(
            PlannedToolCall {
                tool_call: call.clone(),
                denial_reason: None,
                authorization: Some(decision),
            },
        ),
        PermissionEffect::Deny => Authorization::Planned(
            refuse(call, text::concat("tool denied: ", decision.reason.as_str())),
        ),
        PermissionEffect::Ask => Authorization::Ask(
            AgentEvent::PermissionRequest {
                request_id: call.tool_id.clone(),
                tool_name: call.tool_name.clone(),
                arguments: call.arguments.clone(),
                reason: decision.reason,
            },
        ),
    }
}

/// What happens while a user is asked.
#[derive(Debug, PartialEq, Eq)]
pub enum PermissionSignal {
    /// The request could not be delivered.
    Unheard,
    /// The run was cancelled.
    Cancelled,
    /// An answer came, to this request or another.
    Response(PermissionResponse),
    /// No answer will come.
    Closed,
}

/// What follows while a user is asked.
#[derive(Debug, PartialEq, Eq)]
pub enum PermissionStep {
    Wait,
    Cancelled,
    /// The call is planned; the event, if any, is reported first.
    Planned { event: Option<AgentEvent>, plan: PlannedToolCall },
}

/// What a [`PermissionStep`] holds.
#[verifier::ext_equal]
pub enum PermissionStepView {
    Wait,
    Cancelled,
    Planned { event: Option<AgentEventView>, plan: PlanView },
}

impl View for PermissionStep {
    type V = PermissionStepView;

    open spec fn view(&self) -> PermissionStepView {
        match *self {
            PermissionStep::Wait => PermissionStepView::Wait,
            PermissionStep::Cancelled => PermissionStepView::Cancelled,
            PermissionStep::Planned { event, plan } => PermissionStepView::Planned {
                event: agent_events::optional_event(event),
                plan: plan@,
            },
        }
    }
}

/// What follows an answer.
pub open spec fn answered(call: CallView, allow: bool) -> PermissionStepView {
    PermissionStepView::Planned {
        event: Some(
            AgentEventView::PermissionDecision { request_id: call.tool_id, allowed: allow },
        ),
        plan: if allow {
            allowed(
                call,
                DecisionView {
                    effect: PermissionEffect::Allow,
                    reason: "user confirmation granted"@,
                },
            )
        } else {
            refused(call, "tool denied by user: "@ + call.tool_name)
        },
    }
}

/// What follows while a user is asked. Answers to other requests do not matter, and
/// where no answer will come the call is refused.
pub open spec fn asked(call: CallView, signal: PermissionSignal) -> PermissionStepView {
    match signal {
        PermissionSignal::Unheard => PermissionStepView::Planned {
            event: None,
            plan: refused(call, "agent event stream closed"@),
        },
        PermissionSignal::Cancelled => PermissionStepView::Cancelled,
        PermissionSignal::Response(response) => if response.request_id@ == call.tool_id {
            answered(call, response.allowed)
        } else {
            PermissionStepView::Wait
        },
        PermissionSignal::Closed => answered(call, false),
    }
}

fn settle(call: &PendingToolCall, allow: bool) -> (step: PermissionStep)
    ensures
        step@ == answered(call@, allow),
{
    let event = Some(
        AgentEvent::PermissionDecision { request_id: call.tool_id.clone(), allowed: allow },
    );
    let plan = if allow {
        PlannedToolCall {
            tool_call: call.clone(),
            denial_reason: None,
            authorization: Some(
                PermissionDecision {
                    effect: PermissionEffect::Allow,
                    reason: text::copy_text("user confirmation granted"),
                },
            ),
        }
    } else {
        refuse(call, text::concat("tool denied by user: ", call.tool_name.as_str()))
    };
    PermissionStep::Planned { event, plan }
}

/// What follows while a user is asked for permission for a call.
pub fn advance_permission(call: &PendingToolCall, signal: PermissionSignal) -> (step: PermissionStep)
    ensures
        step@ == asked(call@, signal),
{
    match signal {
        PermissionSignal::Unheard => PermissionStep::Planned {
            event: None,
            plan: refuse(call, text::copy_text("agent event stream closed")),
        },
        PermissionSignal::Cancelled => PermissionStep::Cancelled,
        PermissionSignal::Response(response) => {
            if text::same_text(response.request_id.as_str(), call.tool_id.as_str()) {
                settle(call, response.allowed)
            } else {
                PermissionStep::Wait
            }
        },
        PermissionSignal::Closed => settle(call, false),
    }
}

/// Whether a plan either refuses the call, or carries the decision that allows it.
pub open spec fn settled(plan: PlanView) -> bool {
    plan.denial is None <==> (plan.authorization is Some && plan.authorization->0.effect
        == PermissionEffect::Allow)
}

/// A call runs only where the rules or a user allow it: each plan refuses the call or
/// carries a decision that allows it, and is a plan of that call.
pub proof fn law_calls_run_only_when_allowed(
    call: CallView,
    known: bool,
    decision: Option<DecisionView>,
    signal: PermissionSignal,
)
    ensures
        authorized(call, known, decision) matches AuthorizationView::Planned(plan) ==> settled(plan)
            && plan.call == call && (plan.denial is None ==> known && decision
            == plan.authorization),
        asked(call, signal) matches PermissionStepView::Planned { event, plan } ==> settled(plan)
            && plan.call == call && (plan.denial is None <==> (signal matches PermissionSignal::Response(
            response,
        ) && response.request_id@ == call.tool_id && response.allowed)),
{
}

/// What a tool gave back.
#[derive(Debug, PartialEq, Eq)]
pub struct ToolOutput {
    pub output: String,
    pub is_error: bool,
}

/// What a [`ToolOutput`] holds.
#[verifier::ext_equal]
pub struct OutputView {
    pub output: Seq<char>,
    pub is_error: bool,
}

impl View for ToolOutput {
    type V = OutputView;

    open spec fn view(&self) -> OutputView {
        OutputView { output: self.output@, is_error: self.is_error }
    }
}

/// The view of an optional output.
pub open spec fn optional_output(output: Option<ToolOutput>) -> Option<OutputView> {
    match output {
        Some(output) => Some(output@),
        None => None,
    }
}

/// The views of optional outputs.
pub open spec fn output_views(outputs: Seq<Option<ToolOutput>>) -> Seq<Option<OutputView>> {
    outputs.map_values(|output: Option<ToolOutput>| optional_output(output))
}

/// What is done for a plan.
#[derive(Debug, PartialEq, Eq)]
pub enum Execution {
    /// The call was refused: this is its output.
    Refused(ToolOutput),
    /// The tool runs.
    Run { tool_call: PendingToolCall, authorization: PermissionDecision },
}

/// What is done for a plan: a refused call gives the reason as an error.
pub fn execute_plan(plan: PlannedToolCall) -> (execution: Execution)
    requires
        plan@.denial is Some || plan@.authorization is Some,
    ensures
        match execution {
            Execution::Refused(output) => plan@.denial == Some(output@.output) && output.is_error,
            Execution::Run { tool_call, authorization } => plan@.denial is None && tool_call
                == plan.tool_call && plan.authorization == Some(authorization),
        },
{
    if let Some(reason) = plan.denial_reason {
        return Execution::Refused(ToolOutput { output: reason, is_error: true });
    }
    match plan.authorization {
        Some(authorization) => Execution::Run { tool_call: plan.tool_call, authorization },
        None => Execution::Refused(ToolOutput { output: String::new(), is_error: true }),
    }
}

/// Which calls run: they are started in order, no more at a time than the limit, and each
/// result is kept in the place of its call.
#[derive(Debug, PartialEq, Eq)]
pub struct Schedule {
    limit: usize,
    next: usize,
    running: usize,
    results: Vec<Option<ToolOutput>>,
}

/// What a [`Schedule`] holds.
#[verifier::ext_equal]
pub struct ScheduleView {
    /// How many calls may run at a time.
    pub limit: int,
    /// How many calls have been started.
    pub next: int,
    /// How many calls are running.
    pub running: int,
    pub results: Seq<Option<OutputView>>,
}

impl View for Schedule {
    type V = ScheduleView;

    closed spec fn view(&self) -> ScheduleView {
        ScheduleView {
            limit: self.limit as int,
            next: self.next as int,
            running: self.running as int,
            results: output_views(self.results@),
        }
    }
}

/// How many calls may run at a time, `concurrency` being asked for.
pub open spec fn running_limit(concurrency: int) -> int {
    if concurrency < 1 {
        1
    } else {
        concurrency
    }
}

/// Whether a schedule is as schedules are: no more calls run than may, and no more than
/// were started, and no call waits that could run, unless the run was cancelled.
pub open spec fn sound(schedule: ScheduleView, cancelled: bool) -> bool {
    &&& 0 <= schedule.running <= schedule.limit
    &&& schedule.running <= schedule.next <= schedule.results.len()
    &&& schedule.limit >= 1
    &&& forall|i: int|
        schedule.next <= i < schedule.results.len() ==> (#[trigger] schedule.results[i]) is None
    &&& !cancelled ==> schedule.running == schedule.limit || schedule.next
        == schedule.results.len()
}

/// The schedule of `count` calls, once the first have been started.
pub open spec fn first_schedule(count: int, concurrency: int) -> ScheduleView {
    let limit = running_limit(concurrency);
    let started = if count < limit {
        count
    } else {
        limit
    };
    ScheduleView {
        limit,
        next: started,
        running: started,
        results: Seq::new(count as nat, |i: int| None),
    }
}

/// The schedule once the call at `index` has completed. Where the run was cancelled its
/// result is dropped, and no further call is started.
pub open spec fn completed(
    schedule: ScheduleView,
    index: int,
    output: OutputView,
    cancelled: bool,
) -> ScheduleView {
    if cancelled {
        ScheduleView { running: schedule.running - 1, ..schedule }
    } else if schedule.next < schedule.results.len() {
        ScheduleView {
            next: schedule.next + 1,
            results: schedule.results.update(index, Some(output)),
            ..schedule
        }
    } else {
        ScheduleView {
            running: schedule.running - 1,
            results: schedule.results.update(index, Some(output)),
            ..schedule
        }
    }
}

impl Schedule {
    /// The schedule of `count` calls. The calls before [`Schedule::started`] are to be
    /// started.
    pub fn new(count: usize, concurrency: usize) -> (schedule: Self)
        ensures
            schedule@ == first_schedule(count as int, concurrency as int),
            sound(schedule@, false),
    {
        let limit: usize = if concurrency < 1 {
            1
        } else {
            concurrency
        };
        let started: usize = if count < limit {
            count
        } else {
            limit
        };
        let mut results: Vec<Option<ToolOutput>> = Vec::new();
        while results.len() < count
            invariant
                results@.len() <= count,
                forall|i: int| 0 <= i < results@.len() ==> (#[trigger] results@[i]) is None,
            decreases count - results@.len(),
        {
            results.push(None);
        }
        let schedule = Schedule { limit, next: started, running: started, results };
        assert(schedule@.results =~= first_schedule(count as int, concurrency as int).results);
        schedule
    }

    /// How many calls have been started.
    pub fn started(&self) -> (count: usize)
        ensures
            count == self@.next,
    {
        self.next
    }

    /// Whether calls are running.
    pub fn is_running(&self) -> (result: bool)
        ensures
            result == (self@.running > 0),
    {
        self.running > 0
    }

    /// Takes the result of a call that was running. The result is the call that is to be
    /// started next, if any.
    pub fn complete(&mut self, index: usize, output: ToolOutput, cancelled: bool) -> (next: Option<
        usize,
    >)
        requires
            0 < old(self)@.running,
            index < old(self)@.next <= old(self)@.results.len(),
        ensures
            final(self)@ == completed(old(self)@, index as int, output@, cancelled),
            next == (if !cancelled && old(self)@.next < old(self)@.results.len() {
                Some(old(self)@.next as usize)
            } else {
                None
            }),
    {
        let ghost before = self@;
        assert(before.results.len() == self.results@.len());
        if cancelled {
            self.running -= 1;
            return None;
        }
        self.results.set(index, Some(output));
        assert(output_views(self.results@) =~= before.results.update(index as int, Some(output@)));
        if self.next < self.results.len() {
            let started = self.next;
            self.next += 1;
            Some(started)
        } else {
            self.running -= 1;
            None
        }
    }

    /// The results, each in the place of its call.
    pub fn into_results(self) -> (results: Vec<Option<ToolOutput>>)
        ensures
            output_views(results@) == self@.results,
    {
        self.results
    }
}

/// Completing calls keeps a schedule sound: never do more calls run than may, and no call
/// that could run waits.
pub proof fn law_schedule_stays_sound(
    schedule: ScheduleView,
    index: int,
    output: OutputView,
    before: bool,
    cancelled: bool,
)
    requires
        sound(schedule, before),
        before ==> cancelled,
        0 < schedule.running,
        0 <= index < schedule.next,
    ensures
        sound(completed(schedule, index, output, cancelled), cancelled),
        completed(schedule, index, output, cancelled).limit == schedule.limit,
        completed(schedule, index, output, cancelled).results.len() == schedule.results.len(),
{
    let after = completed(schedule, index, output, cancelled);
    assert forall|i: int| after.next <= i < after.results.len() implies (
    #[trigger] after.results[i]) is None by {
        assert(after.results[i] == schedule.results[i]);
    }
}

/// A result stays in its place: completing a call changes no other result, and without a
/// cancellation the result of the call stands in the place of the call.
pub proof fn law_results_keep_their_places(
    schedule: ScheduleView,
    index: int,
    output: OutputView,
    cancelled: bool,
    other: int,
)
    requires
        0 <= index < schedule.results.len(),
        0 <= other < schedule.results.len(),
    ensures
        completed(schedule, index, output, cancelled).results[other] == if other == index
            && !cancelled {
            Some(output)
        } else {
            schedule.results[other]
        },
{
}

/// What a tool takes, where it says nothing of it.
pub open spec fn any_parameters() -> JsonView {
    JsonView::Object(
        seq![
            ("properties"@, JsonView::Object(Seq::empty())),
            ("type"@, JsonView::Text("object"@)),
        ],
    )
}

/// The definition of a tool for a provider: of its schema, what it takes.
pub open spec fn definition_of(name: Seq<char>, description: Seq<char>, schema: JsonView)
    -> ToolView {
    ToolView {
        name,
        description,
        parameters: match json::member(schema, "input_schema"@) {
            Some(parameters) => parameters,
            None => any_parameters(),
        },
    }
}

/// The definition of a tool for a provider.
pub fn tool_definition(name: &str, description: &str, schema: &Json) -> (tool: ToolDefinition)
    ensures
        tool@ == definition_of(name@, description@, schema@),
{
    let parameters = match schema.get("input_schema") {
        Some(parameters) => parameters.clone(),
        None => {
            let json = Members::new().with("properties", Members::new().object()).with(
                "type",
                json::text_value("object"),
            ).object();
            assert(json@->Object_0 =~= any_parameters()->Object_0);
            json
        },
    };
    ToolDefinition {
        name: text::copy_text(name),
        description: text::copy_text(description),
        parameters,
    }
}

/// What is decided of a call: what is allowed is run, what is denied is answered with why, and
/// what is to be asked is asked with all that the call holds. A call of an unknown tool is
/// refused by its name.
pub proof fn law_calls_are_decided_by_the_policy(
    call: CallView,
    known: bool,
    decision: DecisionView,
)
    ensures
        ({
            let allowed = AuthorizationView::Planned(
                PlanView { call, denial: None, authorization: Some(decision) },
            );
            let denied = AuthorizationView::Planned(
                PlanView {
                    call,
                    denial: Some("tool denied: "@ + decision.reason),
                    authorization: None,
                },
            );
            let asked = AuthorizationView::Ask(
                AgentEventView::PermissionRequest {
                    request_id: call.tool_id,
                    tool_name: call.tool_name,
                    arguments: call.arguments,
                    reason: decision.reason,
                },
            );
            let unknown = AuthorizationView::Planned(
                PlanView {
                    call,
                    denial: Some("unknown tool: "@ + call.tool_name),
                    authorization: None,
                },
            );
            &&& known ==> authorized(call, known, Some(decision)) == (match decision.effect {
                PermissionEffect::Allow => allowed,
                PermissionEffect::Deny => denied,
                PermissionEffect::Ask => asked,
            })
            &&& !known ==> authorized(call, known, Some(decision)) == unknown
            &&& authorized(call, known, None) == unknown
        }),
{
}

/// What a user answers decides the call that was asked about, and no other: the answer is told
/// and the call is run or refused by it. A user who cannot answer any more refuses, one who
/// hears nothing any more is not told, and a cancellation decides nothing.
pub proof fn law_user_decides_what_was_asked(call: CallView, response: PermissionResponse)
    ensures
        ({
            let step = asked(call, PermissionSignal::Response(response));
            let told = AgentEventView::PermissionDecision {
                request_id: call.tool_id,
                allowed: response.allowed,
            };
            &&& response.request_id@ != call.tool_id ==> step is Wait
            &&& response.request_id@ == call.tool_id ==> {
                &&& step is Planned && step->event == Some(told) && step->plan.call == call
                &&& response.allowed ==> step->plan.denial is None && step->plan.authorization
                    is Some && (step->plan.authorization->0).effect == PermissionEffect::Allow
                &&& !response.allowed ==> step->plan.denial == Some(
                    "tool denied by user: "@ + call.tool_name,
                ) && step->plan.authorization is None
            }
        }),
        ({
            let step = asked(call, PermissionSignal::Closed);
            &&& step is Planned
            &&& step->event == Some(
                AgentEventView::PermissionDecision { request_id: call.tool_id, allowed: false },
            )
            &&& step->plan == (PlanView {
                call,
                denial: Some("tool denied by user: "@ + call.tool_name),
                authorization: None,
            })
        }),
        ({
            let step = asked(call, PermissionSignal::Unheard);
            &&& step is Planned && step->event is None
            &&& step->plan == (PlanView {
                call,
                denial: Some("agent event stream closed"@),
                authorization: None,
            })
        }),
        asked(call, PermissionSignal::Cancelled) is Cancelled,
{
}

/// As many calls run at once as may, and at least one: the first ones start at once, each that
/// completes makes room for the next one, and after a cancellation none is started and nothing
/// is kept.
pub proof fn law_calls_run_side_by_side(
    count: int,
    concurrency: int,
    schedule: ScheduleView,
    index: int,
    output: OutputView,
    other: int,
)
    requires
        0 <= count,
        0 <= index < schedule.results.len(),
    ensures
        ({
            let first = first_schedule(count, concurrency);
            &&& first.running == first.next
            &&& first.running <= count
            &&& first.running == count || first.running == first.limit
            &&& first.limit == (if concurrency >= 1 {
                concurrency
            } else {
                1
            })
            &&& first.running <= first.limit || count == 0
            &&& first.results.len() == count
            &&& 0 <= other < count ==> first.results[other] is None
        }),
        ({
            let after = completed(schedule, index, output, false);
            &&& after.results.len() == schedule.results.len()
            &&& after.results[index] == Some(output)
            &&& 0 <= other < schedule.results.len() && other != index ==> after.results[other]
                == schedule.results[other]
            &&& schedule.next < schedule.results.len() ==> after.next == schedule.next + 1
                && after.running == schedule.running
            &&& schedule.next >= schedule.results.len() ==> after.next == schedule.next
                && after.running == schedule.running - 1
        }),
        ({
            let after = completed(schedule, index, output, true);
            &&& after.results == schedule.results
            &&& after.next == schedule.next
            &&& after.running == schedule.running - 1
        }),
{
}

/// A tool is described by its name, what it is for and what its schema says of its input; where
/// the schema says nothing, it takes any object.
pub proof fn law_tools_are_described(name: Seq<char>, description: Seq<char>, schema: JsonView)
    ensures
        ({
            let tool = definition_of(name, description, schema);
            let input = json::member(schema, "input_schema"@);
            &&& tool.name == name
            &&& tool.description == description
            &&& input is Some ==> tool.parameters == input->0
            &&& input is None ==> json::member(tool.parameters, "type"@) == Some(
                JsonView::Text("object"@),
            ) && json::member(tool.parameters, "properties"@) == Some(
                JsonView::Object(Seq::empty()),
            )
        }),
{
    reveal_with_fuel(json::entry_from, 3);
    reveal_strlit("type");
    reveal_strlit("properties");
    assert("type"@.len() == 4 && "properties"@.len() == 10);
}

} // verus!
