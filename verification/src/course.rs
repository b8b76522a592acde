//! What holds in the course of a run: what it begins with, what it asks, what it does with an
//! answer, when it makes a summary and when it stops.
use vstd::prelude::*;

use crate::agent::{
    AgentConfigView, PhaseView, RunActionView, RunSignalView, RunView, TurnView,
};
use crate::agent;
use crate::agent_events::AgentEventView;
use crate::client::{RequestView, ToolView};
use crate::compaction::{CompactionTrigger, TrackerView};
use crate::compaction;
use crate::conversation::{BlockView, MessageRole, MessageView};
use crate::events::LlmErrorView;
use crate::events;
use crate::json;
use crate::sending;
use crate::session::{BoundaryView, SessionErrorView};
use crate::session;
use crate::text;
use crate::tool_result::BudgetView;
use crate::tool_result;
use crate::tools::{CallView, OutputView, PlanView};

verus! {

/// A run begins with what was loaded and the prompt as a text of the user. It has seen all
/// results that were loaded, and has read nothing and used nothing yet.
pub proof fn law_run_begins_with_the_prompt(
    config: AgentConfigView,
    tools: Seq<ToolView>,
    loaded: Seq<MessageView>,
    budget: BudgetView,
    prompt: Seq<char>,
    now: u64,
    id: Seq<char>,
)
    ensures
        ({
            let run = agent::begun(config, tools, loaded, budget, prompt, now);
            let first = run.conversation[loaded.len() as int];
            &&& run.conversation.len() == loaded.len() + 1
            &&& run.conversation.take(loaded.len() as int) == loaded
            &&& first.role == MessageRole::User
            &&& first.timestamp_unix_seconds == now
            &&& first.content.len() == 1
            &&& first.content[0] == (BlockView::Text { text: prompt })
            &&& run.config == config && run.tools == tools
            &&& run.iteration == 0 && run.reads.len() == 0
            &&& run.tracker.failures == 0 && !run.tracker.anchor.has_usage
            &&& run.phase is Starting
            &&& run.budget.ledger.replaced == budget.ledger.replaced
            &&& run.budget.recorded == budget.recorded
            &&& run.budget.ledger.seen.contains(id) <==> budget.ledger.seen.contains(id)
                || exists|i: int|
                0 <= i < loaded.len() && tool_result::answered_before(
                    (#[trigger] loaded[i]).content,
                    id,
                    loaded[i].content.len() as int,
                )
        }),
{
    let run = agent::begun(config, tools, loaded, budget, prompt, now);
    assert(run.conversation.take(loaded.len() as int) =~= loaded);
    sending::law_all_results_are_seen(budget.ledger.seen, loaded, loaded.len() as int, id);
}

/// An answer is stored whole, whether or not it calls tools. A cancelled answer cancels the
/// run, a failed one fails it with what went wrong, and one that nobody hears ends it.
pub proof fn law_answer_is_stored(
    run: RunView,
    turn: TurnView,
    error: LlmErrorView,
    now: u64,
    cancelled: bool,
)
    requires
        run.phase is Asking,
    ensures
        ({
            let (after, action) = agent::advanced(
                run,
                RunSignalView::Answered(Ok(turn)),
                now,
                cancelled,
            );
            let stored = action->Store_0;
            let first: int = if turn.text.len() > 0 {
                1
            } else {
                0
            };
            &&& action is Store
            &&& after.phase == (PhaseView::Answering { turn, message: stored })
            &&& stored.role == MessageRole::Assistant
            &&& stored.timestamp_unix_seconds == now
            &&& stored.content.len() == first + turn.calls.len()
            &&& turn.text.len() > 0 ==> stored.content[0] == (BlockView::Text { text: turn.text })
            &&& forall|i: int|
                0 <= i < turn.calls.len() ==> stored.content[first + i] == (BlockView::ToolUse {
                    tool_use_id: (#[trigger] turn.calls[i]).tool_id,
                    tool_name: turn.calls[i].tool_name,
                    arguments: turn.calls[i].arguments,
                })
        }),
        agent::advanced(run, RunSignalView::Answered(Err(error)), now, cancelled).1
            == RunActionView::Stop(
            Some(
                if error is Cancelled {
                    AgentEventView::RunCancelled
                } else {
                    AgentEventView::RunError { message: events::error_text(error) }
                },
            ),
        ),
        agent::advanced(run, RunSignalView::Unheard, now, cancelled).1 == RunActionView::Stop(None),
{
    agent::law_answer_is_kept_whole(turn, now);
}

/// An answer that calls no tools completes the run with its text; one that does has all of its
/// calls authorized, in order. What the provider counted is remembered together with how long
/// the conversation was then. An answer that cannot be stored fails the run.
pub proof fn law_answer_decides_what_follows(
    run: RunView,
    turn: TurnView,
    message: MessageView,
    error: SessionErrorView,
    now: u64,
    cancelled: bool,
)
    requires
        run.phase == (PhaseView::Answering { turn, message }),
        run.conversation.len() < usize::MAX,
        turn.usage is Some ==> (turn.usage->0).input_tokens + (turn.usage->0).output_tokens + (
        turn.usage->0).cache_read_tokens + (turn.usage->0).cache_creation_tokens <= usize::MAX,
    ensures
        ({
            let (after, action) = agent::advanced(
                run,
                RunSignalView::Stored(Ok(())),
                now,
                cancelled,
            );
            let anchor = after.tracker.anchor;
            &&& after.conversation == run.conversation.push(message)
            &&& turn.calls.len() == 0 ==> action == RunActionView::Stop(
                Some(AgentEventView::RunCompleted { final_text: turn.text }),
            )
            &&& turn.calls.len() > 0 ==> action == RunActionView::Authorize(turn.calls)
                && after.phase is Authorizing
            &&& turn.usage is None ==> anchor == run.tracker.anchor
            &&& turn.usage is Some ==> {
                let usage = turn.usage->0;
                &&& anchor.has_usage
                &&& anchor.anchor_count == run.conversation.len() + 1
                &&& anchor.baseline_tokens == usage.input_tokens + usage.output_tokens
                    + usage.cache_read_tokens + usage.cache_creation_tokens
            }
            &&& after.tracker.failures == run.tracker.failures
        }),
        agent::advanced(run, RunSignalView::Stored(Err(error)), now, cancelled).1
            == RunActionView::Stop(
            Some(AgentEventView::RunError { message: session::session_error_text(error) }),
        ),
{
}

/// What was authorized is run, all of it and in order, as many calls at a time as configured.
/// Where the authorization was broken off, the run is cancelled.
pub proof fn law_authorized_calls_are_run(
    run: RunView,
    plans: Seq<PlanView>,
    now: u64,
    cancelled: bool,
)
    requires
        run.phase is Authorizing,
    ensures
        ({
            let (after, action) = agent::advanced(
                run,
                RunSignalView::Authorized(Some(plans)),
                now,
                cancelled,
            );
            &&& action == (RunActionView::Execute {
                plans,
                concurrency: run.config.tool_concurrency,
            })
            &&& after.phase is Executing && after.phase->calls.len() == plans.len()
            &&& forall|i: int|
                0 <= i < plans.len() ==> after.phase->calls[i] == (#[trigger] plans[i]).call
        }),
        agent::advanced(run, RunSignalView::Authorized(None), now, cancelled).1
            == RunActionView::Stop(Some(AgentEventView::RunCancelled)),
{
}

/// How many of the outputs up to `end` there are.
pub open spec fn present(outputs: Seq<Option<OutputView>>, end: int) -> int
    decreases end,
{
    if end <= 0 {
        0
    } else {
        present(outputs, end - 1) + if outputs[end - 1] is Some {
            1int
        } else {
            0int
        }
    }
}

/// Where the outputs are, there are as many of them as there are results.
proof fn lemma_present(outputs: Seq<Option<OutputView>>, end: int)
    requires
        0 <= end,
    ensures
        0 <= present(outputs, end) <= end,
    decreases end,
{
    if end > 0 {
        lemma_present(outputs, end - 1);
    }
}

/// Calls that were not run are passed over: each output that there is becomes the result of its
/// own call, with the id of that call, and the results keep the order of the calls.
pub proof fn law_each_output_answers_its_call(
    reads: compaction::Reads,
    calls: Seq<CallView>,
    outputs: Seq<Option<OutputView>>,
    end: int,
    index: int,
)
    requires
        0 <= index < end <= calls.len(),
        end <= outputs.len(),
    ensures
        ({
            let results = agent::results_of(reads, calls, outputs, end);
            let at = present(outputs, index);
            &&& results.content.len() == present(outputs, end)
            &&& results.events.len() == present(outputs, end)
            &&& outputs[index] is Some ==> {
                &&& 0 <= at < results.content.len()
                &&& results.content[at] == (BlockView::ToolResult {
                    tool_use_id: calls[index].tool_id,
                    content: (outputs[index]->0).output,
                    is_error: (outputs[index]->0).is_error,
                })
                &&& results.events[at] == (AgentEventView::ToolResult {
                    tool_id: calls[index].tool_id,
                    tool_name: calls[index].tool_name,
                    content: (outputs[index]->0).output,
                    is_error: (outputs[index]->0).is_error,
                })
            }
        }),
    decreases end,
{
    lemma_present(outputs, index);
    if index < end - 1 {
        law_each_output_answers_its_call(reads, calls, outputs, end - 1, index);
    } else {
        lemma_result_count(reads, calls, outputs, index);
    }
}

proof fn lemma_result_count(
    reads: compaction::Reads,
    calls: Seq<CallView>,
    outputs: Seq<Option<OutputView>>,
    end: int,
)
    requires
        0 <= end <= calls.len(),
        end <= outputs.len(),
    ensures
        agent::results_of(reads, calls, outputs, end).content.len() == present(outputs, end),
        agent::results_of(reads, calls, outputs, end).events.len() == present(outputs, end),
    decreases end,
{
    if end > 0 {
        lemma_result_count(reads, calls, outputs, end - 1);
    }
}

/// The reading of a file is remembered as the last one, with its path and what was read. No
/// other call changes what is remembered.
pub proof fn law_readings_are_remembered(
    reads: compaction::Reads,
    call: CallView,
    output: OutputView,
    path: Seq<char>,
)
    ensures
        ({
            let after = agent::reads_with(reads, call, output);
            let named = json::as_text(json::member(call.arguments, "file_path"@));
            &&& call.tool_name == "ReadFile"@ && named == Some(path) ==> after.len() > 0
                && after.last() == (path, output.output)
            &&& call.tool_name != "ReadFile"@ || named is None ==> after == reads
        }),
{
}

/// A turn begins only while the limit on turns allows it: a run at the limit stops and tells
/// the limit, and each other turn is counted.
#[verifier::spinoff_prover]
#[verifier::rlimit(40)]
pub proof fn law_turns_are_counted(run: RunView, now: u64)
    requires
        run.phase is Starting || run.phase is Finishing,
    ensures
        ({
            let (after, action) = agent::advanced(run, RunSignalView::Stored(Ok(())), now, false);
            let limit = AgentEventView::MaxIterationsReached { limit: run.config.max_iterations };
            &&& run.iteration >= run.config.max_iterations ==> action == RunActionView::Stop(
                Some(limit),
            )
            &&& run.iteration < run.config.max_iterations ==> after.iteration == run.iteration + 1
                && !(action is Stop)
        }),
{
}

/// A summary is made only of a conversation that is too long, and of one that is far too long
/// it is always made, where there is something to summarize: it is asked of the messages before
/// those that are kept.
#[verifier::spinoff_prover]
#[verifier::rlimit(40)]
pub proof fn law_summary_is_made_when_needed(run: RunView, now: u64)
    requires
        run.phase is Starting,
        run.iteration < run.config.max_iterations,
        compaction::can_compact(run.conversation, run.config.compaction),
        compaction::used(run.tracker.anchor, run.conversation) <= usize::MAX,
    ensures
        ({
            let (after, action) = agent::advanced(run, RunSignalView::Stored(Ok(())), now, false);
            let trigger = compaction::trigger_at(
                run.config.compaction,
                compaction::used(run.tracker.anchor, run.conversation),
                run.tracker.failures as int,
            );
            let kept = compaction::keep_start(run.conversation, run.config.compaction);
            &&& action is Summarize <==> !(trigger is NotNeeded) && kept != 0
            &&& action is Summarize ==> {
                &&& after.phase is Summarizing
                &&& after.phase->keep_start == kept
                &&& action->Summarize_0 == compaction::summary_request_of(
                    run.conversation.take(kept),
                    now,
                )
                &&& after.conversation == run.conversation
            }
            &&& !(action is Summarize) ==> action is Ask || action is Spill || action is Record
        }),
{
}

/// A summary loses nothing but what it summarizes: what is stored with it, and then follows it
/// in the conversation, are the messages after those that it was made of. The summary is told in
/// a text of the user, and what the provider counted before counts no more.
#[verifier::spinoff_prover]
#[verifier::rlimit(40)]
pub proof fn law_summary_takes_the_place_of_what_it_summarizes(
    run: RunView,
    summary: Seq<char>,
    now: u64,
    later: u64,
)
    requires
        run.phase is Summarizing,
        0 <= run.phase->keep_start <= run.conversation.len(),
        !text::is_blank(summary),
    ensures
        ({
            let (bounding, store) = agent::advanced(
                run,
                RunSignalView::Summarized(Ok(summary)),
                now,
                false,
            );
            let boundary = store->StoreBoundary_0;
            let (after, report) = agent::advanced(
                bounding,
                RunSignalView::Stored(Ok(())),
                later,
                false,
            );
            let told = after.conversation[0];
            &&& store is StoreBoundary
            &&& boundary.summary == summary
            &&& run.conversation == run.conversation.take(run.phase->keep_start) + boundary.keep
            &&& report is Abort || {
                &&& report is Report
                &&& after.conversation.len() == boundary.keep.len() + 1
                &&& after.conversation.skip(1) == boundary.keep
                &&& told.role == MessageRole::User
                &&& told.timestamp_unix_seconds == later
                &&& told.content.len() == 1 && told.content[0] is Text
                &&& text::contains_text(told.content[0]->Text_text, summary)
                &&& !after.tracker.anchor.has_usage
                &&& after.tracker.failures == run.tracker.failures
            }
        }),
{
    let kept = run.phase->keep_start;
    assert(run.conversation.take(kept) + run.conversation.skip(kept) =~= run.conversation);
    let bounding = agent::advanced(run, RunSignalView::Summarized(Ok(summary)), now, false).0;
    let boundary = bounding.phase->boundary;
    let recovery = compaction::recovery_text(
        run.reads,
        run.tools,
        run.config.compaction.recovery_token_budget as int,
    );
    let whole = compaction::continuation(boundary, Some(recovery));
    let start =
        "This session continues from an earlier conversation that was compacted. Earlier summary:\n\n"@.len() as int;
    assert(whole.subrange(start, start + summary.len()) =~= summary);
    assert(text::occurs_at(whole, summary, start));
    let after = compaction::compacted(boundary, Some(recovery), later);
    assert(after.skip(1) =~= boundary.keep);
}

/// A summary that fails ends a run only where the conversation is far too long; otherwise the
/// run goes on with the conversation as it is, and the failure is counted.
#[verifier::spinoff_prover]
#[verifier::rlimit(40)]
pub proof fn law_failed_summary_ends_only_long_runs(run: RunView, error: LlmErrorView, now: u64)
    requires
        run.phase is Summarizing,
        run.tracker.failures < usize::MAX,
    ensures
        ({
            let (after, action) = agent::advanced(
                run,
                RunSignalView::Summarized(Err(error)),
                now,
                false,
            );
            &&& run.phase->Summarizing_trigger is Hard ==> action == RunActionView::Stop(
                Some(AgentEventView::RunError { message: events::error_text(error) }),
            )
            &&& !(run.phase->Summarizing_trigger is Hard) ==> {
                &&& !(action is Stop) && !(action is Abort)
                &&& after.conversation == run.conversation
                &&& after.tracker.failures == run.tracker.failures + 1
            }
        }),
{
}

/// The provider is asked what was said: with the system prompt and the tools of the run, and
/// with the conversation, in which only what results hold may differ.
#[verifier::spinoff_prover]
#[verifier::rlimit(40)]
pub proof fn law_provider_is_asked_what_was_said(run: RunView, answers: Seq<bool>, index: int)
    requires
        0 <= index < run.conversation.len(),
    ensures
        ({
            let (after, action) = agent::prepared(run, answers);
            let asked = match action {
                RunActionView::Ask(request) => Some(request),
                _ => match after.phase {
                    PhaseView::Recording { request } => Some(request),
                    _ => None::<RequestView>,
                },
            };
            &&& action is Ask || action is Record || action is Spill
            &&& action is Ask || action is Record <==> asked is Some
            &&& asked is Some ==> {
                let request = asked->0;
                &&& request.system_prompt == run.config.system_prompt
                &&& request.tools == run.tools
                &&& request.conversation.len() == run.conversation.len()
                &&& sending::same_but_for_results(
                    request.conversation[index],
                    run.conversation[index],
                )
            }
            &&& after.conversation == run.conversation
        }),
        run.phase is Recording ==> forall|written: bool, now: u64, cancelled: bool|
            (#[trigger] agent::advanced(run, RunSignalView::Recorded(written), now, cancelled)).1
                == RunActionView::Ask(run.phase->Recording_request),
{
    let setting = tool_result::setting_of(run.budget, run.conversation, answers);
    if tool_result::applied(run.budget.ledger, setting) is Ok {
        sending::law_only_results_change(run.budget.ledger, setting, index);
    }
}

/// What is read in the course of calls is remembered call by call, in their order; a call that
/// was not run is not a reading.
pub proof fn law_readings_follow_the_calls(
    reads: compaction::Reads,
    calls: Seq<CallView>,
    outputs: Seq<Option<OutputView>>,
    end: int,
    path: Seq<char>,
)
    requires
        0 <= end < calls.len(),
        end < outputs.len(),
    ensures
        ({
            let before = agent::results_of(reads, calls, outputs, end).reads;
            let after = agent::results_of(reads, calls, outputs, end + 1).reads;
            let call = calls[end];
            let reading = call.tool_name == "ReadFile"@ && json::as_text(
                json::member(call.arguments, "file_path"@),
            ) == Some(path);
            &&& outputs[end] is Some && reading ==> after == compaction::reads_after(
                before,
                path,
                (outputs[end]->0).output,
            )
            &&& outputs[end] is None || call.tool_name != "ReadFile"@ ==> after == before
        }),
        agent::results_of(reads, calls, outputs, 0).reads == reads,
{
}

/// Before the provider is asked, what is too long is saved and what was replaced is recorded:
/// each file that is still to be written is asked for, and whether it could be written is taken
/// into account; then what is not recorded yet is recorded, and counts as recorded only if it
/// could be.
#[verifier::spinoff_prover]
#[verifier::rlimit(40)]
pub proof fn law_files_come_before_the_question(
    run: RunView,
    answers: Seq<bool>,
    written: bool,
    now: u64,
    cancelled: bool,
    id: Seq<char>,
)
    ensures
        ({
            let applied = tool_result::applied(
                run.budget.ledger,
                tool_result::setting_of(run.budget, run.conversation, answers),
            );
            let (after, action) = agent::prepared(run, answers);
            let missing = tool_result::unrecorded(
                (applied->Ok_0).0.replaced,
                run.budget.recorded,
            );
            &&& applied is Err ==> action == RunActionView::Spill(applied->Err_0) && after.phase
                == (PhaseView::Preparing { answers })
            &&& applied is Ok ==> {
                &&& after.budget.ledger == (applied->Ok_0).0
                &&& after.budget.recorded == run.budget.recorded
                &&& action is Ask <==> missing.len() == 0
                &&& missing.len() > 0 ==> action == (RunActionView::Record {
                    path: run.budget.records_path,
                    lines: tool_result::replacement_text(missing),
                })
            }
        }),
        run.phase == (PhaseView::Preparing { answers }) ==> agent::advanced(
            run,
            RunSignalView::Spilled(written),
            now,
            cancelled,
        ) == agent::prepared(run, answers.push(written)),
        run.phase is Recording ==> {
            let after = agent::advanced(run, RunSignalView::Recorded(written), now, cancelled).0;
            &&& after.phase is Asking
            &&& after.budget.ledger == run.budget.ledger
            &&& after.budget.recorded.contains(id) <==> run.budget.recorded.contains(id) || (written
                && exists|i: int|
                0 <= i < run.budget.ledger.replaced.len() && (
                #[trigger] run.budget.ledger.replaced[i]).0 == id)
        },
{
}

/// A run that nobody hears any more stops without another word.
pub proof fn law_unheard_run_stops(run: RunView, now: u64, cancelled: bool)
    requires
        run.phase is Reporting || run.phase is Delivering,
    ensures
        agent::advanced(run, RunSignalView::Delivered(false), now, cancelled).1
            == RunActionView::Stop(None),
{
}

/// What a compaction is told of: how many tokens the conversation took and takes now.
#[verifier::spinoff_prover]
#[verifier::rlimit(40)]
pub proof fn law_compaction_tells_what_it_saved(
    run: RunView,
    boundary: BoundaryView,
    trigger: CompactionTrigger,
    tokens_before: int,
    now: u64,
    cancelled: bool,
)
    requires
        run.phase == (PhaseView::Bounding { trigger, tokens_before, boundary }),
        tokens_before >= 0,
        compaction::tokens_in(
            compaction::compacted(
                boundary,
                Some(
                    compaction::recovery_text(
                        run.reads,
                        run.tools,
                        run.config.compaction.recovery_token_budget as int,
                    ),
                ),
                now,
            ),
        ) <= usize::MAX,
    ensures
        ({
            let (after, action) = agent::advanced(
                run,
                RunSignalView::Stored(Ok(())),
                now,
                cancelled,
            );
            action == RunActionView::Report(
                seq![
                    AgentEventView::Compacted {
                        message: "Compacted: "@ + text::decimal(tokens_before as nat)
                            + " \u{2192} "@ + text::decimal(
                            compaction::tokens_in(after.conversation),
                        ) + " estimated tokens"@,
                    },
                ],
            )
        }),
{
}

/// A summary that says nothing, or that cannot be stored, is a summary that failed.
#[verifier::spinoff_prover]
#[verifier::rlimit(40)]
pub proof fn law_useless_summary_fails(
    run: RunView,
    summary: Seq<char>,
    error: SessionErrorView,
    now: u64,
)
    requires
        run.tracker.failures < usize::MAX,
    ensures
        run.phase is Summarizing && 0 <= run.phase->keep_start <= run.conversation.len()
            && text::is_blank(summary) ==> {
            let (after, action) = agent::advanced(
                run,
                RunSignalView::Summarized(Ok(summary)),
                now,
                false,
            );
            &&& run.phase->Summarizing_trigger is Hard ==> action == RunActionView::Stop(
                Some(AgentEventView::RunError { message: "compaction summary was empty"@ }),
            )
            &&& !(run.phase->Summarizing_trigger is Hard) ==> !(action is Stop) && !(action
                is Abort) && after.conversation == run.conversation && after.tracker.failures
                == run.tracker.failures + 1
        },
        run.phase is Bounding ==> {
            let (after, action) = agent::advanced(
                run,
                RunSignalView::Stored(Err(error)),
                now,
                false,
            );
            &&& run.phase->Bounding_trigger is Hard ==> action == RunActionView::Stop(
                Some(AgentEventView::RunError { message: session::session_error_text(error) }),
            )
            &&& !(run.phase->Bounding_trigger is Hard) ==> !(action is Stop) && !(action is Abort)
                && after.conversation == run.conversation && after.tracker.failures
                == run.tracker.failures + 1
        },
{
}

/// All outputs of calls are reported and stored as results, each for the call at its place; those
/// that belong to no call are not.
pub proof fn law_outputs_are_reported(
    run: RunView,
    outputs: Seq<Option<OutputView>>,
    now: u64,
    cancelled: bool,
)
    requires
        run.phase is Executing,
    ensures
        ({
            let calls = run.phase->calls;
            let count: int = if calls.len() < outputs.len() {
                calls.len() as int
            } else {
                outputs.len() as int
            };
            let (after, action) = agent::advanced(
                run,
                RunSignalView::Executed(outputs),
                now,
                cancelled,
            );
            &&& action == RunActionView::Report(
                agent::results_of(run.reads, calls, outputs, count).events,
            )
            &&& after.phase == (PhaseView::Delivering {
                content: agent::results_of(run.reads, calls, outputs, count).content,
            })
            &&& after.reads == agent::results_of(run.reads, calls, outputs, count).reads
            &&& action->Report_0.len() == present(outputs, count)
        }),
{
    let calls = run.phase->calls;
    let count: int = if calls.len() < outputs.len() {
        calls.len() as int
    } else {
        outputs.len() as int
    };
    lemma_result_count(run.reads, calls, outputs, count);
}

/// No file counts as written before it was asked for: whenever a question is first prepared, at
/// the beginning of a turn, after a compaction was told or after one failed, nothing is taken to
/// have been written.
#[verifier::spinoff_prover]
#[verifier::rlimit(40)]
pub proof fn law_questions_are_prepared_afresh(run: RunView, error: LlmErrorView, now: u64)
    ensures
        run.phase is Starting && run.iteration < run.config.max_iterations && compaction::used(
            run.tracker.anchor,
            run.conversation,
        ) <= usize::MAX && compaction::trigger_at(
            run.config.compaction,
            compaction::used(run.tracker.anchor, run.conversation),
            run.tracker.failures as int,
        ) is NotNeeded ==> agent::advanced(run, RunSignalView::Stored(Ok(())), now, false)
            == agent::prepared(RunView { iteration: run.iteration + 1, ..run }, Seq::empty()),
        run.phase is Reporting ==> agent::advanced(run, RunSignalView::Delivered(true), now, false)
            == agent::prepared(run, Seq::empty()),
        run.phase is Summarizing && !(run.phase->Summarizing_trigger is Hard)
            && run.tracker.failures < usize::MAX ==> agent::advanced(
            run,
            RunSignalView::Summarized(Err(error)),
            now,
            false,
        ) == agent::prepared(
            RunView {
                tracker: TrackerView {
                    failures: (run.tracker.failures + 1) as usize,
                    ..run.tracker
                },
                ..run
            },
            Seq::empty(),
        ),
{
}

} // verus!
