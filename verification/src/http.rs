//! The exchange with a provider over HTTP: how refusals are told apart, and what
//! becomes of what arrives on the stream.
use vstd::prelude::*;

use crate::events::{LlmError, LlmErrorView, LlmEvent, LlmEventView};
use crate::events;
use crate::sse::{SseEvent, SseEventView};
use crate::text;

verus! {

/// How many seconds a stream may be silent.
pub const STREAM_IDLE_TIMEOUT_SECONDS: u64 = 300;

/// Whether a status is a success.
pub open spec fn success(status: u16) -> bool {
    200 <= status < 300
}

/// Whether a status is a success.
pub fn is_success(status: u16) -> (result: bool)
    ensures
        result == success(status),
{
    200 <= status && status < 300
}

/// Whether a refusal says that the context is too long, by its status and its message
/// in lower case.
pub open spec fn too_long(status: u16, normalized: Seq<char>) -> bool {
    status == 413 || (status == 400 && (text::contains_text(normalized, "context length"@)
        || text::contains_text(normalized, "prompt is too long"@) || text::contains_text(
        normalized,
        "too many tokens"@,
    )))
}

/// The error for a refusal. `normalized` is the message in lower case.
pub open spec fn refusal(
    status: u16,
    normalized: Seq<char>,
    message: Seq<char>,
    retry_after: Option<Seq<char>>,
) -> LlmErrorView {
    let number = text::decimal(status as nat);
    let full = "provider returned HTTP "@ + number + ": "@ + message;
    if too_long(status, normalized) {
        LlmErrorView::ContextTooLong { message: full }
    } else if status == 401 || status == 403 {
        LlmErrorView::Authentication {
            message: "provider rejected credentials (HTTP "@ + number + ")"@,
        }
    } else if status == 429 {
        LlmErrorView::RateLimit {
            message: "provider rate limit exceeded (HTTP "@ + number + ")"@,
            retry_after,
        }
    } else {
        LlmErrorView::Network { message: full }
    }
}

/// The error for a refusal. `normalized` is the message in lower case.
pub fn refusal_error(
    status: u16,
    normalized: &str,
    message: &str,
    retry_after: Option<String>,
) -> (error: LlmError)
    ensures
        error@ == refusal(status, normalized@, message@, text::optional_text(retry_after)),
{
    let number = text::decimal_text(status as u64);
    let mut full = text::concat3("provider returned HTTP ", number.as_str(), ": ");
    full.append(message);
    if status == 413 || (status == 400 && (text::contains(normalized, "context length")
        || text::contains(normalized, "prompt is too long") || text::contains(
        normalized,
        "too many tokens",
    ))) {
        return LlmError::ContextTooLong { message: full };
    }
    if status == 401 || status == 403 {
        LlmError::Authentication {
            message: text::concat3("provider rejected credentials (HTTP ", number.as_str(), ")"),
        }
    } else if status == 429 {
        LlmError::RateLimit {
            message: text::concat3("provider rate limit exceeded (HTTP ", number.as_str(), ")"),
            retry_after,
        }
    } else {
        LlmError::Network { message: full }
    }
}

/// The error for a refusal with that status and message.
pub fn map_http_error(status: u16, message: &str, retry_after: Option<String>) -> (error: LlmError)
    ensures
        error@ == refusal(
            status,
            text::lowercase_text(message@),
            message@,
            text::optional_text(retry_after),
        ),
{
    let normalized = text::lowercase(message);
    refusal_error(status, normalized.as_str(), message, retry_after)
}

/// The error for an address that is no URL. `reason` says why it is none.
pub fn invalid_url_error(url: &str, reason: &str) -> (error: LlmError)
    ensures
        error@ == (LlmErrorView::InvalidResponse {
            message: "invalid provider URL "@ + text::quoted_text(url@) + ": "@ + reason@,
        }),
{
    let mut message = text::concat3("invalid provider URL ", text::quoted(url).as_str(), ": ");
    message.append(reason);
    LlmError::InvalidResponse { message }
}

/// A decoder of the events of one provider's stream.
pub trait SseDecoder: Sized {
    /// What the decoder remembers of the stream.
    type Memory;

    spec fn memory(&self) -> Self::Memory;

    /// What an event makes of the memory, and what it stands for.
    spec fn decoding(memory: Self::Memory, event: SseEventView) -> (
        Self::Memory,
        Result<Seq<LlmEventView>, LlmErrorView>,
    );

    /// What the end of the stream makes of the memory, and what it stands for.
    spec fn finishing(memory: Self::Memory) -> (
        Self::Memory,
        Result<Seq<LlmEventView>, LlmErrorView>,
    );

    fn decode(&mut self, event: &SseEvent) -> (outcome: Result<Vec<LlmEvent>, LlmError>)
        ensures
            Self::decoding(old(self).memory(), event@) == (
                final(self).memory(),
                events::decoded_view(outcome),
            ),
    ;

    fn finish(&mut self) -> (outcome: Result<Vec<LlmEvent>, LlmError>)
        ensures
            Self::finishing(old(self).memory()) == (
                final(self).memory(),
                events::decoded_view(outcome),
            ),
    ;
}

/// What happens to an open request.
#[derive(Debug, PartialEq, Eq)]
pub enum StreamSignal {
    /// The run was cancelled.
    Cancelled,
    /// The request, or the stream, failed.
    Failed(LlmError),
    /// Nothing arrived for too long.
    Idle,
    /// An event arrived.
    Event(SseEvent),
    /// The stream ended.
    End,
}

/// What a [`StreamSignal`] holds.
#[verifier::ext_equal]
pub enum StreamSignalView {
    Cancelled,
    Failed(LlmErrorView),
    Idle,
    Event(SseEventView),
    End,
}

impl View for StreamSignal {
    type V = StreamSignalView;

    open spec fn view(&self) -> StreamSignalView {
        match *self {
            StreamSignal::Cancelled => StreamSignalView::Cancelled,
            StreamSignal::Failed(error) => StreamSignalView::Failed(error@),
            StreamSignal::Idle => StreamSignalView::Idle,
            StreamSignal::Event(event) => StreamSignalView::Event(event@),
            StreamSignal::End => StreamSignalView::End,
        }
    }
}

/// The view of what is sent to the receiver of a stream.
pub open spec fn sent_view(item: Result<LlmEvent, LlmError>) -> Result<LlmEventView, LlmErrorView> {
    match item {
        Ok(event) => Ok(event@),
        Err(error) => Err(error@),
    }
}

/// The views of what is sent to the receiver of a stream.
pub open spec fn sent_views(items: Seq<Result<LlmEvent, LlmError>>) -> Seq<
    Result<LlmEventView, LlmErrorView>,
> {
    items.map_values(|item: Result<LlmEvent, LlmError>| sent_view(item))
}

/// What is to be sent after a signal, and whether the stream is over.
#[derive(Debug, PartialEq, Eq)]
pub struct StreamStep {
    pub items: Vec<Result<LlmEvent, LlmError>>,
    pub done: bool,
}

/// What a [`StreamStep`] holds.
#[verifier::ext_equal]
pub struct StreamStepView {
    pub items: Seq<Result<LlmEventView, LlmErrorView>>,
    pub done: bool,
}

impl View for StreamStep {
    type V = StreamStepView;

    open spec fn view(&self) -> StreamStepView {
        StreamStepView { items: sent_views(self.items@), done: self.done }
    }
}

/// The error for a stream that has been silent for too long.
pub open spec fn idle_error() -> LlmErrorView {
    LlmErrorView::Network {
        message: "provider stream idle timeout: no SSE events for "@ + text::decimal(
            STREAM_IDLE_TIMEOUT_SECONDS as nat,
        ) + "s"@,
    }
}

/// The step that sends an error and ends the stream.
pub open spec fn failing_step(error: LlmErrorView) -> StreamStepView {
    StreamStepView { items: seq![Err::<LlmEventView, LlmErrorView>(error)], done: true }
}

/// The events of an outcome as what is sent for them.
pub open spec fn event_items(events: Seq<LlmEventView>) -> Seq<Result<LlmEventView, LlmErrorView>> {
    events.map_values(|event: LlmEventView| Ok::<LlmEventView, LlmErrorView>(event))
}

/// The step for what decoding gave: its events, or an error, which ends the stream.
pub open spec fn outcome_step(
    outcome: Result<Seq<LlmEventView>, LlmErrorView>,
    done: bool,
) -> StreamStepView {
    match outcome {
        Ok(events) => StreamStepView { items: event_items(events), done },
        Err(error) => failing_step(error),
    }
}

/// What a signal makes of a decoder's memory, and the step that it asks for.
pub open spec fn stepped<D: SseDecoder>(memory: D::Memory, signal: StreamSignalView) -> (
    D::Memory,
    StreamStepView,
) {
    match signal {
        StreamSignalView::Cancelled => (memory, failing_step(LlmErrorView::Cancelled)),
        StreamSignalView::Failed(error) => (memory, failing_step(error)),
        StreamSignalView::Idle => (memory, failing_step(idle_error())),
        StreamSignalView::Event(event) => {
            let (after, outcome) = D::decoding(memory, event);
            (after, outcome_step(outcome, false))
        },
        StreamSignalView::End => {
            let (after, outcome) = D::finishing(memory);
            (after, outcome_step(outcome, true))
        },
    }
}

/// The step that sends an error and ends the stream.
fn fail(error: LlmError) -> (step: StreamStep)
    ensures
        step@ == failing_step(error@),
{
    let mut items: Vec<Result<LlmEvent, LlmError>> = Vec::new();
    items.push(Err(error));
    assert(sent_views(items@) =~= seq![Err::<LlmEventView, LlmErrorView>(error@)]);
    StreamStep { items, done: true }
}

/// The step for what decoding gave.
fn step_for(outcome: Result<Vec<LlmEvent>, LlmError>, done: bool) -> (step: StreamStep)
    ensures
        step@ == outcome_step(events::decoded_view(outcome), done),
{
    match outcome {
        Err(error) => fail(error),
        Ok(decoded) => {
            let ghost all = decoded@;
            let mut items: Vec<Result<LlmEvent, LlmError>> = Vec::new();
            for event in iter: decoded.into_iter()
                invariant
                    iter.seq() == all,
                    items@.len() == iter.index(),
                    forall|j: int|
                        0 <= j < iter.index() ==> #[trigger] items@[j] == Ok::<LlmEvent, LlmError>(
                            all[j],
                        ),
            {
                items.push(Ok(event));
            }
            assert(sent_views(items@) =~= event_items(events::event_views(all)));
            StreamStep { items, done }
        },
    }
}

/// What to do about a signal: an event is decoded and what it stands for is sent; the
/// end of the stream is decoded too and ends it; anything else is sent as an error
/// and ends the stream, as does an error of the decoder.
pub fn advance_stream<D: SseDecoder>(decoder: &mut D, signal: StreamSignal) -> (step: StreamStep)
    ensures
        stepped::<D>(old(decoder).memory(), signal@) == (final(decoder).memory(), step@),
{
    match signal {
        StreamSignal::Cancelled => fail(LlmError::Cancelled),
        StreamSignal::Failed(error) => fail(error),
        StreamSignal::Idle => {
            let number = text::decimal_text(STREAM_IDLE_TIMEOUT_SECONDS);
            fail(
                LlmError::Network {
                    message: text::concat3(
                        "provider stream idle timeout: no SSE events for ",
                        number.as_str(),
                        "s",
                    ),
                },
            )
        },
        StreamSignal::Event(event) => {
            let outcome = decoder.decode(&event);
            step_for(outcome, false)
        },
        StreamSignal::End => {
            let outcome = decoder.finish();
            step_for(outcome, true)
        },
    }
}

/// All that is sent for a sequence of signals. Signals that come after the stream is
/// over are not heeded.
pub open spec fn all_sent<D: SseDecoder>(memory: D::Memory, signals: Seq<StreamSignalView>) -> Seq<
    Result<LlmEventView, LlmErrorView>,
>
    decreases signals.len(),
{
    if signals.len() == 0 {
        Seq::empty()
    } else {
        let (after, step) = stepped::<D>(memory, signals[0]);
        if step.done {
            step.items
        } else {
            step.items + all_sent::<D>(after, signals.skip(1))
        }
    }
}

/// An error ends a stream: whatever happens, nothing is sent after an error, so at
/// most one error is sent and it comes last.
pub proof fn law_error_comes_last<D: SseDecoder>(
    memory: D::Memory,
    signals: Seq<StreamSignalView>,
    i: int,
)
    requires
        0 <= i < all_sent::<D>(memory, signals).len(),
        all_sent::<D>(memory, signals)[i] is Err,
    ensures
        i == all_sent::<D>(memory, signals).len() - 1,
    decreases signals.len(),
{
    if signals.len() > 0 {
        let (after, step) = stepped::<D>(memory, signals[0]);
        if !step.done {
            if i >= step.items.len() {
                assert(all_sent::<D>(memory, signals)[i] == all_sent::<D>(after, signals.skip(1))[i
                    - step.items.len()]);
                law_error_comes_last::<D>(after, signals.skip(1), i - step.items.len());
            } else {
                assert(all_sent::<D>(memory, signals)[i] == step.items[i]);
            }
        }
    }
}

/// What a refused request is answered, by its status: too long a prompt is told from other
/// refusals, credentials and too many requests are told apart, with how long to wait, and all
/// else is a failure of the network. But for the two that need no more, the answer says what
/// the provider said.
pub proof fn law_refusals_are_told_apart(
    status: u16,
    normalized: Seq<char>,
    message: Seq<char>,
    retry_after: Option<Seq<char>>,
)
    ensures
        ({
            let error = refusal(status, normalized, message, retry_after);
            let said = "provider returned HTTP "@ + text::decimal(status as nat) + ": "@ + message;
            let long = status == 413 || (status == 400 && (text::contains_text(
                normalized,
                "context length"@,
            ) || text::contains_text(normalized, "prompt is too long"@) || text::contains_text(
                normalized,
                "too many tokens"@,
            )));
            &&& error is ContextTooLong <==> long
            &&& error is Authentication <==> status == 401 || status == 403
            &&& error is RateLimit <==> status == 429
            &&& long ==> error == (LlmErrorView::ContextTooLong { message: said })
            &&& status == 429 ==> error->RateLimit_retry_after == retry_after
            &&& !long && status != 401 && status != 403 && status != 429 ==> error == (
            LlmErrorView::Network { message: said })
        }),
        success(status) <==> status / 100 == 2,
{
}

/// A stream passes on all that its decoder tells of an event, in order, and goes on; an error,
/// a cancellation, a failure, silence or the end are the last that it tells.
pub proof fn law_stream_passes_on_what_is_decoded<D: SseDecoder>(
    memory: D::Memory,
    event: SseEventView,
    error: LlmErrorView,
    index: int,
)
    ensures
        ({
            let (decoded, outcome) = D::decoding(memory, event);
            let (after, step) = stepped::<D>(memory, StreamSignalView::Event(event));
            &&& after == decoded
            &&& outcome is Ok ==> !step.done && step.items.len() == (outcome->Ok_0).len() && (0
                <= index < step.items.len() ==> step.items[index] == Ok::<_, LlmErrorView>(
                (outcome->Ok_0)[index],
            ))
            &&& outcome is Err ==> step.done && step.items == seq![
                Err::<LlmEventView, LlmErrorView>(outcome->Err_0),
            ]
        }),
        ({
            let (finished, outcome) = D::finishing(memory);
            let (after, step) = stepped::<D>(memory, StreamSignalView::End);
            &&& after == finished
            &&& step.done
            &&& outcome is Ok ==> step.items.len() == (outcome->Ok_0).len() && (0 <= index
                < step.items.len() ==> step.items[index] == Ok::<_, LlmErrorView>(
                (outcome->Ok_0)[index],
            ))
            &&& outcome is Err ==> step.items == seq![
                Err::<LlmEventView, LlmErrorView>(outcome->Err_0),
            ]
        }),
        stepped::<D>(memory, StreamSignalView::Cancelled) == (
            memory,
            StreamStepView {
                items: seq![Err::<LlmEventView, LlmErrorView>(LlmErrorView::Cancelled)],
                done: true,
            },
        ),
        stepped::<D>(memory, StreamSignalView::Failed(error)) == (
            memory,
            StreamStepView { items: seq![Err::<LlmEventView, LlmErrorView>(error)], done: true },
        ),
        ({
            let (after, step) = stepped::<D>(memory, StreamSignalView::Idle);
            &&& after == memory && step.done && step.items.len() == 1
            &&& step.items[0] is Err && step.items[0]->Err_0 is Network
        }),
{
}

/// What a stream tells of signals is what it tells of the first of them and, unless that was
/// the last, of the others.
pub proof fn law_stream_tells_of_every_signal<D: SseDecoder>(
    memory: D::Memory,
    signal: StreamSignalView,
    later: Seq<StreamSignalView>,
)
    ensures
        ({
            let (after, step) = stepped::<D>(memory, signal);
            let all = all_sent::<D>(memory, seq![signal] + later);
            &&& step.done ==> all == step.items
            &&& !step.done ==> all == step.items + all_sent::<D>(after, later)
        }),
        all_sent::<D>(memory, Seq::empty()).len() == 0,
{
    let signals = seq![signal] + later;
    assert(signals[0] == signal);
    assert(signals.skip(1) =~= later);
}

} // verus!
