//! A provider that replays what it was given.
use vstd::prelude::*;

use crate::client::{ProviderRequest, RequestView};
use crate::events::{LlmError, LlmErrorView, LlmEvent, LlmEventView};
use crate::http;

verus! {

/// A provider that replays results, and remembers what it was asked.
#[derive(Debug, PartialEq, Eq)]
pub struct MockClient {
    results: Vec<Result<LlmEvent, LlmError>>,
    requests: Vec<ProviderRequest>,
}

/// What a [`MockClient`] holds.
#[verifier::ext_equal]
pub struct MockView {
    pub results: Seq<Result<LlmEventView, LlmErrorView>>,
    pub requests: Seq<RequestView>,
}

/// The views of requests.
pub open spec fn request_views(requests: Seq<ProviderRequest>) -> Seq<RequestView> {
    requests.map_values(|request: ProviderRequest| request@)
}

impl View for MockClient {
    type V = MockView;

    closed spec fn view(&self) -> MockView {
        MockView {
            results: http::sent_views(self.results@),
            requests: request_views(self.requests@),
        }
    }
}

/// What is sent next.
#[derive(Debug, PartialEq, Eq)]
pub enum MockReply {
    /// This is sent, and more may follow.
    Send(Result<LlmEvent, LlmError>),
    /// The request was cancelled: that is sent, and nothing follows.
    Cancelled,
    /// Nothing follows.
    End,
}

impl MockClient {
    /// A provider that replays events.
    pub fn new(events: Vec<LlmEvent>) -> (client: Self)
        ensures
            client@.requests.len() == 0,
            client@.results.len() == events@.len(),
            forall|i: int|
                0 <= i < events@.len() ==> (#[trigger] client@.results[i]) == Ok::<
                    LlmEventView,
                    LlmErrorView,
                >(events@[i]@),
    {
        let mut results: Vec<Result<LlmEvent, LlmError>> = Vec::new();
        for event in iter: events.into_iter()
            invariant
                iter.seq() == events@,
                results@.len() == iter.index(),
                forall|i: int|
                    0 <= i < results@.len() ==> (#[trigger] results@[i]) == Ok::<
                        LlmEvent,
                        LlmError,
                    >(events@[i]),
        {
            results.push(Ok(event));
        }
        MockClient::with_results(results)
    }

    /// A provider that replays results.
    pub fn with_results(results: Vec<Result<LlmEvent, LlmError>>) -> (client: Self)
        ensures
            client@ == (MockView { results: http::sent_views(results@), requests: Seq::empty() }),
    {
        let client = MockClient { results, requests: Vec::new() };
        assert(client@.requests =~= Seq::<RequestView>::empty());
        client
    }

    /// Takes note of a request.
    pub fn ask(&mut self, request: ProviderRequest)
        ensures
            final(self)@ == (MockView {
                requests: old(self)@.requests.push(request@),
                ..old(self)@
            }),
    {
        let ghost before = self@.requests;
        self.requests.push(request);
        assert(self@.requests =~= before.push(request@));
    }

    /// What the provider was asked, in order.
    pub fn requests(&self) -> (requests: &Vec<ProviderRequest>)
        ensures
            request_views(requests@) == self@.requests,
    {
        &self.requests
    }

    /// What is sent after `sent` results, `cancelled` saying whether the request has been
    /// cancelled. Once all results are sent a cancellation comes too late.
    pub fn reply(&self, sent: usize, cancelled: bool) -> (reply: MockReply)
        ensures
            match reply {
                MockReply::Send(result) => !cancelled && sent < self@.results.len()
                    && http::sent_view(result) == self@.results[sent as int],
                MockReply::Cancelled => cancelled && (sent == 0 || sent < self@.results.len()),
                MockReply::End => sent >= self@.results.len() && !(cancelled && sent == 0),
            },
    {
        assert(self@.results.len() == self.results@.len());
        if cancelled && (sent == 0 || sent < self.results.len()) {
            return MockReply::Cancelled;
        }
        if sent >= self.results.len() {
            return MockReply::End;
        }
        match &self.results[sent] {
            Ok(event) => MockReply::Send(Ok(event.clone())),
            Err(error) => MockReply::Send(Err(error.clone())),
        }
    }
}

} // verus!
