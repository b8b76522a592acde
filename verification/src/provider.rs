//! Which client a provider gets, and how large its context window is.
use vstd::prelude::*;

use crate::anthropic;
use crate::anthropic::{AnthropicClient, AnthropicClientView};
use crate::config::{ProviderConfig, ProviderProtocol};
use crate::conversation;
use crate::events::{LlmError, LlmErrorView};
use crate::http;
use crate::json;
use crate::json::{Json, JsonView};
use crate::limits;
use crate::openai::{OpenAiClient, OpenAiClientView};
use crate::openai_compat::{OpenAiCompatClient, OpenAiCompatClientView};
use crate::text;

verus! {

/// How long a provider may take to tell of a model, in seconds.
pub const MODEL_METADATA_TIMEOUT_SECONDS: u64 = 3;

/// The client of one of the protocols.
#[derive(Debug, PartialEq, Eq)]
pub enum ProtocolClient {
    Anthropic(AnthropicClient),
    OpenAi(OpenAiClient),
    OpenAiCompat(OpenAiCompatClient),
}

/// What a [`ProtocolClient`] holds.
#[verifier::ext_equal]
pub enum ProtocolClientView {
    Anthropic(AnthropicClientView),
    OpenAi(OpenAiClientView),
    OpenAiCompat(OpenAiCompatClientView),
}

impl View for ProtocolClient {
    type V = ProtocolClientView;

    open spec fn view(&self) -> ProtocolClientView {
        match *self {
            ProtocolClient::Anthropic(client) => ProtocolClientView::Anthropic(client@),
            ProtocolClient::OpenAi(client) => ProtocolClientView::OpenAi(client@),
            ProtocolClient::OpenAiCompat(client) => ProtocolClientView::OpenAiCompat(client@),
        }
    }
}

/// A client with the limits of its model.
#[derive(Debug, PartialEq, Eq)]
pub struct ProviderClient {
    pub client: ProtocolClient,
    pub context_window: u64,
    pub max_output_tokens: u64,
}

/// What a [`ProviderClient`] holds.
#[verifier::ext_equal]
pub struct ProviderClientView {
    pub client: ProtocolClientView,
    pub context_window: u64,
    pub max_output_tokens: u64,
}

impl View for ProviderClient {
    type V = ProviderClientView;

    open spec fn view(&self) -> ProviderClientView {
        ProviderClientView {
            client: self.client@,
            context_window: self.context_window,
            max_output_tokens: self.max_output_tokens,
        }
    }
}

/// What is said where there is no key.
pub open spec fn no_key() -> LlmErrorView {
    LlmErrorView::Authentication {
        message:
            "Provider API key not found; set provider api_key or its protocol environment variable"@,
    }
}

/// The error where there is no key.
fn authentication_error() -> (error: LlmError)
    ensures
        error@ == no_key(),
{
    LlmError::Authentication {
        message: text::copy_text(
            "Provider API key not found; set provider api_key or its protocol environment variable",
        ),
    }
}

/// What a provider is asked to tell of a model.
#[derive(Debug, PartialEq, Eq)]
pub struct MetadataRequest {
    pub endpoint: String,
    pub headers: Vec<(String, String)>,
}

/// Whether a provider is asked how large the context window of the model is: only
/// Anthropic's can tell, and only where it is not configured.
pub open spec fn asks_for_window(provider: ProviderConfig) -> bool {
    provider.protocol is Anthropic && provider.context_window is None
}

/// What a provider is asked to tell of a model, `api_key` being its key.
pub fn metadata_request(provider: &ProviderConfig, api_key: &str) -> (request: Option<
    MetadataRequest,
>)
    ensures
        request is Some <==> asks_for_window(*provider),
        request matches Some(request) ==> {
            &&& request.endpoint@ == text::without_trailing(provider.base_url@, '/')
                + "/v1/models/"@ + provider.model@
            &&& request.headers@.len() == 2
            &&& request.headers@[0].0@ == "x-api-key"@
            &&& request.headers@[0].1@ == api_key@
            &&& request.headers@[1].0@ == "anthropic-version"@
            &&& request.headers@[1].1@ == anthropic::protocol_version()
        },
{
    match (provider.protocol, provider.context_window) {
        (ProviderProtocol::Anthropic, None) => {
            let base = text::trim_end_char(provider.base_url.as_str(), '/');
            let mut headers: Vec<(String, String)> = Vec::new();
            headers.push((text::copy_text("x-api-key"), text::copy_text(api_key)));
            headers.push((text::copy_text("anthropic-version"), text::copy_text("2023-06-01")));
            Some(
                MetadataRequest {
                    endpoint: text::concat3(
                        base.as_str(),
                        "/v1/models/",
                        provider.model.as_str(),
                    ),
                    headers,
                },
            )
        },
        _ => None,
    }
}

/// The context window that a provider told of, `body` being what it answered, if that is
/// JSON.
pub open spec fn told_window(status: u16, body: Option<JsonView>) -> Option<u64> {
    match body {
        Some(body) => match json::as_unsigned(json::member(body, "max_input_tokens"@)) {
            Some(tokens) => if http::success(status) && tokens > 0 {
                Some(tokens)
            } else {
                None
            },
            None => None,
        },
        None => None,
    }
}

/// The context window that a provider told of.
pub fn reported_window(status: u16, body: Option<&Json>) -> (window: Option<u64>)
    ensures
        window == told_window(status, json::optional_view(body)),
{
    if !http::is_success(status) {
        return None;
    }
    match body {
        Some(body) => match json::unsigned_in(body.get("max_input_tokens")) {
            Some(tokens) => if tokens > 0 {
                Some(tokens)
            } else {
                None
            },
            None => None,
        },
        None => None,
    }
}

/// The context window that a provider told of, `body` being the text of its answer.
pub fn window_in_answer(status: u16, body: &str) -> (window: Option<u64>)
    ensures
        window == told_window(
            status,
            match json::parsed_json(body@) {
                Ok(json) => Some(json),
                Err(_) => None,
            },
        ),
{
    match Json::parse(body) {
        Ok(json) => reported_window(status, Some(&json)),
        Err(_) => reported_window(status, None),
    }
}

/// The client of a provider, with the limits of its model: the context window is the
/// configured one, or the one that was fetched, or the one that is known of the model.
/// `family` is the name that Anthropic's models share, where that is known.
pub open spec fn client_of(
    provider: ProviderConfig,
    api_key: Seq<char>,
    fetched: Option<u64>,
    family: Option<&str>,
) -> ProviderClientView {
    let base_url = text::without_trailing(provider.base_url@, '/');
    let model = provider.model@;
    let max_output_tokens = limits::output_limit(provider);
    ProviderClientView {
        client: match provider.protocol {
            ProviderProtocol::Anthropic => ProtocolClientView::Anthropic(
                AnthropicClientView {
                    api_key,
                    base_url,
                    model,
                    family: conversation::borrowed_text(family),
                    thinking: provider.thinking,
                    max_output_tokens,
                },
            ),
            ProviderProtocol::OpenAi => ProtocolClientView::OpenAi(
                OpenAiClientView {
                    api_key,
                    base_url,
                    model,
                    thinking: provider.thinking,
                    max_output_tokens,
                },
            ),
            ProviderProtocol::OpenAiCompat => ProtocolClientView::OpenAiCompat(
                OpenAiCompatClientView { api_key, base_url, model, max_output_tokens },
            ),
        },
        context_window: limits::window_of(
            provider,
            if asks_for_window(provider) {
                fetched
            } else {
                None
            },
            family,
        ),
        max_output_tokens,
    }
}

/// The client of a provider. `api_key` is what [`ProviderConfig::resolve_api_key_with`]
/// gave for it, and `fetched` the context window that the provider told of, where it was
/// asked.
pub fn build_client(
    provider: &ProviderConfig,
    api_key: Option<String>,
    fetched: Option<u64>,
    family: Option<&str>,
) -> (built: Result<ProviderClient, LlmError>)
    ensures
        match (built, api_key) {
            (Ok(client), Some(api_key)) => client@ == client_of(
                *provider,
                api_key@,
                fetched,
                family,
            ),
            (Err(error), None) => error@ == no_key(),
            _ => false,
        },
{
    if api_key.is_none() {
        return Err(authentication_error());
    }
    let asked = match (provider.protocol, provider.context_window) {
        (ProviderProtocol::Anthropic, None) => fetched,
        _ => None,
    };
    let context_window = limits::context_window(provider, asked, family);
    let max_output_tokens = limits::max_output_tokens(provider);
    let client = match provider.protocol {
        ProviderProtocol::Anthropic => match AnthropicClient::new(provider, api_key, family) {
            Ok(client) => ProtocolClient::Anthropic(client),
            Err(error) => {
                return Err(error);
            },
        },
        ProviderProtocol::OpenAi => match OpenAiClient::new(provider, api_key) {
            Ok(client) => ProtocolClient::OpenAi(client),
            Err(error) => {
                return Err(error);
            },
        },
        ProviderProtocol::OpenAiCompat => match OpenAiCompatClient::new(provider, api_key) {
            Ok(client) => ProtocolClient::OpenAiCompat(client),
            Err(error) => {
                return Err(error);
            },
        },
    };
    Ok(ProviderClient { client, context_window, max_output_tokens })
}

/// A configured context window is used, whatever a provider tells; and what one of the
/// other protocols tells does not matter.
pub proof fn law_configured_window_is_used(
    provider: ProviderConfig,
    api_key: Seq<char>,
    fetched: Option<u64>,
    other: Option<u64>,
    family: Option<&str>,
)
    ensures
        provider.context_window matches Some(window) ==> client_of(
            provider,
            api_key,
            fetched,
            family,
        ).context_window == window,
        !asks_for_window(provider) ==> client_of(provider, api_key, fetched, family) == client_of(
            provider,
            api_key,
            other,
            family,
        ),
{
}

/// A window is told just by a successful answer that names more than zero tokens.
pub proof fn law_window_is_told_by_a_successful_answer(status: u16, body: JsonView, tokens: u64)
    ensures
        ({
            let told = told_window(status, Some(body));
            told == Some(tokens) <==> 200 <= status <= 299 && tokens > 0 && json::member(
                body,
                "max_input_tokens"@,
            ) == Some(JsonView::Unsigned(tokens))
        }),
        told_window(status, None) is None,
{
}

/// A client speaks the protocol of its provider, to its address without slashes at the end, with
/// its model and the key, and within its limits. Only an Anthropic provider without a configured
/// window is asked for one.
pub proof fn law_client_serves_its_provider(
    provider: ProviderConfig,
    api_key: Seq<char>,
    fetched: Option<u64>,
    family: Option<&str>,
)
    ensures
        ({
            let made = client_of(provider, api_key, fetched, family);
            let address = text::without_trailing(provider.base_url@, '/');
            &&& made.max_output_tokens == limits::output_limit(provider)
            &&& asks_for_window(provider) <==> provider.protocol == ProviderProtocol::Anthropic
                && provider.context_window is None
            &&& asks_for_window(provider) && fetched is Some ==> made.context_window == fetched->0
            &&& match provider.protocol {
                ProviderProtocol::Anthropic => made.client matches ProtocolClientView::Anthropic(
                    client,
                ) && client.api_key == api_key && client.base_url == address && client.model
                    == provider.model@ && client.thinking == provider.thinking
                    && client.max_output_tokens == limits::output_limit(provider),
                ProviderProtocol::OpenAi => made.client matches ProtocolClientView::OpenAi(client)
                    && client.api_key == api_key && client.base_url == address && client.model
                    == provider.model@ && client.thinking == provider.thinking
                    && client.max_output_tokens == limits::output_limit(provider),
                ProviderProtocol::OpenAiCompat => made.client
                    matches ProtocolClientView::OpenAiCompat(client) && client.api_key == api_key
                    && client.base_url == address && client.model == provider.model@
                    && client.max_output_tokens == limits::output_limit(provider),
            }
        }),
{
}

} // verus!
