//! How many tokens a model may read and write.
use vstd::prelude::*;

use crate::config::ProviderConfig;
use crate::text;

verus! {

/// The output limit of a provider: the configured one, or one that depends on whether
/// the model thinks.
pub open spec fn output_limit(provider: ProviderConfig) -> u64 {
    match provider.max_output_tokens {
        Some(limit) => limit as u64,
        None => if provider.thinking {
            64_000u64
        } else {
            8_192u64
        },
    }
}

/// The output limit of a provider.
pub fn max_output_tokens(provider: &ProviderConfig) -> (limit: u64)
    ensures
        limit == output_limit(*provider),
{
    match provider.max_output_tokens {
        Some(limit) => limit as u64,
        None => if provider.thinking {
            64_000
        } else {
            8_192
        },
    }
}

/// Whether a model is of the family that Anthropic's models share the name of, where that
/// name is known.
pub open spec fn in_family(model: Seq<char>, family: Option<&str>) -> bool {
    match family {
        Some(family) => text::contains_text(model, family@),
        None => false,
    }
}

/// The context window of a model, by its name in lower case: that of the first name
/// in the list that occurs in it. `family` is the name that Anthropic's models share.
pub open spec fn named_window(model: Seq<char>, family: Option<&str>) -> u64 {
    if text::contains_text(model, "1m"@) {
        1_000_000u64
    } else if text::contains_text(model, "gpt-4.1"@) {
        1_000_000u64
    } else if text::contains_text(model, "gpt-4o"@) {
        128_000u64
    } else if text::contains_text(model, "gpt-4-turbo"@) {
        128_000u64
    } else if text::contains_text(model, "o1"@) {
        200_000u64
    } else if text::contains_text(model, "o3"@) {
        200_000u64
    } else if text::contains_text(model, "o4"@) {
        200_000u64
    } else if text::contains_text(model, "gpt-3.5"@) {
        16_385u64
    } else if in_family(model, family) {
        200_000u64
    } else {
        128_000u64
    }
}

/// The context window of a model, by its name in lower case.
pub fn lowercase_model_window(model: &str, family: Option<&str>) -> (window: u64)
    ensures
        window == named_window(model@, family),
{
    let familiar = match family {
        Some(family) => text::contains(model, family),
        None => false,
    };
    if text::contains(model, "1m") {
        1_000_000
    } else if text::contains(model, "gpt-4.1") {
        1_000_000
    } else if text::contains(model, "gpt-4o") {
        128_000
    } else if text::contains(model, "gpt-4-turbo") {
        128_000
    } else if text::contains(model, "o1") {
        200_000
    } else if text::contains(model, "o3") {
        200_000
    } else if text::contains(model, "o4") {
        200_000
    } else if text::contains(model, "gpt-3.5") {
        16_385
    } else if familiar {
        200_000
    } else {
        128_000
    }
}

/// The context window of a model, by its name in whatever case.
pub fn built_in_context_window(model: &str, family: Option<&str>) -> (window: u64)
    ensures
        window == named_window(text::lowercase_text(model@), family),
{
    lowercase_model_window(text::lowercase(model).as_str(), family)
}

/// The context window of a provider: the configured one, or else the one that the
/// provider reported, or else the one that is known of the model.
pub open spec fn window_of(
    provider: ProviderConfig,
    fetched: Option<u64>,
    family: Option<&str>,
) -> u64 {
    match provider.context_window {
        Some(window) => window as u64,
        None => match fetched {
            Some(window) => window,
            None => named_window(text::lowercase_text(provider.model@), family),
        },
    }
}

/// The context window of a provider.
pub fn context_window(
    provider: &ProviderConfig,
    fetched: Option<u64>,
    family: Option<&str>,
) -> (window: u64)
    ensures
        window == window_of(*provider, fetched, family),
{
    if let Some(window) = provider.context_window {
        return window as u64;
    }
    if let Some(window) = fetched {
        return window;
    }
    built_in_context_window(provider.model.as_str(), family)
}

/// A configured limit is the limit; without one, a model that thinks may answer with 64000 tokens
/// and another with 8192.
pub proof fn law_answers_are_limited(provider: ProviderConfig)
    ensures
        provider.max_output_tokens is Some ==> output_limit(provider)
            == provider.max_output_tokens->0,
        provider.max_output_tokens is None && provider.thinking ==> output_limit(provider) == 64_000,
        provider.max_output_tokens is None && !provider.thinking ==> output_limit(provider) == 8_192,
{
}

/// A configured window is the window, and then one that was told. Without either, the name of
/// the model tells it, whatever the case of its letters, by the first of these parts that it
/// has; the window of its family is only for a name that has none of them.
pub proof fn law_windows_are_known(
    provider: ProviderConfig,
    fetched: Option<u64>,
    family: Option<&str>,
)
    ensures
        ({
            let window = window_of(provider, fetched, family);
            let name = text::lowercase_text(provider.model@);
            let unknown = provider.context_window is None && fetched is None;
            let million = text::contains_text(name, "1m"@) || text::contains_text(name, "gpt-4.1"@);
            let turbo = text::contains_text(name, "gpt-4o"@) || text::contains_text(
                name,
                "gpt-4-turbo"@,
            );
            let reasoning = text::contains_text(name, "o1"@) || text::contains_text(name, "o3"@)
                || text::contains_text(name, "o4"@);
            let old = text::contains_text(name, "gpt-3.5"@);
            &&& provider.context_window is Some ==> window == provider.context_window->0
            &&& provider.context_window is None && fetched is Some ==> window == fetched->0
            &&& unknown && million ==> window == 1_000_000
            &&& unknown && !million && turbo ==> window == 128_000
            &&& unknown && !million && !turbo && reasoning ==> window == 200_000
            &&& unknown && !million && !turbo && !reasoning && old ==> window == 16_385
            &&& unknown && !million && !turbo && !reasoning && !old && family is Some
                && text::contains_text(name, (family->0)@) ==> window == 200_000
            &&& unknown && !million && !turbo && !reasoning && !old && (family is None
                || !text::contains_text(name, (family->0)@)) ==> window == 128_000
        }),
{
}

} // verus!
