//! The configuration: its layers, how they are merged, and what makes it valid.
use std::collections::BTreeMap;

use vstd::prelude::*;

use crate::text;

verus! {

/// Why there is no configuration.
#[derive(Debug, PartialEq, Eq)]
pub enum ConfigError {
    Read { path: String },
    Parse { path: String },
    NoConfig { paths: Vec<String> },
    Validation { message: String },
    HomeDirectoryMissing,
    WorkingDirectoryMissing,
}

/// What a [`ConfigError`] holds.
#[verifier::ext_equal]
pub enum ConfigErrorView {
    Read { path: Seq<char> },
    Parse { path: Seq<char> },
    NoConfig { paths: Seq<Seq<char>> },
    Validation { message: Seq<char> },
    HomeDirectoryMissing,
    WorkingDirectoryMissing,
}

impl View for ConfigError {
    type V = ConfigErrorView;

    open spec fn view(&self) -> ConfigErrorView {
        match *self {
            ConfigError::Read { path } => ConfigErrorView::Read { path: path@ },
            ConfigError::Parse { path } => ConfigErrorView::Parse { path: path@ },
            ConfigError::NoConfig { paths } => ConfigErrorView::NoConfig {
                paths: text::texts(paths@),
            },
            ConfigError::Validation { message } => ConfigErrorView::Validation {
                message: message@,
            },
            ConfigError::HomeDirectoryMissing => ConfigErrorView::HomeDirectoryMissing,
            ConfigError::WorkingDirectoryMissing => ConfigErrorView::WorkingDirectoryMissing,
        }
    }
}

/// What an error says to a reader.
pub open spec fn config_error_text(error: ConfigErrorView) -> Seq<char> {
    match error {
        ConfigErrorView::Read { path } => "failed to read config file "@ + path,
        ConfigErrorView::Parse { path } => "failed to parse config file "@ + path,
        ConfigErrorView::NoConfig { paths } => "no config file found; expected one of: "@
            + text::joined(paths, ", "@),
        ConfigErrorView::Validation { message } => "invalid configuration: "@ + message,
        ConfigErrorView::HomeDirectoryMissing => "the home directory could not be determined"@,
        ConfigErrorView::WorkingDirectoryMissing =>
            "the current working directory could not be determined"@,
    }
}

impl ConfigError {
    /// What the error says to a reader.
    pub fn message(&self) -> (result: String)
        ensures
            result@ == config_error_text(self@),
    {
        match self {
            ConfigError::Read { path } => text::concat("failed to read config file ", path.as_str()),
            ConfigError::Parse { path } => text::concat(
                "failed to parse config file ",
                path.as_str(),
            ),
            ConfigError::NoConfig { paths } => text::concat(
                "no config file found; expected one of: ",
                text::join(paths, ", ").as_str(),
            ),
            ConfigError::Validation { message } => text::concat(
                "invalid configuration: ",
                message.as_str(),
            ),
            ConfigError::HomeDirectoryMissing => text::copy_text(
                "the home directory could not be determined",
            ),
            ConfigError::WorkingDirectoryMissing => text::copy_text(
                "the current working directory could not be determined",
            ),
        }
    }
}

#[derive(Debug, Clone, Copy, PartialEq, Eq, Structural)]
pub enum PermissionMode {
    Default,
    AcceptEdits,
    Plan,
    BypassPermissions,
}

impl Default for PermissionMode {
    fn default() -> (mode: Self)
        ensures
            mode == PermissionMode::Default,
    {
        PermissionMode::Default
    }
}

#[derive(Debug, Clone, Copy, PartialEq, Eq, Structural)]
pub enum ProviderProtocol {
    Anthropic,
    OpenAi,
    OpenAiCompat,
}

/// The environment variable that holds the key of a protocol's provider.
pub open spec fn key_variable(protocol: ProviderProtocol) -> Seq<char> {
    match protocol {
        ProviderProtocol::Anthropic => "ANTHROPIC_API_KEY"@,
        ProviderProtocol::OpenAi => "OPENAI_API_KEY"@,
        ProviderProtocol::OpenAiCompat => "OPENAI_API_KEY"@,
    }
}

impl ProviderProtocol {
    /// The environment variable that holds the key of the protocol's provider.
    pub fn environment_variable(self) -> (name: &'static str)
        ensures
            name@ == key_variable(self),
    {
        match self {
            ProviderProtocol::Anthropic => "ANTHROPIC_API_KEY",
            ProviderProtocol::OpenAi => "OPENAI_API_KEY",
            ProviderProtocol::OpenAiCompat => "OPENAI_API_KEY",
        }
    }
}

#[derive(Debug, PartialEq, Eq)]
pub struct ProviderConfig {
    pub name: String,
    pub protocol: ProviderProtocol,
    pub base_url: String,
    pub model: String,
    pub api_key: String,
    pub thinking: bool,
    pub context_window: Option<u32>,
    pub max_output_tokens: Option<u32>,
}

impl Clone for ProviderConfig {
    fn clone(&self) -> (copy: Self)
        ensures
            copy == *self,
    {
        ProviderConfig {
            name: self.name.clone(),
            protocol: self.protocol,
            base_url: self.base_url.clone(),
            model: self.model.clone(),
            api_key: self.api_key.clone(),
            thinking: self.thinking,
            context_window: self.context_window,
            max_output_tokens: self.max_output_tokens,
        }
    }
}

impl ProviderConfig {
    /// The configured key, or where none is configured what `lookup` gives for the
    /// environment variable of the protocol.
    pub fn resolve_api_key_with(&self, lookup: impl Fn(&str) -> Option<String>) -> (key: Option<
        String,
    >)
        requires
            forall|name: &str|
                self.api_key@.len() == 0 && name@ == key_variable(self.protocol)
                    ==> #[trigger] call_requires(lookup, (name,)),
        ensures
            self.api_key@.len() > 0 ==> key == Some(self.api_key),
            self.api_key@.len() == 0 ==> exists|name: &str|
                name@ == key_variable(self.protocol) && #[trigger] call_ensures(
                    lookup,
                    (name,),
                    key,
                ),
    {
        if self.api_key.as_str().is_empty() {
            lookup(self.protocol.environment_variable())
        } else {
            Some(self.api_key.clone())
        }
    }
}

#[derive(Debug, Clone, Copy, PartialEq, Eq, Structural)]
pub enum McpTransport {
    Stdio,
    Http,
}

#[derive(Debug, Clone, PartialEq, Eq)]
pub struct McpServerConfig {
    pub name: String,
    pub transport: McpTransport,
    pub command: Option<String>,
    pub args: Vec<String>,
    pub url: Option<String>,
    pub headers: BTreeMap<String, String>,
    pub env: BTreeMap<String, String>,
}

#[derive(Debug, Clone, Copy, PartialEq, Eq, Structural)]
pub enum HookEvent {
    SessionStart,
    SessionEnd,
    TurnStart,
    TurnEnd,
    PreSend,
    PostReceive,
    PreToolUse,
    PostToolUse,
    Shutdown,
}

#[derive(Debug, Clone, Copy, PartialEq, Eq, Structural)]
pub enum HookErrorPolicy {
    Fail,
    Ignore,
    Reject,
}

impl Default for HookErrorPolicy {
    fn default() -> (policy: Self)
        ensures
            policy == HookErrorPolicy::Fail,
    {
        HookErrorPolicy::Fail
    }
}

#[derive(Debug, Clone, PartialEq, Eq)]
pub enum HookAction {
    Command { command: String, timeout_seconds: Option<u64> },
    Prompt { message: String },
    Http {
        url: String,
        method: Option<String>,
        headers: BTreeMap<String, String>,
        body: String,
        timeout_seconds: Option<u64>,
    },
    Agent { message: Option<String>, command: Option<String> },
}

#[derive(Debug, Clone, PartialEq, Eq)]
pub struct HookConfig {
    pub id: Option<String>,
    pub event: HookEvent,
    pub condition: Option<String>,
    pub action: HookAction,
    pub reject: bool,
    pub once: bool,
    pub asynchronous: bool,
    pub on_error: HookErrorPolicy,
}

/// One layer of the configuration, as it stands in a file.
#[derive(Debug, Clone, PartialEq, Eq)]
pub struct ConfigDocument {
    pub providers: Option<Vec<ProviderDocument>>,
    pub permission_mode: Option<String>,
    pub mcp_servers: Option<Vec<McpServerConfig>>,
    pub hooks: Option<Vec<HookConfig>>,
}

/// A provider as it stands in a file.
#[derive(Debug, Clone, PartialEq, Eq)]
pub struct ProviderDocument {
    pub name: Option<String>,
    pub protocol: Option<String>,
    pub base_url: Option<String>,
    pub model: Option<String>,
    pub api_key: String,
    pub thinking: bool,
    pub context_window: Option<u32>,
    pub max_output_tokens: Option<u32>,
}

/// The layer that says nothing.
pub open spec fn empty_document() -> ConfigDocument {
    ConfigDocument { providers: None, permission_mode: None, mcp_servers: None, hooks: None }
}

impl Default for ConfigDocument {
    fn default() -> (document: Self)
        ensures
            document == empty_document(),
    {
        ConfigDocument { providers: None, permission_mode: None, mcp_servers: None, hooks: None }
    }
}

#[derive(Debug, Clone, PartialEq, Eq)]
pub struct Config {
    pub providers: Vec<ProviderConfig>,
    pub permission_mode: PermissionMode,
    pub mcp_servers: Vec<McpServerConfig>,
    pub hooks: Vec<HookConfig>,
}

/// `index + 1` in decimal.
pub open spec fn ordinal(index: int) -> Seq<char> {
    text::decimal((index + 1) as nat)
}

/// `index + 1` in decimal.
fn ordinal_text(index: usize) -> (result: String)
    requires
        index < usize::MAX,
    ensures
        result@ == ordinal(index as int),
{
    text::decimal_text(index as u64 + 1)
}

/// The names of the required fields that a provider leaves out.
pub open spec fn missing_fields(provider: ProviderDocument) -> Seq<Seq<char>> {
    (if provider.name is None {
        seq!["name"@]
    } else {
        Seq::empty()
    }) + (if provider.protocol is None {
        seq!["protocol"@]
    } else {
        Seq::empty()
    }) + (if provider.base_url is None {
        seq!["base_url"@]
    } else {
        Seq::empty()
    }) + (if provider.model is None {
        seq!["model"@]
    } else {
        Seq::empty()
    })
}

/// The protocol that `value` names.
pub open spec fn protocol_named(value: Seq<char>) -> Option<ProviderProtocol> {
    if value == "anthropic"@ {
        Some(ProviderProtocol::Anthropic)
    } else if value == "openai"@ {
        Some(ProviderProtocol::OpenAi)
    } else if value == "openai-compat"@ {
        Some(ProviderProtocol::OpenAiCompat)
    } else {
        None
    }
}

/// What is said of the provider at `index` whose protocol is `value`.
pub open spec fn invalid_protocol(value: Seq<char>, index: int) -> Seq<char> {
    "provider "@ + ordinal(index) + ": invalid protocol "@ + text::quoted_text(value)
        + "; expected anthropic, openai, or openai-compat"@
}

/// What is wrong with the provider at `index`, by its form alone.
pub open spec fn provider_form_problem(provider: ProviderDocument, index: int) -> Option<Seq<char>> {
    if missing_fields(provider).len() > 0 {
        Some(
            "provider "@ + ordinal(index) + ": missing required field(s): "@ + text::joined(
                missing_fields(provider),
                ", "@,
            ),
        )
    } else if protocol_named(provider.protocol->0@) is None {
        Some(invalid_protocol(provider.protocol->0@, index))
    } else {
        None
    }
}

/// The provider that a document without a problem stands for.
pub open spec fn provider_of(provider: ProviderDocument) -> ProviderConfig {
    ProviderConfig {
        name: provider.name->0,
        protocol: protocol_named(provider.protocol->0@)->0,
        base_url: provider.base_url->0,
        model: provider.model->0,
        api_key: provider.api_key,
        thinking: provider.thinking,
        context_window: provider.context_window,
        max_output_tokens: provider.max_output_tokens,
    }
}

/// The error that carries `message`.
pub open spec fn invalid(message: Seq<char>) -> ConfigErrorView {
    ConfigErrorView::Validation { message }
}

/// The protocol that `value` names, for the provider at `index`.
pub fn parse_provider_protocol(value: &str, index: usize) -> (protocol: Result<
    ProviderProtocol,
    ConfigError,
>)
    requires
        index < usize::MAX,
    ensures
        match protocol {
            Ok(protocol) => protocol_named(value@) == Some(protocol),
            Err(error) => protocol_named(value@) is None && error@ == invalid(
                invalid_protocol(value@, index as int),
            ),
        },
{
    if text::same_text(value, "anthropic") {
        Ok(ProviderProtocol::Anthropic)
    } else if text::same_text(value, "openai") {
        Ok(ProviderProtocol::OpenAi)
    } else if text::same_text(value, "openai-compat") {
        Ok(ProviderProtocol::OpenAiCompat)
    } else {
        let mut message = text::concat3(
            "provider ",
            ordinal_text(index).as_str(),
            ": invalid protocol ",
        );
        message.append(text::quoted(value).as_str());
        message.append("; expected anthropic, openai, or openai-compat");
        Err(ConfigError::Validation { message })
    }
}

impl ProviderDocument {
    /// The provider that the document stands for. It fails where a required field is
    /// left out, with the names of all such fields, and where the protocol is unknown.
    pub fn into_provider(self, index: usize) -> (provider: Result<ProviderConfig, ConfigError>)
        requires
            index < usize::MAX,
        ensures
            match provider {
                Ok(provider) => provider_form_problem(self, index as int) is None && provider
                    == provider_of(self),
                Err(error) => provider_form_problem(self, index as int) is Some && error@
                    == invalid(provider_form_problem(self, index as int)->0),
            },
    {
        let mut missing: Vec<String> = Vec::new();
        let ghost fields = missing_fields(self);
        if self.name.is_none() {
            missing.push(text::copy_text("name"));
        }
        if self.protocol.is_none() {
            missing.push(text::copy_text("protocol"));
        }
        if self.base_url.is_none() {
            missing.push(text::copy_text("base_url"));
        }
        if self.model.is_none() {
            missing.push(text::copy_text("model"));
        }
        assert(text::texts(missing@) =~= fields);
        if missing.len() > 0 {
            let mut message = text::concat3(
                "provider ",
                ordinal_text(index).as_str(),
                ": missing required field(s): ",
            );
            message.append(text::join(&missing, ", ").as_str());
            return Err(ConfigError::Validation { message });
        }
        match (self.name, self.protocol, self.base_url, self.model) {
            (Some(name), Some(protocol_name), Some(base_url), Some(model)) => {
                let protocol = match parse_provider_protocol(protocol_name.as_str(), index) {
                    Ok(protocol) => protocol,
                    Err(error) => {
                        return Err(error);
                    },
                };
                Ok(
                    ProviderConfig {
                        name,
                        protocol,
                        base_url,
                        model,
                        api_key: self.api_key,
                        thinking: self.thinking,
                        context_window: self.context_window,
                        max_output_tokens: self.max_output_tokens,
                    },
                )
            },
            _ => {
                assert(false);
                Err(ConfigError::Validation { message: String::new() })
            },
        }
    }
}

/// The permission mode that `value` names.
pub open spec fn mode_named(value: Seq<char>) -> Option<PermissionMode> {
    if value == "default"@ {
        Some(PermissionMode::Default)
    } else if value == "acceptEdits"@ {
        Some(PermissionMode::AcceptEdits)
    } else if value == "plan"@ {
        Some(PermissionMode::Plan)
    } else if value == "bypassPermissions"@ {
        Some(PermissionMode::BypassPermissions)
    } else {
        None
    }
}

/// What is said of a permission mode that has no meaning.
pub open spec fn invalid_mode(value: Seq<char>) -> Seq<char> {
    "invalid permission_mode "@ + text::quoted_text(value)
        + "; expected default, acceptEdits, plan, or bypassPermissions"@
}

impl PermissionMode {
    /// The permission mode that `value` names.
    pub fn parse(value: &str) -> (mode: Result<PermissionMode, ConfigError>)
        ensures
            match mode {
                Ok(mode) => mode_named(value@) == Some(mode),
                Err(error) => mode_named(value@) is None && error@ == invalid(invalid_mode(value@)),
            },
    {
        if text::same_text(value, "default") {
            Ok(PermissionMode::Default)
        } else if text::same_text(value, "acceptEdits") {
            Ok(PermissionMode::AcceptEdits)
        } else if text::same_text(value, "plan") {
            Ok(PermissionMode::Plan)
        } else if text::same_text(value, "bypassPermissions") {
            Ok(PermissionMode::BypassPermissions)
        } else {
            Err(
                ConfigError::Validation {
                    message: text::concat3(
                        "invalid permission_mode ",
                        text::quoted(value).as_str(),
                        "; expected default, acceptEdits, plan, or bypassPermissions",
                    ),
                },
            )
        }
    }
}

/// The permission mode that an optional value names: the default mode where there is
/// no value.
pub open spec fn optional_mode(value: Option<Seq<char>>) -> Option<PermissionMode> {
    match value {
        None => Some(PermissionMode::Default),
        Some(value) => mode_named(value),
    }
}

/// The permission mode that an optional value names.
pub fn parse_permission_mode(value: &Option<String>) -> (mode: Result<PermissionMode, ConfigError>)
    ensures
        match mode {
            Ok(mode) => optional_mode(text::optional_text(*value)) == Some(mode),
            Err(error) => optional_mode(text::optional_text(*value)) is None && error@ == invalid(
                invalid_mode(value->0@),
            ),
        },
{
    match value {
        None => Ok(PermissionMode::Default),
        Some(value) => PermissionMode::parse(value.as_str()),
    }
}

/// What a [`ConfigDocument`] holds.
#[verifier::ext_equal]
pub struct DocumentView {
    pub providers: Option<Seq<ProviderDocument>>,
    pub permission_mode: Option<Seq<char>>,
    pub mcp_servers: Option<Seq<McpServerConfig>>,
    pub hooks: Option<Seq<HookConfig>>,
}

/// The view of an optional list.
pub open spec fn optional_items<T>(items: Option<Vec<T>>) -> Option<Seq<T>> {
    match items {
        Some(items) => Some(items@),
        None => None,
    }
}

/// The items of an optional list, none where there is no list.
pub open spec fn items_of<T>(items: Option<Seq<T>>) -> Seq<T> {
    match items {
        Some(items) => items,
        None => Seq::empty(),
    }
}

impl View for ConfigDocument {
    type V = DocumentView;

    open spec fn view(&self) -> DocumentView {
        DocumentView {
            providers: optional_items(self.providers),
            permission_mode: text::optional_text(self.permission_mode),
            mcp_servers: optional_items(self.mcp_servers),
            hooks: optional_items(self.hooks),
        }
    }
}

/// The first position at or after `from` of a server of that name, or the number of
/// servers where there is none.
pub open spec fn server_position(servers: Seq<McpServerConfig>, name: Seq<char>, from: int) -> int
    decreases servers.len() - from,
{
    if from >= servers.len() {
        servers.len() as int
    } else if servers[from].name@ == name {
        from
    } else {
        server_position(servers, name, from + 1)
    }
}

/// `servers` with `server` in place of the one of its name, or at the end.
pub open spec fn put_server(
    servers: Seq<McpServerConfig>,
    server: McpServerConfig,
) -> Seq<McpServerConfig> {
    let position = server_position(servers, server.name@, 0);
    if 0 <= position < servers.len() {
        servers.update(position, server)
    } else {
        servers.push(server)
    }
}

/// `servers` with each of `more` put in, in order.
pub open spec fn put_servers(
    servers: Seq<McpServerConfig>,
    more: Seq<McpServerConfig>,
) -> Seq<McpServerConfig>
    decreases more.len(),
{
    if more.len() == 0 {
        servers
    } else {
        put_server(put_servers(servers, more.drop_last()), more.last())
    }
}

/// The two layers as one. Providers and permission mode are those of the upper layer
/// where it has them. A server of the upper layer takes the place of the server of
/// its name, or comes last. The hooks of the upper layer follow those of the lower.
pub open spec fn merged(base: DocumentView, upper: DocumentView) -> DocumentView {
    DocumentView {
        providers: if upper.providers is Some {
            upper.providers
        } else {
            base.providers
        },
        permission_mode: if upper.permission_mode is Some {
            upper.permission_mode
        } else {
            base.permission_mode
        },
        mcp_servers: match upper.mcp_servers {
            Some(servers) => Some(put_servers(items_of(base.mcp_servers), servers)),
            None => base.mcp_servers,
        },
        hooks: match upper.hooks {
            Some(hooks) => Some(items_of(base.hooks) + hooks),
            None => base.hooks,
        },
    }
}

/// Where the first server of that name stands.
fn find_server(servers: &Vec<McpServerConfig>, name: &str) -> (position: usize)
    ensures
        position == server_position(servers@, name@, 0),
        position <= servers@.len(),
{
    let mut i: usize = 0;
    while i < servers.len()
        invariant
            i <= servers@.len(),
            server_position(servers@, name@, i as int) == server_position(servers@, name@, 0),
        decreases servers@.len() - i,
    {
        if text::same_text(servers[i].name.as_str(), name) {
            return i;
        }
        i += 1;
    }
    i
}

/// The two layers as one.
pub fn merge_documents(base: ConfigDocument, override_document: ConfigDocument) -> (document:
    ConfigDocument)
    ensures
        document@ == merged(base@, override_document@),
{
    let providers = if override_document.providers.is_some() {
        override_document.providers
    } else {
        base.providers
    };
    let permission_mode = if override_document.permission_mode.is_some() {
        override_document.permission_mode
    } else {
        base.permission_mode
    };
    let mcp_servers = match override_document.mcp_servers {
        Some(override_servers) => {
            let mut servers: Vec<McpServerConfig> = match base.mcp_servers {
                Some(servers) => servers,
                None => Vec::new(),
            };
            let ghost first = servers@;
            let ghost all = override_servers@;
            for server in iter: override_servers.into_iter()
                invariant
                    iter.seq() == all,
                    servers@ == put_servers(first, all.take(iter.index() as int)),
            {
                assert(all.take(iter.index() + 1).drop_last() =~= all.take(iter.index() as int));
                let position = find_server(&servers, server.name.as_str());
                if position < servers.len() {
                    servers.set(position, server);
                } else {
                    servers.push(server);
                }
            }
            assert(all.take(all.len() as int) =~= all);
            Some(servers)
        },
        None => base.mcp_servers,
    };
    let hooks = match override_document.hooks {
        Some(override_hooks) => {
            let mut hooks: Vec<HookConfig> = match base.hooks {
                Some(hooks) => hooks,
                None => Vec::new(),
            };
            let mut more = override_hooks;
            hooks.append(&mut more);
            Some(hooks)
        },
        None => base.hooks,
    };
    ConfigDocument { providers, permission_mode, mcp_servers, hooks }
}

/// What a [`Config`] holds.
#[verifier::ext_equal]
pub struct ConfigView {
    pub providers: Seq<ProviderConfig>,
    pub permission_mode: PermissionMode,
    pub mcp_servers: Seq<McpServerConfig>,
    pub hooks: Seq<HookConfig>,
}

impl View for Config {
    type V = ConfigView;

    open spec fn view(&self) -> ConfigView {
        ConfigView {
            providers: self.providers@,
            permission_mode: self.permission_mode,
            mcp_servers: self.mcp_servers@,
            hooks: self.hooks@,
        }
    }
}

/// What is wrong with the form of the first provider at or after `from` that has a
/// problem.
pub open spec fn first_form_problem(providers: Seq<ProviderDocument>, from: int) -> Option<
    Seq<char>,
>
    decreases providers.len() - from,
{
    if from < 0 || from >= providers.len() {
        None
    } else if provider_form_problem(providers[from], from) is Some {
        provider_form_problem(providers[from], from)
    } else {
        first_form_problem(providers, from + 1)
    }
}

/// The configuration that a document stands for, or what is wrong with its form.
pub open spec fn config_of(document: DocumentView) -> Result<ConfigView, Seq<char>> {
    let providers = items_of(document.providers);
    if first_form_problem(providers, 0) is Some {
        Err(first_form_problem(providers, 0)->0)
    } else if optional_mode(document.permission_mode) is None {
        Err(invalid_mode(document.permission_mode->0))
    } else {
        Ok(
            ConfigView {
                providers: providers.map_values(|provider: ProviderDocument| provider_of(provider)),
                permission_mode: optional_mode(document.permission_mode)->0,
                mcp_servers: items_of(document.mcp_servers),
                hooks: items_of(document.hooks),
            },
        )
    }
}

impl ConfigDocument {
    /// The configuration that the document stands for. It fails at the first provider
    /// that is wrong in form, and at a permission mode that has no meaning.
    pub fn into_config(self) -> (config: Result<Config, ConfigError>)
        ensures
            match config {
                Ok(config) => config_of(self@) == Ok::<ConfigView, Seq<char>>(config@),
                Err(error) => config_of(self@) is Err && error@ == invalid(config_of(self@)->Err_0),
            },
    {
        let documents: Vec<ProviderDocument> = match self.providers {
            Some(providers) => providers,
            None => Vec::new(),
        };
        let ghost all = documents@;
        assert(all =~= items_of(self@.providers));
        let count = documents.len();
        let mut providers: Vec<ProviderConfig> = Vec::new();
        let mut index: usize = 0;
        for document in iter: documents.into_iter()
            invariant
                iter.seq() == all,
                index == iter.index(),
                all.len() == count,
                all == items_of(self@.providers),
                providers@.len() == index,
                forall|j: int| 0 <= j < index ==> #[trigger] providers@[j] == provider_of(all[j]),
                first_form_problem(all, index as int) == first_form_problem(all, 0),
        {
            match document.into_provider(index) {
                Ok(provider) => {
                    providers.push(provider);
                },
                Err(error) => {
                    return Err(error);
                },
            }
            index += 1;
        }
        assert(providers@ =~= all.map_values(|provider: ProviderDocument| provider_of(provider)));
        let permission_mode = match parse_permission_mode(&self.permission_mode) {
            Ok(mode) => mode,
            Err(error) => {
                return Err(error);
            },
        };
        let mcp_servers: Vec<McpServerConfig> = match self.mcp_servers {
            Some(servers) => servers,
            None => Vec::new(),
        };
        let hooks: Vec<HookConfig> = match self.hooks {
            Some(hooks) => hooks,
            None => Vec::new(),
        };
        Ok(Config { providers, permission_mode, mcp_servers, hooks })
    }
}

/// What the `url` crate reads in `text`: the scheme, in lower case, and whether
/// there is a host; `None` where it is no URL.
pub uninterp spec fn parsed_url(text: Seq<char>) -> Option<(Seq<char>, bool)>;

/// The view of what was read of a URL.
pub open spec fn url_view(parts: Option<(String, bool)>) -> Option<(Seq<char>, bool)> {
    match parts {
        Some((scheme, has_host)) => Some((scheme@, has_host)),
        None => None,
    }
}

/// `url::Url::parse`, with the scheme of the URL and whether it has a host. All of it
/// depends on the text alone.
#[verifier::external_body]
fn parse_url(value: &str) -> (parts: Option<(String, bool)>)
    ensures
        url_view(parts) == parsed_url(value@),
{
    match url::Url::parse(value) {
        Ok(url) => Some((url.scheme().to_string(), url.has_host())),
        Err(_) => None,
    }
}

/// Whether a URL of that scheme, with or without a host, is an HTTP(S) address.
pub open spec fn http_address(scheme: Seq<char>, has_host: bool) -> bool {
    (scheme == "http"@ || scheme == "https"@) && has_host
}

/// Whether a URL of that scheme, with or without a host, is an HTTP(S) address.
pub fn is_http_address(scheme: &str, has_host: bool) -> (result: bool)
    ensures
        result == http_address(scheme@, has_host),
{
    (text::same_text(scheme, "http") || text::same_text(scheme, "https")) && has_host
}

/// Whether `value` is an HTTP(S) URL with a host.
pub open spec fn http_url(value: Seq<char>) -> bool {
    match parsed_url(value) {
        Some((scheme, has_host)) => http_address(scheme, has_host),
        None => false,
    }
}

/// Whether `value` is an HTTP(S) URL with a host.
pub fn is_http_url(value: &str) -> (result: bool)
    ensures
        result == http_url(value@),
{
    match parse_url(value) {
        Some((scheme, has_host)) => is_http_address(scheme.as_str(), has_host),
        None => false,
    }
}

/// `prefix`, the number of the item at `index`, and `rest`.
pub open spec fn numbered(prefix: Seq<char>, index: int, rest: Seq<char>) -> Seq<char> {
    prefix + ordinal(index) + rest
}

/// `prefix`, the number of the item at `index`, and `rest`.
fn numbered_text(prefix: &str, index: usize, rest: &str) -> (result: String)
    requires
        index < usize::MAX,
    ensures
        result@ == numbered(prefix@, index as int, rest@),
{
    text::concat3(prefix, ordinal_text(index).as_str(), rest)
}

/// What is wrong with the provider at `index`.
pub open spec fn provider_problem(provider: ProviderConfig, index: int) -> Option<Seq<char>> {
    if text::is_blank(provider.name@) {
        Some(numbered("provider "@, index, ": name must be non-empty"@))
    } else if text::is_blank(provider.model@) {
        Some(numbered("provider "@, index, ": model must be non-empty"@))
    } else if !http_url(provider.base_url@) {
        Some(numbered("provider "@, index, ": base_url must be a valid HTTP(S) URL"@))
    } else if provider.context_window == Some(0u32) {
        Some(numbered("provider "@, index, ": context_window must be greater than zero"@))
    } else if provider.max_output_tokens == Some(0u32) {
        Some(numbered("provider "@, index, ": max_output_tokens must be greater than zero"@))
    } else {
        None
    }
}

/// What is wrong with the provider at `index`.
fn check_provider(provider: &ProviderConfig, index: usize) -> (problem: Option<String>)
    requires
        index < usize::MAX,
    ensures
        text::optional_text(problem) == provider_problem(*provider, index as int),
{
    if text::blank(provider.name.as_str()) {
        return Some(numbered_text("provider ", index, ": name must be non-empty"));
    }
    if text::blank(provider.model.as_str()) {
        return Some(numbered_text("provider ", index, ": model must be non-empty"));
    }
    if !is_http_url(provider.base_url.as_str()) {
        return Some(
            numbered_text("provider ", index, ": base_url must be a valid HTTP(S) URL"),
        );
    }
    if let Some(value) = provider.context_window {
        if value == 0 {
            return Some(
                numbered_text("provider ", index, ": context_window must be greater than zero"),
            );
        }
    }
    if let Some(value) = provider.max_output_tokens {
        if value == 0 {
            return Some(
                numbered_text("provider ", index, ": max_output_tokens must be greater than zero"),
            );
        }
    }
    None
}

/// What is wrong with the first provider at or after `from` that has a problem.
pub open spec fn first_provider_problem(providers: Seq<ProviderConfig>, from: int) -> Option<
    Seq<char>,
>
    decreases providers.len() - from,
{
    if from < 0 || from >= providers.len() {
        None
    } else if provider_problem(providers[from], from) is Some {
        provider_problem(providers[from], from)
    } else {
        first_provider_problem(providers, from + 1)
    }
}

/// Whether two providers have the same name.
pub open spec fn repeated_name(providers: Seq<ProviderConfig>) -> bool {
    exists|i: int, j: int|
        0 <= i < j < providers.len() && (#[trigger] providers[i]).name@ == (
        #[trigger] providers[j]).name@
}

/// Whether two providers have the same name.
fn has_duplicate(providers: &Vec<ProviderConfig>) -> (result: bool)
    ensures
        result == repeated_name(providers@),
{
    let mut j: usize = 0;
    while j < providers.len()
        invariant
            j <= providers@.len(),
            forall|a: int, b: int|
                0 <= a < b < j ==> (#[trigger] providers@[a]).name@ != (
                #[trigger] providers@[b]).name@,
        decreases providers@.len() - j,
    {
        let mut i: usize = 0;
        while i < j
            invariant
                i <= j < providers@.len(),
                forall|a: int|
                    0 <= a < i ==> (#[trigger] providers@[a]).name@ != providers@[j as int].name@,
            decreases j - i,
        {
            if text::same_text(providers[i].name.as_str(), providers[j].name.as_str()) {
                assert(providers@[i as int].name@ == providers@[j as int].name@);
                return true;
            }
            i += 1;
        }
        j += 1;
    }
    false
}

/// What is wrong with the server at `index`.
pub open spec fn server_problem(server: McpServerConfig, index: int) -> Option<Seq<char>> {
    if text::is_blank(server.name@) {
        Some(numbered("mcp server "@, index, ": name must be non-empty"@))
    } else {
        match server.transport {
            McpTransport::Stdio => if server.command is None || text::is_blank(
                server.command->0@,
            ) {
                Some(
                    numbered(
                        "mcp server "@,
                        index,
                        ": command must be non-empty for stdio transport"@,
                    ),
                )
            } else {
                None
            },
            McpTransport::Http => if server.url is None {
                Some(numbered("mcp server "@, index, ": url must be set for HTTP transport"@))
            } else if !http_url(server.url->0@) {
                Some(numbered("mcp server "@, index, ": url must be a valid HTTP(S) URL"@))
            } else {
                None
            },
        }
    }
}

/// What is wrong with the server at `index`.
fn check_server(server: &McpServerConfig, index: usize) -> (problem: Option<String>)
    requires
        index < usize::MAX,
    ensures
        text::optional_text(problem) == server_problem(*server, index as int),
{
    if text::blank(server.name.as_str()) {
        return Some(numbered_text("mcp server ", index, ": name must be non-empty"));
    }
    match server.transport {
        McpTransport::Stdio => {
            let missing = match &server.command {
                Some(command) => text::blank(command.as_str()),
                None => true,
            };
            if missing {
                return Some(
                    numbered_text(
                        "mcp server ",
                        index,
                        ": command must be non-empty for stdio transport",
                    ),
                );
            }
            None
        },
        McpTransport::Http => match &server.url {
            None => Some(
                numbered_text("mcp server ", index, ": url must be set for HTTP transport"),
            ),
            Some(url) => if is_http_url(url.as_str()) {
                None
            } else {
                Some(numbered_text("mcp server ", index, ": url must be a valid HTTP(S) URL"))
            },
        },
    }
}

/// What is wrong with the first server at or after `from` that has a problem.
pub open spec fn first_server_problem(servers: Seq<McpServerConfig>, from: int) -> Option<Seq<char>>
    decreases servers.len() - from,
{
    if from < 0 || from >= servers.len() {
        None
    } else if server_problem(servers[from], from) is Some {
        server_problem(servers[from], from)
    } else {
        first_server_problem(servers, from + 1)
    }
}

/// What a hook is called in messages: its id, or its number.
pub open spec fn hook_label(hook: HookConfig, index: int) -> Seq<char> {
    match hook.id {
        Some(id) => id@,
        None => "hook "@ + ordinal(index),
    }
}

/// Whether an optional text is missing or empty.
pub open spec fn missing_or_empty(value: Option<String>) -> bool {
    value is None || value->0@.len() == 0
}

/// Whether an optional text is missing or empty.
fn lacks_text(value: &Option<String>) -> (result: bool)
    ensures
        result == missing_or_empty(*value),
{
    match value {
        Some(value) => value.as_str().is_empty(),
        None => true,
    }
}

/// What is wrong with the action of a hook, less the label of the hook.
pub open spec fn action_problem(action: HookAction) -> Option<Seq<char>> {
    match action {
        HookAction::Command { command, .. } => if text::is_blank(command@) {
            Some(": action command must be non-empty"@)
        } else {
            None
        },
        HookAction::Prompt { message } => if text::is_blank(message@) {
            Some(": action message must be non-empty"@)
        } else {
            None
        },
        HookAction::Http { url, .. } => if !http_url(url@) {
            Some(": action url must be a valid HTTP(S) URL"@)
        } else {
            None
        },
        HookAction::Agent { message, command } => if missing_or_empty(message) && missing_or_empty(
            command,
        ) {
            Some(": agent action requires message or command"@)
        } else {
            None
        },
    }
}

/// What is wrong with the hook at `index`.
pub open spec fn hook_problem(hook: HookConfig, index: int) -> Option<Seq<char>> {
    match action_problem(hook.action) {
        Some(problem) => Some(hook_label(hook, index) + problem),
        None => None,
    }
}

/// What is wrong with the hook at `index`.
fn check_hook(hook: &HookConfig, index: usize) -> (problem: Option<String>)
    requires
        index < usize::MAX,
    ensures
        text::optional_text(problem) == hook_problem(*hook, index as int),
{
    let label = match &hook.id {
        Some(id) => text::copy_text(id.as_str()),
        None => text::concat("hook ", ordinal_text(index).as_str()),
    };
    match &hook.action {
        HookAction::Command { command, .. } => {
            if text::blank(command.as_str()) {
                return Some(text::concat(label.as_str(), ": action command must be non-empty"));
            }
        },
        HookAction::Prompt { message } => {
            if text::blank(message.as_str()) {
                return Some(text::concat(label.as_str(), ": action message must be non-empty"));
            }
        },
        HookAction::Http { url, .. } => {
            if !is_http_url(url.as_str()) {
                return Some(
                    text::concat(label.as_str(), ": action url must be a valid HTTP(S) URL"),
                );
            }
        },
        HookAction::Agent { message, command } => {
            if lacks_text(message) && lacks_text(command) {
                return Some(
                    text::concat(label.as_str(), ": agent action requires message or command"),
                );
            }
        },
    }
    None
}

/// What is wrong with the first hook at or after `from` that has a problem.
pub open spec fn first_hook_problem(hooks: Seq<HookConfig>, from: int) -> Option<Seq<char>>
    decreases hooks.len() - from,
{
    if from < 0 || from >= hooks.len() {
        None
    } else if hook_problem(hooks[from], from) is Some {
        hook_problem(hooks[from], from)
    } else {
        first_hook_problem(hooks, from + 1)
    }
}

/// The first thing that is wrong with a configuration: there is no provider, a
/// provider has a problem, two providers share a name, a server has a problem, or a
/// hook has one.
pub open spec fn validation_problem(config: ConfigView) -> Option<Seq<char>> {
    if config.providers.len() == 0 {
        Some("at least one provider must be configured"@)
    } else if first_provider_problem(config.providers, 0) is Some {
        first_provider_problem(config.providers, 0)
    } else if repeated_name(config.providers) {
        Some("provider names must be unique"@)
    } else if first_server_problem(config.mcp_servers, 0) is Some {
        first_server_problem(config.mcp_servers, 0)
    } else {
        first_hook_problem(config.hooks, 0)
    }
}

/// The error that carries `message`.
fn validation_error(message: String) -> (error: ConfigError)
    ensures
        error@ == invalid(message@),
{
    ConfigError::Validation { message }
}

impl Config {
    /// Checks the configuration. It fails with the first problem, and succeeds where
    /// there is none.
    pub fn validate(&self) -> (outcome: Result<(), ConfigError>)
        ensures
            match outcome {
                Ok(_) => validation_problem(self@) is None,
                Err(error) => validation_problem(self@) is Some && error@ == invalid(
                    validation_problem(self@)->0,
                ),
            },
    {
        if self.providers.len() == 0 {
            return Err(validation_error(text::copy_text("at least one provider must be configured")));
        }
        let mut index: usize = 0;
        while index < self.providers.len()
            invariant
                index <= self.providers.len(),
                self.providers.len() > 0,
                first_provider_problem(self.providers@, index as int) == first_provider_problem(
                    self.providers@,
                    0,
                ),
            decreases self.providers@.len() - index,
        {
            if let Some(message) = check_provider(&self.providers[index], index) {
                return Err(validation_error(message));
            }
            index += 1;
        }
        if has_duplicate(&self.providers) {
            return Err(validation_error(text::copy_text("provider names must be unique")));
        }
        let mut server_index: usize = 0;
        while server_index < self.mcp_servers.len()
            invariant
                server_index <= self.mcp_servers.len(),
                self.providers.len() > 0,
                first_provider_problem(self.providers@, 0) is None,
                !repeated_name(self.providers@),
                first_server_problem(self.mcp_servers@, server_index as int)
                    == first_server_problem(self.mcp_servers@, 0),
            decreases self.mcp_servers@.len() - server_index,
        {
            if let Some(message) = check_server(&self.mcp_servers[server_index], server_index) {
                return Err(validation_error(message));
            }
            server_index += 1;
        }
        let mut hook_index: usize = 0;
        while hook_index < self.hooks.len()
            invariant
                hook_index <= self.hooks.len(),
                self.providers.len() > 0,
                first_provider_problem(self.providers@, 0) is None,
                !repeated_name(self.providers@),
                first_server_problem(self.mcp_servers@, 0) is None,
                first_hook_problem(self.hooks@, hook_index as int) == first_hook_problem(
                    self.hooks@,
                    0,
                ),
            decreases self.hooks@.len() - hook_index,
        {
            if let Some(message) = check_hook(&self.hooks[hook_index], hook_index) {
                return Err(validation_error(message));
            }
            hook_index += 1;
        }
        Ok(())
    }

    /// The valid configuration that one document stands for.
    pub fn from_document(document: ConfigDocument) -> (config: Result<Config, ConfigError>)
        ensures
            match config {
                Ok(config) => accepted(document@) == Ok::<ConfigView, Seq<char>>(config@),
                Err(error) => accepted(document@) is Err && error@ == invalid(
                    accepted(document@)->Err_0,
                ),
            },
    {
        let config = match document.into_config() {
            Ok(config) => config,
            Err(error) => {
                return Err(error);
            },
        };
        match config.validate() {
            Ok(_) => Ok(config),
            Err(error) => Err(error),
        }
    }

    /// The valid configuration of the layers that were found, each over the one
    /// before it. `paths` is where they were looked for.
    pub fn from_layers(paths: Vec<String>, layers: Vec<ConfigDocument>) -> (config: Result<
        Config,
        ConfigError,
    >)
        ensures
            match config {
                Ok(config) => layers@.len() > 0 && accepted(stacked(document_views(layers@)))
                    == Ok::<ConfigView, Seq<char>>(config@),
                Err(error) => if layers@.len() == 0 {
                    error@ == (ConfigErrorView::NoConfig { paths: text::texts(paths@) })
                } else {
                    accepted(stacked(document_views(layers@))) is Err && error@ == invalid(
                        accepted(stacked(document_views(layers@)))->Err_0,
                    )
                },
            },
    {
        if layers.len() == 0 {
            return Err(ConfigError::NoConfig { paths });
        }
        let ghost all = layers@;
        let ghost views = document_views(all);
        let mut document = ConfigDocument::default();
        assert(document@ =~= stacked(views.take(0)));
        for layer in iter: layers.into_iter()
            invariant
                iter.seq() == all,
                views == document_views(all),
                document@ == stacked(views.take(iter.index() as int)),
        {
            assert(views.take(iter.index() + 1).drop_last() =~= views.take(iter.index() as int));
            assert(views.take(iter.index() + 1).last() == layer@);
            document = merge_documents(document, layer);
        }
        assert(views.take(all.len() as int) =~= views);
        Config::from_document(document)
    }
}

/// The configuration that a document stands for where it is valid, and otherwise the
/// first problem with it.
pub open spec fn accepted(document: DocumentView) -> Result<ConfigView, Seq<char>> {
    match config_of(document) {
        Ok(config) => match validation_problem(config) {
            Some(problem) => Err(problem),
            None => Ok(config),
        },
        Err(problem) => Err(problem),
    }
}

/// The views of a sequence of documents.
pub open spec fn document_views(documents: Seq<ConfigDocument>) -> Seq<DocumentView> {
    documents.map_values(|document: ConfigDocument| document@)
}

/// The layers as one, each over the one before it.
pub open spec fn stacked(layers: Seq<DocumentView>) -> DocumentView
    decreases layers.len(),
{
    if layers.len() == 0 {
        DocumentView { providers: None, permission_mode: None, mcp_servers: None, hooks: None }
    } else {
        merged(stacked(layers.drop_last()), layers.last())
    }
}

/// The name of a server stands once among servers of distinct names.
pub open spec fn distinct_servers(servers: Seq<McpServerConfig>) -> bool {
    forall|i: int, j: int|
        0 <= i < j < servers.len() ==> (#[trigger] servers[i]).name@ != (
        #[trigger] servers[j]).name@
}

/// [`server_position`] gives the first position of the name.
proof fn lemma_server_position(servers: Seq<McpServerConfig>, name: Seq<char>, from: int)
    requires
        0 <= from <= servers.len(),
    ensures
        from <= server_position(servers, name, from) <= servers.len(),
        server_position(servers, name, from) < servers.len() ==> servers[server_position(
            servers,
            name,
            from,
        )].name@ == name,
        forall|i: int|
            from <= i < server_position(servers, name, from) ==> (#[trigger] servers[i]).name@
                != name,
    decreases servers.len() - from,
{
    if from < servers.len() && servers[from].name@ != name {
        lemma_server_position(servers, name, from + 1);
    }
}

/// Servers stay of distinct names when more are put in.
pub proof fn law_server_names_stay_distinct(
    servers: Seq<McpServerConfig>,
    more: Seq<McpServerConfig>,
)
    requires
        distinct_servers(servers),
    ensures
        distinct_servers(put_servers(servers, more)),
    decreases more.len(),
{
    if more.len() > 0 {
        law_server_names_stay_distinct(servers, more.drop_last());
        let before = put_servers(servers, more.drop_last());
        let server = more.last();
        lemma_server_position(before, server.name@, 0);
        let position = server_position(before, server.name@, 0);
        let after = put_server(before, server);
        assert forall|i: int, j: int| 0 <= i < j < after.len() implies (#[trigger] after[i]).name@
            != (#[trigger] after[j]).name@ by {
            if position < before.len() {
                assert(after[i].name@ == before[i].name@);
                assert(after[j].name@ == before[j].name@);
            } else {
                assert(after[i] == before[i]);
                if j < before.len() {
                    assert(after[j] == before[j]);
                }
            }
        }
    }
}

/// No two servers of a stack of layers have the same name.
pub proof fn law_stacked_server_names_are_distinct(layers: Seq<DocumentView>)
    ensures
        distinct_servers(items_of(stacked(layers).mcp_servers)),
    decreases layers.len(),
{
    if layers.len() > 0 {
        law_stacked_server_names_are_distinct(layers.drop_last());
        let base = stacked(layers.drop_last());
        if let Some(servers) = layers.last().mcp_servers {
            law_server_names_stay_distinct(items_of(base.mcp_servers), servers);
        }
    }
}

/// The last layer that sets the providers decides them, and so it is with the
/// permission mode: a layer that leaves them out changes neither.
pub proof fn law_last_layer_decides(layers: Seq<DocumentView>, at: int)
    requires
        0 <= at < layers.len(),
    ensures
        layers[at].providers is Some && (forall|i: int|
            at < i < layers.len() ==> (#[trigger] layers[i]).providers is None) ==> stacked(
            layers,
        ).providers == layers[at].providers,
        layers[at].permission_mode is Some && (forall|i: int|
            at < i < layers.len() ==> (#[trigger] layers[i]).permission_mode is None) ==> stacked(
            layers,
        ).permission_mode == layers[at].permission_mode,
    decreases layers.len(),
{
    if at < layers.len() - 1 {
        law_last_layer_decides(layers.drop_last(), at);
        assert(layers.last() == layers[layers.len() - 1]);
        assert(forall|i: int|
            at < i < layers.len() - 1 ==> layers.drop_last()[i] == #[trigger] layers[i]);
    }
}

/// The hooks of a stack are those of its layers, one layer after the other.
pub proof fn law_hooks_accumulate(layers: Seq<DocumentView>)
    requires
        layers.len() > 0,
    ensures
        items_of(stacked(layers).hooks) == items_of(stacked(layers.drop_last()).hooks) + items_of(
            layers.last().hooks,
        ),
{
    assert(items_of(stacked(layers).hooks) =~= items_of(stacked(layers.drop_last()).hooks)
        + items_of(layers.last().hooks));
}

/// The first server of a name stands where it is found.
proof fn lemma_first_position(servers: Seq<McpServerConfig>, name: Seq<char>, at: int)
    requires
        0 <= at < servers.len(),
        servers[at].name@ == name,
        forall|i: int| 0 <= i < at ==> (#[trigger] servers[i]).name@ != name,
    ensures
        server_position(servers, name, 0) == at,
{
    lemma_server_position(servers, name, 0);
    let found = server_position(servers, name, 0);
    if found < at {
        assert(servers[found].name@ != name);
    }
}

/// Putting in a second server of a name undoes the first.
proof fn lemma_put_twice(
    servers: Seq<McpServerConfig>,
    first: McpServerConfig,
    second: McpServerConfig,
)
    requires
        first.name@ == second.name@,
    ensures
        put_server(put_server(servers, first), second) == put_server(servers, second),
{
    lemma_server_position(servers, first.name@, 0);
    let at = server_position(servers, first.name@, 0);
    let after = put_server(servers, first);
    assert forall|i: int| 0 <= i < at implies (#[trigger] after[i]).name@ != first.name@ by {
        assert(servers[i].name@ != first.name@);
    }
    lemma_first_position(after, first.name@, at);
    assert(put_server(after, second) =~= put_server(servers, second));
}

/// A server that is there may be put in before or after one of another name.
proof fn lemma_put_commutes(
    servers: Seq<McpServerConfig>,
    known: McpServerConfig,
    other: McpServerConfig,
)
    requires
        known.name@ != other.name@,
        server_position(servers, known.name@, 0) < servers.len(),
    ensures
        put_server(put_server(servers, known), other) == put_server(
            put_server(servers, other),
            known,
        ),
{
    lemma_server_position(servers, known.name@, 0);
    lemma_server_position(servers, other.name@, 0);
    let at = server_position(servers, known.name@, 0);
    let there = server_position(servers, other.name@, 0);
    let with_known = put_server(servers, known);
    let with_other = put_server(servers, other);
    assert forall|i: int| 0 <= i < at implies (#[trigger] with_other[i]).name@ != known.name@ by {
        if i < servers.len() {
            assert(servers[i].name@ != known.name@);
        }
    }
    lemma_first_position(with_other, known.name@, at);
    if there < servers.len() {
        assert forall|i: int| 0 <= i < there implies (#[trigger] with_known[i]).name@
            != other.name@ by {
            assert(servers[i].name@ != other.name@);
        }
        lemma_first_position(with_known, other.name@, there);
    } else {
        lemma_server_position(with_known, other.name@, 0);
        let found = server_position(with_known, other.name@, 0);
        if found < with_known.len() {
            assert(servers[found].name@ != other.name@);
        }
    }
    assert(put_server(with_known, other) =~= put_server(with_other, known));
}

/// A server of `more` is there once `more` is put in.
proof fn lemma_put_is_there(servers: Seq<McpServerConfig>, more: Seq<McpServerConfig>, at: int)
    requires
        0 <= at < more.len(),
    ensures
        ({
            let all = put_servers(servers, more);
            0 <= server_position(all, more[at].name@, 0) < all.len()
        }),
    decreases more.len(),
{
    let before = put_servers(servers, more.drop_last());
    let all = put_servers(servers, more);
    let name = more[at].name@;
    lemma_server_position(before, more.last().name@, 0);
    lemma_server_position(all, name, 0);
    let put = server_position(before, more.last().name@, 0);
    if at == more.len() - 1 {
        assert(all[put].name@ == name);
    } else {
        lemma_put_is_there(servers, more.drop_last(), at);
        lemma_server_position(before, name, 0);
        let found = server_position(before, name, 0);
        assert(all[found].name@ == name);
    }
}

/// Putting a server in among servers that are put in then is putting it in after them.
proof fn lemma_put_in_order(
    servers: Seq<McpServerConfig>,
    more: Seq<McpServerConfig>,
    server: McpServerConfig,
)
    requires
        distinct_servers(more),
    ensures
        put_servers(servers, put_server(more, server)) == put_server(
            put_servers(servers, more),
            server,
        ),
    decreases more.len(),
{
    lemma_server_position(more, server.name@, 0);
    let at = server_position(more, server.name@, 0);
    if at == more.len() {
        assert(more.push(server).drop_last() =~= more);
    } else {
        let rest = more.drop_last();
        let before = put_servers(servers, rest);
        if at == more.len() - 1 {
            assert(more.update(at, server).drop_last() =~= rest);
            lemma_put_twice(before, more.last(), server);
        } else {
            assert forall|i: int| 0 <= i < at implies (#[trigger] rest[i]).name@ != server.name@ by {
                assert(more[i].name@ != server.name@);
            }
            lemma_first_position(rest, server.name@, at);
            lemma_put_in_order(servers, rest, server);
            assert(more.update(at, server).drop_last() =~= rest.update(at, server));
            assert(more.last().name@ != more[at].name@);
            lemma_put_is_there(servers, rest, at);
            lemma_put_commutes(before, server, more.last());
        }
    }
}

/// Servers may be put in one list after the other, or together.
proof fn lemma_put_together(
    servers: Seq<McpServerConfig>,
    more: Seq<McpServerConfig>,
    last: Seq<McpServerConfig>,
)
    requires
        distinct_servers(more),
    ensures
        put_servers(servers, put_servers(more, last)) == put_servers(
            put_servers(servers, more),
            last,
        ),
    decreases last.len(),
{
    if last.len() > 0 {
        lemma_put_together(servers, more, last.drop_last());
        law_server_names_stay_distinct(more, last.drop_last());
        lemma_put_in_order(servers, put_servers(more, last.drop_last()), last.last());
    }
}

/// Layers may be merged from below or from above, where no layer between the others names a
/// server twice.
pub proof fn law_merging_is_associative(base: DocumentView, middle: DocumentView, upper: DocumentView)
    requires
        distinct_servers(items_of(middle.mcp_servers)),
    ensures
        merged(merged(base, middle), upper) == merged(base, merged(middle, upper)),
{
    if let Some(servers) = upper.mcp_servers {
        lemma_put_together(items_of(base.mcp_servers), items_of(middle.mcp_servers), servers);
    }
    assert(merged(merged(base, middle), upper) =~= merged(base, merged(middle, upper)));
}

/// Merging with the layer that says nothing changes nothing, from above; from below it
/// changes nothing where the layer names no server twice.
pub proof fn law_empty_layer_is_neutral(document: DocumentView)
    ensures
        merged(document, empty_document()@) == document,
        distinct_servers(items_of(document.mcp_servers)) ==> merged(empty_document()@, document)
            == document,
{
    if distinct_servers(items_of(document.mcp_servers)) {
        if let Some(servers) = document.mcp_servers {
            lemma_put_distinct(servers);
        }
        assert(merged(empty_document()@, document) =~= document);
    }
}

/// Servers of different names stand as they are put in.
proof fn lemma_put_distinct(servers: Seq<McpServerConfig>)
    requires
        distinct_servers(servers),
    ensures
        put_servers(Seq::empty(), servers) == servers,
    decreases servers.len(),
{
    if servers.len() > 0 {
        let rest = servers.drop_last();
        lemma_put_distinct(rest);
        lemma_server_position(rest, servers.last().name@, 0);
        let at = server_position(rest, servers.last().name@, 0);
        if at < rest.len() {
            assert(servers[at].name@ != servers.last().name@);
        }
        assert(rest.push(servers.last()) =~= servers);
    } else {
        assert(put_servers(Seq::empty(), servers) =~= servers);
    }
}

/// A valid configuration has a provider; its providers have names, models and HTTP(S)
/// addresses, no limit of 0, and no name in common.
pub proof fn law_valid_providers(config: ConfigView, i: int)
    requires
        validation_problem(config) is None,
        0 <= i < config.providers.len(),
    ensures
        config.providers.len() > 0,
        !text::is_blank(config.providers[i].name@),
        !text::is_blank(config.providers[i].model@),
        http_url(config.providers[i].base_url@),
        config.providers[i].context_window != Some(0u32),
        config.providers[i].max_output_tokens != Some(0u32),
        forall|j: int|
            0 <= j < config.providers.len() && j != i ==> (#[trigger] config.providers[j]).name@
                != config.providers[i].name@,
{
    lemma_no_provider_problem(config.providers, 0, i);
    assert forall|j: int| 0 <= j < config.providers.len() && j != i implies (
    #[trigger] config.providers[j]).name@ != config.providers[i].name@ by {
        if j < i {
            assert(!(0 <= j < i < config.providers.len() && config.providers[j].name@
                == config.providers[i].name@));
        } else {
            assert(!(0 <= i < j < config.providers.len() && config.providers[i].name@
                == config.providers[j].name@));
        }
    }
}

/// Where no provider has a problem, the one at `i` has none.
proof fn lemma_no_provider_problem(providers: Seq<ProviderConfig>, from: int, i: int)
    requires
        0 <= from <= i < providers.len(),
        first_provider_problem(providers, from) is None,
    ensures
        provider_problem(providers[i], i) is None,
    decreases i - from,
{
    if from < i {
        lemma_no_provider_problem(providers, from + 1, i);
    }
}

/// Whether a text is the address of a host on the web.
pub open spec fn is_web_address(value: Seq<char>) -> bool {
    parsed_url(value) == Some(("http"@, true)) || parsed_url(value) == Some(("https"@, true))
}

/// Whether a provider can be used: it has a name, a model and the address of a host, and no limit
/// of it is zero.
pub open spec fn usable_provider(provider: ProviderConfig) -> bool {
    &&& !text::is_blank(provider.name@)
    &&& !text::is_blank(provider.model@)
    &&& is_web_address(provider.base_url@)
    &&& !(provider.context_window is Some && provider.context_window->0 == 0)
    &&& !(provider.max_output_tokens is Some && provider.max_output_tokens->0 == 0)
}

/// Whether a server can be used: it has a name and what its transport needs, a command or the
/// address of a host.
pub open spec fn usable_server(server: McpServerConfig) -> bool {
    &&& !text::is_blank(server.name@)
    &&& server.transport is Stdio ==> server.command is Some && !text::is_blank(
        (server.command->0)@,
    )
    &&& server.transport is Http ==> server.url is Some && is_web_address((server.url->0)@)
}

/// Whether a hook can be run: it has what its action needs.
pub open spec fn usable_hook(hook: HookConfig) -> bool {
    match hook.action {
        HookAction::Command { command, .. } => !text::is_blank(command@),
        HookAction::Prompt { message } => !text::is_blank(message@),
        HookAction::Http { url, .. } => is_web_address(url@),
        HookAction::Agent { message, command } => (message is Some && (message->0)@.len() > 0) || (
        command is Some && (command->0)@.len() > 0),
    }
}

/// A configuration is valid just where it has a provider, every provider, server and hook in it
/// can be used, and no two providers have the same name.
pub proof fn law_valid_configuration(config: ConfigView)
    ensures
        validation_problem(config) is None <==> {
            &&& config.providers.len() > 0
            &&& forall|i: int|
                0 <= i < config.providers.len() ==> usable_provider(#[trigger] config.providers[i])
            &&& forall|i: int, j: int|
                0 <= i < j < config.providers.len() ==> (#[trigger] config.providers[i]).name@ != (
                #[trigger] config.providers[j]).name@
            &&& forall|i: int|
                0 <= i < config.mcp_servers.len() ==> usable_server(
                    #[trigger] config.mcp_servers[i],
                )
            &&& forall|i: int|
                0 <= i < config.hooks.len() ==> usable_hook(#[trigger] config.hooks[i])
        },
{
    lemma_usable_providers(config.providers, 0);
    lemma_usable_servers(config.mcp_servers, 0);
    lemma_usable_hooks(config.hooks, 0);
}

proof fn lemma_web_address(value: Seq<char>)
    ensures
        http_url(value) == is_web_address(value),
{
}

proof fn lemma_usable_providers(providers: Seq<ProviderConfig>, from: int)
    requires
        0 <= from <= providers.len(),
    ensures
        first_provider_problem(providers, from) is None <==> forall|i: int|
            from <= i < providers.len() ==> usable_provider(#[trigger] providers[i]),
    decreases providers.len() - from,
{
    if from < providers.len() {
        lemma_usable_providers(providers, from + 1);
        lemma_web_address(providers[from].base_url@);
        assert(provider_problem(providers[from], from) is None <==> usable_provider(
            providers[from],
        ));
    }
}

proof fn lemma_usable_servers(servers: Seq<McpServerConfig>, from: int)
    requires
        0 <= from <= servers.len(),
    ensures
        first_server_problem(servers, from) is None <==> forall|i: int|
            from <= i < servers.len() ==> usable_server(#[trigger] servers[i]),
    decreases servers.len() - from,
{
    if from < servers.len() {
        lemma_usable_servers(servers, from + 1);
        lemma_web_address((servers[from].url->0)@);
        assert(server_problem(servers[from], from) is None <==> usable_server(servers[from]));
    }
}

proof fn lemma_usable_hooks(hooks: Seq<HookConfig>, from: int)
    requires
        0 <= from <= hooks.len(),
    ensures
        first_hook_problem(hooks, from) is None <==> forall|i: int|
            from <= i < hooks.len() ==> usable_hook(#[trigger] hooks[i]),
    decreases hooks.len() - from,
{
    if from < hooks.len() {
        lemma_usable_hooks(hooks, from + 1);
        assert(hook_problem(hooks[from], from) is None <==> usable_hook(hooks[from]));
    }
}

/// Whether a provider is written out: it has a name, an address, a model and a protocol that is
/// known.
pub open spec fn written_out(provider: ProviderDocument) -> bool {
    &&& provider.name is Some && provider.base_url is Some && provider.model is Some
    &&& provider.protocol is Some
    &&& (provider.protocol->0)@ == "anthropic"@ || (provider.protocol->0)@ == "openai"@ || (
    provider.protocol->0)@ == "openai-compat"@
}

/// A document is a configuration just where every provider in it is written out and its mode, if
/// it has one, is known.
pub proof fn law_complete_documents_are_configurations(document: DocumentView)
    ensures
        ({
            let providers = items_of(document.providers);
            let mode = document.permission_mode;
            let known = mode is None || mode->0 == "default"@ || mode->0 == "acceptEdits"@
                || mode->0 == "plan"@ || mode->0 == "bypassPermissions"@;
            config_of(document) is Ok <==> known && forall|i: int|
                0 <= i < providers.len() ==> written_out(#[trigger] providers[i])
        }),
{
    lemma_written_out(items_of(document.providers), 0);
}

/// A configuration keeps all that is written: every provider in order with all that it says, the
/// servers and the hooks. Without a mode, the mode is the default.
pub proof fn law_configuration_is_what_is_written(document: DocumentView, index: int)
    requires
        config_of(document) is Ok,
    ensures
        ({
            let config = config_of(document)->Ok_0;
            let providers = match document.providers {
                Some(providers) => providers,
                None => Seq::empty(),
            };
            let written = providers[index];
            let provider = config.providers[index];
            &&& config.providers.len() == providers.len()
            &&& config.mcp_servers == (match document.mcp_servers {
                Some(servers) => servers,
                None => Seq::empty(),
            })
            &&& config.hooks == (match document.hooks {
                Some(hooks) => hooks,
                None => Seq::empty(),
            })
            &&& 0 <= index < providers.len() ==> {
                &&& provider.name == written.name->0
                &&& provider.base_url == written.base_url->0
                &&& provider.model == written.model->0
                &&& provider.api_key == written.api_key
                &&& provider.thinking == written.thinking
                &&& provider.context_window == written.context_window
                &&& provider.max_output_tokens == written.max_output_tokens
            }
        }),
{
}

/// Modes and protocols are known by their names.
pub proof fn law_modes_and_protocols_have_names(document: DocumentView, index: int)
    requires
        config_of(document) is Ok,
    ensures
        ({
            let config = config_of(document)->Ok_0;
            let mode = document.permission_mode;
            let providers = match document.providers {
                Some(providers) => providers,
                None => Seq::empty(),
            };
            let protocol = (providers[index].protocol->0)@;
            &&& config.permission_mode == PermissionMode::Default <==> mode is None || mode->0
                == "default"@
            &&& config.permission_mode == PermissionMode::AcceptEdits <==> mode is Some && mode->0
                == "acceptEdits"@
            &&& config.permission_mode == PermissionMode::Plan <==> mode is Some && mode->0
                == "plan"@
            &&& config.permission_mode == PermissionMode::BypassPermissions <==> mode is Some
                && mode->0 == "bypassPermissions"@
            &&& 0 <= index < providers.len() ==> {
                let used = config.providers[index].protocol;
                &&& used == ProviderProtocol::Anthropic <==> protocol == "anthropic"@
                &&& used == ProviderProtocol::OpenAi <==> protocol == "openai"@
                &&& used == ProviderProtocol::OpenAiCompat <==> protocol == "openai-compat"@
            }
        }),
{
    reveal_strlit("anthropic");
    reveal_strlit("openai");
    reveal_strlit("openai-compat");
    reveal_strlit("default");
    reveal_strlit("acceptEdits");
    reveal_strlit("plan");
    reveal_strlit("bypassPermissions");
    assert("anthropic"@.len() == 9 && "openai"@.len() == 6 && "openai-compat"@.len() == 13);
    assert("default"@.len() == 7 && "acceptEdits"@.len() == 11 && "plan"@.len() == 4
        && "bypassPermissions"@.len() == 17);
    let providers = items_of(document.providers);
    lemma_written_out(providers, 0);
    if 0 <= index < providers.len() {
        assert(written_out(providers[index]));
    }
}

proof fn lemma_written_out(providers: Seq<ProviderDocument>, from: int)
    requires
        0 <= from <= providers.len(),
    ensures
        first_form_problem(providers, from) is None <==> forall|i: int|
            from <= i < providers.len() ==> written_out(#[trigger] providers[i]),
    decreases providers.len() - from,
{
    if from < providers.len() {
        lemma_written_out(providers, from + 1);
        assert(provider_form_problem(providers[from], from) is None <==> written_out(
            providers[from],
        ));
    }
}

/// A document is accepted just where it is a configuration that is valid, and then as that
/// configuration.
pub proof fn law_valid_documents_are_accepted(document: DocumentView)
    ensures
        accepted(document) is Ok <==> config_of(document) is Ok && validation_problem(
            config_of(document)->Ok_0,
        ) is None,
        accepted(document) is Ok ==> accepted(document) == config_of(document),
        config_of(document) is Err ==> accepted(document)->Err_0 == config_of(document)->Err_0,
        config_of(document) is Ok && accepted(document) is Err ==> Some(accepted(document)->Err_0)
            == validation_problem(config_of(document)->Ok_0),
{
}

/// A layer replaces the providers and the mode of the layers below it where it has any, adds its
/// hooks after theirs, and adds its servers, each in the place of the one with the same name if
/// there is one.
pub proof fn law_layers_are_merged(
    base: DocumentView,
    upper: DocumentView,
    server: McpServerConfig,
    index: int,
)
    ensures
        ({
            let both = merged(base, upper);
            &&& both.providers == (if upper.providers is Some {
                upper.providers
            } else {
                base.providers
            })
            &&& both.permission_mode == (if upper.permission_mode is Some {
                upper.permission_mode
            } else {
                base.permission_mode
            })
            &&& upper.hooks is None ==> both.hooks == base.hooks
            &&& upper.hooks is Some && base.hooks is None ==> both.hooks == upper.hooks
            &&& upper.hooks is Some && base.hooks is Some ==> both.hooks == Some(
                base.hooks->0 + upper.hooks->0,
            )
            &&& upper.mcp_servers is None ==> both.mcp_servers == base.mcp_servers
        }),
        ({
            let servers = items_of(base.mcp_servers);
            let after = put_server(servers, server);
            let fresh = forall|i: int|
                0 <= i < servers.len() ==> (#[trigger] servers[i]).name@ != server.name@;
            &&& fresh ==> after == servers.push(server)
            &&& 0 <= index < servers.len() && servers[index].name@ == server.name@ && (forall|
                i: int,
            |
                0 <= i < index ==> (#[trigger] servers[i]).name@ != server.name@) ==> after
                == servers.update(index, server)
        }),
{
    let servers = items_of(base.mcp_servers);
    lemma_server_place(servers, server.name@, 0, index);
    if upper.hooks is Some && base.hooks is None {
        assert(Seq::<HookConfig>::empty() + upper.hooks->0 =~= upper.hooks->0);
    }
}

proof fn lemma_server_place(
    servers: Seq<McpServerConfig>,
    name: Seq<char>,
    from: int,
    index: int,
)
    requires
        0 <= from <= servers.len(),
    ensures
        (forall|i: int| from <= i < servers.len() ==> (#[trigger] servers[i]).name@ != name)
            ==> server_position(servers, name, from) == servers.len(),
        from <= index < servers.len() && servers[index].name@ == name && (forall|i: int|
            from <= i < index ==> (#[trigger] servers[i]).name@ != name) ==> server_position(
            servers,
            name,
            from,
        ) == index,
    decreases servers.len() - from,
{
    if from < servers.len() {
        lemma_server_place(servers, name, from + 1, index);
    }
}

/// A key stands in the variable of its protocol.
pub proof fn law_key_variables()
    ensures
        key_variable(ProviderProtocol::Anthropic) == "ANTHROPIC_API_KEY"@,
        key_variable(ProviderProtocol::OpenAi) == "OPENAI_API_KEY"@,
        key_variable(ProviderProtocol::OpenAiCompat) == "OPENAI_API_KEY"@,
{
}

} // verus!
