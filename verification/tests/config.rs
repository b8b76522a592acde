use std::collections::BTreeMap;

use mycode::config::{
    Config, ConfigDocument, ConfigError, HookAction, HookConfig, HookErrorPolicy, HookEvent,
    McpServerConfig, McpTransport, PermissionMode, ProviderConfig, ProviderDocument,
    ProviderProtocol,
};

fn provider(name: &str, protocol: &str, base_url: &str, model: &str) -> ProviderDocument {
    ProviderDocument {
        name: Some(name.into()),
        protocol: Some(protocol.into()),
        base_url: Some(base_url.into()),
        model: Some(model.into()),
        api_key: String::new(),
        thinking: false,
        context_window: None,
        max_output_tokens: None,
    }
}

fn server(
    name: &str,
    transport: McpTransport,
    command: Option<&str>,
    url: Option<&str>,
) -> McpServerConfig {
    McpServerConfig {
        name: name.into(),
        transport,
        command: command.map(str::to_string),
        args: Vec::new(),
        url: url.map(str::to_string),
        headers: BTreeMap::new(),
        env: BTreeMap::new(),
    }
}

fn hook(id: &str, event: HookEvent, action: HookAction) -> HookConfig {
    HookConfig {
        id: Some(id.into()),
        event,
        condition: None,
        action,
        reject: false,
        once: false,
        asynchronous: false,
        on_error: HookErrorPolicy::default(),
    }
}

fn http_action(url: &str) -> HookAction {
    HookAction::Http {
        url: url.into(),
        method: None,
        headers: BTreeMap::new(),
        body: String::new(),
        timeout_seconds: None,
    }
}

fn paths() -> Vec<String> {
    vec![
        "/home/.mycode/config.yaml".into(),
        "/work/.mycode/config.yaml".into(),
    ]
}

fn one_provider(document: ProviderDocument) -> ConfigDocument {
    ConfigDocument {
        providers: Some(vec![document]),
        ..ConfigDocument::default()
    }
}

fn valid() -> ConfigDocument {
    one_provider(provider(
        "provider",
        "anthropic",
        "https://provider.example.test",
        "model",
    ))
}

fn problem(document: ConfigDocument) -> String {
    Config::from_layers(paths(), vec![document])
        .expect_err("configuration should be refused")
        .message()
}

#[test]
fn config_loads_and_merges_layers_with_defined_precedence() {
    let home = ConfigDocument {
        providers: Some(vec![provider(
            "home-provider",
            "anthropic",
            "https://home.example.test",
            "home-model",
        )]),
        permission_mode: Some("default".into()),
        mcp_servers: Some(vec![server(
            "search",
            McpTransport::Stdio,
            Some("home-search"),
            None,
        )]),
        hooks: Some(vec![hook(
            "home-hook",
            HookEvent::SessionStart,
            HookAction::Prompt {
                message: "home".into(),
            },
        )]),
    };
    let project = ConfigDocument {
        providers: Some(vec![provider(
            "project-provider",
            "openai",
            "https://project.example.test",
            "project-model",
        )]),
        permission_mode: Some("acceptEdits".into()),
        mcp_servers: Some(vec![server(
            "search",
            McpTransport::Http,
            None,
            Some("https://project-search.example.test"),
        )]),
        hooks: Some(vec![hook(
            "project-hook",
            HookEvent::TurnStart,
            HookAction::Command {
                command: "project-hook".into(),
                timeout_seconds: None,
            },
        )]),
    };
    let local = ConfigDocument {
        providers: Some(vec![provider(
            "local-provider",
            "openai-compat",
            "https://local.example.test",
            "local-model",
        )]),
        permission_mode: Some("plan".into()),
        mcp_servers: Some(vec![server(
            "local-search",
            McpTransport::Stdio,
            Some("local-search"),
            None,
        )]),
        hooks: Some(vec![hook(
            "local-hook",
            HookEvent::Shutdown,
            http_action("https://local-hook.example.test"),
        )]),
    };

    let config =
        Config::from_layers(paths(), vec![home, project, local]).expect("config should load");

    assert_eq!(config.providers.len(), 1);
    assert_eq!(config.providers[0].name, "local-provider");
    assert_eq!(config.providers[0].protocol, ProviderProtocol::OpenAiCompat);
    assert_eq!(config.permission_mode, PermissionMode::Plan);
    assert_eq!(config.mcp_servers.len(), 2);
    assert_eq!(config.mcp_servers[0].name, "search");
    assert_eq!(config.mcp_servers[0].transport, McpTransport::Http);
    assert_eq!(config.mcp_servers[1].name, "local-search");
    assert_eq!(config.hooks.len(), 3);
    assert_eq!(config.hooks[2].event, HookEvent::Shutdown);
    assert!(matches!(config.hooks[2].action, HookAction::Http { .. }));
}

#[test]
fn invalid_yaml_and_provider_settings_fail_with_config_errors() {
    let error = ConfigError::Parse {
        path: "/work/.mycode/config.yaml".into(),
    }
    .message();
    assert!(
        error.contains("config.yaml"),
        "error should name the file: {error}"
    );
    assert!(
        !error.contains("EOF while parsing"),
        "error should not leak parser details: {error}"
    );

    let error = problem(one_provider(provider(
        "",
        "invalid",
        "https://provider.example.test",
        "model",
    )));
    assert!(
        error.contains("provider"),
        "error should identify provider: {error}"
    );
    assert!(
        error.contains("protocol"),
        "error should identify the invalid field: {error}"
    );
    assert_eq!(
        error,
        "invalid configuration: provider 1: invalid protocol \"invalid\"; expected anthropic, openai, or openai-compat"
    );
}

#[test]
fn missing_provider_fields_are_reported_individually() {
    let complete = provider(
        "provider",
        "anthropic",
        "https://provider.example.test",
        "model",
    );
    let cases = [
        (
            ProviderDocument {
                name: None,
                ..complete.clone()
            },
            "name",
        ),
        (
            ProviderDocument {
                protocol: None,
                ..complete.clone()
            },
            "protocol",
        ),
        (
            ProviderDocument {
                base_url: None,
                ..complete.clone()
            },
            "base_url",
        ),
        (
            ProviderDocument {
                model: None,
                ..complete.clone()
            },
            "model",
        ),
    ];

    for (document, field) in cases {
        let error = problem(one_provider(document));
        assert!(
            error.contains("provider 1"),
            "error should identify the provider: {error}"
        );
        assert!(
            error.contains(field),
            "error should identify missing field {field}: {error}"
        );
    }
}

#[test]
fn invalid_permission_mode_fails() {
    let error = problem(ConfigDocument {
        permission_mode: Some("invalid".into()),
        ..valid()
    });
    assert!(
        error.contains("permission_mode"),
        "error should identify the field: {error}"
    );
}

#[test]
fn provider_api_key_falls_back_to_protocol_environment_variable() {
    let cases = [
        (ProviderProtocol::Anthropic, "ANTHROPIC_API_KEY"),
        (ProviderProtocol::OpenAi, "OPENAI_API_KEY"),
        (ProviderProtocol::OpenAiCompat, "OPENAI_API_KEY"),
    ];

    for (protocol, variable) in cases {
        let provider = ProviderConfig {
            name: "provider".into(),
            protocol,
            base_url: "https://provider.example.test".into(),
            model: "model".into(),
            api_key: String::new(),
            thinking: false,
            context_window: None,
            max_output_tokens: None,
        };
        assert_eq!(
            provider.resolve_api_key_with(|name| if name == variable {
                Some("environment-key".into())
            } else {
                None
            }),
            Some("environment-key".to_string())
        );
    }
}

#[test]
fn a_configured_key_is_not_looked_up() {
    let provider = ProviderConfig {
        name: "provider".into(),
        protocol: ProviderProtocol::OpenAi,
        base_url: "https://provider.example.test".into(),
        model: "model".into(),
        api_key: "configured".into(),
        thinking: false,
        context_window: None,
        max_output_tokens: None,
    };
    assert_eq!(
        provider.resolve_api_key_with(|_| Some("environment-key".into())),
        Some("configured".to_string())
    );
}

#[test]
fn without_layers_the_places_are_told() {
    let error = Config::from_layers(paths(), Vec::new()).expect_err("nothing was found");
    assert_eq!(error, ConfigError::NoConfig { paths: paths() });
    assert_eq!(
        error.message(),
        "no config file found; expected one of: /home/.mycode/config.yaml, /work/.mycode/config.yaml"
    );
}

#[test]
fn urls_of_providers_must_be_http_addresses() {
    for base_url in ["ftp://provider.example.test", "not a url", "http://"] {
        let error = problem(one_provider(provider(
            "provider",
            "openai",
            base_url,
            "model",
        )));
        assert!(error.contains("base_url"), "{error}");
    }
    assert!(Config::from_layers(
        paths(),
        vec![one_provider(provider(
            "provider",
            "openai",
            "HTTP://localhost:8080/v1",
            "model"
        ))]
    )
    .is_ok());
}

#[test]
fn a_layer_that_says_nothing_changes_nothing() {
    let alone = Config::from_layers(paths(), vec![valid()]).expect("config should load");
    let stacked = Config::from_layers(paths(), vec![valid(), ConfigDocument::default()])
        .expect("config should load");
    assert_eq!(alone, stacked);
    assert_eq!(alone.permission_mode, PermissionMode::Default);
    assert!(problem(ConfigDocument::default()).contains("provider"));
}

#[test]
fn errors_say_what_could_not_be_had() {
    assert_eq!(
        ConfigError::Read { path: "p".into() }.message(),
        "failed to read config file p"
    );
    assert_eq!(
        ConfigError::HomeDirectoryMissing.message(),
        "the home directory could not be determined"
    );
    assert_eq!(
        ConfigError::WorkingDirectoryMissing.message(),
        "the current working directory could not be determined"
    );
    assert!(PermissionMode::parse("Plan").is_err());
    assert_eq!(
        PermissionMode::parse("bypassPermissions"),
        Ok(PermissionMode::BypassPermissions)
    );
}
