use cc_switch_tui::provider_form::{provider_field_value, ProviderAddField, ProviderFormView};

fn form() -> ProviderFormView {
    ProviderFormView {
        app_is_openclaw: false,
        api_format_label: "OpenAI Chat Completions (proxy)".to_string(),
        codex_wire_api: "responses".to_string(),
        codex_requires_openai_auth: true,
        claude_model_config_summary: "2 set".to_string(),
        claude_quick_config_summary: "1 on".to_string(),
        codex_quick_config_summary: "0/3".to_string(),
        codex_goal_mode: false,
        codex_remote_compaction: true,
        claude_hide_attribution: false,
        claude_teammates: false,
        claude_tool_search: false,
        claude_disable_auto_upgrade: false,
        codex_oauth_account_display: String::new(),
        codex_fast_mode: false,
        include_common_config: true,
        gemini_auth_oauth: false,
        opencode_npm_package: "  @ai-sdk/openai  ".to_string(),
        openclaw_user_agent: false,
        openclaw_models_summary: String::new(),
        hermes_api_mode_label: "chat".to_string(),
        hermes_models_summary: String::new(),
        hermes_rate_limit_delay: String::new(),
        active_marker: "x".to_string(),
        not_available: "N/A".to_string(),
    }
}

#[test]
fn provider_value_shows_api_format_label_and_switches() {
    let f = form();
    assert_eq!(
        provider_field_value(&f, ProviderAddField::ClaudeApiFormat, None),
        "OpenAI Chat Completions (proxy)"
    );
    assert_eq!(provider_field_value(&f, ProviderAddField::CodexRequiresOpenaiAuth, None), "[x]");
    assert_eq!(provider_field_value(&f, ProviderAddField::CodexGoalMode, None), "[ ]");
    assert_eq!(provider_field_value(&f, ProviderAddField::GeminiAuthType, None), "api_key");
    assert_eq!(provider_field_value(&f, ProviderAddField::OpenClawApiProtocol, None), "@ai-sdk/openai");
}

#[test]
fn provider_value_trims_inputs_and_redacts_openclaw_keys() {
    let f = form();
    assert_eq!(
        provider_field_value(&f, ProviderAddField::ClaudeApiKey, Some("  sk-test-1234567890 ")),
        "sk-test-1234567890"
    );
    let mut claw = form();
    claw.app_is_openclaw = true;
    assert_eq!(provider_field_value(&claw, ProviderAddField::OpenCodeApiKey, Some("sk")), "[redacted]");
    assert_eq!(provider_field_value(&claw, ProviderAddField::OpenCodeApiKey, Some("  ")), "N/A");
    assert_eq!(provider_field_value(&f, ProviderAddField::OpenCodeApiKey, Some("sk")), "sk");
}

#[test]
fn empty_values_show_the_placeholder_except_sub_pages() {
    let f = form();
    assert_eq!(provider_field_value(&f, ProviderAddField::Name, Some("")), "N/A");
    assert_eq!(provider_field_value(&f, ProviderAddField::CodexOAuthAccount, None), "N/A");
    assert_eq!(provider_field_value(&f, ProviderAddField::CommonSnippet, None), "");
    assert_eq!(provider_field_value(&f, ProviderAddField::CodexLocalRouting, None), "");
    assert_eq!(provider_field_value(&f, ProviderAddField::CommonConfigDivider, None), "- - - - - - - - - -");
}
