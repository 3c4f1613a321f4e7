//! The value column of the add-provider form: what each row shows.
use vstd::prelude::*;

use crate::text::{chars_of, extend_chars, string_of, trim, trim_chars};

verus! {

/// A row of the add-provider form.
#[derive(Debug, Clone, Copy, PartialEq, Eq, Structural)]
pub enum ProviderAddField {
    Id,
    Name,
    WebsiteUrl,
    Notes,
    ClaudeBaseUrl,
    ClaudeApiFormat,
    ClaudeApiKey,
    ClaudeModelConfig,
    ClaudeFallbackModel,
    ClaudeQuickConfig,
    CodexQuickConfig,
    CodexGoalMode,
    CodexRemoteCompaction,
    ClaudeHideAttribution,
    ClaudeTeammates,
    ClaudeToolSearch,
    ClaudeDisableAutoUpgrade,
    CodexOAuthAccount,
    CodexFastMode,
    CodexBaseUrl,
    CodexModel,
    CodexLocalRouting,
    CodexWireApi,
    CodexRequiresOpenaiAuth,
    CodexEnvKey,
    CodexApiKey,
    GeminiAuthType,
    GeminiApiKey,
    GeminiBaseUrl,
    GeminiModel,
    OpenClawApiProtocol,
    OpenClawUserAgent,
    OpenClawModels,
    OpenCodeNpmPackage,
    OpenCodeApiKey,
    OpenCodeBaseUrl,
    OpenCodeModelId,
    OpenCodeModelName,
    OpenCodeModelContextLimit,
    OpenCodeModelOutputLimit,
    HermesApiMode,
    HermesApiKey,
    HermesBaseUrl,
    HermesModels,
    HermesRateLimitDelay,
    ClaudeAdvancedDivider,
    CodexAdvancedDivider,
    HermesAdvancedDivider,
    CommonConfigDivider,
    CommonSnippet,
    IncludeCommonConfig,
    UsageQueryDivider,
    UsageQuery,
}

/// What the value column reads from the form. Texts in the interface's
/// language (the marker of an enabled switch, the placeholder for an empty
/// value, labels of chosen options and the summaries of sub-pages) come
/// ready-made.
#[derive(Debug, PartialEq, Eq)]
pub struct ProviderFormView {
    /// The form is for an OpenClaw provider.
    pub app_is_openclaw: bool,
    /// The label of the chosen API format.
    pub api_format_label: String,
    pub codex_wire_api: String,
    pub codex_requires_openai_auth: bool,
    pub claude_model_config_summary: String,
    pub claude_quick_config_summary: String,
    pub codex_quick_config_summary: String,
    pub codex_goal_mode: bool,
    pub codex_remote_compaction: bool,
    pub claude_hide_attribution: bool,
    pub claude_teammates: bool,
    pub claude_tool_search: bool,
    pub claude_disable_auto_upgrade: bool,
    pub codex_oauth_account_display: String,
    pub codex_fast_mode: bool,
    pub include_common_config: bool,
    /// Gemini signs in with OAuth (else with an API key).
    pub gemini_auth_oauth: bool,
    pub opencode_npm_package: String,
    pub openclaw_user_agent: bool,
    pub openclaw_models_summary: String,
    pub hermes_api_mode_label: String,
    pub hermes_models_summary: String,
    pub hermes_rate_limit_delay: String,
    /// The marker of an enabled switch.
    pub active_marker: String,
    /// The placeholder for an empty value.
    pub not_available: String,
}

/// A switch: `[marker]` when on, `[ ]` when off.
pub open spec fn toggle_text(on: bool, marker: Seq<char>) -> Seq<char> {
    if on {
        "["@ + marker + "]"@
    } else {
        "[ ]"@
    }
}

/// The OpenClaw API key is shown only as a placeholder.
pub open spec fn redacts(form: ProviderFormView, field: ProviderAddField) -> bool {
    form.app_is_openclaw && field == ProviderAddField::OpenCodeApiKey
}

/// A text input's value: trimmed, or the placeholder when it must be
/// hidden and is not blank; nothing for a row without an input.
pub open spec fn input_text(form: ProviderFormView, field: ProviderAddField, input: Option<Seq<char>>) -> Seq<char> {
    match input {
        Some(t) => if redacts(form, field) && trim(t).len() > 0 {
            "[redacted]"@
        } else {
            trim(t)
        },
        None => Seq::empty(),
    }
}

/// The value of a row before the empty-value placeholder.
pub open spec fn raw_value_spec(form: ProviderFormView, field: ProviderAddField, input: Option<Seq<char>>) -> Seq<char> {
    match field {
        ProviderAddField::CodexRequiresOpenaiAuth => toggle_text(form.codex_requires_openai_auth, form.active_marker@),
        ProviderAddField::CodexGoalMode => toggle_text(form.codex_goal_mode, form.active_marker@),
        ProviderAddField::CodexRemoteCompaction => toggle_text(form.codex_remote_compaction, form.active_marker@),
        ProviderAddField::ClaudeHideAttribution => toggle_text(form.claude_hide_attribution, form.active_marker@),
        ProviderAddField::ClaudeTeammates => toggle_text(form.claude_teammates, form.active_marker@),
        ProviderAddField::ClaudeToolSearch => toggle_text(form.claude_tool_search, form.active_marker@),
        ProviderAddField::ClaudeDisableAutoUpgrade => toggle_text(form.claude_disable_auto_upgrade, form.active_marker@),
        ProviderAddField::CodexFastMode => toggle_text(form.codex_fast_mode, form.active_marker@),
        ProviderAddField::IncludeCommonConfig => toggle_text(form.include_common_config, form.active_marker@),
        ProviderAddField::OpenClawUserAgent => toggle_text(form.openclaw_user_agent, form.active_marker@),
        ProviderAddField::ClaudeApiFormat => form.api_format_label@,
        ProviderAddField::CodexWireApi => form.codex_wire_api@,
        ProviderAddField::ClaudeModelConfig => form.claude_model_config_summary@,
        ProviderAddField::ClaudeQuickConfig => form.claude_quick_config_summary@,
        ProviderAddField::CodexQuickConfig => form.codex_quick_config_summary@,
        ProviderAddField::CodexOAuthAccount => form.codex_oauth_account_display@,
        ProviderAddField::OpenClawModels => form.openclaw_models_summary@,
        ProviderAddField::HermesApiMode => form.hermes_api_mode_label@,
        ProviderAddField::HermesModels => form.hermes_models_summary@,
        ProviderAddField::HermesRateLimitDelay => form.hermes_rate_limit_delay@,
        ProviderAddField::CodexLocalRouting => Seq::empty(),
        ProviderAddField::GeminiAuthType => if form.gemini_auth_oauth {
            "oauth"@
        } else {
            "api_key"@
        },
        ProviderAddField::OpenClawApiProtocol => trim(form.opencode_npm_package@),
        ProviderAddField::HermesAdvancedDivider => "- - - - - - - - - -"@,
        ProviderAddField::CommonConfigDivider => "- - - - - - - - - -"@,
        ProviderAddField::CommonSnippet => Seq::empty(),
        ProviderAddField::UsageQueryDivider => Seq::empty(),
        ProviderAddField::UsageQuery => Seq::empty(),
        _ => input_text(form, field, input),
    }
}

/// Rows that open a sub-page keep an empty value column.
pub open spec fn opens_subpage(field: ProviderAddField) -> bool {
    ||| field == ProviderAddField::CommonSnippet
    ||| field == ProviderAddField::UsageQuery
    ||| field == ProviderAddField::CodexLocalRouting
}

/// What the value column shows for a row: its value, or the placeholder
/// when that is empty (but for rows that open a sub-page).
pub open spec fn provider_field_value_spec(form: ProviderFormView, field: ProviderAddField, input: Option<Seq<char>>) -> Seq<char> {
    let v = raw_value_spec(form, field, input);
    if v.len() == 0 && !opens_subpage(field) {
        form.not_available@
    } else {
        v
    }
}

pub open spec fn opt_view(o: Option<&str>) -> Option<Seq<char>> {
    match o {
        Some(t) => Some(t@),
        None => None,
    }
}

fn copy_text(s: &String) -> (out: String)
    ensures
        out@ == s@,
{
    string_of(&chars_of(s.as_str()))
}

fn toggle(on: bool, marker: &String) -> (out: String)
    ensures
        out@ == toggle_text(on, marker@),
{
    if on {
        let mut v = chars_of("[");
        extend_chars(&mut v, &chars_of(marker.as_str()));
        extend_chars(&mut v, &chars_of("]"));
        string_of(&v)
    } else {
        String::from_str("[ ]")
    }
}

fn input_value(form: &ProviderFormView, field: ProviderAddField, input: Option<&str>) -> (out: String)
    ensures
        out@ == input_text(*form, field, opt_view(input)),
{
    match input {
        Some(t) => {
            let trimmed = trim_chars(&chars_of(t));
            let hidden = form.app_is_openclaw && match field {
                ProviderAddField::OpenCodeApiKey => true,
                _ => false,
            };
            if hidden && trimmed.len() > 0 {
                String::from_str("[redacted]")
            } else {
                string_of(&trimmed)
            }
        },
        None => String::new(),
    }
}

fn raw_value(form: &ProviderFormView, field: ProviderAddField, input: Option<&str>) -> (out: String)
    ensures
        out@ == raw_value_spec(*form, field, opt_view(input)),
{
    match field {
        ProviderAddField::CodexRequiresOpenaiAuth => toggle(form.codex_requires_openai_auth, &form.active_marker),
        ProviderAddField::CodexGoalMode => toggle(form.codex_goal_mode, &form.active_marker),
        ProviderAddField::CodexRemoteCompaction => toggle(form.codex_remote_compaction, &form.active_marker),
        ProviderAddField::ClaudeHideAttribution => toggle(form.claude_hide_attribution, &form.active_marker),
        ProviderAddField::ClaudeTeammates => toggle(form.claude_teammates, &form.active_marker),
        ProviderAddField::ClaudeToolSearch => toggle(form.claude_tool_search, &form.active_marker),
        ProviderAddField::ClaudeDisableAutoUpgrade => toggle(form.claude_disable_auto_upgrade, &form.active_marker),
        ProviderAddField::CodexFastMode => toggle(form.codex_fast_mode, &form.active_marker),
        ProviderAddField::IncludeCommonConfig => toggle(form.include_common_config, &form.active_marker),
        ProviderAddField::OpenClawUserAgent => toggle(form.openclaw_user_agent, &form.active_marker),
        ProviderAddField::ClaudeApiFormat => copy_text(&form.api_format_label),
        ProviderAddField::CodexWireApi => copy_text(&form.codex_wire_api),
        ProviderAddField::ClaudeModelConfig => copy_text(&form.claude_model_config_summary),
        ProviderAddField::ClaudeQuickConfig => copy_text(&form.claude_quick_config_summary),
        ProviderAddField::CodexQuickConfig => copy_text(&form.codex_quick_config_summary),
        ProviderAddField::CodexOAuthAccount => copy_text(&form.codex_oauth_account_display),
        ProviderAddField::OpenClawModels => copy_text(&form.openclaw_models_summary),
        ProviderAddField::HermesApiMode => copy_text(&form.hermes_api_mode_label),
        ProviderAddField::HermesModels => copy_text(&form.hermes_models_summary),
        ProviderAddField::HermesRateLimitDelay => copy_text(&form.hermes_rate_limit_delay),
        ProviderAddField::CodexLocalRouting => String::new(),
        ProviderAddField::GeminiAuthType => if form.gemini_auth_oauth {
            String::from_str("oauth")
        } else {
            String::from_str("api_key")
        },
        ProviderAddField::OpenClawApiProtocol => string_of(&trim_chars(&chars_of(form.opencode_npm_package.as_str()))),
        ProviderAddField::HermesAdvancedDivider => String::from_str("- - - - - - - - - -"),
        ProviderAddField::CommonConfigDivider => String::from_str("- - - - - - - - - -"),
        ProviderAddField::CommonSnippet => String::new(),
        ProviderAddField::UsageQueryDivider => String::new(),
        ProviderAddField::UsageQuery => String::new(),
        _ => input_value(form, field, input),
    }
}

/// The value column of a row of the add-provider form; `input` is the
/// row's text input, if it has one.
pub fn provider_field_value(form: &ProviderFormView, field: ProviderAddField, input: Option<&str>) -> (out: String)
    ensures
        out@ == provider_field_value_spec(*form, field, opt_view(input)),
{
    let v = raw_value(form, field, input);
    let subpage = match field {
        ProviderAddField::CommonSnippet | ProviderAddField::UsageQuery | ProviderAddField::CodexLocalRouting => true,
        _ => false,
    };
    if v.as_str().unicode_len() == 0 && !subpage {
        copy_text(&form.not_available)
    } else {
        v
    }
}

} // verus!
