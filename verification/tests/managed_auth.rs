use cc_switch_tui::managed_auth::{
    managed_auth_step, put_account_first, DeviceCodeLogin, ManagedAccount, ManagedAuthLoginState,
    ManagedAuthModel, ManagedAuthMsg, ManagedAuthNotice, ManagedAuthStatus,
};

fn account(id: &str, login: &str) -> ManagedAccount {
    ManagedAccount { id: id.to_string(), login: login.to_string(), is_default: false }
}

fn status(provider: &str, accounts: Vec<ManagedAccount>, default: Option<&str>) -> ManagedAuthStatus {
    ManagedAuthStatus {
        provider: provider.to_string(),
        authenticated: false,
        default_account_id: default.map(|d| d.to_string()),
        migration_error: None,
        accounts,
    }
}

fn login(code: &str) -> ManagedAuthLoginState {
    ManagedAuthLoginState {
        auth_provider: "codex".to_string(),
        device_code: code.to_string(),
        expires_at_tick: 100,
        poll_interval_ticks: 5,
        next_poll_tick: 10,
    }
}

fn model(status: Option<ManagedAuthStatus>, login: Option<ManagedAuthLoginState>) -> ManagedAuthModel {
    ManagedAuthModel { loading: true, status, login, accounts_idx: 3 }
}

#[test]
fn put_account_first_drops_the_old_row() {
    let out = put_account_first(
        vec![account("a", "x"), account("b", "y"), account("a", "z")],
        account("a", "new"),
    );
    assert_eq!(out, vec![account("a", "new"), account("b", "y")]);
}

#[test]
fn finished_login_puts_the_account_first() {
    let m = model(
        Some(status("codex", vec![account("b", "bob"), account("a", "old")], None)),
        Some(login("dc")),
    );
    let msg = ManagedAuthMsg::LoginPolled {
        auth_provider: "codex".to_string(),
        device_code: "dc".to_string(),
        result: Ok(Some(account("a", "alice"))),
    };
    let (next, fx) = managed_auth_step(m, 7, msg);
    let st = next.status.unwrap();
    assert!(st.authenticated);
    assert_eq!(st.default_account_id, Some("a".to_string()));
    assert_eq!(st.accounts, vec![account("a", "alice"), account("b", "bob")]);
    assert!(next.login.is_none());
    assert!(!next.loading);
    assert_eq!(next.accounts_idx, 0);
    assert_eq!(fx.notice, Some(ManagedAuthNotice::LoginFinished("alice".to_string())));
    assert!(fx.clear_login_toast && fx.clear_cancel_confirm);
}

#[test]
fn stale_poll_answers_are_ignored() {
    let m = model(None, Some(login("current")));
    let msg = ManagedAuthMsg::LoginPolled {
        auth_provider: "codex".to_string(),
        device_code: "old".to_string(),
        result: Err("expired".to_string()),
    };
    let (next, fx) = managed_auth_step(m, 7, msg);
    assert_eq!(next, model(None, Some(login("current"))));
    assert_eq!(fx.notice, None);
}

#[test]
fn failed_refresh_keeps_only_the_same_providers_status() {
    let msg = |p: &str| ManagedAuthMsg::Status {
        auth_provider: p.to_string(),
        result: Err("offline".to_string()),
    };
    let (kept, fx) = managed_auth_step(model(Some(status("codex", vec![], None)), None), 0, msg("codex"));
    assert!(kept.status.is_some());
    assert_eq!(fx.notice, Some(ManagedAuthNotice::RefreshFailed("offline".to_string())));
    let (dropped, _) = managed_auth_step(model(Some(status("codex", vec![], None)), None), 0, msg("other"));
    assert!(dropped.status.is_none());
}

#[test]
fn started_login_counts_ticks_from_now() {
    let msg = ManagedAuthMsg::LoginStarted {
        auth_provider: "codex".to_string(),
        result: Ok(DeviceCodeLogin {
            device_code: "dc".to_string(),
            user_code: "UC".to_string(),
            verification_uri: "https://x".to_string(),
            expires_in: 60,
            interval: 0,
        }),
    };
    let (next, fx) = managed_auth_step(model(None, None), 10, msg);
    let l = next.login.unwrap();
    assert_eq!(l.device_code, "dc");
    assert_eq!(l.expires_at_tick, 10 + 300);
    assert_eq!(l.poll_interval_ticks, 1);
    assert_eq!(l.next_poll_tick, 10);
    assert_eq!(
        fx.notice,
        Some(ManagedAuthNotice::LoginInProgress {
            user_code: "UC".to_string(),
            verification_uri: "https://x".to_string()
        })
    );
}
