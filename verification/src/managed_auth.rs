//! The managed-account sign-in state of the TUI, and how each answer of the
//! managed auth worker moves it.
use vstd::prelude::*;

use crate::webdav::{seconds_to_tui_ticks, ticks_spec};

verus! {

/// A signed-in account of the managed auth provider.
#[derive(Debug, PartialEq, Eq)]
pub struct ManagedAccount {
    pub id: String,
    pub login: String,
    pub is_default: bool,
}

/// What the provider reports about its accounts.
#[derive(Debug, PartialEq, Eq)]
pub struct ManagedAuthStatus {
    pub provider: String,
    pub authenticated: bool,
    pub default_account_id: Option<String>,
    pub migration_error: Option<String>,
    pub accounts: Vec<ManagedAccount>,
}

/// A device-code sign-in that was started.
#[derive(Debug, PartialEq, Eq)]
pub struct DeviceCodeLogin {
    pub device_code: String,
    pub user_code: String,
    pub verification_uri: String,
    /// Seconds until the code expires.
    pub expires_in: u64,
    /// Seconds between polls.
    pub interval: u64,
}

/// A sign-in in progress, in TUI ticks.
#[derive(Debug, PartialEq, Eq)]
pub struct ManagedAuthLoginState {
    pub auth_provider: String,
    pub device_code: String,
    pub expires_at_tick: u64,
    pub poll_interval_ticks: u64,
    pub next_poll_tick: u64,
}

/// An answer of the managed auth worker.
#[derive(Debug, PartialEq, Eq)]
pub enum ManagedAuthMsg {
    Status { auth_provider: String, result: Result<ManagedAuthStatus, String> },
    LoginStarted { auth_provider: String, result: Result<DeviceCodeLogin, String> },
    LoginPolled {
        auth_provider: String,
        device_code: String,
        result: Result<Option<ManagedAccount>, String>,
    },
    DefaultSet { auth_provider: String, account_id: String, result: Result<ManagedAuthStatus, String> },
    Removed { auth_provider: String, account_id: String, result: Result<ManagedAuthStatus, String> },
}

/// The managed-account part of the TUI's state.
#[derive(Debug, PartialEq, Eq)]
pub struct ManagedAuthModel {
    /// A request is on its way.
    pub loading: bool,
    pub status: Option<ManagedAuthStatus>,
    pub login: Option<ManagedAuthLoginState>,
    /// The selected row of the accounts list.
    pub accounts_idx: usize,
}

/// A message for the user (its wording and colour are the interface's).
#[derive(Debug, PartialEq, Eq)]
pub enum ManagedAuthNotice {
    /// Warning: refreshing the status failed.
    RefreshFailed(String),
    /// Information that stays up: enter `user_code` at `verification_uri`.
    LoginInProgress { user_code: String, verification_uri: String },
    /// Error: the sign-in failed.
    LoginFailed(String),
    /// Success: the account `login` is signed in.
    LoginFinished(String),
    /// Success: the default account changed.
    DefaultUpdated,
    /// Error: changing the default account failed.
    DefaultFailed(String),
    /// Success: the account was removed.
    AccountRemoved,
    /// Error: removing the account failed.
    RemoveFailed(String),
}

/// What the interface does besides the new state.
#[derive(Debug, PartialEq, Eq)]
pub struct ManagedAuthEffects {
    pub notice: Option<ManagedAuthNotice>,
    /// Take down the "sign-in in progress" message.
    pub clear_login_toast: bool,
    /// Take down the "cancel the sign-in?" question.
    pub clear_cancel_confirm: bool,
    /// Forget a provider binding to this removed account.
    pub forget_binding_to: Option<String>,
}

/// The status with its accounts as a sequence.
pub type StatusView = (String, bool, Option<String>, Option<String>, Seq<ManagedAccount>);

pub open spec fn status_view(s: ManagedAuthStatus) -> StatusView {
    (s.provider, s.authenticated, s.default_account_id, s.migration_error, s.accounts@)
}

/// The model with the status seen through `status_view`.
pub type ModelView = (bool, Option<StatusView>, Option<ManagedAuthLoginState>, usize);

pub open spec fn model_view(m: ManagedAuthModel) -> ModelView {
    (
        m.loading,
        match m.status {
            Some(s) => Some(status_view(s)),
            None => None,
        },
        m.login,
        m.accounts_idx,
    )
}

pub open spec fn effects(
    notice: Option<ManagedAuthNotice>,
    clear_login: bool,
    forget: Option<String>,
) -> ManagedAuthEffects {
    ManagedAuthEffects {
        notice: notice,
        clear_login_toast: clear_login,
        clear_cancel_confirm: clear_login,
        forget_binding_to: forget,
    }
}

/// `accounts` with `account` put first and any other row of the same id
/// left out.
pub open spec fn put_first(accounts: Seq<ManagedAccount>, account: ManagedAccount) -> Seq<ManagedAccount> {
    seq![account] + accounts.filter(|row: ManagedAccount| row.id@ != account.id@)
}

/// Ticks of a duration in seconds, at least one.
pub open spec fn ticks_at_least_one(seconds: u64) -> int {
    if ticks_spec(seconds) < 1 {
        1
    } else {
        ticks_spec(seconds)
    }
}

/// The login that a started device-code sign-in begins at tick `now`.
pub open spec fn started_login(auth_provider: String, d: DeviceCodeLogin, now: u64) -> ManagedAuthLoginState {
    ManagedAuthLoginState {
        auth_provider: auth_provider,
        device_code: d.device_code,
        expires_at_tick: if now + ticks_at_least_one(d.expires_in) > u64::MAX {
            u64::MAX
        } else {
            (now + ticks_at_least_one(d.expires_in)) as u64
        },
        poll_interval_ticks: ticks_at_least_one(d.interval) as u64,
        next_poll_tick: now,
    }
}

/// Whether a poll answer belongs to the sign-in in progress.
pub open spec fn poll_is_current(login: Option<ManagedAuthLoginState>, device_code: String) -> bool {
    match login {
        Some(l) => l.device_code@ == device_code@,
        None => false,
    }
}

/// The status once `account` of `auth_provider` has signed in: the status of
/// that provider becomes authenticated, gets a default account if it had
/// none, and lists the account first; a status of another provider is kept.
pub open spec fn status_after_login(
    status: Option<StatusView>,
    auth_provider: String,
    account: ManagedAccount,
) -> Option<StatusView> {
    match status {
        Some(s) => if s.0@ == auth_provider@ {
            Some(
                (
                    s.0,
                    true,
                    if s.2 is None {
                        Some(account.id)
                    } else {
                        s.2
                    },
                    s.3,
                    put_first(s.4, account),
                ),
            )
        } else {
            status
        },
        None => Some((auth_provider, true, Some(account.id), None, seq![account])),
    }
}

/// How the state moves on an answer of the worker at tick `now`, and what
/// the interface does.
pub open spec fn managed_auth_step_spec(m: ModelView, now: u64, msg: ManagedAuthMsg) -> (
    ModelView,
    ManagedAuthEffects,
) {
    let none = effects(None, false, None);
    match msg {
        ManagedAuthMsg::Status { auth_provider, result } => match result {
            Ok(st) => ((false, Some(status_view(st)), m.2, m.3), none),
            Err(e) => {
                let keep = match m.1 {
                    Some(s) => s.0@ == auth_provider@,
                    None => false,
                };
                (
                    (false, if keep {
                        m.1
                    } else {
                        None
                    }, m.2, m.3),
                    effects(Some(ManagedAuthNotice::RefreshFailed(e)), false, None),
                )
            },
        },
        ManagedAuthMsg::LoginStarted { auth_provider, result } => match result {
            Ok(d) => (
                (false, m.1, Some(started_login(auth_provider, d, now)), m.3),
                effects(
                    Some(
                        ManagedAuthNotice::LoginInProgress {
                            user_code: d.user_code,
                            verification_uri: d.verification_uri,
                        },
                    ),
                    false,
                    None,
                ),
            ),
            Err(e) => (
                (false, m.1, None, m.3),
                effects(Some(ManagedAuthNotice::LoginFailed(e)), true, None),
            ),
        },
        ManagedAuthMsg::LoginPolled { auth_provider, device_code, result } => match result {
            Ok(Some(account)) => if !poll_is_current(m.2, device_code) {
                (m, none)
            } else {
                (
                    (false, status_after_login(m.1, auth_provider, account), None, 0),
                    effects(Some(ManagedAuthNotice::LoginFinished(account.login)), true, None),
                )
            },
            Ok(None) => (m, none),
            Err(e) => if !poll_is_current(m.2, device_code) {
                (m, none)
            } else {
                ((false, m.1, None, m.3), effects(Some(ManagedAuthNotice::LoginFailed(e)), true, None))
            },
        },
        ManagedAuthMsg::DefaultSet { auth_provider: _, account_id: _, result } => match result {
            Ok(st) => (
                (false, Some(status_view(st)), m.2, m.3),
                effects(Some(ManagedAuthNotice::DefaultUpdated), false, None),
            ),
            Err(e) => ((false, m.1, m.2, m.3), effects(Some(ManagedAuthNotice::DefaultFailed(e)), false, None)),
        },
        ManagedAuthMsg::Removed { auth_provider: _, account_id, result } => match result {
            Ok(st) => (
                (false, Some(status_view(st)), m.2, m.3),
                effects(Some(ManagedAuthNotice::AccountRemoved), false, Some(account_id)),
            ),
            Err(e) => ((false, m.1, m.2, m.3), effects(Some(ManagedAuthNotice::RemoveFailed(e)), false, None)),
        },
    }
}

/// Puts `account` first in `accounts`, dropping any other row with its id.
pub fn put_account_first(accounts: Vec<ManagedAccount>, account: ManagedAccount) -> (out: Vec<
    ManagedAccount,
>)
    ensures
        out@ == put_first(accounts@, account),
{
    let ghost rows = accounts@;
    let ghost keep = |row: ManagedAccount| row.id@ != account.id@;
    let mut rest: Vec<ManagedAccount> = Vec::new();
    let mut accounts = accounts;
    let mut i: usize = 0;
    assert(rows.take(0) =~= Seq::<ManagedAccount>::empty());
    let total = accounts.len();
    assert(rows.len() == total);
    while accounts.len() > 0
        invariant
            i <= rows.len() <= usize::MAX,
            accounts@ == rows.skip(i as int),
            rest@ == rows.take(i as int).filter(keep),
            keep == (|row: ManagedAccount| row.id@ != account.id@),
        decreases accounts@.len(),
    {
        let row = accounts.remove(0);
        proof {
            assert(row == rows[i as int]);
            assert(rows.take(i + 1) =~= rows.take(i as int).push(rows[i as int]));
            rows.take(i as int).lemma_filter_push(rows[i as int], keep);
        }
        if row.id != account.id {
            rest.push(row);
        }
        assert(i < rows.len());
        i = i + 1;
        assert(accounts@ =~= rows.skip(i as int));
    }
    assert(rows.take(i as int) =~= rows);
    let mut out: Vec<ManagedAccount> = Vec::new();
    out.push(account);
    out.append(&mut rest);
    out
}

/// Moves the managed-account state on an answer of the worker, at tick
/// `now` (see `managed_auth_step_spec`): stale poll answers are ignored, and
/// a finished sign-in puts the new account first without duplicates.
pub fn managed_auth_step(model: ManagedAuthModel, now: u64, msg: ManagedAuthMsg) -> (out: (
    ManagedAuthModel,
    ManagedAuthEffects,
))
    ensures
        (model_view(out.0), out.1) == managed_auth_step_spec(model_view(model), now, msg),
{
    let ghost m = model_view(model);
    let ManagedAuthModel { loading, status, login, accounts_idx } = model;
    let none = ManagedAuthEffects {
        notice: None,
        clear_login_toast: false,
        clear_cancel_confirm: false,
        forget_binding_to: None,
    };
    match msg {
        ManagedAuthMsg::Status { auth_provider, result } => match result {
            Ok(st) => (ManagedAuthModel { loading: false, status: Some(st), login, accounts_idx }, none),
            Err(e) => {
                let keep = match &status {
                    Some(s) => s.provider == auth_provider,
                    None => false,
                };
                let status = if keep {
                    status
                } else {
                    None
                };
                (
                    ManagedAuthModel { loading: false, status, login, accounts_idx },
                    ManagedAuthEffects {
                        notice: Some(ManagedAuthNotice::RefreshFailed(e)),
                        ..none
                    },
                )
            },
        },
        ManagedAuthMsg::LoginStarted { auth_provider, result } => match result {
            Ok(d) => {
                let ghost dv = d;
                let expires = seconds_to_tui_ticks(d.expires_in);
                let expires = if expires < 1 {
                    1
                } else {
                    expires
                };
                let interval = seconds_to_tui_ticks(d.interval);
                let interval = if interval < 1 {
                    1
                } else {
                    interval
                };
                let DeviceCodeLogin { device_code, user_code, verification_uri, .. } = d;
                let started = ManagedAuthLoginState {
                    auth_provider,
                    device_code,
                    expires_at_tick: now.saturating_add(expires),
                    poll_interval_ticks: interval,
                    next_poll_tick: now,
                };
                (
                    ManagedAuthModel { loading: false, status, login: Some(started), accounts_idx },
                    ManagedAuthEffects {
                        notice: Some(ManagedAuthNotice::LoginInProgress { user_code, verification_uri }),
                        ..none
                    },
                )
            },
            Err(e) => (
                ManagedAuthModel { loading: false, status, login: None, accounts_idx },
                ManagedAuthEffects {
                    notice: Some(ManagedAuthNotice::LoginFailed(e)),
                    clear_login_toast: true,
                    clear_cancel_confirm: true,
                    forget_binding_to: None,
                },
            ),
        },
        ManagedAuthMsg::LoginPolled { auth_provider, device_code, result } => {
            let current = match &login {
                Some(l) => l.device_code == device_code,
                None => false,
            };
            match result {
                Ok(Some(account)) => {
                    if !current {
                        return (ManagedAuthModel { loading, status, login, accounts_idx }, none);
                    }
                    let login_name = account.login.clone();
                    let new_status = match status {
                        Some(s) => {
                            if s.provider == auth_provider {
                                let ManagedAuthStatus {
                                    provider,
                                    authenticated: _,
                                    default_account_id,
                                    migration_error,
                                    accounts,
                                } = s;
                                let default_account_id = match default_account_id {
                                    Some(id) => Some(id),
                                    None => Some(account.id.clone()),
                                };
                                let accounts = put_account_first(accounts, account);
                                Some(
                                    ManagedAuthStatus {
                                        provider,
                                        authenticated: true,
                                        default_account_id,
                                        migration_error,
                                        accounts,
                                    },
                                )
                            } else {
                                Some(s)
                            }
                        },
                        None => {
                            let id = account.id.clone();
                            let mut accounts: Vec<ManagedAccount> = Vec::new();
                            accounts.push(account);
                            Some(
                                ManagedAuthStatus {
                                    provider: auth_provider,
                                    authenticated: true,
                                    default_account_id: Some(id),
                                    migration_error: None,
                                    accounts,
                                },
                            )
                        },
                    };
                    assert(seq![account] =~= seq![account]);
                    (
                        ManagedAuthModel {
                            loading: false,
                            status: new_status,
                            login: None,
                            accounts_idx: 0,
                        },
                        ManagedAuthEffects {
                            notice: Some(ManagedAuthNotice::LoginFinished(login_name)),
                            clear_login_toast: true,
                            clear_cancel_confirm: true,
                            forget_binding_to: None,
                        },
                    )
                },
                Ok(None) => (ManagedAuthModel { loading, status, login, accounts_idx }, none),
                Err(e) => {
                    if !current {
                        return (ManagedAuthModel { loading, status, login, accounts_idx }, none);
                    }
                    (
                        ManagedAuthModel { loading: false, status, login: None, accounts_idx },
                        ManagedAuthEffects {
                            notice: Some(ManagedAuthNotice::LoginFailed(e)),
                            clear_login_toast: true,
                            clear_cancel_confirm: true,
                            forget_binding_to: None,
                        },
                    )
                },
            }
        },
        ManagedAuthMsg::DefaultSet { auth_provider: _, account_id: _, result } => match result {
            Ok(st) => (
                ManagedAuthModel { loading: false, status: Some(st), login, accounts_idx },
                ManagedAuthEffects { notice: Some(ManagedAuthNotice::DefaultUpdated), ..none },
            ),
            Err(e) => (
                ManagedAuthModel { loading: false, status, login, accounts_idx },
                ManagedAuthEffects { notice: Some(ManagedAuthNotice::DefaultFailed(e)), ..none },
            ),
        },
        ManagedAuthMsg::Removed { auth_provider: _, account_id, result } => match result {
            Ok(st) => (
                ManagedAuthModel { loading: false, status: Some(st), login, accounts_idx },
                ManagedAuthEffects {
                    notice: Some(ManagedAuthNotice::AccountRemoved),
                    clear_login_toast: false,
                    clear_cancel_confirm: false,
                    forget_binding_to: Some(account_id),
                },
            ),
            Err(e) => (
                ManagedAuthModel { loading: false, status, login, accounts_idx },
                ManagedAuthEffects { notice: Some(ManagedAuthNotice::RemoveFailed(e)), ..none },
            ),
        },
    }
}

} // verus!
