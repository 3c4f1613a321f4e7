//! WebDAV sync: the Jianguoyun quick setup, recording the last sync error,
//! and coalescing queued sync requests.
use vstd::prelude::*;

use crate::channel::{take_waiting, took_from_channel};
use crate::text::{chars_of, string_of, trim, trim_chars};

verus! {

/// Milliseconds between two ticks of the TUI event loop.
pub const TUI_TICK_RATE_MILLIS: u64 = 200;

pub open spec fn ticks_spec(seconds: u64) -> int {
    let millis: int = if seconds * 1000 > u64::MAX {
        u64::MAX as int
    } else {
        seconds * 1000
    };
    (millis + 199) / 200
}

/// Ticks covering `seconds`, rounded up (the milliseconds saturate).
pub fn seconds_to_tui_ticks(seconds: u64) -> (ticks: u64)
    ensures
        ticks == ticks_spec(seconds),
{
    let millis = if seconds > u64::MAX / 1000 {
        u64::MAX
    } else {
        seconds * 1000
    };
    millis / TUI_TICK_RATE_MILLIS + if millis % TUI_TICK_RATE_MILLIS == 0 {
        0
    } else {
        1
    }
}

/// An error of the application.
#[derive(Debug, Clone, PartialEq, Eq)]
pub enum AppError {
    Message(String),
}

impl AppError {
    /// The text shown for the error.
    pub fn message(&self) -> (s: String)
        ensures
            match self {
                AppError::Message(m) => s@ == m@,
            },
    {
        match self {
            AppError::Message(m) => string_of(&chars_of(m.as_str())),
        }
    }
}

/// State of the last sync.
#[derive(Debug, Clone, PartialEq, Eq)]
pub struct WebDavSyncStatus {
    pub last_error: Option<String>,
}

/// WebDAV sync settings.
#[derive(Debug, Clone, PartialEq, Eq)]
pub struct WebDavSyncSettings {
    pub enabled: bool,
    pub base_url: String,
    pub remote_root: String,
    pub profile: String,
    pub username: String,
    pub password: String,
    pub status: WebDavSyncStatus,
}

impl Default for WebDavSyncSettings {
    fn default() -> (s: Self)
        ensures
            !s.enabled,
            s.base_url@.len() == 0,
            s.remote_root@.len() == 0,
            s.profile@.len() == 0,
            s.username@.len() == 0,
            s.password@.len() == 0,
            s.status.last_error is None,
    {
        WebDavSyncSettings {
            enabled: false,
            base_url: String::new(),
            remote_root: String::new(),
            profile: String::new(),
            username: String::new(),
            password: String::new(),
            status: WebDavSyncStatus { last_error: None },
        }
    }
}

/// The Jianguoyun (Nutstore) preset for the given account.
pub open spec fn preset_ok(cfg: WebDavSyncSettings, username: Seq<char>, password: Seq<char>) -> bool {
    &&& cfg.enabled
    &&& cfg.base_url@ == "https://dav.jianguoyun.com/dav"@
    &&& cfg.remote_root@ == "cc-switch-sync"@
    &&& cfg.profile@ == "default"@
    &&& cfg.username@ == trim(username)
    &&& cfg.password@ == trim(password)
    &&& cfg.status.last_error is None
}

/// Settings that sync with Jianguoyun (Nutstore) using the given account;
/// blanks around the credentials are dropped.
pub fn webdav_jianguoyun_preset(username: &str, password: &str) -> (cfg: WebDavSyncSettings)
    ensures
        preset_ok(cfg, username@, password@),
{
    let u = trim_chars(&chars_of(username));
    let p = trim_chars(&chars_of(password));
    WebDavSyncSettings {
        enabled: true,
        base_url: string_of(&chars_of("https://dav.jianguoyun.com/dav")),
        remote_root: string_of(&chars_of("cc-switch-sync")),
        profile: string_of(&chars_of("default")),
        username: string_of(&u),
        password: string_of(&p),
        status: WebDavSyncStatus { last_error: None },
    }
}

/// `save_settings` may accept a preset for the given account.
pub open spec fn saved_ok<FSave>(save_settings: FSave, username: Seq<char>, password: Seq<char>) -> bool where
    FSave: FnOnce(WebDavSyncSettings) -> Result<(), AppError>,
 {
    exists|cfg: WebDavSyncSettings, res: Result<(), AppError>|
        preset_ok(cfg, username, password) && res is Ok && call_ensures(save_settings, (cfg,), res)
}

/// `check_connection` may succeed.
pub open spec fn checked_ok<FCheck>(check_connection: FCheck) -> bool where
    FCheck: FnOnce() -> Result<(), AppError>,
 {
    exists|res: Result<(), AppError>| res is Ok && call_ensures(check_connection, (), res)
}

/// Saves the Jianguoyun preset with `save_settings`, then checks the
/// connection with `check_connection`; stops at the first error.
pub fn apply_webdav_jianguoyun_quick_setup<FSave, FCheck>(
    username: &str,
    password: &str,
    save_settings: FSave,
    check_connection: FCheck,
) -> (r: Result<(), AppError>) where
    FSave: FnOnce(WebDavSyncSettings) -> Result<(), AppError>,
    FCheck: FnOnce() -> Result<(), AppError>,

    requires
        forall|cfg: WebDavSyncSettings|
            preset_ok(cfg, username@, password@) ==> call_requires(save_settings, (cfg,)),
        forall|cfg: WebDavSyncSettings, res: Result<(), AppError>|
            #![trigger call_ensures(save_settings, (cfg,), res)]
            preset_ok(cfg, username@, password@) && call_ensures(save_settings, (cfg,), res)
                && res is Ok ==> call_requires(check_connection, ()),
    ensures
        r is Ok ==> saved_ok(save_settings, username@, password@) && checked_ok(check_connection),
        r matches Err(e) ==> (exists|cfg: WebDavSyncSettings|
            preset_ok(cfg, username@, password@) && call_ensures(
                save_settings,
                (cfg,),
                Err::<(), AppError>(e),
            )) || (saved_ok(save_settings, username@, password@) && call_ensures(
                check_connection,
                (),
                Err::<(), AppError>(e),
            )),
{
    let cfg = webdav_jianguoyun_preset(username, password);
    let ghost saved = cfg;
    let saved_result = save_settings(cfg);
    if let Err(e) = saved_result {
        assert(preset_ok(saved, username@, password@) && call_ensures(
            save_settings,
            (saved,),
            Err::<(), AppError>(e),
        ));
        return Err(e);
    }
    assert(preset_ok(saved, username@, password@) && call_ensures(
        save_settings,
        (saved,),
        saved_result,
    ));
    let checked = check_connection();
    if let Err(e) = checked {
        assert(call_ensures(check_connection, (), Err::<(), AppError>(e)));
        return Err(e);
    }
    assert(call_ensures(check_connection, (), checked));
    Ok(())
}

pub open spec fn with_last_error(cfg: WebDavSyncSettings, last_error: Option<String>) -> WebDavSyncSettings {
    WebDavSyncSettings { status: WebDavSyncStatus { last_error: last_error }, ..cfg }
}

/// Records `last_error` in the saved settings: reads them with `get` and, if
/// there are any, saves them back with `set`. Returns what `set` answered
/// (`None` when there were no settings); callers may ignore a failed save.
pub fn update_webdav_last_error_with<FGet, FSet>(last_error: Option<String>, get: FGet, set: FSet) -> (r:
    Option<Result<(), AppError>>) where
    FGet: FnOnce() -> Option<WebDavSyncSettings>,
    FSet: FnOnce(WebDavSyncSettings) -> Result<(), AppError>,

    requires
        call_requires(get, ()),
        forall|cfg: WebDavSyncSettings|
            call_ensures(get, (), Some(cfg)) ==> call_requires(set, (with_last_error(cfg, last_error),)),
    ensures
        match r {
            None => call_ensures(get, (), None::<WebDavSyncSettings>),
            Some(saved) => exists|cfg: WebDavSyncSettings|
                call_ensures(get, (), Some(cfg)) && call_ensures(
                    set,
                    (with_last_error(cfg, last_error),),
                    saved,
                ),
        },
{
    let current = get();
    match current {
        None => None,
        Some(mut cfg) => {
            let ghost before = cfg;
            cfg.status.last_error = last_error;
            assert(cfg == with_last_error(before, last_error));
            let saved = set(cfg);
            assert(call_ensures(get, (), Some(before)));
            Some(saved)
        },
    }
}

/// What a queued WebDAV request asks for.
#[derive(Debug, Clone, PartialEq, Eq)]
pub enum WebDavReqKind {
    CheckConnection,
    Upload,
    Download,
    MigrateV1ToV2,
    JianguoyunQuickSetup { username: String, password: String },
}

/// A queued WebDAV request.
#[derive(Debug, Clone, PartialEq, Eq)]
pub struct WebDavReq {
    pub request_id: u64,
    pub kind: WebDavReqKind,
}

/// The request to serve after a backlog: the last one queued, `req` itself
/// when nothing else was waiting.
pub fn latest_webdav_req(req: WebDavReq, pending: Vec<WebDavReq>) -> (out: WebDavReq)
    ensures
        out == if pending@.len() == 0 {
            req
        } else {
            pending@.last()
        },
{
    let mut pending = pending;
    match pending.pop() {
        Some(last) => last,
        None => req,
    }
}

/// The request served after `req` waited with `pending` queued behind it.
pub open spec fn latest_of(req: WebDavReq, pending: Seq<WebDavReq>) -> WebDavReq {
    if pending.len() == 0 {
        req
    } else {
        pending.last()
    }
}

/// The request a drain serves is the newest one it saw: `req` when nothing
/// was taken from the channel, else the last request taken; it is always
/// one of them.
pub proof fn law_webdav_drain_serves_newest(req: WebDavReq, received: Seq<WebDavReq>)
    ensures
        received.len() == 0 ==> (seq![req] + received).last() == req,
        received.len() > 0 ==> (seq![req] + received).last() == received[received.len() - 1],
        (seq![req] + received).contains((seq![req] + received).last()),
        (seq![req] + received).last() == latest_of(req, received),
{
    let all = seq![req] + received;
    assert(all[all.len() - 1] == all.last());
}

/// Draining twice is draining once: serving what came in two batches, the
/// second drain starting from what the first served, gives what one drain
/// of both batches gives.
pub proof fn law_webdav_drain_batches(req: WebDavReq, first: Seq<WebDavReq>, second: Seq<WebDavReq>)
    ensures
        (seq![(seq![req] + first).last()] + second).last() == (seq![req] + (first + second)).last(),
{
    if second.len() == 0 {
        assert(first + second =~= first);
    } else {
        assert((first + second).last() == second.last());
    }
}

/// Drops requests superseded while `req` waited: returns the last request
/// queued on `rx`, or `req` when none is waiting. Which requests were
/// waiting depends on the senders; whatever `waiting_messages` took off the
/// channel, the outcome is the newest of `req` and those messages.
pub fn drain_latest_webdav_req(req: WebDavReq, rx: &std::sync::mpsc::Receiver<WebDavReq>) -> (out:
    WebDavReq)
    ensures
        exists|received: Vec<WebDavReq>|
            took_from_channel(rx, received) && out == (seq![req] + received@).last(),
{
    let pending = take_waiting(rx);
    let ghost received = pending;
    let out = latest_webdav_req(req, pending);
    assert(out == (seq![req] + received@).last());
    out
}

/// What the sync service decided to do.
#[derive(Debug, Clone, Copy, PartialEq, Eq, Structural)]
pub enum SyncDecision {
    Upload,
    Download,
    /// The remote data is in the old layout and must be migrated first.
    V1MigrationNeeded,
    /// Any other decision (nothing to transfer, or a conflict explained in
    /// the accompanying message).
    Other,
}

/// A WebDAV request that succeeded.
#[derive(Debug, PartialEq, Eq)]
pub enum WebDavDone {
    ConnectionChecked,
    Uploaded { decision: SyncDecision, message: String },
    Downloaded { decision: SyncDecision, message: String },
    V1Migrated { message: String },
    JianguoyunConfigured,
}

/// Why a WebDAV request failed.
#[derive(Debug, PartialEq, Eq)]
pub enum WebDavErr {
    Generic(String),
    QuickSetupSave(String),
    QuickSetupCheck(String),
}

/// Which cached data a handled message makes stale.
#[derive(Debug, Clone, Copy, PartialEq, Eq, Structural)]
pub enum CacheInvalidation {
    /// Nothing changed.
    Unchanged,
    DataReloaded,
    AppStateRecreated,
}

/// The action named in a failure message.
#[derive(Debug, Clone, Copy, PartialEq, Eq, Structural)]
pub enum WebDavAction {
    CheckConnection,
    Upload,
    Download,
    V1Migration,
    QuickSetup,
}

/// A message for the user about a finished request (its wording is the
/// interface's); failures are shown as errors, the rest as successes.
#[derive(Debug, PartialEq, Eq)]
pub enum WebDavNotice {
    ConnectionOk,
    UploadOk,
    DownloadOk,
    /// The sync service's own message.
    Message(String),
    V1MigrationOk,
    JianguoyunConfigured,
    ActionFailed { action: WebDavAction, detail: String },
    QuickSetupFailed(String),
}

/// What the interface does with a finished WebDAV request.
#[derive(Debug, PartialEq, Eq)]
pub struct WebDavMsgPlan {
    /// Close the WebDAV loading overlay.
    pub close_loading_overlay: bool,
    /// Record this last error (`Some(None)` clears it) in the saved settings.
    pub record_last_error: Option<Option<String>>,
    /// Ask whether to migrate the old remote layout.
    pub confirm_v1_migration: bool,
    /// Write the current provider back to the live config.
    pub sync_live_config: bool,
    pub notice: Option<WebDavNotice>,
    /// Reload the page data.
    pub reload_data: bool,
    pub invalidation: CacheInvalidation,
}

/// The text of a failure.
pub open spec fn err_detail(err: WebDavErr) -> String {
    match err {
        WebDavErr::Generic(e) => e,
        WebDavErr::QuickSetupSave(e) => e,
        WebDavErr::QuickSetupCheck(e) => e,
    }
}

/// The failure message for request `req`.
pub open spec fn failure_notice(req: WebDavReqKind, err: WebDavErr) -> WebDavNotice {
    match req {
        WebDavReqKind::CheckConnection => WebDavNotice::ActionFailed {
            action: WebDavAction::CheckConnection,
            detail: err_detail(err),
        },
        WebDavReqKind::Upload => WebDavNotice::ActionFailed {
            action: WebDavAction::Upload,
            detail: err_detail(err),
        },
        WebDavReqKind::Download => WebDavNotice::ActionFailed {
            action: WebDavAction::Download,
            detail: err_detail(err),
        },
        WebDavReqKind::MigrateV1ToV2 => WebDavNotice::ActionFailed {
            action: WebDavAction::V1Migration,
            detail: err_detail(err),
        },
        WebDavReqKind::JianguoyunQuickSetup { .. } => match err {
            WebDavErr::QuickSetupCheck(e) => WebDavNotice::QuickSetupFailed(e),
            _ => WebDavNotice::ActionFailed { action: WebDavAction::QuickSetup, detail: err_detail(err) },
        },
    }
}

pub open spec fn plan(
    close: bool,
    record: Option<Option<String>>,
    confirm: bool,
    sync: bool,
    notice: Option<WebDavNotice>,
    invalidation: CacheInvalidation,
) -> WebDavMsgPlan {
    WebDavMsgPlan {
        close_loading_overlay: close,
        record_last_error: record,
        confirm_v1_migration: confirm,
        sync_live_config: sync,
        notice: notice,
        reload_data: true,
        invalidation: invalidation,
    }
}

/// How a finished request is handled. A stale answer (of a request that
/// was superseded) changes nothing. Otherwise the loading overlay closes if
/// this request was the active one and the overlay shows it, the page data
/// is reloaded, and:
/// - a success clears the recorded error after a connection check, asks
///   about migrating when a download found the old layout, writes the live
///   config back after a download or migration, and says what happened;
/// - a failure records its text as the last error and says which action
///   failed.
pub open spec fn webdav_msg_plan_spec(
    stale: bool,
    finished_active: bool,
    overlay_is_loading: bool,
    req: WebDavReqKind,
    result: Result<WebDavDone, WebDavErr>,
) -> WebDavMsgPlan {
    let close = finished_active && overlay_is_loading;
    if stale {
        WebDavMsgPlan {
            close_loading_overlay: false,
            record_last_error: None,
            confirm_v1_migration: false,
            sync_live_config: false,
            notice: None,
            reload_data: false,
            invalidation: CacheInvalidation::Unchanged,
        }
    } else {
        match result {
            Ok(done) => match done {
                WebDavDone::ConnectionChecked => plan(
                    close,
                    Some(None),
                    false,
                    false,
                    Some(WebDavNotice::ConnectionOk),
                    CacheInvalidation::DataReloaded,
                ),
                WebDavDone::Uploaded { decision, message } => plan(
                    close,
                    None,
                    false,
                    false,
                    Some(
                        if decision == SyncDecision::Upload {
                            WebDavNotice::UploadOk
                        } else {
                            WebDavNotice::Message(message)
                        },
                    ),
                    CacheInvalidation::DataReloaded,
                ),
                WebDavDone::Downloaded { decision, message } => if decision
                    == SyncDecision::V1MigrationNeeded {
                    plan(close, None, true, false, None, CacheInvalidation::DataReloaded)
                } else {
                    plan(
                        close,
                        None,
                        false,
                        true,
                        Some(
                            if decision == SyncDecision::Download {
                                WebDavNotice::DownloadOk
                            } else {
                                WebDavNotice::Message(message)
                            },
                        ),
                        CacheInvalidation::AppStateRecreated,
                    )
                },
                WebDavDone::V1Migrated { message: _ } => plan(
                    close,
                    None,
                    false,
                    true,
                    Some(WebDavNotice::V1MigrationOk),
                    CacheInvalidation::AppStateRecreated,
                ),
                WebDavDone::JianguoyunConfigured => plan(
                    close,
                    None,
                    false,
                    false,
                    Some(WebDavNotice::JianguoyunConfigured),
                    CacheInvalidation::DataReloaded,
                ),
            },
            Err(err) => plan(
                close,
                Some(Some(err_detail(err))),
                false,
                false,
                Some(failure_notice(req, err)),
                CacheInvalidation::DataReloaded,
            ),
        }
    }
}

/// Decides how to handle a finished WebDAV request (see
/// `webdav_msg_plan_spec`). `stale` is the loading tracker's answer for the
/// request; `finished_active` is its answer when asked to finish the request
/// (asked only for a request that is not stale); `overlay_is_loading` tells
/// whether the WebDAV loading overlay is up.
pub fn webdav_msg_step(
    stale: bool,
    finished_active: bool,
    overlay_is_loading: bool,
    req: WebDavReqKind,
    result: Result<WebDavDone, WebDavErr>,
) -> (out: WebDavMsgPlan)
    ensures
        out == webdav_msg_plan_spec(stale, finished_active, overlay_is_loading, req, result),
{
    if stale {
        return WebDavMsgPlan {
            close_loading_overlay: false,
            record_last_error: None,
            confirm_v1_migration: false,
            sync_live_config: false,
            notice: None,
            reload_data: false,
            invalidation: CacheInvalidation::Unchanged,
        };
    }
    let close = finished_active && overlay_is_loading;
    match result {
        Ok(done) => {
            let (record, confirm, sync, notice, invalidation) = match done {
                WebDavDone::ConnectionChecked => (
                    Some(None),
                    false,
                    false,
                    Some(WebDavNotice::ConnectionOk),
                    CacheInvalidation::DataReloaded,
                ),
                WebDavDone::Uploaded { decision, message } => (
                    None,
                    false,
                    false,
                    Some(
                        match decision {
                            SyncDecision::Upload => WebDavNotice::UploadOk,
                            _ => WebDavNotice::Message(message),
                        },
                    ),
                    CacheInvalidation::DataReloaded,
                ),
                WebDavDone::Downloaded { decision, message } => match decision {
                    SyncDecision::V1MigrationNeeded => (
                        None,
                        true,
                        false,
                        None,
                        CacheInvalidation::DataReloaded,
                    ),
                    SyncDecision::Download => (
                        None,
                        false,
                        true,
                        Some(WebDavNotice::DownloadOk),
                        CacheInvalidation::AppStateRecreated,
                    ),
                    _ => (
                        None,
                        false,
                        true,
                        Some(WebDavNotice::Message(message)),
                        CacheInvalidation::AppStateRecreated,
                    ),
                },
                WebDavDone::V1Migrated { message: _ } => (
                    None,
                    false,
                    true,
                    Some(WebDavNotice::V1MigrationOk),
                    CacheInvalidation::AppStateRecreated,
                ),
                WebDavDone::JianguoyunConfigured => (
                    None,
                    false,
                    false,
                    Some(WebDavNotice::JianguoyunConfigured),
                    CacheInvalidation::DataReloaded,
                ),
            };
            WebDavMsgPlan {
                close_loading_overlay: close,
                record_last_error: record,
                confirm_v1_migration: confirm,
                sync_live_config: sync,
                notice,
                reload_data: true,
                invalidation,
            }
        },
        Err(err) => {
            let detail = match &err {
                WebDavErr::Generic(e) => e.clone(),
                WebDavErr::QuickSetupSave(e) => e.clone(),
                WebDavErr::QuickSetupCheck(e) => e.clone(),
            };
            let notice = match req {
                WebDavReqKind::CheckConnection => WebDavNotice::ActionFailed {
                    action: WebDavAction::CheckConnection,
                    detail: detail.clone(),
                },
                WebDavReqKind::Upload => WebDavNotice::ActionFailed {
                    action: WebDavAction::Upload,
                    detail: detail.clone(),
                },
                WebDavReqKind::Download => WebDavNotice::ActionFailed {
                    action: WebDavAction::Download,
                    detail: detail.clone(),
                },
                WebDavReqKind::MigrateV1ToV2 => WebDavNotice::ActionFailed {
                    action: WebDavAction::V1Migration,
                    detail: detail.clone(),
                },
                WebDavReqKind::JianguoyunQuickSetup { .. } => match err {
                    WebDavErr::QuickSetupCheck(e) => WebDavNotice::QuickSetupFailed(e),
                    _ => WebDavNotice::ActionFailed {
                        action: WebDavAction::QuickSetup,
                        detail: detail.clone(),
                    },
                },
            };
            WebDavMsgPlan {
                close_loading_overlay: close,
                record_last_error: Some(Some(detail)),
                confirm_v1_migration: false,
                sync_live_config: false,
                notice: Some(notice),
                reload_data: true,
                invalidation: CacheInvalidation::DataReloaded,
            }
        },
    }
}

} // verus!
