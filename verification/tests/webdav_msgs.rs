use cc_switch_tui::webdav::{
    webdav_msg_step, CacheInvalidation, SyncDecision, WebDavAction, WebDavDone, WebDavErr,
    WebDavNotice, WebDavReqKind,
};

#[test]
fn stale_webdav_answers_change_nothing() {
    let plan = webdav_msg_step(true, true, true, WebDavReqKind::Upload, Ok(WebDavDone::ConnectionChecked));
    assert!(!plan.close_loading_overlay);
    assert!(!plan.reload_data);
    assert_eq!(plan.notice, None);
    assert_eq!(plan.record_last_error, None);
    assert_eq!(plan.invalidation, CacheInvalidation::Unchanged);
}

#[test]
fn connection_check_clears_the_last_error() {
    let plan = webdav_msg_step(
        false,
        true,
        true,
        WebDavReqKind::CheckConnection,
        Ok(WebDavDone::ConnectionChecked),
    );
    assert!(plan.close_loading_overlay);
    assert_eq!(plan.record_last_error, Some(None));
    assert_eq!(plan.notice, Some(WebDavNotice::ConnectionOk));
    assert_eq!(plan.invalidation, CacheInvalidation::DataReloaded);
    assert!(plan.reload_data);
}

#[test]
fn downloads_recreate_state_or_ask_to_migrate() {
    let done = |decision| WebDavDone::Downloaded { decision, message: "m".to_string() };
    let plan = webdav_msg_step(false, false, true, WebDavReqKind::Download, Ok(done(SyncDecision::Download)));
    assert!(!plan.close_loading_overlay);
    assert!(plan.sync_live_config);
    assert_eq!(plan.notice, Some(WebDavNotice::DownloadOk));
    assert_eq!(plan.invalidation, CacheInvalidation::AppStateRecreated);
    let plan = webdav_msg_step(
        false,
        true,
        true,
        WebDavReqKind::Download,
        Ok(done(SyncDecision::V1MigrationNeeded)),
    );
    assert!(plan.confirm_v1_migration);
    assert!(!plan.sync_live_config);
    assert_eq!(plan.notice, None);
    assert_eq!(plan.invalidation, CacheInvalidation::DataReloaded);
    let plan = webdav_msg_step(false, true, true, WebDavReqKind::Download, Ok(done(SyncDecision::Other)));
    assert_eq!(plan.notice, Some(WebDavNotice::Message("m".to_string())));
}

#[test]
fn failures_record_the_error_and_name_the_action() {
    let plan = webdav_msg_step(
        false,
        true,
        false,
        WebDavReqKind::Upload,
        Err(WebDavErr::Generic("timeout".to_string())),
    );
    assert!(!plan.close_loading_overlay);
    assert_eq!(plan.record_last_error, Some(Some("timeout".to_string())));
    assert_eq!(
        plan.notice,
        Some(WebDavNotice::ActionFailed { action: WebDavAction::Upload, detail: "timeout".to_string() })
    );
    let quick = WebDavReqKind::JianguoyunQuickSetup { username: "u".to_string(), password: "p".to_string() };
    let plan = webdav_msg_step(false, true, true, quick, Err(WebDavErr::QuickSetupCheck("401".to_string())));
    assert_eq!(plan.notice, Some(WebDavNotice::QuickSetupFailed("401".to_string())));
    assert_eq!(plan.record_last_error, Some(Some("401".to_string())));
}
