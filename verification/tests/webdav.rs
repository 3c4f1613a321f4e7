use std::sync::mpsc;

use cc_switch_tui::webdav::{
    apply_webdav_jianguoyun_quick_setup, drain_latest_webdav_req, latest_webdav_req,
    seconds_to_tui_ticks, update_webdav_last_error_with, webdav_jianguoyun_preset, AppError,
    WebDavReq, WebDavReqKind, WebDavSyncSettings, TUI_TICK_RATE_MILLIS,
};

#[test]
fn tui_tick_rate_returns_to_200ms() {
    assert_eq!(
        std::time::Duration::from_millis(TUI_TICK_RATE_MILLIS),
        std::time::Duration::from_millis(200)
    );
}

#[test]
fn quick_setup_helper_saves_preset_and_runs_connection_check() {
    let mut captured = None;
    let mut checked = false;

    apply_webdav_jianguoyun_quick_setup(
        " demo@nutstore.com ",
        " app-password ",
        |cfg| {
            captured = Some(cfg);
            Ok(())
        },
        || {
            checked = true;
            Ok(())
        },
    )
    .expect("quick setup helper should succeed");

    let saved = captured.expect("settings should be saved");
    assert!(saved.enabled);
    assert_eq!(saved.base_url, "https://dav.jianguoyun.com/dav");
    assert_eq!(saved.remote_root, "cc-switch-sync");
    assert_eq!(saved.profile, "default");
    assert_eq!(saved.username, "demo@nutstore.com");
    assert_eq!(saved.password, "app-password");
    assert!(checked, "connection check should be called");
}

#[test]
fn quick_setup_helper_stops_when_save_fails() {
    let mut checked = false;
    let err = apply_webdav_jianguoyun_quick_setup(
        "u",
        "p",
        |_cfg| Err(AppError::Message("save failed".to_string())),
        || {
            checked = true;
            Ok(())
        },
    )
    .expect_err("save failure should be returned");

    assert!(err.message().contains("save failed"));
    assert!(!checked, "connection check should not run when save fails");
}

#[test]
fn quick_setup_helper_returns_connection_check_error() {
    let mut saved = false;
    let err = apply_webdav_jianguoyun_quick_setup(
        "u",
        "p",
        |_cfg| {
            saved = true;
            Ok(())
        },
        || Err(AppError::Message("unreachable".to_string())),
    )
    .expect_err("check failure should be returned");
    assert!(saved);
    assert_eq!(err, AppError::Message("unreachable".to_string()));
}

#[test]
fn drain_latest_webdav_req_prefers_last_enqueued_request() {
    let (tx, rx) = mpsc::channel();
    tx.send(WebDavReq {
        request_id: 1,
        kind: WebDavReqKind::CheckConnection,
    })
    .expect("send check request");
    tx.send(WebDavReq {
        request_id: 2,
        kind: WebDavReqKind::Upload,
    })
    .expect("send upload request");
    tx.send(WebDavReq {
        request_id: 3,
        kind: WebDavReqKind::JianguoyunQuickSetup {
            username: "u@example.com".to_string(),
            password: "p".to_string(),
        },
    })
    .expect("send quick setup request");

    let first = rx.recv().expect("receive first request");
    let latest = drain_latest_webdav_req(first, &rx);
    assert!(matches!(
        latest,
        WebDavReq {
            request_id: 3,
            kind: WebDavReqKind::JianguoyunQuickSetup { username, password }
        }
            if username == "u@example.com" && password == "p"
    ));
}

#[test]
fn drain_latest_webdav_req_keeps_request_when_queue_is_empty() {
    let (_tx, rx) = mpsc::channel::<WebDavReq>();
    let req = WebDavReq {
        request_id: 7,
        kind: WebDavReqKind::Download,
    };
    assert_eq!(drain_latest_webdav_req(req.clone(), &rx), req);
}

#[test]
fn latest_webdav_req_picks_last_pending() {
    let first = WebDavReq {
        request_id: 1,
        kind: WebDavReqKind::Upload,
    };
    let pending = vec![
        WebDavReq {
            request_id: 2,
            kind: WebDavReqKind::MigrateV1ToV2,
        },
        WebDavReq {
            request_id: 3,
            kind: WebDavReqKind::Download,
        },
    ];
    assert_eq!(latest_webdav_req(first.clone(), pending).request_id, 3);
    assert_eq!(latest_webdav_req(first.clone(), Vec::new()), first);
}

#[test]
fn update_webdav_last_error_with_updates_status_when_present() {
    let mut captured = None;
    update_webdav_last_error_with(
        Some("network timeout".to_string()),
        || Some(WebDavSyncSettings::default()),
        |cfg| {
            captured = Some(cfg);
            Ok(())
        },
    );

    let saved = captured.expect("expected settings to be saved");
    assert_eq!(saved.status.last_error.as_deref(), Some("network timeout"));
}

#[test]
fn update_webdav_last_error_with_skips_when_settings_absent() {
    let mut saved = false;
    update_webdav_last_error_with(
        Some("network timeout".to_string()),
        || None,
        |_cfg| {
            saved = true;
            Ok(())
        },
    );
    assert!(
        !saved,
        "set callback should not run when webdav settings are missing"
    );
}

#[test]
fn update_webdav_last_error_with_clears_error_and_keeps_other_fields() {
    let mut captured = None;
    let mut current = webdav_jianguoyun_preset("a", "b");
    current.status.last_error = Some("old".to_string());
    update_webdav_last_error_with(
        None,
        move || Some(current),
        |cfg| {
            captured = Some(cfg);
            Err(AppError::Message("ignored".to_string()))
        },
    );
    let saved = captured.expect("settings saved");
    assert_eq!(saved.status.last_error, None);
    assert_eq!(saved.username, "a");
    assert!(saved.enabled);
}

#[test]
fn jianguoyun_preset_trims_credentials() {
    let cfg = webdav_jianguoyun_preset("\t user \n", "  secret  ");
    assert_eq!(cfg.username, "user");
    assert_eq!(cfg.password, "secret");
    assert_eq!(cfg.status.last_error, None);
}

#[test]
fn default_webdav_settings_are_disabled_and_empty() {
    let cfg = WebDavSyncSettings::default();
    assert!(!cfg.enabled);
    assert!(cfg.base_url.is_empty());
    assert!(cfg.status.last_error.is_none());
}

#[test]
fn seconds_to_tui_ticks_rounds_up() {
    assert_eq!(seconds_to_tui_ticks(0), 0);
    assert_eq!(seconds_to_tui_ticks(1), 5);
    assert_eq!(seconds_to_tui_ticks(3), 15);
    assert_eq!(seconds_to_tui_ticks(u64::MAX), u64::MAX / 200 + 1);
}
