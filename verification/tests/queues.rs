use std::collections::VecDeque;
use std::sync::atomic::{AtomicBool, Ordering};
use std::sync::{mpsc, Arc};

use cc_switch_tui::queues::{
    app_data_req_key, coalesce_by_key, coalesce_session_reqs, drain_latest_by_key,
    drain_session_reqs, usage_pricing_custom_state_snapshot, usage_pricing_req_is_custom,
    usage_pricing_req_key, usage_pricing_req_matches_app, usage_pricing_req_request_id,
    AppDataLoadKind, AppDataReq, SessionReq, UsageCustomRange, UsagePricingCustomState,
    UsagePricingReq, UsagePricingReqRangeKey, UsageRangePreset,
};
use cc_switch_tui::theme::AppType;

fn delete_req(request_id: u64, key: &str) -> SessionReq {
    SessionReq::Delete {
        request_id,
        key: key.to_string(),
        provider_id: "codex".to_string(),
        session_id: key.to_string(),
        source_path: format!("/tmp/{key}.jsonl"),
    }
}

fn load(request_id: u64, app_type: AppType, range: UsageRangePreset) -> UsagePricingReq {
    UsagePricingReq::Load {
        request_id,
        generation: 0,
        app_state_epoch: 0,
        app_type,
        range,
    }
}

#[test]
fn session_req_drain_never_coalesces_deletes() {
    let (tx, rx) = mpsc::channel();
    tx.send(delete_req(2, "beta")).expect("queue beta delete");
    tx.send(delete_req(3, "gamma")).expect("queue gamma delete");
    drop(tx);

    let drained = drain_session_reqs(delete_req(1, "alpha"), &rx);

    let keys = drained
        .into_iter()
        .map(|req| match req {
            SessionReq::Delete { key, .. } => key,
            _ => panic!("expected delete request"),
        })
        .collect::<Vec<_>>();
    assert_eq!(keys, vec!["alpha", "beta", "gamma"]);
}

#[test]
fn session_req_drain_keeps_only_latest_refresh() {
    let (tx, rx) = mpsc::channel();
    tx.send(SessionReq::Refresh {
        request_id: 2,
        provider_id: "codex".to_string(),
    })
    .expect("queue refresh");
    drop(tx);

    let drained = drain_session_reqs(
        SessionReq::Refresh {
            request_id: 1,
            provider_id: "codex".to_string(),
        },
        &rx,
    );

    assert_eq!(drained.len(), 1);
    assert!(matches!(
        drained[0],
        SessionReq::Refresh { request_id: 2, .. }
    ));
}

#[test]
fn session_reqs_collapse_only_adjacent_runs() {
    let refresh = |id| SessionReq::Refresh {
        request_id: id,
        provider_id: "p".to_string(),
    };
    let loadm = |id| SessionReq::LoadMessages {
        request_id: id,
        key: "k".to_string(),
        provider_id: "p".to_string(),
        source_path: "/s".to_string(),
    };
    let out = coalesce_session_reqs(
        refresh(1),
        vec![refresh(2), loadm(3), loadm(4), refresh(5), delete_req(6, "d")],
    );
    let ids: Vec<u64> = out
        .iter()
        .map(|r| match r {
            SessionReq::Refresh { request_id, .. }
            | SessionReq::LoadMessages { request_id, .. }
            | SessionReq::Delete { request_id, .. } => *request_id,
        })
        .collect();
    assert_eq!(ids, vec![2, 4, 5, 6]);
}

#[test]
fn usage_pricing_drain_keeps_latest_request_per_app() {
    let (tx, rx) = mpsc::channel();
    tx.send(load(2, AppType::Claude, UsageRangePreset::SevenDays))
        .expect("queue newer request");
    tx.send(load(3, AppType::Codex, UsageRangePreset::SevenDays))
        .expect("queue codex request");
    drop(tx);

    let mut backlog = VecDeque::from([load(1, AppType::Claude, UsageRangePreset::SevenDays)]);
    let mut deferred = VecDeque::new();
    drain_latest_by_key(&mut backlog, &mut deferred, &rx, usage_pricing_req_key);

    let mut drained = backlog
        .into_iter()
        .map(|req| match req {
            UsagePricingReq::Load {
                request_id,
                app_type,
                ..
            } => (app_type, request_id),
            UsagePricingReq::DropState { .. } => panic!("unexpected DropState in backlog"),
        })
        .collect::<Vec<_>>();
    drained.sort_by_key(|(_, request_id)| *request_id);

    assert_eq!(drained, vec![(AppType::Claude, 2), (AppType::Codex, 3)]);
    assert!(deferred.is_empty());
}

#[test]
fn drain_latest_by_app_preserves_drop_state_as_barrier() {
    let (tx, rx) = mpsc::channel();
    tx.send(load(2, AppType::Claude, UsageRangePreset::SevenDays))
        .expect("queue newer request before barrier");
    let (ack_tx, _ack_rx) = mpsc::channel();
    tx.send(UsagePricingReq::DropState { ack: ack_tx })
        .expect("queue drop-state barrier");
    tx.send(load(3, AppType::Claude, UsageRangePreset::SevenDays))
        .expect("queue request after barrier");
    drop(tx);

    let mut backlog = VecDeque::from([load(1, AppType::Claude, UsageRangePreset::SevenDays)]);
    let mut deferred = VecDeque::new();

    drain_latest_by_key(&mut backlog, &mut deferred, &rx, usage_pricing_req_key);

    let next = backlog.pop_front().expect("latest request before barrier");
    assert!(matches!(
        next,
        UsagePricingReq::Load {
            request_id: 2,
            app_type: AppType::Claude,
            ..
        }
    ));
    assert!(backlog.is_empty());

    assert!(matches!(
        deferred.pop_front(),
        Some(UsagePricingReq::DropState { .. })
    ));
    assert!(matches!(
        deferred.pop_front(),
        Some(UsagePricingReq::Load {
            request_id: 3,
            app_type: AppType::Claude,
            ..
        })
    ));
    assert!(deferred.is_empty());
}

#[test]
fn usage_pricing_drain_keeps_distinct_ranges_for_same_app() {
    let custom = UsageRangePreset::Custom(UsageCustomRange {
        start: 1_700_000_000,
        end: 1_700_086_399,
    });
    let (tx, rx) = mpsc::channel();
    tx.send(load(2, AppType::Claude, custom))
        .expect("queue custom request");
    drop(tx);

    let mut backlog = VecDeque::from([load(1, AppType::Claude, UsageRangePreset::SevenDays)]);
    let mut deferred = VecDeque::new();

    drain_latest_by_key(&mut backlog, &mut deferred, &rx, usage_pricing_req_key);

    let mut drained = backlog
        .into_iter()
        .map(|req| match req {
            UsagePricingReq::Load {
                request_id, range, ..
            } => (range, request_id),
            UsagePricingReq::DropState { .. } => panic!("unexpected DropState in backlog"),
        })
        .collect::<Vec<_>>();
    drained.sort_by_key(|(_, request_id)| *request_id);

    assert_eq!(drained, vec![(UsageRangePreset::SevenDays, 1), (custom, 2)]);
    assert!(deferred.is_empty());
}

#[test]
fn usage_pricing_drain_keeps_only_latest_custom_range_per_app() {
    let older_custom = UsageRangePreset::Custom(UsageCustomRange {
        start: 1_700_000_000,
        end: 1_700_086_399,
    });
    let newer_custom = UsageRangePreset::Custom(UsageCustomRange {
        start: 1_700_086_400,
        end: 1_700_172_799,
    });
    let (tx, rx) = mpsc::channel();
    tx.send(load(2, AppType::Claude, newer_custom))
        .expect("queue newer custom request");
    drop(tx);

    let mut backlog = VecDeque::from([load(1, AppType::Claude, older_custom)]);
    let mut deferred = VecDeque::new();

    drain_latest_by_key(&mut backlog, &mut deferred, &rx, usage_pricing_req_key);

    let drained = backlog
        .into_iter()
        .map(|req| match req {
            UsagePricingReq::Load {
                request_id, range, ..
            } => (range, request_id),
            UsagePricingReq::DropState { .. } => panic!("unexpected DropState in backlog"),
        })
        .collect::<Vec<_>>();

    assert_eq!(drained, vec![(newer_custom, 2)]);
    assert!(deferred.is_empty());
}

#[test]
fn app_data_drain_keeps_initial_and_snapshot_loads_distinct() {
    let (tx, rx) = mpsc::channel();
    tx.send(AppDataReq::Load {
        request_id: 2,
        generation: 0,
        app_state_epoch: 0,
        app_type: AppType::Claude,
    })
    .expect("queue snapshot request");
    drop(tx);

    let mut backlog = VecDeque::from([AppDataReq::InitialLoad {
        request_id: 1,
        generation: 0,
        app_state_epoch: 0,
        app_type: AppType::Claude,
        extras: Vec::new(),
    }]);
    let mut deferred = VecDeque::new();

    drain_latest_by_key(&mut backlog, &mut deferred, &rx, app_data_req_key);

    let mut drained = backlog
        .into_iter()
        .map(|req| match req {
            AppDataReq::InitialLoad { request_id, .. } => (AppDataLoadKind::Initial, request_id),
            AppDataReq::Load { request_id, .. } => (AppDataLoadKind::Snapshot, request_id),
            AppDataReq::FullLoad { request_id, .. } => (AppDataLoadKind::Full, request_id),
            AppDataReq::DropState { .. } => panic!("unexpected DropState in backlog"),
        })
        .collect::<Vec<_>>();
    drained.sort_by_key(|(_, request_id)| *request_id);

    assert_eq!(
        drained,
        vec![
            (AppDataLoadKind::Initial, 1),
            (AppDataLoadKind::Snapshot, 2)
        ]
    );
    assert!(deferred.is_empty());
}

#[test]
fn coalesce_by_key_keeps_first_appearance_order_and_old_deferred() {
    let (ack_tx, _ack_rx) = mpsc::channel();
    let mut backlog = VecDeque::from([
        load(1, AppType::Codex, UsageRangePreset::Today),
        load(2, AppType::Gemini, UsageRangePreset::Today),
        load(3, AppType::Codex, UsageRangePreset::Today),
    ]);
    let mut deferred = VecDeque::from([UsagePricingReq::DropState { ack: ack_tx }]);
    coalesce_by_key(
        &mut backlog,
        &mut deferred,
        vec![load(4, AppType::Gemini, UsageRangePreset::Today)],
        usage_pricing_req_key,
    );
    let ids: Vec<Option<u64>> = backlog.iter().map(usage_pricing_req_request_id).collect();
    assert_eq!(ids, vec![Some(3), Some(2)]);
    let deferred_ids: Vec<Option<u64>> = deferred.iter().map(usage_pricing_req_request_id).collect();
    assert_eq!(deferred_ids, vec![None, Some(4)]);
}

#[test]
fn usage_request_helpers() {
    let custom = UsageRangePreset::Custom(UsageCustomRange { start: 1, end: 2 });
    assert_eq!(
        usage_pricing_req_key(&load(1, AppType::Codex, custom)),
        Some((AppType::Codex, UsagePricingReqRangeKey::Custom))
    );
    assert_eq!(
        usage_pricing_req_key(&load(1, AppType::Codex, UsageRangePreset::Today)),
        Some((AppType::Codex, UsagePricingReqRangeKey::Fixed(UsageRangePreset::Today)))
    );
    assert!(usage_pricing_req_is_custom(&load(1, AppType::Codex, custom)));
    assert!(!usage_pricing_req_is_custom(&load(1, AppType::Codex, UsageRangePreset::SevenDays)));
    assert!(usage_pricing_req_matches_app(&load(1, AppType::Codex, custom), &AppType::Codex));
    assert!(!usage_pricing_req_matches_app(&load(1, AppType::Codex, custom), &AppType::Gemini));
    let (ack_tx, _ack_rx) = mpsc::channel();
    let drop_req = UsagePricingReq::DropState { ack: ack_tx };
    assert_eq!(usage_pricing_req_key(&drop_req), None);
    assert_eq!(usage_pricing_req_request_id(&drop_req), None);
    assert!(!usage_pricing_req_matches_app(&drop_req, &AppType::Codex));
}

#[test]
fn usage_pricing_custom_state_runs_one_and_keeps_latest_pending() {
    let older_custom = UsageRangePreset::Custom(UsageCustomRange {
        start: 1_700_000_000,
        end: 1_700_086_399,
    });
    let newer_custom = UsageRangePreset::Custom(UsageCustomRange {
        start: 1_700_086_400,
        end: 1_700_172_799,
    });
    let mut state = UsagePricingCustomState::default();

    let first = load(1, AppType::Claude, older_custom);
    let stale_pending = load(2, AppType::Claude, older_custom);
    let latest_pending = load(3, AppType::Claude, newer_custom);

    assert!(state.enqueue(first).is_some());
    let cancel_token = Arc::new(AtomicBool::new(false));
    state.set_running_cancel_token(Arc::clone(&cancel_token));
    assert!(state.enqueue(stale_pending).is_none());
    assert!(state.enqueue(latest_pending).is_none());
    assert!(cancel_token.load(Ordering::Relaxed));
    assert_eq!(
        usage_pricing_custom_state_snapshot(&state),
        (true, Some(1), true, false, vec![3])
    );

    let completion = state.complete();
    let next = completion.next.expect("latest pending request");
    assert!(completion.drop_acks.is_empty());
    assert!(matches!(
        next,
        UsagePricingReq::Load {
            request_id: 3,
            range,
            ..
        } if range == newer_custom
    ));
    assert_eq!(
        usage_pricing_custom_state_snapshot(&state),
        (true, Some(3), false, false, Vec::new())
    );

    let completion = state.complete();
    assert!(completion.next.is_none());
    assert!(completion.drop_acks.is_empty());
    assert_eq!(
        usage_pricing_custom_state_snapshot(&state),
        (false, None, false, true, Vec::new())
    );
}

#[test]
fn usage_pricing_custom_state_remembers_drop_before_interrupt_handle() {
    let custom = UsageRangePreset::Custom(UsageCustomRange {
        start: 1_700_000_000,
        end: 1_700_086_399,
    });
    let mut state = UsagePricingCustomState::default();

    assert!(state.enqueue(load(1, AppType::Claude, custom)).is_some());
    let cancel_token = Arc::new(AtomicBool::new(false));
    state.set_running_cancel_token(Arc::clone(&cancel_token));
    let (ack_tx, ack_rx) = mpsc::channel();
    state.clear_pending_and_ack_when_idle(ack_tx);

    assert!(cancel_token.load(Ordering::Relaxed));
    assert!(ack_rx.try_recv().is_err());
    assert_eq!(
        usage_pricing_custom_state_snapshot(&state),
        (true, Some(1), true, false, Vec::new())
    );

    let completion = state.complete();
    assert!(completion.next.is_none());
    assert_eq!(completion.drop_acks.len(), 1);
    for ack in completion.drop_acks {
        let _ = ack.send(());
    }
    assert!(ack_rx.recv().is_ok());
    assert_eq!(
        usage_pricing_custom_state_snapshot(&state),
        (false, None, false, true, Vec::new())
    );
}

#[test]
fn idle_state_acknowledges_drop_at_once_and_raises_stray_tokens() {
    let mut state = UsagePricingCustomState::default();
    assert!(state.is_idle());
    let (ack_tx, ack_rx) = mpsc::channel();
    state.clear_pending_and_ack_when_idle(ack_tx);
    assert!(ack_rx.try_recv().is_ok());

    let token = Arc::new(AtomicBool::new(false));
    state.set_running_cancel_token(Arc::clone(&token));
    assert!(token.load(Ordering::Relaxed));
}

#[test]
fn newer_request_cancels_running_but_older_does_not() {
    let mut state = UsagePricingCustomState::default();
    assert!(state.enqueue(load(5, AppType::Codex, UsageRangePreset::Today)).is_some());
    assert!(state.enqueue(load(4, AppType::Gemini, UsageRangePreset::Today)).is_none());
    assert!(!state.req_is_newer_than_running(&load(4, AppType::Codex, UsageRangePreset::Today)));
    assert!(state.req_is_newer_than_running(&load(6, AppType::Codex, UsageRangePreset::Today)));
    assert!(!state.has_pending_newer_than_running());
    let (snap_running, snap_id, snap_cancel, _, pending) = usage_pricing_custom_state_snapshot(&state);
    assert!(snap_running);
    assert_eq!(snap_id, Some(5));
    assert!(!snap_cancel);
    assert_eq!(pending, vec![4]);

    assert!(state.enqueue(load(7, AppType::Gemini, UsageRangePreset::Today)).is_none());
    assert!(state.has_pending_newer_than_running());
    let (_, _, snap_cancel, _, pending) = usage_pricing_custom_state_snapshot(&state);
    assert!(snap_cancel);
    assert_eq!(pending, vec![7]);
    state.cancel_running();
}
