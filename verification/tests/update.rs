use cc_switch_tui::update::{update_step, UpdateInfo, UpdateMsg, UpdateNotice, UpdateOverlay};

fn info(latest: bool, brew: bool, down: bool) -> UpdateInfo {
    UpdateInfo {
        current_version: "1.0.0".to_string(),
        target_tag: "v1.1.0".to_string(),
        is_already_latest: latest,
        is_homebrew_managed: brew,
        is_downgrade: down,
    }
}

fn check(result: Result<UpdateInfo, String>) -> UpdateMsg {
    UpdateMsg::CheckFinished { request_id: 1, result }
}

#[test]
fn update_check_outcomes() {
    assert_eq!(
        update_step(UpdateOverlay::Unrelated, true, check(Ok(info(true, true, false)))),
        (UpdateOverlay::Hidden, Some(UpdateNotice::AlreadyLatest("1.0.0".to_string())))
    );
    assert_eq!(
        update_step(UpdateOverlay::Unrelated, true, check(Ok(info(false, true, true)))),
        (
            UpdateOverlay::Hidden,
            Some(UpdateNotice::HomebrewRequired {
                current: "1.0.0".to_string(),
                target: "v1.1.0".to_string()
            })
        )
    );
    assert_eq!(
        update_step(UpdateOverlay::Hidden, true, check(Ok(info(false, false, false)))),
        (
            UpdateOverlay::Available {
                current: "1.0.0".to_string(),
                latest: "v1.1.0".to_string(),
                selected: 0
            },
            None
        )
    );
    assert_eq!(
        update_step(UpdateOverlay::Unrelated, true, check(Err("offline".to_string()))),
        (UpdateOverlay::Hidden, Some(UpdateNotice::CheckFailed("offline".to_string())))
    );
    assert_eq!(
        update_step(UpdateOverlay::Unrelated, false, check(Err("offline".to_string()))),
        (UpdateOverlay::Unrelated, None)
    );
}

#[test]
fn download_progress_only_moves_a_shown_download() {
    let progress = || UpdateMsg::DownloadProgress { downloaded: 5, total: Some(10) };
    assert_eq!(
        update_step(UpdateOverlay::Downloading { downloaded: 0, total: None }, false, progress()),
        (UpdateOverlay::Downloading { downloaded: 5, total: Some(10) }, None)
    );
    assert_eq!(update_step(UpdateOverlay::Hidden, false, progress()), (UpdateOverlay::Hidden, None));
    assert_eq!(
        update_step(UpdateOverlay::Hidden, false, UpdateMsg::DownloadFinished(Ok("v2".to_string()))),
        (UpdateOverlay::Finished { success: true, detail: "v2".to_string() }, None)
    );
}
