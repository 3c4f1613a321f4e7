//! The self-update dialog: how the answers of the update worker move it.
use vstd::prelude::*;

verus! {

/// What an update check found.
#[derive(Debug, PartialEq, Eq)]
pub struct UpdateInfo {
    pub current_version: String,
    pub target_tag: String,
    pub is_already_latest: bool,
    pub is_homebrew_managed: bool,
    pub is_downgrade: bool,
}

/// An answer of the update worker.
#[derive(Debug, PartialEq, Eq)]
pub enum UpdateMsg {
    CheckFinished { request_id: u64, result: Result<UpdateInfo, String> },
    DownloadProgress { downloaded: u64, total: Option<u64> },
    /// The tag that was installed, or why the download failed.
    DownloadFinished(Result<String, String>),
}

/// The overlay as far as updates are concerned.
#[derive(Debug, PartialEq, Eq)]
pub enum UpdateOverlay {
    /// No overlay is shown.
    Hidden,
    /// An overlay that has nothing to do with updates.
    Unrelated,
    /// A newer version can be installed.
    Available { current: String, latest: String, selected: usize },
    Downloading { downloaded: u64, total: Option<u64> },
    /// The update finished: the installed tag, or why it failed.
    Finished { success: bool, detail: String },
}

/// A message for the user (its wording is the interface's).
#[derive(Debug, PartialEq, Eq)]
pub enum UpdateNotice {
    /// Success: `current` is already the latest version.
    AlreadyLatest(String),
    /// Information: Homebrew manages this install; update it there.
    HomebrewRequired { current: String, target: String },
    /// Information: the newest release is older than `current`.
    Downgrade { current: String, target: String },
    /// Error: the check failed.
    CheckFailed(String),
}

/// How the overlay moves on an answer of the update worker. `finished_active`
/// is the update tracker's answer when asked to finish the check's request
/// (a check that is no longer awaited changes nothing).
pub open spec fn update_step_spec(overlay: UpdateOverlay, finished_active: bool, msg: UpdateMsg) -> (
    UpdateOverlay,
    Option<UpdateNotice>,
) {
    match msg {
        UpdateMsg::CheckFinished { request_id: _, result } => if !finished_active {
            (overlay, None)
        } else {
            match result {
                Ok(info) => if info.is_already_latest {
                    (UpdateOverlay::Hidden, Some(UpdateNotice::AlreadyLatest(info.current_version)))
                } else if info.is_homebrew_managed {
                    (
                        UpdateOverlay::Hidden,
                        Some(
                            UpdateNotice::HomebrewRequired {
                                current: info.current_version,
                                target: info.target_tag,
                            },
                        ),
                    )
                } else if info.is_downgrade {
                    (
                        UpdateOverlay::Hidden,
                        Some(
                            UpdateNotice::Downgrade {
                                current: info.current_version,
                                target: info.target_tag,
                            },
                        ),
                    )
                } else {
                    (
                        UpdateOverlay::Available {
                            current: info.current_version,
                            latest: info.target_tag,
                            selected: 0,
                        },
                        None,
                    )
                },
                Err(e) => (UpdateOverlay::Hidden, Some(UpdateNotice::CheckFailed(e))),
            }
        },
        UpdateMsg::DownloadProgress { downloaded, total } => match overlay {
            UpdateOverlay::Downloading { .. } => (UpdateOverlay::Downloading { downloaded, total }, None),
            _ => (overlay, None),
        },
        UpdateMsg::DownloadFinished(result) => match result {
            Ok(tag) => (UpdateOverlay::Finished { success: true, detail: tag }, None),
            Err(e) => (UpdateOverlay::Finished { success: false, detail: e }, None),
        },
    }
}

/// Moves the update overlay on an answer of the update worker (see
/// `update_step_spec`): a finished check hides the dialog with a message,
/// or offers the newer version; progress updates only a shown download;
/// a finished download shows its outcome.
pub fn update_step(overlay: UpdateOverlay, finished_active: bool, msg: UpdateMsg) -> (out: (
    UpdateOverlay,
    Option<UpdateNotice>,
))
    ensures
        out == update_step_spec(overlay, finished_active, msg),
{
    match msg {
        UpdateMsg::CheckFinished { request_id: _, result } => {
            if !finished_active {
                return (overlay, None);
            }
            match result {
                Ok(info) => {
                    let UpdateInfo {
                        current_version,
                        target_tag,
                        is_already_latest,
                        is_homebrew_managed,
                        is_downgrade,
                    } = info;
                    if is_already_latest {
                        (UpdateOverlay::Hidden, Some(UpdateNotice::AlreadyLatest(current_version)))
                    } else if is_homebrew_managed {
                        (
                            UpdateOverlay::Hidden,
                            Some(
                                UpdateNotice::HomebrewRequired {
                                    current: current_version,
                                    target: target_tag,
                                },
                            ),
                        )
                    } else if is_downgrade {
                        (
                            UpdateOverlay::Hidden,
                            Some(UpdateNotice::Downgrade { current: current_version, target: target_tag }),
                        )
                    } else {
                        (
                            UpdateOverlay::Available {
                                current: current_version,
                                latest: target_tag,
                                selected: 0,
                            },
                            None,
                        )
                    }
                },
                Err(e) => (UpdateOverlay::Hidden, Some(UpdateNotice::CheckFailed(e))),
            }
        },
        UpdateMsg::DownloadProgress { downloaded, total } => match overlay {
            UpdateOverlay::Downloading { .. } => (UpdateOverlay::Downloading { downloaded, total }, None),
            _ => (overlay, None),
        },
        UpdateMsg::DownloadFinished(result) => match result {
            Ok(tag) => (UpdateOverlay::Finished { success: true, detail: tag }, None),
            Err(e) => (UpdateOverlay::Finished { success: false, detail: e }, None),
        },
    }
}

} // verus!
