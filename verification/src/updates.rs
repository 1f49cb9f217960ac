//! Decisions of the self-update flow.

use vstd::prelude::*;

verus! {

/// Where the update flow stands, as the panel shows it.
#[derive(Debug, Clone, PartialEq)]
pub enum UpdateStatus {
    Idle,
    Checking,
    UpToDate,
    Available { version: String },
    Installing { version: String },
    Failed { message: String },
}

/// Whether a check runs: manual checks always do, background checks only
/// when automatic checks are on.
pub open spec fn runs_check(manual: bool, enabled: bool) -> bool {
    manual || enabled
}

/// Decides whether an update check runs.
pub fn should_check(manual: bool, enabled: bool) -> (r: bool)
    ensures
        r == runs_check(manual, enabled),
{
    manual || enabled
}

/// The status shown when a check starts: manual checks announce themselves,
/// background checks stay silent (`None`: the status is left as it is).
pub fn check_started(manual: bool) -> (r: Option<UpdateStatus>)
    ensures
        manual ==> r == Some(UpdateStatus::Checking),
        !manual ==> r is None,
{
    if manual {
        Some(UpdateStatus::Checking)
    } else {
        None
    }
}

/// What an update check found.
#[derive(Debug, Clone, PartialEq)]
pub enum CheckOutcome {
    /// A newer release, with its version.
    Found(String),
    /// No newer release.
    Current,
    /// The check failed.
    Error,
}

/// The message shown when a manual check fails.
pub open spec fn check_failed_message() -> Seq<char> {
    "Couldn't check for updates. Try again later."@
}

/// The status after a check: an update found is always shown; "up to date"
/// only for manual checks (background checks go back to idle); a failure
/// only for manual checks (background failures leave the status as it is).
pub fn check_finished(manual: bool, outcome: CheckOutcome) -> (r: Option<UpdateStatus>)
    ensures
        match outcome {
            CheckOutcome::Found(v) => r matches Some(UpdateStatus::Available { version }) && version@
                == v@,
            CheckOutcome::Current => if manual {
                r == Some(UpdateStatus::UpToDate)
            } else {
                r == Some(UpdateStatus::Idle)
            },
            CheckOutcome::Error => if manual {
                r matches Some(UpdateStatus::Failed { message }) && message@ == check_failed_message()
            } else {
                r is None
            },
        },
{
    match outcome {
        CheckOutcome::Found(version) => Some(UpdateStatus::Available { version }),
        CheckOutcome::Current => if manual {
            Some(UpdateStatus::UpToDate)
        } else {
            Some(UpdateStatus::Idle)
        },
        CheckOutcome::Error => if manual {
            Some(
                UpdateStatus::Failed {
                    message: String::from_str("Couldn't check for updates. Try again later."),
                },
            )
        } else {
            None
        },
    }
}

/// The message shown when installing fails: on Linux only the AppImage
/// updates itself.
pub open spec fn install_failed_message(linux: bool) -> Seq<char> {
    if linux {
        "Couldn't install the update. Self-update works with the AppImage; for .deb or .rpm, download the new version from the website."@
    } else {
        "Couldn't install the update. Download it from the website instead."@
    }
}

/// The status after a failed installation.
pub fn install_failed(linux: bool) -> (r: UpdateStatus)
    ensures
        r matches UpdateStatus::Failed { message } && message@ == install_failed_message(linux),
{
    let message = if linux {
        String::from_str(
            "Couldn't install the update. Self-update works with the AppImage; for .deb or .rpm, download the new version from the website.",
        )
    } else {
        String::from_str("Couldn't install the update. Download it from the website instead.")
    };
    UpdateStatus::Failed { message }
}

/// A manual check always runs, whatever the automatic-check setting; a
/// background check runs exactly when automatic checks are on.
pub proof fn lemma_manual_checks_always_run(manual: bool, enabled: bool)
    ensures
        runs_check(true, enabled),
        runs_check(false, enabled) == enabled,
        runs_check(manual, enabled) == (manual || enabled),
{
}

/// On Linux the failure message points to the AppImage and to the website
/// for other packages; elsewhere it points to the website. A failed manual
/// check asks to try again later.
pub proof fn lemma_failure_messages()
    ensures
        install_failed_message(true)
            == "Couldn't install the update. Self-update works with the AppImage; for .deb or .rpm, download the new version from the website."@,
        install_failed_message(false)
            == "Couldn't install the update. Download it from the website instead."@,
        check_failed_message() == "Couldn't check for updates. Try again later."@,
{
}

} // verus!
