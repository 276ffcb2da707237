//! What to do with the answer to a download request, and the steps of
//! fetching and checking the signed index of a release.

use vstd::prelude::*;

verus! {

/// What a download's response calls for.
#[derive(Clone, Copy, Debug, PartialEq, Eq, Structural)]
pub enum FetchAction {
    /// Not modified since the copy kept: nothing to do.
    UpToDate,
    /// A success: store the body.
    Store,
    /// Any other status: the download failed.
    Refused,
}

/// What an HTTP status calls for: 304 means the kept copy is current, a
/// success (2xx) carries the file, anything else is a failure.
pub fn response_action(status: u16) -> (r: FetchAction)
    ensures
        r == (if status == 304 {
            FetchAction::UpToDate
        } else if 200 <= status < 300 {
            FetchAction::Store
        } else {
            FetchAction::Refused
        }),
{
    if status == 304 {
        FetchAction::UpToDate
    } else if 200 <= status && status < 300 {
        FetchAction::Store
    } else {
        FetchAction::Refused
    }
}

/// A file of a release's `dists/<codename>/` directory.
#[derive(Clone, Copy, Debug, PartialEq, Eq, Structural)]
pub enum FetchTarget {
    /// `InRelease`: the index, clearsigned.
    InRelease,
    /// `Release`: the index, unsigned.
    Release,
    /// `Release.gpg`: the detached signature of `Release`.
    ReleaseGpg,
}

/// How far the fetching of a release's index has come.
#[derive(Clone, Copy, Debug, PartialEq, Eq, Structural)]
pub enum ReleaseStage {
    /// Nothing done yet.
    Start,
    /// Waiting for `InRelease`.
    InRelease,
    /// Waiting for `Release`.
    Release,
    /// Waiting for `Release.gpg`.
    ReleaseGpg,
    /// Waiting for the index to be checked and stored.
    Checking,
    /// The checked index is stored.
    Done,
    /// The index could not be had.
    Failed,
}

/// The state of fetching one release's index.
#[derive(Clone, Copy, Debug, PartialEq, Eq, Structural)]
pub struct ReleaseFetch {
    pub stage: ReleaseStage,
    /// Whether the sources entries of the release do not ask for signatures
    /// on the clearsigned index to be checked.
    pub untrusted: bool,
}

/// How the last action went.
#[derive(Clone, Copy, Debug, PartialEq, Eq, Structural)]
pub enum FetchOutcome {
    Succeeded,
    Failed,
}

/// What to do next.
#[derive(Clone, Copy, Debug, PartialEq, Eq, Structural)]
pub enum ReleaseAction {
    /// Download this file.
    Fetch(FetchTarget),
    /// Read the document out of `InRelease`, checking its signatures when
    /// `verify` is set, and store it.
    ReadClearsigned { verify: bool },
    /// Check `Release` against `Release.gpg`, and store it.
    VerifyDetached,
    /// The index is stored.
    Finish,
    /// Give up on this release.
    Fail,
}

/// The next state and action: `InRelease` first, read (and checked unless
/// the release is untrusted) when it comes; otherwise `Release` and then
/// `Release.gpg`, checked against each other. A failed download of either
/// of those, or a failed check, ends in failure.
pub open spec fn fetch_step_spec(state: ReleaseFetch, event: FetchOutcome) -> (ReleaseFetch, ReleaseAction) {
    let at = |stage: ReleaseStage| ReleaseFetch { stage, untrusted: state.untrusted };
    match (state.stage, event) {
        (ReleaseStage::Start, _) => (at(ReleaseStage::InRelease), ReleaseAction::Fetch(FetchTarget::InRelease)),
        (ReleaseStage::InRelease, FetchOutcome::Succeeded) => (
            at(ReleaseStage::Checking),
            ReleaseAction::ReadClearsigned { verify: !state.untrusted },
        ),
        (ReleaseStage::InRelease, FetchOutcome::Failed) => (at(ReleaseStage::Release), ReleaseAction::Fetch(FetchTarget::Release)),
        (ReleaseStage::Release, FetchOutcome::Succeeded) => (
            at(ReleaseStage::ReleaseGpg),
            ReleaseAction::Fetch(FetchTarget::ReleaseGpg),
        ),
        (ReleaseStage::ReleaseGpg, FetchOutcome::Succeeded) => (at(ReleaseStage::Checking), ReleaseAction::VerifyDetached),
        (ReleaseStage::Checking, FetchOutcome::Succeeded) => (at(ReleaseStage::Done), ReleaseAction::Finish),
        (ReleaseStage::Done, _) => (at(ReleaseStage::Done), ReleaseAction::Finish),
        _ => (at(ReleaseStage::Failed), ReleaseAction::Fail),
    }
}

impl ReleaseFetch {
    /// The same release, at another stage.
    fn at(&self, stage: ReleaseStage) -> (r: ReleaseFetch)
        ensures
            r == (ReleaseFetch { stage, untrusted: self.untrusted }),
    {
        ReleaseFetch { stage, untrusted: self.untrusted }
    }

    /// Nothing fetched yet.
    pub fn start(untrusted: bool) -> (r: ReleaseFetch)
        ensures
            r == (ReleaseFetch { stage: ReleaseStage::Start, untrusted }),
    {
        ReleaseFetch { stage: ReleaseStage::Start, untrusted }
    }
}

/// One step of fetching a release's index: from the state and how the last
/// action went, the next state and action.
pub fn release_fetch_step(state: ReleaseFetch, event: FetchOutcome) -> (r: (ReleaseFetch, ReleaseAction))
    ensures
        r == fetch_step_spec(state, event),
{
    match (state.stage, event) {
        (ReleaseStage::Start, _) => (state.at(ReleaseStage::InRelease), ReleaseAction::Fetch(FetchTarget::InRelease)),
        (ReleaseStage::InRelease, FetchOutcome::Succeeded) => (
            state.at(ReleaseStage::Checking),
            ReleaseAction::ReadClearsigned { verify: !state.untrusted },
        ),
        (ReleaseStage::InRelease, FetchOutcome::Failed) => (state.at(ReleaseStage::Release), ReleaseAction::Fetch(FetchTarget::Release)),
        (ReleaseStage::Release, FetchOutcome::Succeeded) => (
            state.at(ReleaseStage::ReleaseGpg),
            ReleaseAction::Fetch(FetchTarget::ReleaseGpg),
        ),
        (ReleaseStage::ReleaseGpg, FetchOutcome::Succeeded) => (state.at(ReleaseStage::Checking), ReleaseAction::VerifyDetached),
        (ReleaseStage::Checking, FetchOutcome::Succeeded) => (state.at(ReleaseStage::Done), ReleaseAction::Finish),
        (ReleaseStage::Done, _) => (state.at(ReleaseStage::Done), ReleaseAction::Finish),
        _ => (state.at(ReleaseStage::Failed), ReleaseAction::Fail),
    }
}

/// The file name of a target in the release's `dists/<codename>/` directory.
pub fn target_name(t: FetchTarget) -> (r: &'static str)
    ensures
        r@ == match t {
            FetchTarget::InRelease => "InRelease"@,
            FetchTarget::Release => "Release"@,
            FetchTarget::ReleaseGpg => "Release.gpg"@,
        },
{
    match t {
        FetchTarget::InRelease => "InRelease",
        FetchTarget::Release => "Release",
        FetchTarget::ReleaseGpg => "Release.gpg",
    }
}

} // verus!
