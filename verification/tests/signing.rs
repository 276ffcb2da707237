use fapt::error::Error;
use fapt::fetch::{
    release_fetch_step, target_name, FetchOutcome, FetchTarget, ReleaseAction, ReleaseFetch,
    ReleaseStage,
};
use fapt::signing::validate_signature;

#[test]
fn no_signatures_is_refused() {
    assert_eq!(Err(Error::NoSignatures), validate_signature(&[]));
}

#[test]
fn all_good_signatures_pass() {
    assert_eq!(Ok(()), validate_signature(&[true]));
    assert_eq!(Ok(()), validate_signature(&[true, true, true]));
}

#[test]
fn one_bad_signature_is_refused() {
    assert_eq!(Err(Error::InvalidSignature), validate_signature(&[true, false]));
    assert_eq!(Err(Error::InvalidSignature), validate_signature(&[false, true]));
}

#[test]
fn fetch_steps_in_release_first() {
    let s = ReleaseFetch::start(false);
    let (s, a) = release_fetch_step(s, FetchOutcome::Succeeded);
    assert_eq!(ReleaseAction::Fetch(FetchTarget::InRelease), a);
    let (s, a) = release_fetch_step(s, FetchOutcome::Succeeded);
    assert_eq!(ReleaseAction::ReadClearsigned { verify: true }, a);
    let (s, a) = release_fetch_step(s, FetchOutcome::Succeeded);
    assert_eq!(ReleaseAction::Finish, a);
    assert_eq!(ReleaseStage::Done, s.stage);
    assert_eq!("InRelease", target_name(FetchTarget::InRelease));
    assert_eq!("Release.gpg", target_name(FetchTarget::ReleaseGpg));
}

#[test]
fn fetch_steps_fall_back_to_detached() {
    let s = ReleaseFetch::start(true);
    let (s, _) = release_fetch_step(s, FetchOutcome::Succeeded);
    let (s, a) = release_fetch_step(s, FetchOutcome::Failed);
    assert_eq!(ReleaseAction::Fetch(FetchTarget::Release), a);
    let (s, a) = release_fetch_step(s, FetchOutcome::Succeeded);
    assert_eq!(ReleaseAction::Fetch(FetchTarget::ReleaseGpg), a);
    let (s2, a) = release_fetch_step(s, FetchOutcome::Succeeded);
    assert_eq!(ReleaseAction::VerifyDetached, a);
    let (s3, a) = release_fetch_step(s2, FetchOutcome::Failed);
    assert_eq!(ReleaseAction::Fail, a);
    assert_eq!(ReleaseStage::Failed, s3.stage);
    assert!(s3.untrusted);
    let (_, a) = release_fetch_step(s, FetchOutcome::Failed);
    assert_eq!(ReleaseAction::Fail, a);
}

#[test]
fn untrusted_releases_read_unchecked() {
    let (s, _) = release_fetch_step(ReleaseFetch::start(true), FetchOutcome::Failed);
    let (_, a) = release_fetch_step(s, FetchOutcome::Succeeded);
    assert_eq!(ReleaseAction::ReadClearsigned { verify: false }, a);
}
