//! Whole-run scenarios: the entry list is parsed, each attempt negotiates
//! its credentials against a scripted backend, and the aggregator takes
//! the verdict once every attempt has resolved.

use adsys_mount::AdsysMountError;
use adsys_mount::Aggregator;
use adsys_mount::AttemptOutcome;
use adsys_mount::CredentialNegotiator;
use adsys_mount::CredentialReply;
use adsys_mount::CredentialState;
use adsys_mount::FailureKind;
use adsys_mount::parse_entries;

const INPUT: &str = "smb://host/share1\n[anonymous]smb://host/share2";

#[test]
fn absorbed_failure_leaves_the_run_successful() {
    // share1 mounts; share2 has its one anonymous prompt accepted and then
    // turns out to be already mounted. The run as a whole succeeds.
    let requests = parse_entries(INPUT);
    assert_eq!(requests.len(), 2);
    assert!(!requests[0].anonymous);
    assert!(requests[1].anonymous);

    let mut aggregator = Aggregator::new(requests.len());

    let share1 = AttemptOutcome::from_backend(requests[0].location.clone(), Ok(()));

    let mut negotiator = CredentialNegotiator::new(requests[1].anonymous);
    assert_eq!(negotiator.decide(true, false), CredentialReply::ProceedAnonymous);
    let share2 = AttemptOutcome::from_backend(
        requests[1].location.clone(),
        Err(FailureKind::AlreadyMounted),
    );

    assert!(aggregator.record(share1));
    assert!(!aggregator.record(share2));
    assert_eq!(aggregator.finalize(), Ok(()));
}

#[test]
fn repeated_prompt_on_one_attempt_is_refused() {
    // Same input; share2's backend raises the credential prompt a second
    // time even though anonymous access was already offered. The second
    // reply must be Abort, without consulting the ambient credential.
    let requests = parse_entries(INPUT);
    let mut negotiator = CredentialNegotiator::new(requests[1].anonymous);
    assert_eq!(negotiator.decide(true, true), CredentialReply::ProceedAnonymous);
    assert_eq!(negotiator.state, CredentialState::AskedOnce);
    assert_eq!(negotiator.decide(true, true), CredentialReply::Abort);
}

#[test]
fn fatal_failure_fails_the_run() {
    // share1 mounts, share2 fails with a classification other than
    // already-mounted: the run as a whole fails.
    let requests = parse_entries(INPUT);
    let mut aggregator = Aggregator::new(requests.len());

    let share1 = AttemptOutcome::from_backend(requests[0].location.clone(), Ok(()));
    let share2 = AttemptOutcome::from_backend(
        requests[1].location.clone(),
        Err(FailureKind::OtherError),
    );

    assert!(aggregator.record(share1));
    assert!(!aggregator.record(share2));
    assert_eq!(aggregator.finalize(), Err(AdsysMountError::MountError));
}
