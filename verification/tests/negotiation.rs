use adsys_mount::CredentialNegotiator;
use adsys_mount::CredentialReply;
use adsys_mount::CredentialState;

#[test]
fn anonymous_first_prompt_proceeds_anonymously() {
    let mut negotiator = CredentialNegotiator::new(true);
    assert_eq!(negotiator.state, CredentialState::Unasked);
    let reply = negotiator.decide(true, false);
    assert_eq!(reply, CredentialReply::ProceedAnonymous);
    assert_eq!(negotiator.state, CredentialState::AskedOnce);
}

#[test]
fn anonymous_second_prompt_aborts_without_consulting_ambient() {
    let mut negotiator = CredentialNegotiator::new(true);
    let first = negotiator.decide(true, false);
    assert_eq!(first, CredentialReply::ProceedAnonymous);
    // An ambient credential is present at the second prompt, but the
    // anonymous path was already tried once: the reply must still be Abort.
    let second = negotiator.decide(true, true);
    assert_eq!(second, CredentialReply::Abort);
    assert_eq!(negotiator.state, CredentialState::AskedOnce);
}

#[test]
fn non_anonymous_prompt_uses_ambient_credential() {
    let mut negotiator = CredentialNegotiator::new(false);
    let reply = negotiator.decide(false, true);
    assert_eq!(reply, CredentialReply::ProceedAmbient);
    assert_eq!(negotiator.state, CredentialState::Unasked);
}

#[test]
fn non_anonymous_prompt_without_ambient_aborts() {
    let mut negotiator = CredentialNegotiator::new(false);
    let reply = negotiator.decide(true, false);
    assert_eq!(reply, CredentialReply::Abort);
    assert_eq!(negotiator.state, CredentialState::Unasked);
}

#[test]
fn non_anonymous_replies_ignore_prior_state() {
    let mut negotiator = CredentialNegotiator::new(false);
    assert_eq!(negotiator.decide(false, true), CredentialReply::ProceedAmbient);
    assert_eq!(negotiator.decide(false, true), CredentialReply::ProceedAmbient);
    assert_eq!(negotiator.decide(false, false), CredentialReply::Abort);
    assert_eq!(negotiator.decide(false, true), CredentialReply::ProceedAmbient);
}

#[test]
fn anonymous_request_falls_back_when_backend_refuses_anonymous() {
    let mut negotiator = CredentialNegotiator::new(true);
    // The backend does not accept anonymous access for this prompt, so the
    // ambient credential decides, and the anonymous offer stays available.
    assert_eq!(negotiator.decide(false, true), CredentialReply::ProceedAmbient);
    assert_eq!(negotiator.state, CredentialState::Unasked);
    assert_eq!(negotiator.decide(false, false), CredentialReply::Abort);
    assert_eq!(negotiator.state, CredentialState::Unasked);
    assert_eq!(negotiator.decide(true, false), CredentialReply::ProceedAnonymous);
    assert_eq!(negotiator.state, CredentialState::AskedOnce);
}
