//! Per-attempt credential negotiation.
//!
//! The mount backend may prompt for a credential decision any number of
//! times while an attempt is in flight. Each attempt owns one
//! [`CredentialNegotiator`], created at dispatch time, which answers every
//! prompt for that attempt with exactly one reply. Anonymous access is
//! offered at most once per attempt; after that, a further prompt on the
//! anonymous path is refused rather than looping. Prompts that do not take
//! the anonymous path fall back to an ambient credential (a pre-existing
//! authentication ticket in the environment) when one is present, and are
//! refused otherwise.

use vstd::prelude::*;

verus! {

/// Negotiation memory of a single mount attempt: whether anonymous access
/// has already been offered for it.
#[derive(Debug, Clone, Copy, PartialEq, Eq, Structural)]
pub enum CredentialState {
    /// Anonymous access has not been offered yet.
    Unasked,
    /// Anonymous access was offered once; it must not be offered again.
    AskedOnce,
}

/// The one reply given to the backend for a single credential prompt.
#[derive(Debug, Clone, Copy, PartialEq, Eq, Structural)]
pub enum CredentialReply {
    /// Proceed with anonymous access.
    ProceedAnonymous,
    /// Proceed using the ambient credential.
    ProceedAmbient,
    /// Refuse the prompt; the backend will fail the attempt.
    Abort,
}

/// The reply owed to a prompt, given the request's anonymous flag, whether
/// the backend accepts anonymous access for this prompt, the attempt's
/// negotiation state so far, and whether an ambient credential is present.
pub open spec fn reply_spec(
    anonymous: bool,
    anonymous_supported: bool,
    state: CredentialState,
    ambient_present: bool,
) -> CredentialReply {
    if anonymous && anonymous_supported {
        if state is AskedOnce {
            CredentialReply::Abort
        } else {
            CredentialReply::ProceedAnonymous
        }
    } else if ambient_present {
        CredentialReply::ProceedAmbient
    } else {
        CredentialReply::Abort
    }
}

/// The negotiation state after a prompt: offering anonymous access moves
/// the state to `AskedOnce`; every other reply leaves it unchanged.
pub open spec fn next_state_spec(
    anonymous: bool,
    anonymous_supported: bool,
    state: CredentialState,
) -> CredentialState {
    if anonymous && anonymous_supported && state is Unasked {
        CredentialState::AskedOnce
    } else {
        state
    }
}

/// The credential decision logic owned by one mount attempt.
#[derive(Debug, Clone, Copy, PartialEq, Eq, Structural)]
pub struct CredentialNegotiator {
    /// Whether the attempt's request asked for anonymous access.
    pub anonymous: bool,
    /// Negotiation memory for this attempt alone.
    pub state: CredentialState,
}

impl CredentialNegotiator {
    /// A fresh negotiator for one attempt of a request with the given
    /// anonymous flag; nothing has been offered yet.
    pub fn new(anonymous: bool) -> (r: CredentialNegotiator)
        ensures
            r.anonymous == anonymous,
            r.state is Unasked,
    {
        CredentialNegotiator { anonymous, state: CredentialState::Unasked }
    }

    /// Answer one credential prompt, advancing the attempt's negotiation
    /// state.
    ///
    /// `anonymous_supported` is the backend's indication that anonymous
    /// access is acceptable for this prompt; `ambient_present` is whether
    /// an ambient credential is available right now.
    pub fn decide(&mut self, anonymous_supported: bool, ambient_present: bool) -> (r:
        CredentialReply)
        ensures
            r == reply_spec(
                old(self).anonymous,
                anonymous_supported,
                old(self).state,
                ambient_present,
            ),
            final(self).state == next_state_spec(
                old(self).anonymous,
                anonymous_supported,
                old(self).state,
            ),
            final(self).anonymous == old(self).anonymous,
    {
        if self.anonymous && anonymous_supported {
            if self.state == CredentialState::AskedOnce {
                CredentialReply::Abort
            } else {
                self.state = CredentialState::AskedOnce;
                CredentialReply::ProceedAnonymous
            }
        } else if ambient_present {
            CredentialReply::ProceedAmbient
        } else {
            CredentialReply::Abort
        }
    }
}

/// For an anonymous request whose backend accepts anonymous access, the
/// first prompt of an attempt proceeds anonymously and moves the state to
/// `AskedOnce`; a second prompt on the same attempt is refused, whatever
/// the ambient credential looks like at either prompt.
pub proof fn lemma_anonymous_offered_exactly_once(ambient_first: bool, ambient_second: bool)
    ensures
        reply_spec(true, true, CredentialState::Unasked, ambient_first)
            == CredentialReply::ProceedAnonymous,
        next_state_spec(true, true, CredentialState::Unasked) == CredentialState::AskedOnce,
        reply_spec(true, true, CredentialState::AskedOnce, ambient_second)
            == CredentialReply::Abort,
        next_state_spec(true, true, CredentialState::AskedOnce) == CredentialState::AskedOnce,
{
}

/// For a non-anonymous request, every prompt proceeds with the ambient
/// credential when one is present and is refused otherwise, independent of
/// the attempt's prior negotiation state, which it leaves unchanged.
pub proof fn lemma_non_anonymous_uses_ambient(
    anonymous_supported: bool,
    state: CredentialState,
    ambient_present: bool,
)
    ensures
        reply_spec(false, anonymous_supported, state, ambient_present) == (if ambient_present {
            CredentialReply::ProceedAmbient
        } else {
            CredentialReply::Abort
        }),
        next_state_spec(false, anonymous_supported, state) == state,
{
}

} // verus!
