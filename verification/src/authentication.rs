//! The decisions of one signing with a smartcard that may ask for a PIN.
//!
//! The caller talks to the card and reports what happened; the functions
//! here say what to do next. A signature is asked of the card at most
//! `MAX_ATTEMPTS` times. After a refusal for want of authentication the PIN
//! is asked of the resolver and verified, and whether the card accepts it or
//! not, the signature is asked again. A refusal at the last attempt, a
//! refusal without resolver, or a resolver that gives no PIN ends the signing
//! with `SmartcardAuth`.

use vstd::prelude::*;
use crate::error::CodesignError;
use crate::yubikey::MAX_ATTEMPTS;

verus! {

/// Where one signing with the card stands.
#[derive(Clone, Copy, Debug, PartialEq, Eq, Structural)]
pub enum AuthState {
    /// The signature is being asked of the card, for the given time.
    Signing { attempt: u8 },
    /// The PIN is being resolved and verified after the given attempt.
    AwaitingPin { attempt: u8 },
    /// The card has signed.
    Succeeded,
    /// The signing has failed for the given reason.
    Failed(CodesignError),
}

/// What the caller reports of the card or of the resolver.
#[derive(Clone, Copy, Debug, PartialEq, Eq, Structural)]
pub enum AuthEvent {
    /// The card has signed.
    Signed,
    /// The card refused to sign for want of authentication.
    AuthenticationError,
    /// The card failed to sign for another reason.
    DeviceError,
    /// The card accepted the PIN.
    PinVerified,
    /// The card rejected the PIN.
    PinRejected,
    /// The resolver gave no PIN.
    PinUnavailable,
}

/// What the caller does next.
#[derive(Clone, Copy, Debug, PartialEq, Eq, Structural)]
pub enum AuthAction {
    /// Ask the signature of the card.
    TrySign,
    /// Ask the PIN of the resolver and have the card verify it.
    RequestPin,
    /// Hand out the signature that the card gave.
    ReturnSignature,
    /// Give up with the given error.
    Fail(CodesignError),
}

/// The state in which a signing begins.
pub open spec fn initial_state() -> AuthState {
    AuthState::Signing { attempt: 1 }
}

/// The action that a state asks of the caller.
pub open spec fn action_of(state: AuthState) -> AuthAction {
    match state {
        AuthState::Signing { .. } => AuthAction::TrySign,
        AuthState::AwaitingPin { .. } => AuthAction::RequestPin,
        AuthState::Succeeded => AuthAction::ReturnSignature,
        AuthState::Failed(e) => AuthAction::Fail(e),
    }
}

/// Whether the attempt of the state is one that is made.
pub open spec fn state_valid(state: AuthState) -> bool {
    match state {
        AuthState::Signing { attempt } => 1 <= attempt <= MAX_ATTEMPTS,
        AuthState::AwaitingPin { attempt } => 1 <= attempt < MAX_ATTEMPTS,
        _ => true,
    }
}

/// The state that follows `state` when the caller reports `event`.
///
/// A report that does not answer the action of the state fails the signing
/// with `SigningFailed`; a state that has ended stays as it is.
pub open spec fn next_state(state: AuthState, event: AuthEvent, has_resolver: bool) -> AuthState {
    match state {
        AuthState::Signing { attempt } => match event {
            AuthEvent::Signed => AuthState::Succeeded,
            AuthEvent::AuthenticationError => if attempt >= MAX_ATTEMPTS || !has_resolver {
                AuthState::Failed(CodesignError::SmartcardAuth)
            } else {
                AuthState::AwaitingPin { attempt }
            },
            _ => AuthState::Failed(CodesignError::SigningFailed),
        },
        AuthState::AwaitingPin { attempt } => match event {
            AuthEvent::PinVerified => AuthState::Signing { attempt: (attempt + 1) as u8 },
            AuthEvent::PinRejected => AuthState::Signing { attempt: (attempt + 1) as u8 },
            AuthEvent::PinUnavailable => AuthState::Failed(CodesignError::SmartcardAuth),
            _ => AuthState::Failed(CodesignError::SigningFailed),
        },
        AuthState::Succeeded => AuthState::Succeeded,
        AuthState::Failed(e) => AuthState::Failed(e),
    }
}

/// The state after the reports `events`, one after the other, from `state`.
pub open spec fn state_after(state: AuthState, events: Seq<AuthEvent>, has_resolver: bool) -> AuthState
    decreases events.len(),
{
    if events.len() == 0 {
        state
    } else {
        state_after(next_state(state, events[0], has_resolver), events.drop_first(), has_resolver)
    }
}

/// How often the signature is asked of the card from `state` on, over the
/// reports `events`: once in every signing state that is passed.
pub open spec fn sign_requests(state: AuthState, events: Seq<AuthEvent>, has_resolver: bool) -> nat
    decreases events.len(),
{
    let here: nat = if state is Signing {
        1
    } else {
        0
    };
    if events.len() == 0 {
        here
    } else {
        here + sign_requests(
            next_state(state, events[0], has_resolver),
            events.drop_first(),
            has_resolver,
        )
    }
}

/// How often the PIN is asked from `state` on, over the reports `events`.
pub open spec fn pin_requests(state: AuthState, events: Seq<AuthEvent>, has_resolver: bool) -> nat
    decreases events.len(),
{
    let here: nat = if state is AwaitingPin {
        1
    } else {
        0
    };
    if events.len() == 0 {
        here
    } else {
        here + pin_requests(
            next_state(state, events[0], has_resolver),
            events.drop_first(),
            has_resolver,
        )
    }
}

/// The attempts that are still to come in a state.
pub open spec fn attempts_left(state: AuthState) -> nat {
    match state {
        AuthState::Signing { attempt } => (MAX_ATTEMPTS - attempt + 1) as nat,
        AuthState::AwaitingPin { attempt } => (MAX_ATTEMPTS - attempt) as nat,
        _ => 0,
    }
}

/// Every state that follows a valid state is valid, and no attempt is won
/// back.
pub proof fn lemma_next_state(state: AuthState, event: AuthEvent, has_resolver: bool)
    requires
        state_valid(state),
    ensures
        state_valid(next_state(state, event, has_resolver)),
        attempts_left(next_state(state, event, has_resolver)) <= attempts_left(state),
        state is Signing ==> attempts_left(next_state(state, event, has_resolver))
            < attempts_left(state),
{
}

/// Whatever the card and the resolver answer, the signature is asked of the
/// card no more often than attempts are left, and the PIN no more often than
/// there are attempts behind the next.
pub proof fn lemma_requests_bounded(state: AuthState, events: Seq<AuthEvent>, has_resolver: bool)
    requires
        state_valid(state),
    ensures
        sign_requests(state, events, has_resolver) <= attempts_left(state),
        state is Signing ==> pin_requests(state, events, has_resolver) + 1 <= attempts_left(
            state,
        ),
        !(state is Signing) ==> pin_requests(state, events, has_resolver) <= attempts_left(state),
    decreases events.len(),
{
    if events.len() > 0 {
        lemma_next_state(state, events[0], has_resolver);
        lemma_requests_bounded(
            next_state(state, events[0], has_resolver),
            events.drop_first(),
            has_resolver,
        );
    }
}

/// From the start of a signing, the signature is asked of the card at most
/// `MAX_ATTEMPTS` times and the PIN at most once less.
pub proof fn lemma_attempts_bounded(events: Seq<AuthEvent>, has_resolver: bool)
    ensures
        sign_requests(initial_state(), events, has_resolver) <= MAX_ATTEMPTS,
        pin_requests(initial_state(), events, has_resolver) <= MAX_ATTEMPTS - 1,
{
    lemma_requests_bounded(initial_state(), events, has_resolver);
}

/// A signing that has ended stays ended: the card is asked nothing more, so
/// that one signature at most comes out of one signing.
pub proof fn lemma_ended_stays(state: AuthState, events: Seq<AuthEvent>, has_resolver: bool)
    requires
        state is Succeeded || state is Failed,
    ensures
        state_after(state, events, has_resolver) == state,
        sign_requests(state, events, has_resolver) == 0,
        pin_requests(state, events, has_resolver) == 0,
    decreases events.len(),
{
    if events.len() > 0 {
        lemma_ended_stays(state, events.drop_first(), has_resolver);
    }
}

/// Without a resolver, the first refusal for want of authentication ends the
/// signing with `SmartcardAuth`, and the PIN is never asked.
pub proof fn lemma_no_resolver(attempt: u8, events: Seq<AuthEvent>)
    requires
        1 <= attempt <= MAX_ATTEMPTS,
    ensures
        next_state(AuthState::Signing { attempt }, AuthEvent::AuthenticationError, false)
            == AuthState::Failed(CodesignError::SmartcardAuth),
        pin_requests(AuthState::Signing { attempt }, events, false) == 0,
{
    let state = AuthState::Signing { attempt };
    if events.len() > 0 {
        let next = next_state(state, events[0], false);
        assert(next is Succeeded || next is Failed);
        lemma_ended_stays(next, events.drop_first(), false);
    }
}

/// A signing succeeds only through a signature of the card: the report
/// before the end was that the card has signed.
pub proof fn lemma_success_is_signed(state: AuthState, events: Seq<AuthEvent>, has_resolver: bool)
    requires
        !(state is Succeeded),
        state_after(state, events, has_resolver) is Succeeded,
    ensures
        exists|i: int| 0 <= i < events.len() && events[i] == AuthEvent::Signed,
    decreases events.len(),
{
    if events.len() > 0 {
        let next = next_state(state, events[0], has_resolver);
        if next is Succeeded {
            assert(events[0] == AuthEvent::Signed);
        } else {
            lemma_success_is_signed(next, events.drop_first(), has_resolver);
            let i = choose|i: int|
                0 <= i < events.drop_first().len() && events.drop_first()[i] == AuthEvent::Signed;
            assert(events[i + 1] == AuthEvent::Signed);
        }
    }
}

/// Begins a signing: the state, in which the caller asks the signature of
/// the card.
pub fn begin() -> (state: AuthState)
    ensures
        state == initial_state(),
        state_valid(state),
        action_of(state) == AuthAction::TrySign,
{
    AuthState::Signing { attempt: 1 }
}

/// What the caller does in `state`.
pub fn action(state: AuthState) -> (action: AuthAction)
    ensures
        action == action_of(state),
{
    match state {
        AuthState::Signing { .. } => AuthAction::TrySign,
        AuthState::AwaitingPin { .. } => AuthAction::RequestPin,
        AuthState::Succeeded => AuthAction::ReturnSignature,
        AuthState::Failed(e) => AuthAction::Fail(e),
    }
}

/// Decides what follows when the caller reports `event` in `state`: the next
/// state and what to do in it. `has_resolver` says whether a resolver for
/// the PIN is set.
pub fn step(state: AuthState, event: AuthEvent, has_resolver: bool) -> (next: (
    AuthState,
    AuthAction,
))
    requires
        state_valid(state),
    ensures
        next.0 == next_state(state, event, has_resolver),
        next.1 == action_of(next.0),
        state_valid(next.0),
{
    let next = match state {
        AuthState::Signing { attempt } => match event {
            AuthEvent::Signed => AuthState::Succeeded,
            AuthEvent::AuthenticationError => {
                if attempt >= MAX_ATTEMPTS || !has_resolver {
                    AuthState::Failed(CodesignError::SmartcardAuth)
                } else {
                    AuthState::AwaitingPin { attempt }
                }
            },
            _ => AuthState::Failed(CodesignError::SigningFailed),
        },
        AuthState::AwaitingPin { attempt } => match event {
            AuthEvent::PinVerified => AuthState::Signing { attempt: attempt + 1 },
            AuthEvent::PinRejected => AuthState::Signing { attempt: attempt + 1 },
            AuthEvent::PinUnavailable => AuthState::Failed(CodesignError::SmartcardAuth),
            _ => AuthState::Failed(CodesignError::SigningFailed),
        },
        AuthState::Succeeded => AuthState::Succeeded,
        AuthState::Failed(e) => AuthState::Failed(e),
    };
    (next, action(next))
}

/// The outcome of a signing over the reports `events`: the state after the
/// last report, from the start of a signing.
pub fn attempt_authenticated_operation(events: &Vec<AuthEvent>, has_resolver: bool) -> (state:
    AuthState)
    ensures
        state == state_after(initial_state(), events@, has_resolver),
        state_valid(state),
{
    let mut state = begin();
    let mut i: usize = 0;
    assert(events@.subrange(0, events@.len() as int) =~= events@);
    while i < events.len()
        invariant
            i <= events@.len(),
            state_valid(state),
            state_after(state, events@.subrange(i as int, events@.len() as int), has_resolver)
                == state_after(initial_state(), events@, has_resolver),
        decreases events@.len() - i,
    {
        let ghost rest = events@.subrange(i as int, events@.len() as int);
        let (next, _) = step(state, events[i], has_resolver);
        assert(rest.drop_first() =~= events@.subrange(i + 1, events@.len() as int));
        assert(rest[0] == events@[i as int]);
        state = next;
        i = i + 1;
    }
    assert(events@.subrange(i as int, events@.len() as int) =~= Seq::<AuthEvent>::empty());
    state
}

} // verus!
