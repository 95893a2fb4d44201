//! The update check as a state machine over plain values: what each answer
//! from outside leads to, and what is asked next.
//!
//! A run collects the images, groups them by registry, settles for each
//! registry in turn whether and with which token it may be asked, then asks
//! for all digests at once, and ends with every image annotated.

use crate::distinct::first_occurrences;
use crate::image::{CheckFailure, FailureKind, ImageView, RequestFailure};
use crate::reference::{reference_parts, ReferenceParseError};
use crate::registry::{
    credentials_for, pull_scope, AuthChallengeView, DigestRequestView, ProbeOutcomeView,
    RegistryCredentialsView, TokenOutcomeView, TokenRequestView,
};
use vstd::prelude::*;

verus! {

/// What a run is waiting for. A run rests only where something outside has
/// to happen: the images are grouped by registry within the step that takes
/// them, and settling a registry rests twice where the registry wants a
/// token.
#[derive(Clone, Copy, Debug, PartialEq, Eq, Structural)]
pub enum Phase {
    /// The images that the runtime knows.
    Collecting,
    /// The answer of the next registry to the question whether it wants a
    /// token.
    Probing,
    /// The token for the registry that was probed last.
    FetchingToken,
    /// The digests of all images that can be asked for.
    Checking,
    /// Nothing: the run is over.
    Done,
}

/// An event that the run cannot take.
#[derive(Clone, Copy, Debug, PartialEq, Eq, Structural)]
pub enum ProtocolError {
    /// The event does not answer what was asked last.
    UnexpectedEvent,
    /// There is not one digest answer for each digest request.
    WrongNumberOfAnswers,
}

/// How a registry is to be asked for digests.
pub enum AuthView {
    /// Without a token.
    Open,
    /// With this token.
    Token(Seq<char>),
    /// Not at all.
    Failed(CheckFailure),
}

/// A requested reference that names no image.
pub struct RejectedView {
    pub reference: Seq<char>,
    pub error: ReferenceParseError,
}

/// The state of a run.
pub struct StateView {
    pub phase: Phase,
    /// The references that were asked for by name, if any were.
    pub references: Option<Seq<Seq<char>>>,
    pub credentials: Seq<RegistryCredentialsView>,
    /// The images of the run, once collected.
    pub images: Seq<ImageView>,
    /// The requested references that were left out because they name no
    /// image.
    pub rejected: Seq<RejectedView>,
    /// What was settled for the first registries, in their order.
    pub auth: Seq<AuthView>,
}

/// What the outside reports.
pub enum EventView {
    ImagesListed(Seq<ImageView>),
    AuthProbed(ProbeOutcomeView),
    TokenFetched(TokenOutcomeView),
    DigestsChecked(Seq<Result<Seq<char>, RequestFailure>>),
}

/// What the outside is to do next.
pub enum ActionView {
    ListImages { references: Option<Seq<Seq<char>>> },
    ProbeAuth { registry: Seq<char> },
    FetchToken(TokenRequestView),
    CheckDigests(Seq<DigestRequestView>),
    Finish(Seq<ImageView>),
}

/// The reference of each image.
pub open spec fn references_of(images: Seq<ImageView>) -> Seq<Seq<char>> {
    images.map_values(|image: ImageView| image.reference)
}

/// Holds of a reference that none of `listed` has.
pub open spec fn is_new(listed: Seq<ImageView>) -> spec_fn(Seq<char>) -> bool {
    |reference: Seq<char>| !references_of(listed).contains(reference)
}

/// The requested references that no listed image has, each once, in the
/// order of the request.
pub open spec fn fresh_references(listed: Seq<ImageView>, requested: Option<Seq<Seq<char>>>) -> Seq<
    Seq<char>,
> {
    match requested {
        Some(references) => first_occurrences(references).filter(is_new(listed)),
        None => Seq::empty(),
    }
}

/// Holds of a reference that names an image.
pub open spec fn names_image() -> spec_fn(Seq<char>) -> bool {
    |reference: Seq<char>| reference_parts(reference) is Ok
}

/// Holds of a reference that names no image.
pub open spec fn names_nothing() -> spec_fn(Seq<char>) -> bool {
    |reference: Seq<char>| reference_parts(reference) is Err
}

/// The image that `reference` names, of which nothing else is known.
pub open spec fn image_named(reference: Seq<char>) -> ImageView {
    let parts = reference_parts(reference)->Ok_0;
    ImageView {
        reference,
        registry: parts.registry,
        repository: parts.repository,
        tag: parts.tag,
        current_digest: None,
        latest_digest: None,
    }
}

/// Why `reference` names no image.
pub open spec fn rejection_of(reference: Seq<char>) -> RejectedView {
    RejectedView { reference, error: reference_parts(reference)->Err_0 }
}

/// The images that the references of `fresh` name.
pub open spec fn additions(fresh: Seq<Seq<char>>) -> Seq<ImageView> {
    fresh.filter(names_image()).map_values(|reference: Seq<char>| image_named(reference))
}

/// The references of `fresh` that name no image, each with the reason.
pub open spec fn rejections(fresh: Seq<Seq<char>>) -> Seq<RejectedView> {
    fresh.filter(names_nothing()).map_values(|reference: Seq<char>| rejection_of(reference))
}

/// The registry of each image.
pub open spec fn registry_names(images: Seq<ImageView>) -> Seq<Seq<char>> {
    images.map_values(|image: ImageView| image.registry)
}

/// The registries that the images belong to, each once, in the order in
/// which the images first name them.
pub open spec fn registries_of(images: Seq<ImageView>) -> Seq<Seq<char>> {
    first_occurrences(registry_names(images))
}

/// The indices of the images that belong to `registry`, ascending.
pub open spec fn members_of(images: Seq<ImageView>, registry: Seq<char>) -> Seq<int>
    decreases images.len(),
{
    if images.len() == 0 {
        Seq::empty()
    } else {
        let earlier = members_of(images.drop_last(), registry);
        if images.last().registry == registry {
            earlier.push(images.len() - 1)
        } else {
            earlier
        }
    }
}

/// The repositories of the images that belong to `registry`, one for each
/// image.
pub open spec fn repositories_on(images: Seq<ImageView>, registry: Seq<char>) -> Seq<Seq<char>> {
    members_of(images, registry).map_values(|i: int| images[i].repository)
}

/// The scopes that one token for `registry` has to cover: one for each
/// repository of its images, however many images share it.
pub open spec fn scopes_for(images: Seq<ImageView>, registry: Seq<char>) -> Seq<Seq<char>> {
    first_occurrences(repositories_on(images, registry)).map_values(
        |repository: Seq<char>| pull_scope(repository),
    )
}

/// The one token request of a run for `registry`.
pub open spec fn token_request(
    images: Seq<ImageView>,
    credentials: Seq<RegistryCredentialsView>,
    registry: Seq<char>,
    challenge: AuthChallengeView,
) -> TokenRequestView {
    TokenRequestView {
        registry,
        realm: challenge.realm,
        service: challenge.service,
        scopes: scopes_for(images, registry),
        credentials: credentials_for(credentials, registry),
    }
}

/// What was settled for `registry`.
pub open spec fn auth_for(images: Seq<ImageView>, auth: Seq<AuthView>, registry: Seq<char>) -> AuthView {
    auth[registries_of(images).index_of(registry)]
}

/// The token to bear under `auth`.
pub open spec fn token_of(auth: AuthView) -> Option<Seq<char>> {
    match auth {
        AuthView::Token(token) => Some(token),
        _ => None,
    }
}

/// Holds of an image whose registry can be asked.
pub open spec fn is_wanted(images: Seq<ImageView>, auth: Seq<AuthView>) -> spec_fn(ImageView) -> bool {
    |image: ImageView| !(auth_for(images, auth, image.registry) is Failed)
}

/// The request for the digest of `image` under `auth`.
pub open spec fn digest_request(image: ImageView, auth: AuthView) -> DigestRequestView {
    DigestRequestView {
        registry: image.registry,
        repository: image.repository,
        tag: image.tag,
        token: token_of(auth),
    }
}

/// The digest requests of a run: one for each image whose registry can be
/// asked, in the order of the images.
pub open spec fn digest_requests(images: Seq<ImageView>, auth: Seq<AuthView>) -> Seq<DigestRequestView> {
    images.filter(is_wanted(images, auth)).map_values(
        |image: ImageView| digest_request(image, auth_for(images, auth, image.registry)),
    )
}

/// The place of the request for image `i` among the digest requests: the
/// number of images before it whose registry can be asked.
pub open spec fn slot(images: Seq<ImageView>, auth: Seq<AuthView>, i: int) -> int {
    images.take(i).filter(is_wanted(images, auth)).len() as int
}

/// What a digest answer means for the image it is about.
pub open spec fn digest_result(outcome: Result<Seq<char>, RequestFailure>) -> Result<
    Seq<char>,
    CheckFailure,
> {
    match outcome {
        Ok(digest) => Ok(digest),
        Err(cause) => Err(CheckFailure { kind: FailureKind::DigestFetch, cause }),
    }
}

/// Image `i` with what the run found out about it: the failure of its
/// registry, or else the answer to its own digest request.
pub open spec fn annotated_image(
    images: Seq<ImageView>,
    auth: Seq<AuthView>,
    outcomes: Seq<Result<Seq<char>, RequestFailure>>,
    i: int,
) -> ImageView {
    match auth_for(images, auth, images[i].registry) {
        AuthView::Failed(failure) => images[i].resolved(Err(failure)),
        _ => images[i].resolved(digest_result(outcomes[slot(images, auth, i)])),
    }
}

/// Every image with what the run found out about it.
pub open spec fn annotated(
    images: Seq<ImageView>,
    auth: Seq<AuthView>,
    outcomes: Seq<Result<Seq<char>, RequestFailure>>,
) -> Seq<ImageView> {
    Seq::new(images.len(), |i: int| annotated_image(images, auth, outcomes, i))
}

/// The state before anything is known, and the first thing to ask.
pub open spec fn initial(
    references: Option<Seq<Seq<char>>>,
    credentials: Seq<RegistryCredentialsView>,
) -> (StateView, ActionView) {
    (
        StateView {
            phase: Phase::Collecting,
            references,
            credentials,
            images: Seq::empty(),
            rejected: Seq::empty(),
            auth: Seq::empty(),
        },
        ActionView::ListImages { references },
    )
}

/// Goes on to the next registry that is not settled, or, when all are, to
/// the digests.
pub open spec fn proceed(s: StateView) -> (StateView, Result<ActionView, ProtocolError>) {
    let registries = registries_of(s.images);
    if s.auth.len() < registries.len() {
        (
            StateView { phase: Phase::Probing, ..s },
            Ok(ActionView::ProbeAuth { registry: registries[s.auth.len() as int] }),
        )
    } else {
        (
            StateView { phase: Phase::Checking, ..s },
            Ok(ActionView::CheckDigests(digest_requests(s.images, s.auth))),
        )
    }
}

/// Records `auth` for the registry in turn and goes on.
pub open spec fn settle(s: StateView, auth: AuthView) -> (StateView, Result<ActionView, ProtocolError>) {
    proceed(StateView { auth: s.auth.push(auth), ..s })
}

/// The state after `event`, and what to do next; or the state as it was,
/// and why the event cannot be taken.
pub open spec fn step_spec(s: StateView, event: EventView) -> (
    StateView,
    Result<ActionView, ProtocolError>,
) {
    match (s.phase, event) {
        (Phase::Collecting, EventView::ImagesListed(listed)) => {
            let fresh = fresh_references(listed, s.references);
            proceed(StateView { images: listed + additions(fresh), rejected: rejections(fresh), ..s })
        },
        (Phase::Probing, EventView::AuthProbed(outcome)) => match outcome {
            ProbeOutcomeView::Open => settle(s, AuthView::Open),
            ProbeOutcomeView::Challenged(challenge) => (
                StateView { phase: Phase::FetchingToken, ..s },
                Ok(
                    ActionView::FetchToken(
                        token_request(
                            s.images,
                            s.credentials,
                            registries_of(s.images)[s.auth.len() as int],
                            challenge,
                        ),
                    ),
                ),
            ),
            ProbeOutcomeView::Failed(cause) => settle(
                s,
                AuthView::Failed(CheckFailure { kind: FailureKind::AuthProbe, cause }),
            ),
        },
        (Phase::FetchingToken, EventView::TokenFetched(outcome)) => match outcome {
            TokenOutcomeView::Granted(token) => settle(s, AuthView::Token(token)),
            TokenOutcomeView::Failed(cause) => settle(
                s,
                AuthView::Failed(CheckFailure { kind: FailureKind::TokenAcquisition, cause }),
            ),
        },
        (Phase::Checking, EventView::DigestsChecked(outcomes)) => {
            if outcomes.len() == digest_requests(s.images, s.auth).len() {
                (
                    StateView { phase: Phase::Done, images: Seq::empty(), auth: Seq::empty(), ..s },
                    Ok(ActionView::Finish(annotated(s.images, s.auth, outcomes))),
                )
            } else {
                (s, Err(ProtocolError::WrongNumberOfAnswers))
            }
        },
        _ => (s, Err(ProtocolError::UnexpectedEvent)),
    }
}

/// What holds of the state of every run.
pub open spec fn state_inv(s: StateView) -> bool {
    match s.phase {
        Phase::Collecting => s.images.len() == 0 && s.auth.len() == 0,
        Phase::Probing => s.auth.len() < registries_of(s.images).len(),
        Phase::FetchingToken => s.auth.len() < registries_of(s.images).len(),
        Phase::Checking => s.auth.len() == registries_of(s.images).len(),
        Phase::Done => s.images.len() == 0 && s.auth.len() == 0,
    }
}

/// The members of a registry are positions of images of that registry.
pub proof fn lemma_members_in_bounds(images: Seq<ImageView>, registry: Seq<char>, j: int)
    requires
        0 <= j < members_of(images, registry).len(),
    ensures
        0 <= members_of(images, registry)[j] < images.len(),
        images[members_of(images, registry)[j]].registry == registry,
    decreases images.len(),
{
    if images.len() > 0 {
        let earlier = members_of(images.drop_last(), registry);
        if j < earlier.len() {
            lemma_members_in_bounds(images.drop_last(), registry, j);
        }
    }
}

/// The request for an image whose registry can be asked stands at the
/// image's slot.
pub proof fn lemma_slot(images: Seq<ImageView>, auth: Seq<AuthView>, i: int)
    requires
        0 <= i < images.len(),
        is_wanted(images, auth)(images[i]),
    ensures
        0 <= slot(images, auth, i) < images.filter(is_wanted(images, auth)).len(),
        images.filter(is_wanted(images, auth))[slot(images, auth, i)] == images[i],
{
    let wanted = is_wanted(images, auth);
    let head = images.take(i + 1);
    let tail = images.skip(i + 1);
    assert(head =~= images.take(i).push(images[i]));
    images.take(i).lemma_filter_push(images[i], wanted);
    assert(images =~= head + tail);
    Seq::filter_distributes_over_add(head, tail, wanted);
}

/// Every step keeps what holds of every run, and so does the start.
pub proof fn lemma_step_keeps_inv(s: StateView, event: EventView)
    requires
        state_inv(s),
    ensures
        state_inv(step_spec(s, event).0),
{
    crate::distinct::lemma_first_occurrences(registry_names(s.images));
    match (s.phase, event) {
        (Phase::Collecting, EventView::ImagesListed(listed)) => {
            let fresh = fresh_references(listed, s.references);
            let images = listed + additions(fresh);
            crate::distinct::lemma_first_occurrences(registry_names(images));
        },
        _ => {},
    }
}

} // verus!
