//! The update check, step by step: it is told what happened outside and
//! says what to do next, and does nothing outside itself.

use crate::distinct::unique_strings;
use crate::grouping::{as_ints, group_by_registry, lemma_registry_position, Grouping};
use crate::image::{CheckFailure, FailureKind, Image, ImageView, Resolution};
use crate::lookup::{set_contains, set_insert, set_members, set_new};
use crate::model::{
    additions, annotated, annotated_image, auth_for, digest_request, digest_requests,
    fresh_references, image_named, initial, is_new, is_wanted, lemma_slot, names_image,
    names_nothing, references_of, registries_of, rejection_of, rejections, repositories_on,
    scopes_for, slot, state_inv, step_spec, token_request, ActionView, AuthView, EventView, Phase,
    ProtocolError, RejectedView, StateView,
};
use crate::reference::ReferenceParseError;
use crate::registry::{
    digest_outcome_view, digest_outcome_views, find_credentials, make_pull_scope, pull_scope,
    AuthChallenge, DigestOutcome, DigestRequest, ProbeOutcome, RegistryCredentials, TokenOutcome,
    TokenRequest,
};
use rustc_hash::FxHashSet;
use vstd::prelude::*;

verus! {

/// How a registry is to be asked for digests.
#[derive(Debug)]
pub enum Auth {
    /// Without a token.
    Open,
    /// With this token.
    Token(String),
    /// Not at all.
    Failed(CheckFailure),
}

impl View for Auth {
    type V = AuthView;

    open spec fn view(&self) -> AuthView {
        match self {
            Auth::Open => AuthView::Open,
            Auth::Token(token) => AuthView::Token(token@),
            Auth::Failed(failure) => AuthView::Failed(*failure),
        }
    }
}

impl DeepView for Auth {
    type V = AuthView;

    open spec fn deep_view(&self) -> AuthView {
        self@
    }
}

/// A requested reference that names no image, and why.
#[derive(Debug)]
pub struct RejectedReference {
    pub reference: String,
    pub error: ReferenceParseError,
}

impl View for RejectedReference {
    type V = RejectedView;

    open spec fn view(&self) -> RejectedView {
        RejectedView { reference: self.reference@, error: self.error }
    }
}

impl DeepView for RejectedReference {
    type V = RejectedView;

    open spec fn deep_view(&self) -> RejectedView {
        self@
    }
}

/// What the caller reports to the run.
#[derive(Debug)]
pub enum Event {
    /// The images that the runtime knows.
    ImagesListed(Vec<Image>),
    /// The answer of the registry that was to be probed.
    AuthProbed(ProbeOutcome),
    /// The answer to the token request.
    TokenFetched(TokenOutcome),
    /// The answers to the digest requests, one for each, in their order.
    DigestsChecked(Vec<DigestOutcome>),
}

impl View for Event {
    type V = EventView;

    open spec fn view(&self) -> EventView {
        match self {
            Event::ImagesListed(images) => EventView::ImagesListed(images.deep_view()),
            Event::AuthProbed(outcome) => EventView::AuthProbed(outcome@),
            Event::TokenFetched(outcome) => EventView::TokenFetched(outcome@),
            Event::DigestsChecked(outcomes) => EventView::DigestsChecked(
                digest_outcome_views(outcomes@),
            ),
        }
    }
}

/// What the caller is to do next.
#[derive(Debug)]
pub enum Action {
    /// List the images of the runtime, those of `references` if there are
    /// any, and report them.
    ListImages { references: Option<Vec<String>> },
    /// Ask `registry` whether it wants a token, and report its answer.
    ProbeAuth { registry: String },
    /// Make this one token request, and report the answer.
    FetchToken(TokenRequest),
    /// Make all these digest requests, in any order or at once, and report
    /// the answers in the order of the requests.
    CheckDigests(Vec<DigestRequest>),
    /// Stop: these are the images of the run, each with what was found.
    Finish(Vec<Image>),
}

impl View for Action {
    type V = ActionView;

    open spec fn view(&self) -> ActionView {
        match self {
            Action::ListImages { references } => ActionView::ListImages {
                references: references.deep_view(),
            },
            Action::ProbeAuth { registry } => ActionView::ProbeAuth { registry: registry@ },
            Action::FetchToken(request) => ActionView::FetchToken(request@),
            Action::CheckDigests(requests) => ActionView::CheckDigests(requests.deep_view()),
            Action::Finish(images) => ActionView::Finish(images.deep_view()),
        }
    }
}

/// What a step answers, as the model sees it.
pub open spec fn answer_view(answer: Result<Action, ProtocolError>) -> Result<
    ActionView,
    ProtocolError,
> {
    match answer {
        Ok(action) => Ok(action@),
        Err(error) => Err(error),
    }
}

/// One run of the update check.
pub struct Orchestrator {
    phase: Phase,
    references: Option<Vec<String>>,
    credentials: Vec<RegistryCredentials>,
    images: Vec<Image>,
    rejected: Vec<RejectedReference>,
    grouping: Grouping,
    auth: Vec<Auth>,
}

impl View for Orchestrator {
    type V = StateView;

    closed spec fn view(&self) -> StateView {
        StateView {
            phase: self.phase,
            references: self.references.deep_view(),
            credentials: self.credentials.deep_view(),
            images: self.images.deep_view(),
            rejected: self.rejected.deep_view(),
            auth: self.auth.deep_view(),
        }
    }
}

fn copy_strings(items: &Vec<String>) -> (copy: Vec<String>)
    ensures
        copy.deep_view() == items.deep_view(),
{
    let mut copy: Vec<String> = Vec::with_capacity(items.len());
    let mut i: usize = 0;
    while i < items.len()
        invariant
            i <= items.len(),
            copy.deep_view() == items.deep_view().take(i as int),
        decreases items.len() - i,
    {
        let ghost earlier = copy.deep_view();
        copy.push(items[i].clone());
        assert(copy.deep_view() =~= earlier.push(items[i as int]@));
        assert(copy.deep_view() =~= items.deep_view().take(i + 1));
        i += 1;
    }
    assert(items.deep_view().take(items.len() as int) =~= items.deep_view());
    copy
}

fn known_references(listed: &Vec<Image>) -> (known: FxHashSet<String>)
    ensures
        forall|reference: Seq<char>| #[trigger]
            set_members(known).contains(reference) <==> references_of(listed.deep_view()).contains(
                reference,
            ),
{
    let ghost views = listed.deep_view();
    let mut known = set_new();
    let mut i: usize = 0;
    while i < listed.len()
        invariant
            i <= listed.len(),
            views == listed.deep_view(),
            forall|reference: Seq<char>| #[trigger]
                set_members(known).contains(reference) <==> references_of(
                    views.take(i as int),
                ).contains(reference),
        decreases listed.len() - i,
    {
        let ghost before = set_members(known);
        let ghost seen = references_of(views.take(i as int));
        set_insert(&mut known, listed[i].reference().clone());
        proof {
            let grown = references_of(views.take(i + 1));
            assert(grown =~= seen.push(views[i as int].reference));
            assert forall|reference: Seq<char>| #[trigger]
                set_members(known).contains(reference) <==> grown.contains(reference) by {
                if seen.contains(reference) {
                    let j = seen.index_of(reference);
                    assert(grown[j] == reference);
                }
                if reference == views[i as int].reference {
                    assert(grown[i as int] == reference);
                }
                if grown.contains(reference) {
                    let j = grown.index_of(reference);
                    if j < i {
                        assert(seen[j] == reference);
                    }
                }
            }
        }
        i += 1;
    }
    assert(views.take(listed.len() as int) =~= views);
    known
}

/// The listed images and, behind them, the images that the requested
/// references name beyond those; with the requested references that name
/// none.
fn collect(listed: Vec<Image>, references: &Option<Vec<String>>) -> (out: (
    Vec<Image>,
    Vec<RejectedReference>,
))
    ensures
        out.0.deep_view() == listed.deep_view() + additions(
            fresh_references(listed.deep_view(), references.deep_view()),
        ),
        out.1.deep_view() == rejections(
            fresh_references(listed.deep_view(), references.deep_view()),
        ),
{
    let ghost views = listed.deep_view();
    let mut images = listed;
    let mut rejected: Vec<RejectedReference> = Vec::new();
    proof {
        reveal(Seq::filter);
        assert(images.deep_view() =~= views + additions(Seq::empty()));
        assert(rejected.deep_view() =~= rejections(Seq::empty()));
    }
    match references {
        None => {},
        Some(requested) => {
            let known = known_references(&images);
            let candidates = unique_strings(requested);
            let ghost all = candidates.deep_view();
            assert(all.take(0) =~= Seq::empty());
            let mut i: usize = 0;
            while i < candidates.len()
                invariant
                    i <= candidates.len(),
                    all == candidates.deep_view(),
                    forall|reference: Seq<char>| #[trigger]
                        set_members(known).contains(reference) <==> references_of(views).contains(
                            reference,
                        ),
                    images.deep_view() == views + additions(
                        all.take(i as int).filter(is_new(views)),
                    ),
                    rejected.deep_view() == rejections(all.take(i as int).filter(is_new(views))),
                decreases candidates.len() - i,
            {
                let candidate = &candidates[i];
                let ghost fresh = all.take(i as int).filter(is_new(views));
                let ghost had = images.deep_view();
                let ghost left = rejected.deep_view();
                proof {
                    assert(all.take(i + 1) =~= all.take(i as int).push(candidate@));
                    all.take(i as int).lemma_filter_push(candidate@, is_new(views));
                    fresh.lemma_filter_push(candidate@, names_image());
                    fresh.lemma_filter_push(candidate@, names_nothing());
                }
                if !set_contains(&known, candidate) {
                    match Image::from_reference(candidate.as_str(), None) {
                        Ok(image) => {
                            assert(image@ == image_named(candidate@));
                            images.push(image);
                            assert(images.deep_view() =~= had.push(image_named(candidate@)));
                            assert(images.deep_view() =~= views + additions(
                                fresh.push(candidate@),
                            ));
                        },
                        Err(error) => {
                            rejected.push(
                                RejectedReference { reference: candidate.clone(), error },
                            );
                            assert(rejected.deep_view() =~= left.push(rejection_of(candidate@)));
                            assert(rejected.deep_view() =~= rejections(fresh.push(candidate@)));
                        },
                    }
                }
                i += 1;
            }
            assert(all.take(candidates.len() as int) =~= all);
        },
    }
    (images, rejected)
}

/// The one token request for the registry at position `k`.
fn token_request_for(
    images: &Vec<Image>,
    grouping: &Grouping,
    credentials: &Vec<RegistryCredentials>,
    k: usize,
    challenge: AuthChallenge,
) -> (request: TokenRequest)
    requires
        grouping.groups(images.deep_view()),
        k < grouping.registries.len(),
    ensures
        request@ == token_request(
            images.deep_view(),
            credentials.deep_view(),
            registries_of(images.deep_view())[k as int],
            challenge@,
        ),
{
    let ghost views = images.deep_view();
    let ghost registry = grouping.registries[k as int]@;
    assert(grouping.registries.deep_view()[k as int] == registry);
    let members = &grouping.members[k];
    let ghost positions = as_ints(members@);
    let mut repositories: Vec<String> = Vec::with_capacity(members.len());
    let mut j: usize = 0;
    while j < members.len()
        invariant
            j <= members.len(),
            views == images.deep_view(),
            positions == as_ints(members@),
            positions == crate::model::members_of(views, registry),
            repositories.deep_view() == repositories_on(views, registry).take(j as int),
        decreases members.len() - j,
    {
        let ghost earlier = repositories.deep_view();
        proof {
            crate::model::lemma_members_in_bounds(views, registry, j as int);
            assert(positions[j as int] == members[j as int] as int);
        }
        let at = members[j];
        repositories.push(images[at].repository().clone());
        assert(repositories.deep_view() =~= earlier.push(views[at as int].repository));
        assert(repositories.deep_view() =~= repositories_on(views, registry).take(j + 1));
        j += 1;
    }
    assert(repositories_on(views, registry).take(members.len() as int) =~= repositories_on(
        views,
        registry,
    ));
    let distinct = unique_strings(&repositories);
    let mut scopes: Vec<String> = Vec::with_capacity(distinct.len());
    let mut j: usize = 0;
    while j < distinct.len()
        invariant
            j <= distinct.len(),
            distinct.deep_view() == crate::distinct::first_occurrences(
                repositories_on(views, registry),
            ),
            scopes.deep_view() == scopes_for(views, registry).take(j as int),
        decreases distinct.len() - j,
    {
        let ghost earlier = scopes.deep_view();
        scopes.push(make_pull_scope(&distinct[j]));
        assert(scopes.deep_view() =~= earlier.push(pull_scope(distinct[j as int]@)));
        assert(scopes.deep_view() =~= scopes_for(views, registry).take(j + 1));
        j += 1;
    }
    assert(scopes_for(views, registry).take(distinct.len() as int) =~= scopes_for(views, registry));
    let found = find_credentials(credentials, &grouping.registries[k]);
    TokenRequest {
        registry: grouping.registries[k].clone(),
        realm: challenge.realm,
        service: challenge.service,
        scopes,
        credentials: found,
    }
}

/// The digest requests of the run.
fn digest_requests_for(images: &Vec<Image>, grouping: &Grouping, auth: &Vec<Auth>) -> (requests: Vec<
    DigestRequest,
>)
    requires
        grouping.groups(images.deep_view()),
        auth.len() == grouping.registries.len(),
    ensures
        requests.deep_view() == digest_requests(images.deep_view(), auth.deep_view()),
{
    let ghost views = images.deep_view();
    let ghost auths = auth.deep_view();
    let ghost wanted = is_wanted(views, auths);
    let ghost ask = |image: ImageView| digest_request(image, auth_for(views, auths, image.registry));
    let mut requests: Vec<DigestRequest> = Vec::new();
    let mut i: usize = 0;
    proof {
        reveal(Seq::filter);
        assert(views.take(0).filter(wanted) =~= Seq::empty());
        assert(requests.deep_view() =~= views.take(0).filter(wanted).map_values(ask));
    }
    while i < images.len()
        invariant
            i <= images.len(),
            views == images.deep_view(),
            auths == auth.deep_view(),
            wanted == is_wanted(views, auths),
            ask == |image: ImageView| digest_request(image, auth_for(views, auths, image.registry)),
            grouping.groups(views),
            auth.len() == grouping.registries.len(),
            requests.deep_view() == views.take(i as int).filter(wanted).map_values(ask),
        decreases images.len() - i,
    {
        let ghost earlier = requests.deep_view();
        let ghost kept = views.take(i as int).filter(wanted);
        proof {
            lemma_registry_position(grouping, views, i as int);
            assert(views.take(i + 1) =~= views.take(i as int).push(views[i as int]));
            views.take(i as int).lemma_filter_push(views[i as int], wanted);
            assert(auths[grouping.registry_of[i as int] as int] == auth[grouping.registry_of[i as int] as int]@);
        }
        let image = &images[i];
        let token = match &auth[grouping.registry_of[i]] {
            Auth::Open => Some(None),
            Auth::Token(token) => Some(Some(token.clone())),
            Auth::Failed(_) => None,
        };
        match token {
            Some(token) => {
                requests.push(
                    DigestRequest {
                        registry: image.registry().clone(),
                        repository: image.repository().clone(),
                        tag: image.tag().clone(),
                        token,
                    },
                );
                assert(requests.deep_view() =~= earlier.push(ask(views[i as int])));
                assert(requests.deep_view() =~= kept.push(views[i as int]).map_values(ask));
            },
            None => {},
        }
        i += 1;
    }
    assert(views.take(images.len() as int) =~= views);
    requests
}

/// Every image with what the run found out about it.
fn annotate(
    images: &Vec<Image>,
    grouping: &Grouping,
    auth: &Vec<Auth>,
    outcomes: &Vec<DigestOutcome>,
) -> (out: Vec<Image>)
    requires
        grouping.groups(images.deep_view()),
        auth.len() == grouping.registries.len(),
        outcomes.len() == digest_requests(images.deep_view(), auth.deep_view()).len(),
    ensures
        out.deep_view() == annotated(
            images.deep_view(),
            auth.deep_view(),
            digest_outcome_views(outcomes@),
        ),
{
    let ghost views = images.deep_view();
    let ghost auths = auth.deep_view();
    let ghost answers = digest_outcome_views(outcomes@);
    let mut out: Vec<Image> = Vec::with_capacity(images.len());
    let mut next: usize = 0;
    let mut i: usize = 0;
    proof {
        reveal(Seq::filter);
        assert(views.take(0).filter(is_wanted(views, auths)) =~= Seq::empty());
    }
    while i < images.len()
        invariant
            i <= images.len(),
            views == images.deep_view(),
            auths == auth.deep_view(),
            answers == digest_outcome_views(outcomes@),
            grouping.groups(views),
            auth.len() == grouping.registries.len(),
            outcomes.len() == views.filter(is_wanted(views, auths)).len(),
            next == slot(views, auths, i as int),
            out.len() == i,
            forall|j: int| 0 <= j < i ==> (#[trigger] out[j])@ == annotated_image(views, auths, answers, j),
        decreases images.len() - i,
    {
        proof {
            lemma_registry_position(grouping, views, i as int);
            assert(views.take(i + 1) =~= views.take(i as int).push(views[i as int]));
            views.take(i as int).lemma_filter_push(views[i as int], is_wanted(views, auths));
            assert(auths[grouping.registry_of[i as int] as int] == auth[grouping.registry_of[i as int] as int]@);
        }
        let resolution: Resolution = match &auth[grouping.registry_of[i]] {
            Auth::Failed(failure) => Err(*failure),
            _ => {
                proof {
                    lemma_slot(views, auths, i as int);
                    assert(answers[next as int] == digest_outcome_view(outcomes[next as int]));
                }
                let found: Resolution = match &outcomes[next] {
                    Ok(digest) => Ok(digest.clone()),
                    Err(cause) => Err(CheckFailure { kind: FailureKind::DigestFetch, cause: *cause }),
                };
                next += 1;
                found
            },
        };
        out.push(images[i].with_latest(resolution));
        i += 1;
    }
    assert(out.deep_view() =~= annotated(views, auths, answers));
    out
}

impl Orchestrator {
    #[verifier::type_invariant]
    spec fn inv(self) -> bool {
        &&& self.grouping.groups(self.images.deep_view())
        &&& state_inv(self@)
    }

    /// A run that is about to start, with the first thing to do: list the
    /// images. `references` names images to check beside, or among, those of
    /// the runtime; `credentials` are those of the configuration.
    pub fn new(references: Option<Vec<String>>, credentials: Vec<RegistryCredentials>) -> (started: (
        Orchestrator,
        Action,
    ))
        ensures
            started.0@ == initial(references.deep_view(), credentials.deep_view()).0,
            started.1@ == initial(references.deep_view(), credentials.deep_view()).1,
    {
        let asked = match &references {
            Some(requested) => Some(copy_strings(requested)),
            None => None,
        };
        let images: Vec<Image> = Vec::new();
        let grouping = group_by_registry(&images);
        let rejected: Vec<RejectedReference> = Vec::new();
        let auth: Vec<Auth> = Vec::new();
        assert(images.deep_view() =~= Seq::empty());
        assert(rejected.deep_view() =~= Seq::empty());
        assert(auth.deep_view() =~= Seq::empty());
        (
            Orchestrator {
                phase: Phase::Collecting,
                references,
                credentials,
                images,
                rejected,
                grouping,
                auth,
            },
            Action::ListImages { references: asked },
        )
    }

    /// What the run is waiting for.
    pub fn phase(&self) -> (phase: Phase)
        ensures
            phase == self@.phase,
    {
        self.phase
    }

    /// The requested references that were left out of the run because they
    /// name no image. They are known as soon as the images are collected.
    pub fn rejected(&self) -> (rejected: &Vec<RejectedReference>)
        ensures
            rejected.deep_view() == self@.rejected,
    {
        &self.rejected
    }

    /// Goes on to the next registry that is not settled, or, when all are,
    /// to the digests.
    fn proceed(
        references: Option<Vec<String>>,
        credentials: Vec<RegistryCredentials>,
        images: Vec<Image>,
        rejected: Vec<RejectedReference>,
        grouping: Grouping,
        auth: Vec<Auth>,
    ) -> (next: (Orchestrator, Action))
        requires
            grouping.groups(images.deep_view()),
            auth.len() <= grouping.registries.len(),
        ensures
            (next.0@, Ok::<ActionView, ProtocolError>(next.1@)) == crate::model::proceed(
                StateView {
                    phase: Phase::Collecting,
                    references: references.deep_view(),
                    credentials: credentials.deep_view(),
                    images: images.deep_view(),
                    rejected: rejected.deep_view(),
                    auth: auth.deep_view(),
                },
            ),
    {
        if auth.len() < grouping.registries.len() {
            let registry = grouping.registries[auth.len()].clone();
            assert(grouping.registries.deep_view()[auth.len() as int] == registry@);
            (
                Orchestrator {
                    phase: Phase::Probing,
                    references,
                    credentials,
                    images,
                    rejected,
                    grouping,
                    auth,
                },
                Action::ProbeAuth { registry },
            )
        } else {
            let requests = digest_requests_for(&images, &grouping, &auth);
            (
                Orchestrator {
                    phase: Phase::Checking,
                    references,
                    credentials,
                    images,
                    rejected,
                    grouping,
                    auth,
                },
                Action::CheckDigests(requests),
            )
        }
    }

    /// Records `settled` for the registry in turn and goes on.
    fn settle(self, settled: Auth) -> (next: (Orchestrator, Action))
        requires
            self@.phase == Phase::Probing || self@.phase == Phase::FetchingToken,
        ensures
            (next.0@, Ok::<ActionView, ProtocolError>(next.1@)) == crate::model::settle(
                self@,
                settled@,
            ),
    {
        proof {
            use_type_invariant(&self);
        }
        let ghost before = self.auth.deep_view();
        let Orchestrator { phase: _, references, credentials, images, rejected, grouping, auth } =
            self;
        let mut auth = auth;
        auth.push(settled);
        assert(auth.deep_view() =~= before.push(settled@));
        Orchestrator::proceed(references, credentials, images, rejected, grouping, auth)
    }

    /// Takes `event` and says what to do next. An event that does not answer
    /// what was asked last is refused and changes nothing.
    pub fn step(self, event: Event) -> (next: (Orchestrator, Result<Action, ProtocolError>))
        ensures
            next.0@ == step_spec(self@, event@).0,
            answer_view(next.1) == step_spec(self@, event@).1,
    {
        proof {
            use_type_invariant(&self);
        }
        match (self.phase, event) {
            (Phase::Collecting, Event::ImagesListed(listed)) => {
                let Orchestrator {
                    phase: _,
                    references,
                    credentials,
                    images: _,
                    rejected: _,
                    grouping: _,
                    auth: _,
                } = self;
                let (images, rejected) = collect(listed, &references);
                let grouping = group_by_registry(&images);
                let auth: Vec<Auth> = Vec::new();
                assert(auth.deep_view() =~= self@.auth);
                let (machine, action) = Orchestrator::proceed(
                    references,
                    credentials,
                    images,
                    rejected,
                    grouping,
                    auth,
                );
                (machine, Ok(action))
            },
            (Phase::Probing, Event::AuthProbed(outcome)) => match outcome {
                ProbeOutcome::Open => {
                    let (machine, action) = self.settle(Auth::Open);
                    (machine, Ok(action))
                },
                ProbeOutcome::Challenged(challenge) => {
                    let request = token_request_for(
                        &self.images,
                        &self.grouping,
                        &self.credentials,
                        self.auth.len(),
                        challenge,
                    );
                    let Orchestrator {
                        phase: _,
                        references,
                        credentials,
                        images,
                        rejected,
                        grouping,
                        auth,
                    } = self;
                    (
                        Orchestrator {
                            phase: Phase::FetchingToken,
                            references,
                            credentials,
                            images,
                            rejected,
                            grouping,
                            auth,
                        },
                        Ok(Action::FetchToken(request)),
                    )
                },
                ProbeOutcome::Failed(cause) => {
                    let (machine, action) = self.settle(
                        Auth::Failed(CheckFailure { kind: FailureKind::AuthProbe, cause }),
                    );
                    (machine, Ok(action))
                },
            },
            (Phase::FetchingToken, Event::TokenFetched(outcome)) => match outcome {
                TokenOutcome::Granted(token) => {
                    let (machine, action) = self.settle(Auth::Token(token));
                    (machine, Ok(action))
                },
                TokenOutcome::Failed(cause) => {
                    let (machine, action) = self.settle(
                        Auth::Failed(CheckFailure { kind: FailureKind::TokenAcquisition, cause }),
                    );
                    (machine, Ok(action))
                },
            },
            (Phase::Checking, Event::DigestsChecked(outcomes)) => {
                let expected = self.count_requests();
                if outcomes.len() == expected {
                    let images = annotate(&self.images, &self.grouping, &self.auth, &outcomes);
                    let Orchestrator {
                        phase: _,
                        references,
                        credentials,
                        images: _,
                        rejected,
                        grouping: _,
                        auth: _,
                    } = self;
                    let none: Vec<Image> = Vec::new();
                    let grouping = group_by_registry(&none);
                    let auth: Vec<Auth> = Vec::new();
                    assert(none.deep_view() =~= Seq::empty());
                    assert(auth.deep_view() =~= Seq::empty());
                    (
                        Orchestrator {
                            phase: Phase::Done,
                            references,
                            credentials,
                            images: none,
                            rejected,
                            grouping,
                            auth,
                        },
                        Ok(Action::Finish(images)),
                    )
                } else {
                    (self, Err(ProtocolError::WrongNumberOfAnswers))
                }
            },
            _ => (self, Err(ProtocolError::UnexpectedEvent)),
        }
    }

    /// The number of digest requests of the run.
    fn count_requests(&self) -> (count: usize)
        requires
            self@.phase == Phase::Checking,
        ensures
            count == digest_requests(self@.images, self@.auth).len(),
    {
        proof {
            use_type_invariant(self);
        }
        let ghost views = self.images.deep_view();
        let ghost auths = self.auth.deep_view();
        let mut count: usize = 0;
        let mut i: usize = 0;
        proof {
            reveal(Seq::filter);
            assert(views.take(0).filter(is_wanted(views, auths)) =~= Seq::empty());
        }
        while i < self.images.len()
            invariant
                i <= self.images.len(),
                views == self.images.deep_view(),
                auths == self.auth.deep_view(),
                self.grouping.groups(views),
                self.auth.len() == self.grouping.registries.len(),
                count == slot(views, auths, i as int),
                count <= i,
            decreases self.images.len() - i,
        {
            proof {
                lemma_registry_position(&self.grouping, views, i as int);
                assert(views.take(i + 1) =~= views.take(i as int).push(views[i as int]));
                views.take(i as int).lemma_filter_push(views[i as int], is_wanted(views, auths));
                assert(auths[self.grouping.registry_of[i as int] as int] == self.auth[self.grouping.registry_of[i as int] as int]@);
            }
            match &self.auth[self.grouping.registry_of[i]] {
                Auth::Failed(_) => {},
                _ => {
                    count += 1;
                },
            }
            i += 1;
        }
        assert(views.take(self.images.len() as int) =~= views);
        count
    }
}

} // verus!
