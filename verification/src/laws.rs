//! What holds of every run of the update check.
//!
//! The registries are taken as they answer: a `Remote` says, for each
//! question that a run may ask, what the answer is. A run that is answered
//! from one `Remote` throughout reports of each image what `updates` says,
//! and nothing else; the laws below follow from that, or hold whatever the
//! answers are.

use crate::distinct::lemma_first_occurrences;
use crate::grouping::lemma_index_of_unique;
use crate::image::{verdict_of, CheckFailure, FailureKind, ImageView, RequestFailure};
use crate::model::{
    additions, annotated, annotated_image, digest_request, digest_requests, digest_result,
    fresh_references, initial, lemma_slot, lemma_step_keeps_inv, registries_of, registry_names,
    settle, slot, state_inv, step_spec, token_request, ActionView, AuthView, EventView, Phase,
    StateView,
};
use crate::registry::{
    DigestRequestView, ProbeOutcomeView, RegistryCredentialsView, TokenOutcomeView,
    TokenRequestView,
};
use vstd::prelude::*;

verus! {

/// The registries as they answer during one run.
pub struct Remote {
    /// What a registry answers when asked whether it wants a token.
    pub probe: spec_fn(Seq<char>) -> ProbeOutcomeView,
    /// What a token endpoint answers to a request.
    pub token: spec_fn(TokenRequestView) -> TokenOutcomeView,
    /// What a registry answers when asked for a digest.
    pub digest: spec_fn(DigestRequestView) -> Result<Seq<char>, RequestFailure>,
}

/// How `registry` is to be asked for digests, going by its answers.
pub open spec fn settled(
    remote: Remote,
    images: Seq<ImageView>,
    credentials: Seq<RegistryCredentialsView>,
    registry: Seq<char>,
) -> AuthView {
    match (remote.probe)(registry) {
        ProbeOutcomeView::Open => AuthView::Open,
        ProbeOutcomeView::Challenged(challenge) => match (remote.token)(
            token_request(images, credentials, registry, challenge),
        ) {
            TokenOutcomeView::Granted(token) => AuthView::Token(token),
            TokenOutcomeView::Failed(cause) => AuthView::Failed(
                CheckFailure { kind: FailureKind::TokenAcquisition, cause },
            ),
        },
        ProbeOutcomeView::Failed(cause) => AuthView::Failed(
            CheckFailure { kind: FailureKind::AuthProbe, cause },
        ),
    }
}

/// Image `i` with what its registry answers: the failure to settle how to
/// ask it, or else the answer to the request for the image's digest.
pub open spec fn updated_image(
    remote: Remote,
    images: Seq<ImageView>,
    credentials: Seq<RegistryCredentialsView>,
    i: int,
) -> ImageView {
    match settled(remote, images, credentials, images[i].registry) {
        AuthView::Failed(failure) => images[i].resolved(Err(failure)),
        auth => images[i].resolved(digest_result((remote.digest)(digest_request(images[i], auth)))),
    }
}

/// Every image of `images` with what its registry answers.
pub open spec fn updates_of(
    remote: Remote,
    images: Seq<ImageView>,
    credentials: Seq<RegistryCredentialsView>,
) -> Seq<ImageView> {
    Seq::new(images.len(), |i: int| updated_image(remote, images, credentials, i))
}

/// What a check of the listed images and the requested references reports.
pub open spec fn updates(
    remote: Remote,
    listed: Seq<ImageView>,
    requested: Option<Seq<Seq<char>>>,
    credentials: Seq<RegistryCredentialsView>,
) -> Seq<ImageView> {
    updates_of(remote, listed + additions(fresh_references(listed, requested)), credentials)
}

/// The event that answers `action` when the runtime lists `listed` and the
/// registries answer as `remote` says.
pub open spec fn reply(remote: Remote, listed: Seq<ImageView>, action: ActionView) -> EventView {
    match action {
        ActionView::ListImages { references } => EventView::ImagesListed(listed),
        ActionView::ProbeAuth { registry } => EventView::AuthProbed((remote.probe)(registry)),
        ActionView::FetchToken(request) => EventView::TokenFetched((remote.token)(request)),
        ActionView::CheckDigests(requests) => EventView::DigestsChecked(
            requests.map_values(|request: DigestRequestView| (remote.digest)(request)),
        ),
        ActionView::Finish(images) => EventView::ImagesListed(images),
    }
}

/// What a run reports that does `action` next and is answered as `remote`
/// says, if it ends within `fuel` steps and no step is refused.
pub open spec fn run(
    remote: Remote,
    listed: Seq<ImageView>,
    s: StateView,
    action: ActionView,
    fuel: nat,
) -> Option<Seq<ImageView>>
    decreases fuel,
{
    match action {
        ActionView::Finish(images) => Some(images),
        _ => if fuel == 0 {
            None
        } else {
            let next = step_spec(s, reply(remote, listed, action));
            match next.1 {
                Ok(then) => run(remote, listed, next.0, then, (fuel - 1) as nat),
                Err(_) => None,
            }
        },
    }
}

/// Whether what is settled in `s` is what the registries answer.
pub open spec fn settled_so_far(remote: Remote, s: StateView) -> bool {
    forall|k: int|
        0 <= k < s.auth.len() ==> #[trigger] s.auth[k] == settled(
            remote,
            s.images,
            s.credentials,
            registries_of(s.images)[k],
        )
}

/// Whether `action` is what a run in state `s` has asked for last.
pub open spec fn awaited(remote: Remote, s: StateView, action: ActionView) -> bool {
    let registry = registries_of(s.images)[s.auth.len() as int];
    match s.phase {
        Phase::Probing => action == (ActionView::ProbeAuth { registry }),
        Phase::FetchingToken => (remote.probe)(registry) is Challenged && action
            == ActionView::FetchToken(
            token_request(s.images, s.credentials, registry, (remote.probe)(registry)->Challenged_0),
        ),
        Phase::Checking => action == ActionView::CheckDigests(digest_requests(s.images, s.auth)),
        _ => false,
    }
}

/// The most steps that a run in state `s` still takes.
pub open spec fn steps_left(s: StateView) -> nat {
    let open = (registries_of(s.images).len() - s.auth.len()) as nat;
    match s.phase {
        Phase::Collecting => 2 * open + 2,
        Phase::Probing => 2 * open + 1,
        Phase::FetchingToken => 2 * open,
        Phase::Checking => 1,
        Phase::Done => 0,
    }
}

/// Settling the registry in turn as it answers keeps a run on its way.
proof fn lemma_settle(remote: Remote, s: StateView, auth: AuthView)
    requires
        state_inv(s),
        s.phase == Phase::Probing || s.phase == Phase::FetchingToken,
        settled_so_far(remote, s),
        auth == settled(remote, s.images, s.credentials, registries_of(s.images)[s.auth.len() as int]),
    ensures
        settle(s, auth).1 is Ok,
        state_inv(settle(s, auth).0),
        settled_so_far(remote, settle(s, auth).0),
        awaited(remote, settle(s, auth).0, settle(s, auth).1->Ok_0),
        settle(s, auth).0.images == s.images,
        settle(s, auth).0.credentials == s.credentials,
        steps_left(settle(s, auth).0) < steps_left(s),
        s.phase == Phase::Probing ==> steps_left(settle(s, auth).0) + 1 < steps_left(s),
{
    let next = settle(s, auth).0;
    assert forall|k: int| 0 <= k < next.auth.len() implies #[trigger] next.auth[k] == settled(
        remote,
        next.images,
        next.credentials,
        registries_of(next.images)[k],
    ) by {
        if k < s.auth.len() {
            assert(next.auth[k] == s.auth[k]);
        }
    }
}

/// The digests that a run asks for, answered by the registries, annotate
/// the images as the registries answer.
proof fn lemma_checked(remote: Remote, s: StateView)
    requires
        s.phase == Phase::Checking,
        state_inv(s),
        settled_so_far(remote, s),
    ensures
        annotated(
            s.images,
            s.auth,
            digest_requests(s.images, s.auth).map_values(
                |request: DigestRequestView| (remote.digest)(request),
            ),
        ) == updates_of(remote, s.images, s.credentials),
{
    let images = s.images;
    let registries = registries_of(images);
    let requests = digest_requests(images, s.auth);
    let outcomes = requests.map_values(|request: DigestRequestView| (remote.digest)(request));
    lemma_first_occurrences(registry_names(images));
    assert forall|i: int| 0 <= i < images.len() implies annotated_image(images, s.auth, outcomes, i)
        == updated_image(remote, images, s.credentials, i) by {
        let registry = images[i].registry;
        assert(registry_names(images)[i] == registry);
        assert(registries.contains(registry));
        let k = registries.index_of(registry);
        assert(s.auth[k] == settled(remote, images, s.credentials, registries[k]));
        if !(s.auth[k] is Failed) {
            lemma_slot(images, s.auth, i);
            let at = slot(images, s.auth, i);
            assert(requests[at] == digest_request(images[i], s.auth[k]));
            assert(outcomes[at] == (remote.digest)(requests[at]));
        }
    }
    assert(annotated(images, s.auth, outcomes) =~= updates_of(remote, images, s.credentials));
}

/// The first step of a run, answered with the listed images: it collects
/// the images of the run and asks the first question about them.
pub proof fn lemma_first_step(
    remote: Remote,
    listed: Seq<ImageView>,
    requested: Option<Seq<Seq<char>>>,
    credentials: Seq<RegistryCredentialsView>,
)
    ensures
        ({
            let start = initial(requested, credentials);
            let next = step_spec(start.0, reply(remote, listed, start.1));
            &&& next.1 is Ok
            &&& state_inv(next.0)
            &&& settled_so_far(remote, next.0)
            &&& awaited(remote, next.0, next.1->Ok_0)
            &&& next.0.images == listed + additions(fresh_references(listed, requested))
            &&& next.0.credentials == credentials
            &&& steps_left(next.0) <= 2 * registries_of(next.0.images).len() + 1
        }),
{
    let start = initial(requested, credentials);
    lemma_step_keeps_inv(start.0, reply(remote, listed, start.1));
}

/// One step of a run that has collected its images and is answered as
/// `remote` says: it is not refused, and it either ends the run with what
/// the registries answer for each image, or leaves the run on its way with
/// fewer steps to go.
pub proof fn lemma_answered_step(
    remote: Remote,
    listed: Seq<ImageView>,
    s: StateView,
    action: ActionView,
)
    requires
        state_inv(s),
        settled_so_far(remote, s),
        awaited(remote, s, action),
    ensures
        ({
            let next = step_spec(s, reply(remote, listed, action));
            &&& next.1 is Ok
            &&& state_inv(next.0)
            &&& steps_left(next.0) < steps_left(s)
            &&& if next.1->Ok_0 is Finish {
                next.1->Ok_0 == ActionView::Finish(updates_of(remote, s.images, s.credentials))
            } else {
                &&& settled_so_far(remote, next.0)
                &&& awaited(remote, next.0, next.1->Ok_0)
                &&& next.0.images == s.images
                &&& next.0.credentials == s.credentials
            }
        }),
{
    let registry = registries_of(s.images)[s.auth.len() as int];
    let next = step_spec(s, reply(remote, listed, action));
    match s.phase {
        Phase::Probing => {
            match (remote.probe)(registry) {
                ProbeOutcomeView::Challenged(challenge) => {},
                _ => {
                    let auth = settled(remote, s.images, s.credentials, registry);
                    lemma_settle(remote, s, auth);
                    assert(next == settle(s, auth));
                },
            }
        },
        Phase::FetchingToken => {
            let auth = settled(remote, s.images, s.credentials, registry);
            lemma_settle(remote, s, auth);
            assert(next == settle(s, auth));
        },
        Phase::Checking => {
            lemma_checked(remote, s);
        },
        _ => {},
    }
}

/// A run that has collected its images and is answered as `remote` says ends
/// with what the registries answer for each image.
proof fn lemma_run_from(
    remote: Remote,
    listed: Seq<ImageView>,
    s: StateView,
    action: ActionView,
    fuel: nat,
)
    requires
        state_inv(s),
        settled_so_far(remote, s),
        awaited(remote, s, action),
        fuel >= steps_left(s),
    ensures
        run(remote, listed, s, action, fuel) == Some(updates_of(remote, s.images, s.credentials)),
    decreases fuel,
{
    let next = step_spec(s, reply(remote, listed, action));
    lemma_answered_step(remote, listed, s, action);
    assert(fuel > 0);
    assert(!(action is Finish));
    if next.1->Ok_0 is Finish {
        assert(run(remote, listed, next.0, next.1->Ok_0, (fuel - 1) as nat) == Some(
            next.1->Ok_0->Finish_0,
        ));
    } else {
        lemma_run_from(remote, listed, next.0, next.1->Ok_0, (fuel - 1) as nat);
    }
}

/// A run from the start that is answered as `remote` says throughout
/// reports `updates`: for every image, listed or added, what its registry
/// answers, in the order of the images.
pub proof fn law_run_reports_updates(
    remote: Remote,
    listed: Seq<ImageView>,
    requested: Option<Seq<Seq<char>>>,
    credentials: Seq<RegistryCredentialsView>,
    fuel: nat,
)
    requires
        fuel >= 2 * registries_of(listed + additions(fresh_references(listed, requested))).len() + 2,
    ensures
        run(
            remote,
            listed,
            initial(requested, credentials).0,
            initial(requested, credentials).1,
            fuel,
        ) == Some(updates(remote, listed, requested, credentials)),
{
    let start = initial(requested, credentials);
    let next = step_spec(start.0, reply(remote, listed, start.1));
    lemma_step_keeps_inv(start.0, reply(remote, listed, start.1));
    assert(next.1 is Ok);
    lemma_run_from(remote, listed, next.0, next.1->Ok_0, (fuel - 1) as nat);
}

/// Checking twice against registries that answer the same gives the same
/// verdict on every image.
pub proof fn law_same_answers_same_verdicts(
    remote: Remote,
    listed: Seq<ImageView>,
    requested: Option<Seq<Seq<char>>>,
    credentials: Seq<RegistryCredentialsView>,
    first_fuel: nat,
    second_fuel: nat,
)
    requires
        first_fuel >= 2 * registries_of(listed + additions(fresh_references(listed, requested))).len() + 2,
        second_fuel >= 2 * registries_of(listed + additions(fresh_references(listed, requested))).len() + 2,
    ensures
        ({
            let start = initial(requested, credentials);
            let first = run(remote, listed, start.0, start.1, first_fuel);
            let second = run(remote, listed, start.0, start.1, second_fuel);
            &&& first is Some
            &&& second == first
            &&& first->Some_0.map_values(|image: ImageView| verdict_of(image))
                == second->Some_0.map_values(|image: ImageView| verdict_of(image))
        }),
{
    law_run_reports_updates(remote, listed, requested, credentials, first_fuel);
    law_run_reports_updates(remote, listed, requested, credentials, second_fuel);
}

/// Whether `a` and `b` answer alike wherever `registry` is not concerned.
pub open spec fn agree_elsewhere(a: Remote, b: Remote, registry: Seq<char>) -> bool {
    &&& forall|other: Seq<char>| other != registry ==> #[trigger] (a.probe)(other) == (b.probe)(other)
    &&& forall|request: TokenRequestView|
        request.registry != registry ==> #[trigger] (a.token)(request) == (b.token)(request)
    &&& forall|request: DigestRequestView|
        request.registry != registry ==> #[trigger] (a.digest)(request) == (b.digest)(request)
}

/// Where a registry does not answer the probe, every image of that registry
/// is reported with that failure.
pub proof fn law_failed_probe_fails_every_image(
    remote: Remote,
    listed: Seq<ImageView>,
    requested: Option<Seq<Seq<char>>>,
    credentials: Seq<RegistryCredentialsView>,
    registry: Seq<char>,
    i: int,
)
    requires
        (remote.probe)(registry) is Failed,
        0 <= i < updates(remote, listed, requested, credentials).len(),
        (listed + additions(fresh_references(listed, requested)))[i].registry == registry,
    ensures
        updates(remote, listed, requested, credentials)[i].latest_digest == Some(
            Err::<Seq<char>, CheckFailure>(
                CheckFailure {
                    kind: FailureKind::AuthProbe,
                    cause: (remote.probe)(registry)->Failed_0,
                },
            ),
        ),
        updates(remote, listed, requested, credentials)[i].registry == registry,
{
}

/// What is reported of an image does not depend on how any registry but its
/// own answers: where two sets of answers differ for one registry only, the
/// images of all other registries are reported alike.
pub proof fn law_other_registries_unaffected(
    a: Remote,
    b: Remote,
    listed: Seq<ImageView>,
    requested: Option<Seq<Seq<char>>>,
    credentials: Seq<RegistryCredentialsView>,
    registry: Seq<char>,
    i: int,
)
    requires
        agree_elsewhere(a, b, registry),
        0 <= i < updates(a, listed, requested, credentials).len(),
        (listed + additions(fresh_references(listed, requested)))[i].registry != registry,
    ensures
        updates(a, listed, requested, credentials)[i] == updates(b, listed, requested, credentials)[i],
{
    let images = listed + additions(fresh_references(listed, requested));
    let own = images[i].registry;
    assert((a.probe)(own) == (b.probe)(own));
    match (a.probe)(own) {
        ProbeOutcomeView::Challenged(challenge) => {
            let request = token_request(images, credentials, own, challenge);
            assert((a.token)(request) == (b.token)(request));
        },
        _ => {},
    }
    let auth = settled(a, images, credentials, own);
    assert(auth == settled(b, images, credentials, own));
    let request = digest_request(images[i], auth);
    assert((a.digest)(request) == (b.digest)(request));
}


/// The actions that a run in state `s` answers with when it takes `events`
/// in turn; an event that is refused brings none.
pub open spec fn actions_of(s: StateView, events: Seq<EventView>) -> Seq<ActionView>
    decreases events.len(),
{
    if events.len() == 0 {
        Seq::empty()
    } else {
        let next = step_spec(s, events[0]);
        let later = actions_of(next.0, events.skip(1));
        match next.1 {
            Ok(action) => seq![action] + later,
            Err(_) => later,
        }
    }
}

/// Whether `action` asks for a token for `registry`.
pub open spec fn asks_token_for(action: ActionView, registry: Seq<char>) -> bool {
    action matches ActionView::FetchToken(request) && request.registry == registry
}

/// The number of token requests for `registry` among `actions`.
pub open spec fn token_requests(actions: Seq<ActionView>, registry: Seq<char>) -> nat
    decreases actions.len(),
{
    if actions.len() == 0 {
        0
    } else {
        let first: nat = if asks_token_for(actions[0], registry) {
            1
        } else {
            0
        };
        first + token_requests(actions.skip(1), registry)
    }
}

/// The number of token requests for `registry` that a run in state `s` may
/// still make: one while the registry is not settled and not asked for a
/// token yet, none afterwards.
pub open spec fn token_requests_left(s: StateView, registry: Seq<char>) -> nat {
    let registries = registries_of(s.images);
    match s.phase {
        Phase::Collecting => 1,
        Phase::Probing => if registries.contains(registry) && registries.index_of(registry)
            >= s.auth.len() {
            1
        } else {
            0
        },
        Phase::FetchingToken => if registries.contains(registry) && registries.index_of(registry)
            > s.auth.len() {
            1
        } else {
            0
        },
        _ => 0,
    }
}

/// A run makes no more token requests for a registry than are left to it.
proof fn lemma_token_requests_left(s: StateView, events: Seq<EventView>, registry: Seq<char>)
    requires
        state_inv(s),
    ensures
        token_requests(actions_of(s, events), registry) <= token_requests_left(s, registry),
    decreases events.len(),
{
    if events.len() > 0 {
        let next = step_spec(s, events[0]);
        let later = actions_of(next.0, events.skip(1));
        let registries = registries_of(s.images);
        lemma_step_keeps_inv(s, events[0]);
        lemma_token_requests_left(next.0, events.skip(1), registry);
        lemma_first_occurrences(registry_names(s.images));
        if s.auth.len() < registries.len() {
            lemma_index_of_unique(registries, s.auth.len() as int);
        }
        match next.1 {
            Ok(action) => {
                let all = seq![action] + later;
                assert(all[0] == action);
                assert(all.skip(1) =~= later);
                assert(token_requests_left(next.0, registry) + (if asks_token_for(
                    action,
                    registry,
                ) {
                    1nat
                } else {
                    0nat
                }) <= token_requests_left(s, registry));
            },
            Err(_) => {
                assert(next.0 == s);
            },
        }
    }
}

/// Whatever is reported to a run, and in whatever order, it asks for a
/// token for any one registry at most once, however many images belong to
/// the registry.
pub proof fn law_one_token_request_per_registry(
    requested: Option<Seq<Seq<char>>>,
    credentials: Seq<RegistryCredentialsView>,
    events: Seq<EventView>,
    registry: Seq<char>,
)
    ensures
        token_requests(actions_of(initial(requested, credentials).0, events), registry) <= 1,
{
    lemma_token_requests_left(initial(requested, credentials).0, events, registry);
}

/// Whether `action` probes `registry`.
pub open spec fn probes(action: ActionView, registry: Seq<char>) -> bool {
    action matches ActionView::ProbeAuth { registry: probed } && probed == registry
}

/// The number of probes of `registry` among `actions`.
pub open spec fn probe_requests(actions: Seq<ActionView>, registry: Seq<char>) -> nat
    decreases actions.len(),
{
    if actions.len() == 0 {
        0
    } else {
        let first: nat = if probes(actions[0], registry) {
            1
        } else {
            0
        };
        first + probe_requests(actions.skip(1), registry)
    }
}

/// The number of probes of `registry` that a run in state `s` may still
/// make: one while the registry's turn has not come, none afterwards.
pub open spec fn probe_requests_left(s: StateView, registry: Seq<char>) -> nat {
    let registries = registries_of(s.images);
    match s.phase {
        Phase::Collecting => 1,
        Phase::Probing => if registries.contains(registry) && registries.index_of(registry)
            > s.auth.len() {
            1
        } else {
            0
        },
        Phase::FetchingToken => if registries.contains(registry) && registries.index_of(registry)
            > s.auth.len() {
            1
        } else {
            0
        },
        _ => 0,
    }
}

/// A run probes a registry no more often than is left to it.
proof fn lemma_probe_requests_left(s: StateView, events: Seq<EventView>, registry: Seq<char>)
    requires
        state_inv(s),
    ensures
        probe_requests(actions_of(s, events), registry) <= probe_requests_left(s, registry),
    decreases events.len(),
{
    if events.len() > 0 {
        let next = step_spec(s, events[0]);
        let later = actions_of(next.0, events.skip(1));
        lemma_step_keeps_inv(s, events[0]);
        lemma_probe_requests_left(next.0, events.skip(1), registry);
        let registries = registries_of(next.0.images);
        lemma_first_occurrences(registry_names(next.0.images));
        if next.0.auth.len() < registries.len() {
            lemma_index_of_unique(registries, next.0.auth.len() as int);
        }
        match next.1 {
            Ok(action) => {
                let all = seq![action] + later;
                assert(all[0] == action);
                assert(all.skip(1) =~= later);
                assert(probe_requests_left(next.0, registry) + (if probes(action, registry) {
                    1nat
                } else {
                    0nat
                }) <= probe_requests_left(s, registry));
            },
            Err(_) => {
                assert(next.0 == s);
            },
        }
    }
}

/// Whatever is reported to a run, and in whatever order, it probes any one
/// registry at most once.
pub proof fn law_one_probe_per_registry(
    requested: Option<Seq<Seq<char>>>,
    credentials: Seq<RegistryCredentialsView>,
    events: Seq<EventView>,
    registry: Seq<char>,
)
    ensures
        probe_requests(actions_of(initial(requested, credentials).0, events), registry) <= 1,
{
    lemma_probe_requests_left(initial(requested, credentials).0, events, registry);
}

/// A run asks for digests only when every registry is settled, and then for
/// all digests at once: the step that asks for them leaves nothing to probe
/// and no token to ask for.
pub proof fn law_digests_are_asked_last(s: StateView, event: EventView, events: Seq<EventView>, registry: Seq<char>)
    requires
        state_inv(s),
        step_spec(s, event).1 is Ok,
        step_spec(s, event).1->Ok_0 is CheckDigests,
    ensures
        step_spec(s, event).0.auth.len() == registries_of(step_spec(s, event).0.images).len(),
        step_spec(s, event).1->Ok_0 == ActionView::CheckDigests(
            digest_requests(step_spec(s, event).0.images, step_spec(s, event).0.auth),
        ),
        probe_requests(actions_of(step_spec(s, event).0, events), registry) == 0,
        token_requests(actions_of(step_spec(s, event).0, events), registry) == 0,
{
    lemma_step_keeps_inv(s, event);
    lemma_probe_requests_left(step_spec(s, event).0, events, registry);
    lemma_token_requests_left(step_spec(s, event).0, events, registry);
}

/// What a condition keeps of a sequence that repeats nothing repeats
/// nothing, and holds what the sequence holds and the condition admits.
pub proof fn lemma_filter_of_distinct<A>(s: Seq<A>, keep: spec_fn(A) -> bool)
    requires
        s.no_duplicates(),
    ensures
        s.filter(keep).no_duplicates(),
        forall|x: A| #[trigger] s.filter(keep).contains(x) <==> s.contains(x) && keep(x),
    decreases s.len(),
{
    reveal(Seq::filter);
    if s.len() > 0 {
        let init = s.drop_last();
        let kept = init.filter(keep);
        lemma_filter_of_distinct(init, keep);
        assert forall|x: A| #[trigger] s.filter(keep).contains(x) <==> s.contains(x) && keep(x) by {
            if s.contains(x) && keep(x) {
                let i = s.index_of(x);
                if i < s.len() - 1 {
                    assert(init[i] == x);
                    assert(kept.contains(x));
                    let j = kept.index_of(x);
                    assert(s.filter(keep)[j] == x);
                } else {
                    assert(s.filter(keep)[kept.len() as int] == x);
                }
            }
            if s.filter(keep).contains(x) {
                let j = s.filter(keep).index_of(x);
                if j < kept.len() {
                    assert(kept[j] == x);
                    assert(kept.contains(x));
                    let i = init.index_of(x);
                    assert(s[i] == x);
                } else {
                    assert(s[s.len() - 1] == x);
                }
            }
        }
        if keep(s.last()) {
            if kept.contains(s.last()) {
                assert(init.contains(s.last()));
                let i = init.index_of(s.last());
                assert(s[i] == s[s.len() - 1]);
            }
        }
    }
}

/// Two conditions of which each element meets exactly one split a sequence
/// in two.
pub proof fn lemma_filter_splits<A>(s: Seq<A>, keep: spec_fn(A) -> bool, drop: spec_fn(A) -> bool)
    requires
        forall|x: A| #[trigger] drop(x) == !keep(x),
    ensures
        s.filter(keep).len() + s.filter(drop).len() == s.len(),
    decreases s.len(),
{
    reveal(Seq::filter);
    if s.len() > 0 {
        lemma_filter_splits(s.drop_last(), keep, drop);
        assert(drop(s.last()) == !keep(s.last()));
    }
}

/// No image is dropped: every listed image is reported in its place, and
/// behind them one image for each requested reference that no listed image
/// has, each reference once, but for those that name no image. Every image
/// that is reported carries a digest or a failure.
pub proof fn law_every_image_is_reported(
    remote: Remote,
    listed: Seq<ImageView>,
    requested: Option<Seq<Seq<char>>>,
    credentials: Seq<RegistryCredentialsView>,
)
    ensures
        ({
            let fresh = fresh_references(listed, requested);
            let reported = updates(remote, listed, requested, credentials);
            &&& reported.len() == listed.len() + fresh.len() - crate::model::rejections(fresh).len()
            &&& crate::model::rejections(fresh).len() <= fresh.len()
            &&& fresh.no_duplicates()
            &&& forall|reference: Seq<char>| #[trigger]
                fresh.contains(reference) <==> requested is Some && requested->Some_0.contains(
                    reference,
                ) && !crate::model::references_of(listed).contains(reference)
            &&& forall|i: int|
                0 <= i < listed.len() ==> (#[trigger] reported[i]).reference == listed[i].reference
            &&& forall|i: int| 0 <= i < reported.len() ==> (#[trigger] reported[i]).latest_digest is Some
        }),
{
    let fresh = fresh_references(listed, requested);
    lemma_filter_splits(fresh, crate::model::names_image(), crate::model::names_nothing());
    match requested {
        Some(references) => {
            lemma_first_occurrences(references);
            lemma_filter_of_distinct(
                crate::distinct::first_occurrences(references),
                crate::model::is_new(listed),
            );
        },
        None => {},
    }
}


/// The step that ends a run, whatever was answered before it, reports every
/// image of the run in its place, and each with a digest or a failure.
pub proof fn law_no_image_is_dropped(s: StateView, event: EventView)
    requires
        step_spec(s, event).1 is Ok,
        step_spec(s, event).1->Ok_0 is Finish,
    ensures
        ({
            let reported = step_spec(s, event).1->Ok_0->Finish_0;
            &&& reported.len() == s.images.len()
            &&& forall|i: int|
                0 <= i < reported.len() ==> (#[trigger] reported[i]).latest_digest is Some
                    && reported[i] == s.images[i].resolved(reported[i].latest_digest->Some_0)
        }),
{
}

/// An image of a registry is among the members of that registry.
proof fn lemma_member(images: Seq<ImageView>, i: int)
    requires
        0 <= i < images.len(),
    ensures
        crate::model::members_of(images, images[i].registry).contains(i),
    decreases images.len(),
{
    let registry = images[i].registry;
    let members = crate::model::members_of(images, registry);
    let earlier = crate::model::members_of(images.drop_last(), registry);
    if i == images.len() - 1 {
        assert(members[earlier.len() as int] == i);
    } else {
        assert(images.drop_last()[i] == images[i]);
        lemma_member(images.drop_last(), i);
        let at = earlier.index_of(i);
        assert(members[at] == i);
    }
}

/// The one token that is asked for a registry covers the pull scope of every
/// image of that registry, and names no repository twice.
pub proof fn law_token_covers_every_image(
    images: Seq<ImageView>,
    credentials: Seq<RegistryCredentialsView>,
    challenge: crate::registry::AuthChallengeView,
    i: int,
)
    requires
        0 <= i < images.len(),
    ensures
        token_request(images, credentials, images[i].registry, challenge).scopes.contains(
            crate::registry::pull_scope(images[i].repository),
        ),
        crate::distinct::first_occurrences(
            crate::model::repositories_on(images, images[i].registry),
        ).no_duplicates(),
        token_request(images, credentials, images[i].registry, challenge).scopes.len()
            <= crate::model::members_of(images, images[i].registry).len(),
{
    let registry = images[i].registry;
    let members = crate::model::members_of(images, registry);
    let repositories = crate::model::repositories_on(images, registry);
    let distinct = crate::distinct::first_occurrences(repositories);
    let scopes = crate::model::scopes_for(images, registry);
    lemma_member(images, i);
    let at = members.index_of(i);
    assert(repositories[at] == images[i].repository);
    assert(repositories.contains(images[i].repository));
    lemma_first_occurrences(repositories);
    assert(distinct.contains(images[i].repository));
    let k = distinct.index_of(images[i].repository);
    assert(scopes[k] == crate::registry::pull_scope(images[i].repository));
}

} // verus!
