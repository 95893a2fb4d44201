//! A whole update check, run against answers that were recorded or made up
//! beforehand: what would be reported if the registries answered so.

use crate::image::{Image, RequestFailure};
use crate::laws::{
    awaited, lemma_answered_step, lemma_first_step, settled_so_far, steps_left, updates, updates_of,
    Remote,
};
use crate::model::state_inv;
use crate::orchestrator::{Action, Event, Orchestrator};
use crate::registry::{
    digest_outcome_view, digest_outcome_views, AuthChallenge, DigestOutcome, DigestRequest,
    DigestRequestView, ProbeOutcome, ProbeOutcomeView, RegistryCredentials, TokenOutcome,
    TokenOutcomeView, TokenRequest, TokenRequestView,
};
use vstd::prelude::*;

verus! {

/// What a registry answers when asked for the digest of one tag.
#[derive(Debug)]
pub struct DigestAnswer {
    pub repository: String,
    pub tag: String,
    pub outcome: DigestOutcome,
}

/// `DigestAnswer` as the contracts see it, with its strings as sequences of characters.
pub struct DigestAnswerView {
    pub repository: Seq<char>,
    pub tag: Seq<char>,
    pub outcome: Result<Seq<char>, RequestFailure>,
}

impl View for DigestAnswer {
    type V = DigestAnswerView;

    open spec fn view(&self) -> DigestAnswerView {
        DigestAnswerView {
            repository: self.repository@,
            tag: self.tag@,
            outcome: digest_outcome_view(self.outcome),
        }
    }
}

impl DeepView for DigestAnswer {
    type V = DigestAnswerView;

    open spec fn deep_view(&self) -> DigestAnswerView {
        self@
    }
}

/// What one registry answers: to the probe, to a token request, and to the
/// requests for digests.
#[derive(Debug)]
pub struct RegistryAnswers {
    pub registry: String,
    pub probe: ProbeOutcome,
    pub token: TokenOutcome,
    pub digests: Vec<DigestAnswer>,
}

/// `RegistryAnswers` as the contracts see it, with its strings as sequences of characters.
pub struct RegistryAnswersView {
    pub registry: Seq<char>,
    pub probe: ProbeOutcomeView,
    pub token: TokenOutcomeView,
    pub digests: Seq<DigestAnswerView>,
}

impl View for RegistryAnswers {
    type V = RegistryAnswersView;

    open spec fn view(&self) -> RegistryAnswersView {
        RegistryAnswersView {
            registry: self.registry@,
            probe: self.probe@,
            token: self.token@,
            digests: self.digests.deep_view(),
        }
    }
}

impl DeepView for RegistryAnswers {
    type V = RegistryAnswersView;

    open spec fn deep_view(&self) -> RegistryAnswersView {
        self@
    }
}

/// The answers of the first entry for `registry`, if there is one.
pub open spec fn answers_for(entries: Seq<RegistryAnswersView>, registry: Seq<char>) -> Option<
    RegistryAnswersView,
>
    decreases entries.len(),
{
    if entries.len() == 0 {
        None
    } else if entries[0].registry == registry {
        Some(entries[0])
    } else {
        answers_for(entries.skip(1), registry)
    }
}

/// The first answer among `digests` for `tag` of `repository`, if there is
/// one.
pub open spec fn digest_for(digests: Seq<DigestAnswerView>, repository: Seq<char>, tag: Seq<char>) -> Option<
    Result<Seq<char>, RequestFailure>,
>
    decreases digests.len(),
{
    if digests.len() == 0 {
        None
    } else if digests[0].repository == repository && digests[0].tag == tag {
        Some(digests[0].outcome)
    } else {
        digest_for(digests.skip(1), repository, tag)
    }
}

/// What `registry` answers to the probe; a registry without an entry does
/// not answer.
pub open spec fn probe_answer(entries: Seq<RegistryAnswersView>, registry: Seq<char>) -> ProbeOutcomeView {
    match answers_for(entries, registry) {
        Some(answers) => answers.probe,
        None => ProbeOutcomeView::Failed(RequestFailure::Network),
    }
}

/// What is answered to `request`: what is recorded for its registry,
/// whatever else it asks for.
pub open spec fn token_answer(entries: Seq<RegistryAnswersView>, request: TokenRequestView) -> TokenOutcomeView {
    match answers_for(entries, request.registry) {
        Some(answers) => answers.token,
        None => TokenOutcomeView::Failed(RequestFailure::Network),
    }
}

/// What is answered to `request`: what is recorded for its tag, whatever
/// token it bears.
pub open spec fn digest_answer(entries: Seq<RegistryAnswersView>, request: DigestRequestView) -> Result<
    Seq<char>,
    RequestFailure,
> {
    match answers_for(entries, request.registry) {
        Some(answers) => match digest_for(answers.digests, request.repository, request.tag) {
            Some(outcome) => outcome,
            None => Err(RequestFailure::Network),
        },
        None => Err(RequestFailure::Network),
    }
}

/// Answers of registries, recorded or made up. Where several entries are
/// for one registry or one tag, the first counts; what has no entry does
/// not answer.
#[derive(Debug)]
pub struct Snapshot {
    pub registries: Vec<RegistryAnswers>,
}

impl View for Snapshot {
    type V = Remote;

    open spec fn view(&self) -> Remote {
        Remote {
            probe: |registry: Seq<char>| probe_answer(self.registries.deep_view(), registry),
            token: |request: TokenRequestView| token_answer(self.registries.deep_view(), request),
            digest: |request: DigestRequestView|
                digest_answer(self.registries.deep_view(), request),
        }
    }
}

fn copy_digest_outcome(outcome: &DigestOutcome) -> (copy: DigestOutcome)
    ensures
        digest_outcome_view(copy) == digest_outcome_view(*outcome),
{
    match outcome {
        Ok(digest) => Ok(digest.clone()),
        Err(cause) => Err(*cause),
    }
}

fn copy_probe_outcome(outcome: &ProbeOutcome) -> (copy: ProbeOutcome)
    ensures
        copy@ == outcome@,
{
    match outcome {
        ProbeOutcome::Open => ProbeOutcome::Open,
        ProbeOutcome::Challenged(challenge) => ProbeOutcome::Challenged(
            AuthChallenge { realm: challenge.realm.clone(), service: challenge.service.clone() },
        ),
        ProbeOutcome::Failed(cause) => ProbeOutcome::Failed(*cause),
    }
}

fn copy_token_outcome(outcome: &TokenOutcome) -> (copy: TokenOutcome)
    ensures
        copy@ == outcome@,
{
    match outcome {
        TokenOutcome::Granted(token) => TokenOutcome::Granted(token.clone()),
        TokenOutcome::Failed(cause) => TokenOutcome::Failed(*cause),
    }
}

impl Snapshot {
    /// Where the first entry for `registry` stands.
    fn find(&self, registry: &String) -> (found: Option<usize>)
        ensures
            match found {
                Some(i) => i < self.registries.len() && answers_for(
                    self.registries.deep_view(),
                    registry@,
                ) == Some(self.registries[i as int]@),
                None => answers_for(self.registries.deep_view(), registry@) is None,
            },
    {
        let ghost entries = self.registries.deep_view();
        let mut i: usize = 0;
        assert(entries.skip(0) =~= entries);
        while i < self.registries.len()
            invariant
                i <= self.registries.len(),
                entries == self.registries.deep_view(),
                answers_for(entries, registry@) == answers_for(entries.skip(i as int), registry@),
            decreases self.registries.len() - i,
        {
            let ghost rest = entries.skip(i as int);
            assert(rest[0] == self.registries[i as int]@);
            if self.registries[i].registry == *registry {
                return Some(i);
            }
            assert(rest.skip(1) =~= entries.skip(i + 1));
            i += 1;
        }
        None
    }

    /// What `registry` answers to the probe.
    pub fn probe(&self, registry: &String) -> (outcome: ProbeOutcome)
        ensures
            outcome@ == (self@.probe)(registry@),
    {
        match self.find(registry) {
            Some(i) => copy_probe_outcome(&self.registries[i].probe),
            None => ProbeOutcome::Failed(RequestFailure::Network),
        }
    }

    /// What is answered to a token request.
    pub fn token(&self, request: &TokenRequest) -> (outcome: TokenOutcome)
        ensures
            outcome@ == (self@.token)(request@),
    {
        match self.find(&request.registry) {
            Some(i) => copy_token_outcome(&self.registries[i].token),
            None => TokenOutcome::Failed(RequestFailure::Network),
        }
    }

    /// What is answered to a request for a digest.
    pub fn digest(&self, request: &DigestRequest) -> (outcome: DigestOutcome)
        ensures
            digest_outcome_view(outcome) == (self@.digest)(request@),
    {
        match self.find(&request.registry) {
            Some(i) => {
                let digests = &self.registries[i].digests;
                let ghost all = digests.deep_view();
                let ghost wanted = (self@.digest)(request@);
                let mut j: usize = 0;
                assert(all.skip(0) =~= all);
                while j < digests.len()
                    invariant
                        j <= digests.len(),
                        all == digests.deep_view(),
                        wanted == match digest_for(all, request.repository@, request.tag@) {
                            Some(outcome) => outcome,
                            None => Err(RequestFailure::Network),
                        },
                        wanted == (self@.digest)(request@),
                        digest_for(all, request.repository@, request.tag@) == digest_for(
                            all.skip(j as int),
                            request.repository@,
                            request.tag@,
                        ),
                    decreases digests.len() - j,
                {
                    let ghost rest = all.skip(j as int);
                    assert(rest[0] == digests[j as int]@);
                    if digests[j].repository == request.repository && digests[j].tag
                        == request.tag {
                        return copy_digest_outcome(&digests[j].outcome);
                    }
                    assert(rest.skip(1) =~= all.skip(j + 1));
                    j += 1;
                }
                Err(RequestFailure::Network)
            },
            None => Err(RequestFailure::Network),
        }
    }

    /// What is answered to each of `requests`, in their order.
    fn digests(&self, requests: &Vec<DigestRequest>) -> (outcomes: Vec<DigestOutcome>)
        ensures
            digest_outcome_views(outcomes@) == requests.deep_view().map_values(
                |request: DigestRequestView| (self@.digest)(request),
            ),
    {
        let mut outcomes: Vec<DigestOutcome> = Vec::with_capacity(requests.len());
        let mut i: usize = 0;
        while i < requests.len()
            invariant
                i <= requests.len(),
                outcomes.len() == i,
                forall|j: int|
                    0 <= j < i ==> digest_outcome_view(#[trigger] outcomes[j]) == (self@.digest)(
                        requests[j]@,
                    ),
            decreases requests.len() - i,
        {
            outcomes.push(self.digest(&requests[i]));
            i += 1;
        }
        assert(digest_outcome_views(outcomes@) =~= requests.deep_view().map_values(
            |request: DigestRequestView| (self@.digest)(request),
        ));
        outcomes
    }
}

/// Checks the listed images, and the images that `references` names beyond
/// them, against the answers of `answers`, and reports every image with the
/// digest that its registry gives or the reason why there is none.
///
/// For each registry the probe and, where the registry wants a token, one
/// token request are answered first; then a digest is asked for each image
/// whose registry can be asked. An image whose registry cannot be asked is
/// reported with the failure of its registry.
pub fn get_updates(
    listed: Vec<Image>,
    references: Option<Vec<String>>,
    credentials: Vec<RegistryCredentials>,
    answers: &Snapshot,
) -> (reported: Vec<Image>)
    ensures
        reported.deep_view() == updates(
            answers@,
            listed.deep_view(),
            references.deep_view(),
            credentials.deep_view(),
        ),
{
    proof {
        lemma_first_step(
            answers@,
            listed.deep_view(),
            references.deep_view(),
            credentials.deep_view(),
        );
    }
    let (machine, _) = Orchestrator::new(references, credentials);
    let (machine, answer) = machine.step(Event::ImagesListed(listed));
    match answer {
        Ok(action) => conduct(machine, action, answers),
        Err(_) => {
            assert(false);
            Vec::new()
        },
    }
}

/// Takes a run that has collected its images to its end, answering every
/// question from `answers`.
fn conduct(machine: Orchestrator, action: Action, answers: &Snapshot) -> (reported: Vec<Image>)
    requires
        state_inv(machine@),
        settled_so_far(answers@, machine@),
        awaited(answers@, machine@, action@),
    ensures
        reported.deep_view() == updates_of(answers@, machine@.images, machine@.credentials),
    decreases steps_left(machine@),
{
    proof {
        lemma_answered_step(answers@, Seq::empty(), machine@, action@);
    }
    let event = match action {
        Action::ProbeAuth { registry } => Event::AuthProbed(answers.probe(&registry)),
        Action::FetchToken(request) => Event::TokenFetched(answers.token(&request)),
        Action::CheckDigests(requests) => Event::DigestsChecked(answers.digests(&requests)),
        Action::ListImages { references } => {
            assert(false);
            return Vec::new();
        },
        Action::Finish(images) => {
            assert(false);
            return images;
        },
    };
    assert(event@ == crate::laws::reply(answers@, Seq::empty(), action@));
    let (next, answer) = machine.step(event);
    match answer {
        Ok(Action::Finish(images)) => images,
        Ok(then) => conduct(next, then, answers),
        Err(_) => {
            assert(false);
            Vec::new()
        },
    }
}

} // verus!
