//! What is asked of a registry and what it may answer.

use crate::image::RequestFailure;
use vstd::prelude::*;
use vstd::string::*;

verus! {

/// The endpoint that a registry names for tokens, and the service to name
/// there.
#[derive(Debug)]
pub struct AuthChallenge {
    pub realm: String,
    pub service: String,
}

/// `AuthChallenge` as the contracts see it, with its strings as sequences of characters.
pub struct AuthChallengeView {
    pub realm: Seq<char>,
    pub service: Seq<char>,
}

impl View for AuthChallenge {
    type V = AuthChallengeView;

    open spec fn view(&self) -> AuthChallengeView {
        AuthChallengeView { realm: self.realm@, service: self.service@ }
    }
}

impl DeepView for AuthChallenge {
    type V = AuthChallengeView;

    open spec fn deep_view(&self) -> AuthChallengeView {
        self@
    }
}

/// A user's name and secret at one registry.
#[derive(Debug)]
pub struct Credentials {
    pub username: String,
    pub secret: String,
}

/// `Credentials` as the contracts see it, with its strings as sequences of characters.
pub struct CredentialsView {
    pub username: Seq<char>,
    pub secret: Seq<char>,
}

impl View for Credentials {
    type V = CredentialsView;

    open spec fn view(&self) -> CredentialsView {
        CredentialsView { username: self.username@, secret: self.secret@ }
    }
}

impl DeepView for Credentials {
    type V = CredentialsView;

    open spec fn deep_view(&self) -> CredentialsView {
        self@
    }
}

impl Clone for Credentials {
    fn clone(&self) -> (copy: Self)
        ensures
            copy@ == self@,
    {
        Credentials { username: self.username.clone(), secret: self.secret.clone() }
    }
}

/// The credentials that the configuration holds for one registry.
#[derive(Debug)]
pub struct RegistryCredentials {
    pub registry: String,
    pub credentials: Credentials,
}

/// `RegistryCredentials` as the contracts see it, with its strings as sequences of characters.
pub struct RegistryCredentialsView {
    pub registry: Seq<char>,
    pub credentials: CredentialsView,
}

impl View for RegistryCredentials {
    type V = RegistryCredentialsView;

    open spec fn view(&self) -> RegistryCredentialsView {
        RegistryCredentialsView { registry: self.registry@, credentials: self.credentials@ }
    }
}

impl DeepView for RegistryCredentials {
    type V = RegistryCredentialsView;

    open spec fn deep_view(&self) -> RegistryCredentialsView {
        self@
    }
}

/// The credentials of the first entry for `registry`, if there is one. A
/// registry without an entry is asked without credentials.
pub open spec fn credentials_for(entries: Seq<RegistryCredentialsView>, registry: Seq<char>) -> Option<
    CredentialsView,
>
    decreases entries.len(),
{
    if entries.len() == 0 {
        None
    } else if entries[0].registry == registry {
        Some(entries[0].credentials)
    } else {
        credentials_for(entries.skip(1), registry)
    }
}

/// Looks up the credentials for `registry`.
pub fn find_credentials(entries: &Vec<RegistryCredentials>, registry: &String) -> (found: Option<
    Credentials,
>)
    ensures
        found.deep_view() == credentials_for(entries.deep_view(), registry@),
{
    let mut i: usize = 0;
    assert(entries.deep_view().skip(0) =~= entries.deep_view());
    while i < entries.len()
        invariant
            i <= entries.len(),
            credentials_for(entries.deep_view(), registry@) == credentials_for(
                entries.deep_view().skip(i as int),
                registry@,
            ),
        decreases entries.len() - i,
    {
        let ghost rest = entries.deep_view().skip(i as int);
        assert(rest[0] == entries[i as int]@);
        if entries[i].registry == *registry {
            return Some(entries[i].credentials.clone());
        }
        assert(rest.skip(1) =~= entries.deep_view().skip(i + 1));
        i += 1;
    }
    None
}

/// What a registry answered when asked whether it wants a token.
#[derive(Debug)]
pub enum ProbeOutcome {
    /// It answers without a token.
    Open,
    /// It wants a token and says where to get one.
    Challenged(AuthChallenge),
    /// It gave neither answer.
    Failed(RequestFailure),
}

/// `ProbeOutcome` as the contracts see it, with its strings as sequences of characters.
pub enum ProbeOutcomeView {
    Open,
    Challenged(AuthChallengeView),
    Failed(RequestFailure),
}

impl View for ProbeOutcome {
    type V = ProbeOutcomeView;

    open spec fn view(&self) -> ProbeOutcomeView {
        match self {
            ProbeOutcome::Open => ProbeOutcomeView::Open,
            ProbeOutcome::Challenged(challenge) => ProbeOutcomeView::Challenged(challenge@),
            ProbeOutcome::Failed(cause) => ProbeOutcomeView::Failed(*cause),
        }
    }
}

/// What the token endpoint answered.
#[derive(Debug)]
pub enum TokenOutcome {
    /// The token to bear.
    Granted(String),
    /// No token was issued.
    Failed(RequestFailure),
}

/// `TokenOutcome` as the contracts see it, with its strings as sequences of characters.
pub enum TokenOutcomeView {
    Granted(Seq<char>),
    Failed(RequestFailure),
}

impl View for TokenOutcome {
    type V = TokenOutcomeView;

    open spec fn view(&self) -> TokenOutcomeView {
        match self {
            TokenOutcome::Granted(token) => TokenOutcomeView::Granted(token@),
            TokenOutcome::Failed(cause) => TokenOutcomeView::Failed(*cause),
        }
    }
}

/// What a registry answered when asked for a tag's digest.
pub type DigestOutcome = Result<String, RequestFailure>;

/// The characters of a digest answer.
pub open spec fn digest_outcome_view(outcome: DigestOutcome) -> Result<Seq<char>, RequestFailure> {
    match outcome {
        Ok(digest) => Ok(digest@),
        Err(cause) => Err(cause),
    }
}

/// The characters of each digest answer of `outcomes`.
pub open spec fn digest_outcome_views(outcomes: Seq<DigestOutcome>) -> Seq<
    Result<Seq<char>, RequestFailure>,
> {
    outcomes.map_values(|outcome: DigestOutcome| digest_outcome_view(outcome))
}

/// One request for a token: where to ask, for which service, for which
/// scopes, and with whose credentials.
#[derive(Debug)]
pub struct TokenRequest {
    pub registry: String,
    pub realm: String,
    pub service: String,
    pub scopes: Vec<String>,
    pub credentials: Option<Credentials>,
}

/// `TokenRequest` as the contracts see it, with its strings as sequences of characters.
pub struct TokenRequestView {
    pub registry: Seq<char>,
    pub realm: Seq<char>,
    pub service: Seq<char>,
    pub scopes: Seq<Seq<char>>,
    pub credentials: Option<CredentialsView>,
}

impl View for TokenRequest {
    type V = TokenRequestView;

    open spec fn view(&self) -> TokenRequestView {
        TokenRequestView {
            registry: self.registry@,
            realm: self.realm@,
            service: self.service@,
            scopes: self.scopes.deep_view(),
            credentials: self.credentials.deep_view(),
        }
    }
}

/// One request for the digest of a tag, with the token to bear if the
/// registry wants one.
#[derive(Debug)]
pub struct DigestRequest {
    pub registry: String,
    pub repository: String,
    pub tag: String,
    pub token: Option<String>,
}

/// `DigestRequest` as the contracts see it, with its strings as sequences of characters.
pub struct DigestRequestView {
    pub registry: Seq<char>,
    pub repository: Seq<char>,
    pub tag: Seq<char>,
    pub token: Option<Seq<char>>,
}

impl View for DigestRequest {
    type V = DigestRequestView;

    open spec fn view(&self) -> DigestRequestView {
        DigestRequestView {
            registry: self.registry@,
            repository: self.repository@,
            tag: self.tag@,
            token: self.token.deep_view(),
        }
    }
}

impl DeepView for DigestRequest {
    type V = DigestRequestView;

    open spec fn deep_view(&self) -> DigestRequestView {
        self@
    }
}

/// The scope that allows pulling from `repository`.
pub open spec fn pull_scope(repository: Seq<char>) -> Seq<char> {
    "repository:"@ + repository + ":pull"@
}

/// Spells out the scope that allows pulling from `repository`.
pub fn make_pull_scope(repository: &String) -> (scope: String)
    ensures
        scope@ == pull_scope(repository@),
{
    let mut scope = "repository:".to_owned();
    scope.append(repository.as_str());
    scope.append(":pull");
    scope
}

/// The scopes as parameters of a query, each behind `&scope=`.
pub open spec fn scope_parameters(scopes: Seq<Seq<char>>) -> Seq<char>
    decreases scopes.len(),
{
    if scopes.len() == 0 {
        Seq::empty()
    } else {
        scope_parameters(scopes.drop_last()) + "&scope="@ + scopes.last()
    }
}

/// The address of the one request that asks for a token: the realm, the
/// service, and every scope.
pub open spec fn token_url(request: TokenRequestView) -> Seq<char> {
    request.realm + "?service="@ + request.service + scope_parameters(request.scopes)
}

/// The address at which `registry` says whether it wants a token.
pub open spec fn probe_url(registry: Seq<char>) -> Seq<char> {
    "https://"@ + registry + "/v2/"@
}

/// The address at which a registry gives the digest of a tag.
pub open spec fn manifest_url(request: DigestRequestView) -> Seq<char> {
    "https://"@ + request.registry + "/v2/"@ + request.repository + "/manifests/"@ + request.tag
}

/// Spells out the address at which `registry` says whether it wants a
/// token.
pub fn make_probe_url(registry: &String) -> (url: String)
    ensures
        url@ == probe_url(registry@),
{
    let mut url = "https://".to_owned();
    url.append(registry.as_str());
    url.append("/v2/");
    url
}

impl TokenRequest {
    /// Spells out the address of the request.
    pub fn url(&self) -> (url: String)
        ensures
            url@ == token_url(self@),
    {
        let mut url = self.realm.clone();
        url.append("?service=");
        url.append(self.service.as_str());
        let ghost head = url@;
        let ghost scopes = self.scopes.deep_view();
        let mut i: usize = 0;
        assert(scopes.take(0) =~= Seq::empty());
        assert(url@ =~= head + scope_parameters(scopes.take(0)));
        while i < self.scopes.len()
            invariant
                i <= self.scopes.len(),
                scopes == self.scopes.deep_view(),
                url@ == head + scope_parameters(scopes.take(i as int)),
            decreases self.scopes.len() - i,
        {
            url.append("&scope=");
            url.append(self.scopes[i].as_str());
            proof {
                let grown = scopes.take(i + 1);
                assert(grown.drop_last() =~= scopes.take(i as int));
                assert(grown.last() == self.scopes[i as int]@);
                assert(url@ =~= head + scope_parameters(grown));
            }
            i += 1;
        }
        assert(scopes.take(self.scopes.len() as int) =~= scopes);
        url
    }
}

impl DigestRequest {
    /// Spells out the address of the request.
    pub fn url(&self) -> (url: String)
        ensures
            url@ == manifest_url(self@),
    {
        let mut url = "https://".to_owned();
        url.append(self.registry.as_str());
        url.append("/v2/");
        url.append(self.repository.as_str());
        url.append("/manifests/");
        url.append(self.tag.as_str());
        url
    }
}

} // verus!
