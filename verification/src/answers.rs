//! Reading what a registry sent back: which answers settle a question, and
//! which count as a failure.

use crate::image::RequestFailure;
use crate::registry::{
    AuthChallenge, AuthChallengeView, DigestOutcome, ProbeOutcome, ProbeOutcomeView, TokenOutcome,
    TokenOutcomeView,
};
use crate::text::{chars_of, find_first_from, first_index_of, spells};
use vstd::prelude::*;
use vstd::string::*;

verus! {

/// What came back for a request: the status, and the one header or field
/// that the request was made for, if the answer had it.
#[derive(Debug)]
pub struct Reply {
    pub status: u16,
    pub value: Option<String>,
}

/// `Reply` as the contracts see it, with its strings as sequences of characters.
pub struct ReplyView {
    pub status: u16,
    pub value: Option<Seq<char>>,
}

impl View for Reply {
    type V = ReplyView;

    open spec fn view(&self) -> ReplyView {
        ReplyView { status: self.status, value: self.value.deep_view() }
    }
}

impl DeepView for Reply {
    type V = ReplyView;

    open spec fn deep_view(&self) -> ReplyView {
        self@
    }
}

/// Whether `status` says that the request was served.
pub open spec fn is_success(status: u16) -> bool {
    200 <= status && status < 300
}

/// The status that asks for authentication.
pub const UNAUTHORIZED: u16 = 401;

/// Whether `word` stands in `text` at `at`.
pub open spec fn stands_at(text: Seq<char>, word: Seq<char>, at: int) -> bool {
    0 <= at && at + word.len() <= text.len() && text.subrange(at, at + word.len()) == word
}

/// Whether a parameter of a challenge starts at `at` with `key`: `key`
/// stands there, right behind the scheme, a comma or a blank.
pub open spec fn opens_parameter(header: Seq<char>, key: Seq<char>, at: int) -> bool {
    stands_at(header, key, at) && at >= "Bearer "@.len() && (at == "Bearer "@.len() || header[at - 1]
        == ',' || header[at - 1] == ' ')
}

/// The first place from `from` on where a parameter starts with `key`, or
/// the length of `header` if there is none.
pub open spec fn parameter_start(header: Seq<char>, key: Seq<char>, from: int) -> int
    decreases header.len() - from,
{
    if from >= header.len() {
        header.len() as int
    } else if opens_parameter(header, key, from) {
        from
    } else {
        parameter_start(header, key, from + 1)
    }
}

/// The value of the first parameter of `header` that starts with `key`:
/// what follows `key` up to the next quotation mark. `key` ends with the
/// mark that opens the value.
pub open spec fn parameter(header: Seq<char>, key: Seq<char>) -> Option<Seq<char>> {
    let at = parameter_start(header, key, "Bearer "@.len() as int);
    if at >= header.len() {
        None
    } else {
        let value = header.skip(at + key.len());
        let end = first_index_of(value, '"');
        if end < value.len() {
            Some(value.take(end))
        } else {
            None
        }
    }
}

/// The challenge that `header` states: it asks for a bearer token and names
/// a realm and a service, each in quotation marks.
pub open spec fn challenge_of(header: Seq<char>) -> Option<AuthChallengeView> {
    if stands_at(header, "Bearer "@, 0) {
        match (parameter(header, "realm=\""@), parameter(header, "service=\""@)) {
            (Some(realm), Some(service)) => Some(AuthChallengeView { realm, service }),
            _ => None,
        }
    } else {
        None
    }
}

/// What the answer to a probe means. A registry that serves the probe wants
/// no token; one that answers with a challenge wants one; anything else, no
/// answer included, settles nothing.
pub open spec fn probe_outcome_of(reply: Option<ReplyView>) -> ProbeOutcomeView {
    match reply {
        None => ProbeOutcomeView::Failed(RequestFailure::Network),
        Some(reply) => if is_success(reply.status) {
            ProbeOutcomeView::Open
        } else if reply.status == UNAUTHORIZED {
            match reply.value {
                Some(header) => match challenge_of(header) {
                    Some(challenge) => ProbeOutcomeView::Challenged(challenge),
                    None => ProbeOutcomeView::Failed(RequestFailure::Malformed),
                },
                None => ProbeOutcomeView::Failed(RequestFailure::Malformed),
            }
        } else {
            ProbeOutcomeView::Failed(RequestFailure::Status(reply.status))
        },
    }
}

/// What an answer means that is to carry a value, a token or a digest: the
/// value if the request was served and the value is there and not empty.
pub open spec fn value_of(reply: Option<ReplyView>) -> Result<Seq<char>, RequestFailure> {
    match reply {
        None => Err(RequestFailure::Network),
        Some(reply) => if is_success(reply.status) {
            match reply.value {
                Some(value) => if value.len() > 0 {
                    Ok(value)
                } else {
                    Err(RequestFailure::Malformed)
                },
                None => Err(RequestFailure::Malformed),
            }
        } else {
            Err(RequestFailure::Status(reply.status))
        },
    }
}

/// What the answer of a token endpoint means.
pub open spec fn token_outcome_of(reply: Option<ReplyView>) -> TokenOutcomeView {
    match value_of(reply) {
        Ok(token) => TokenOutcomeView::Granted(token),
        Err(cause) => TokenOutcomeView::Failed(cause),
    }
}

/// Finds the first parameter of `chars` that starts with `key`.
fn find_parameter(chars: &Vec<char>, key: &str) -> (at: usize)
    ensures
        at == parameter_start(chars@, key@, "Bearer "@.len() as int),
        at < chars.len() ==> at + key@.len() <= chars.len(),
        at <= chars.len(),
{
    let scheme_len = "Bearer ".unicode_len();
    let key_len = key.unicode_len();
    let len = chars.len();
    let mut at: usize = scheme_len;
    while at < len
        invariant
            scheme_len == "Bearer "@.len(),
            key_len == key@.len(),
            len == chars.len(),
            scheme_len <= at,
            parameter_start(chars@, key@, scheme_len as int) == parameter_start(
                chars@,
                key@,
                at as int,
            ),
        decreases len - at,
    {
        if key_len <= len - at && spells(chars, at, at + key_len, key) && (at == scheme_len
            || chars[at - 1] == ',' || chars[at - 1] == ' ') {
            return at;
        }
        at += 1;
    }
    len
}

/// Reads the value of the first parameter of `header` that starts with
/// `key`.
fn read_parameter(header: &str, chars: &Vec<char>, key: &str) -> (value: Option<String>)
    requires
        chars@ == header@,
    ensures
        value.deep_view() == parameter(header@, key@),
{
    let at = find_parameter(chars, key);
    if at >= chars.len() {
        return None;
    }
    let start = at + key.unicode_len();
    let end = find_first_from(chars, '"', start);
    if end < chars.len() {
        assert(header@.skip(start as int).take(end - start) =~= header@.subrange(
            start as int,
            end as int,
        ));
        Some(header.substring_char(start, end).to_owned())
    } else {
        None
    }
}

/// Reads the challenge that `header` states, if it states one.
pub fn parse_challenge(header: &str) -> (challenge: Option<AuthChallenge>)
    ensures
        challenge.deep_view() == challenge_of(header@),
{
    let chars = chars_of(header);
    let scheme_len = "Bearer ".unicode_len();
    if chars.len() < scheme_len || !spells(&chars, 0, scheme_len, "Bearer ") {
        return None;
    }
    let realm = read_parameter(header, &chars, "realm=\"");
    let service = read_parameter(header, &chars, "service=\"");
    match (realm, service) {
        (Some(realm), Some(service)) => Some(AuthChallenge { realm, service }),
        _ => None,
    }
}

/// Whether `status` says that the request was served.
pub fn served(status: u16) -> (yes: bool)
    ensures
        yes == is_success(status),
{
    200 <= status && status < 300
}

/// Says what the answer to a probe means; `reply.value` is the header that
/// states the challenge.
pub fn classify_probe(reply: Option<Reply>) -> (outcome: ProbeOutcome)
    ensures
        outcome@ == probe_outcome_of(reply.deep_view()),
{
    match reply {
        None => ProbeOutcome::Failed(RequestFailure::Network),
        Some(reply) => {
            if served(reply.status) {
                ProbeOutcome::Open
            } else if reply.status == UNAUTHORIZED {
                match reply.value {
                    Some(header) => match parse_challenge(header.as_str()) {
                        Some(challenge) => ProbeOutcome::Challenged(challenge),
                        None => ProbeOutcome::Failed(RequestFailure::Malformed),
                    },
                    None => ProbeOutcome::Failed(RequestFailure::Malformed),
                }
            } else {
                ProbeOutcome::Failed(RequestFailure::Status(reply.status))
            }
        },
    }
}

/// Says what the answer to a request for a digest means; `reply.value` is
/// the header that carries the digest.
pub fn classify_digest(reply: Option<Reply>) -> (outcome: DigestOutcome)
    ensures
        crate::registry::digest_outcome_view(outcome) == value_of(reply.deep_view()),
{
    match reply {
        None => Err(RequestFailure::Network),
        Some(reply) => {
            if served(reply.status) {
                match reply.value {
                    Some(value) => if value.as_str().unicode_len() > 0 {
                        Ok(value)
                    } else {
                        Err(RequestFailure::Malformed)
                    },
                    None => Err(RequestFailure::Malformed),
                }
            } else {
                Err(RequestFailure::Status(reply.status))
            }
        },
    }
}

/// Says what the answer of a token endpoint means; `reply.value` is the
/// token that the answer carries.
pub fn classify_token(reply: Option<Reply>) -> (outcome: TokenOutcome)
    ensures
        outcome@ == token_outcome_of(reply.deep_view()),
{
    match classify_digest(reply) {
        Ok(token) => TokenOutcome::Granted(token),
        Err(cause) => TokenOutcome::Failed(cause),
    }
}

} // verus!
