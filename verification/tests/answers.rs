use update_check::answers::{
    classify_digest, classify_probe, classify_token, parse_challenge, served, Reply,
};
use update_check::image::RequestFailure;
use update_check::registry::{ProbeOutcome, TokenOutcome};

fn reply(status: u16, value: Option<&str>) -> Option<Reply> {
    Some(Reply { status, value: value.map(|v| v.to_string()) })
}

#[test]
fn challenge_with_realm_and_service() {
    let challenge = parse_challenge(
        "Bearer realm=\"https://auth.docker.io/token\",service=\"registry.docker.io\"",
    )
    .unwrap();
    assert_eq!(challenge.realm, "https://auth.docker.io/token");
    assert_eq!(challenge.service, "registry.docker.io");
}

#[test]
fn challenge_with_more_parameters_in_any_order() {
    let challenge = parse_challenge(
        "Bearer scope=\"repository:x:pull\", service=\"svc\", error=\"x\",realm=\"https://r/t\"",
    )
    .unwrap();
    assert_eq!(challenge.realm, "https://r/t");
    assert_eq!(challenge.service, "svc");
}

#[test]
fn challenge_parameter_must_start_a_parameter() {
    let challenge =
        parse_challenge("Bearer xrealm=\"no\",realm=\"yes\",myservice=\"no\",service=\"s\"").unwrap();
    assert_eq!(challenge.realm, "yes");
    assert_eq!(challenge.service, "s");
}

#[test]
fn challenge_takes_the_first_of_two_values() {
    let challenge = parse_challenge("Bearer realm=\"a\",realm=\"b\",service=\"\"").unwrap();
    assert_eq!(challenge.realm, "a");
    assert_eq!(challenge.service, "");
}

#[test]
fn header_that_states_no_challenge() {
    assert!(parse_challenge("").is_none());
    assert!(parse_challenge("Bearer").is_none());
    assert!(parse_challenge("Bearer ").is_none());
    assert!(parse_challenge("Basic realm=\"r\",service=\"s\"").is_none());
    assert!(parse_challenge("bearer realm=\"r\",service=\"s\"").is_none());
    assert!(parse_challenge("Bearer realm=\"r\"").is_none());
    assert!(parse_challenge("Bearer service=\"s\"").is_none());
    assert!(parse_challenge("Bearer realm=\"r\",service=\"s").is_none());
    assert!(parse_challenge("Bearer realm=r,service=s").is_none());
    assert!(parse_challenge("Bearer realm=\"r\",service=\"").is_none());
}

#[test]
fn probe_that_is_served_needs_no_token() {
    assert!(matches!(classify_probe(reply(200, None)), ProbeOutcome::Open));
    assert!(matches!(classify_probe(reply(204, Some("ignored"))), ProbeOutcome::Open));
    assert!(matches!(classify_probe(reply(299, None)), ProbeOutcome::Open));
}

#[test]
fn probe_that_is_challenged_needs_a_token() {
    match classify_probe(reply(401, Some("Bearer realm=\"https://r/t\",service=\"s\""))) {
        ProbeOutcome::Challenged(challenge) => {
            assert_eq!(challenge.realm, "https://r/t");
            assert_eq!(challenge.service, "s");
        }
        other => panic!("unexpected outcome {:?}", other),
    }
}

#[test]
fn any_other_probe_answer_is_a_failure() {
    assert!(matches!(classify_probe(None), ProbeOutcome::Failed(RequestFailure::Network)));
    assert!(matches!(
        classify_probe(reply(401, None)),
        ProbeOutcome::Failed(RequestFailure::Malformed)
    ));
    assert!(matches!(
        classify_probe(reply(401, Some("Basic realm=\"r\""))),
        ProbeOutcome::Failed(RequestFailure::Malformed)
    ));
    assert!(matches!(
        classify_probe(reply(403, Some("Bearer realm=\"r\",service=\"s\""))),
        ProbeOutcome::Failed(RequestFailure::Status(403))
    ));
    assert!(matches!(
        classify_probe(reply(500, None)),
        ProbeOutcome::Failed(RequestFailure::Status(500))
    ));
    assert!(matches!(
        classify_probe(reply(199, None)),
        ProbeOutcome::Failed(RequestFailure::Status(199))
    ));
    assert!(matches!(
        classify_probe(reply(300, None)),
        ProbeOutcome::Failed(RequestFailure::Status(300))
    ));
}

#[test]
fn token_answers() {
    match classify_token(reply(200, Some("abc"))) {
        TokenOutcome::Granted(token) => assert_eq!(token, "abc"),
        other => panic!("unexpected outcome {:?}", other),
    }
    assert!(matches!(classify_token(None), TokenOutcome::Failed(RequestFailure::Network)));
    assert!(matches!(
        classify_token(reply(200, None)),
        TokenOutcome::Failed(RequestFailure::Malformed)
    ));
    assert!(matches!(
        classify_token(reply(200, Some(""))),
        TokenOutcome::Failed(RequestFailure::Malformed)
    ));
    assert!(matches!(
        classify_token(reply(401, Some("abc"))),
        TokenOutcome::Failed(RequestFailure::Status(401))
    ));
}

#[test]
fn digest_answers() {
    assert_eq!(classify_digest(reply(200, Some("sha256:aaa"))), Ok("sha256:aaa".to_string()));
    assert_eq!(classify_digest(None), Err(RequestFailure::Network));
    assert_eq!(classify_digest(reply(200, None)), Err(RequestFailure::Malformed));
    assert_eq!(classify_digest(reply(200, Some(""))), Err(RequestFailure::Malformed));
    assert_eq!(classify_digest(reply(404, Some("sha256:aaa"))), Err(RequestFailure::Status(404)));
    assert_eq!(classify_digest(reply(429, None)), Err(RequestFailure::Status(429)));
}

#[test]
fn which_statuses_are_served() {
    assert!(served(200));
    assert!(served(299));
    assert!(!served(199));
    assert!(!served(300));
    assert!(!served(401));
}
