use update_check::check::{DigestAnswer, RegistryAnswers, Snapshot};
use update_check::image::{CheckFailure, FailureKind, Image, RequestFailure, Verdict};
use update_check::model::{Phase, ProtocolError};
use update_check::orchestrator::{Action, Event, Orchestrator};
use update_check::reference::ReferenceParseError;
use update_check::registry::{
    AuthChallenge, Credentials, DigestOutcome, ProbeOutcome, RegistryCredentials, TokenOutcome,
};

fn image(reference: &str, digest: &str) -> Image {
    Image::from_reference(reference, Some(digest.to_string())).unwrap()
}

fn challenge(realm: &str, service: &str) -> ProbeOutcome {
    ProbeOutcome::Challenged(AuthChallenge {
        realm: realm.to_string(),
        service: service.to_string(),
    })
}

/// Runs a check to its end, answering from `snapshot`, and counts the
/// probes and the token requests for each registry on the way.
fn drive(
    listed: Vec<Image>,
    references: Option<Vec<String>>,
    credentials: Vec<RegistryCredentials>,
    snapshot: &Snapshot,
) -> (Vec<Image>, Vec<String>, Vec<String>) {
    let mut probed: Vec<String> = Vec::new();
    let mut asked_tokens: Vec<String> = Vec::new();
    let (mut machine, mut action) = Orchestrator::new(references, credentials);
    let mut listed = Some(listed);
    loop {
        let event = match action {
            Action::ListImages { .. } => Event::ImagesListed(listed.take().unwrap()),
            Action::ProbeAuth { registry } => {
                probed.push(registry.clone());
                Event::AuthProbed(snapshot.probe(&registry))
            }
            Action::FetchToken(request) => {
                asked_tokens.push(request.registry.clone());
                Event::TokenFetched(snapshot.token(&request))
            }
            Action::CheckDigests(requests) => {
                Event::DigestsChecked(requests.iter().map(|r| snapshot.digest(r)).collect())
            }
            Action::Finish(images) => return (images, probed, asked_tokens),
        };
        let (next, answer) = machine.step(event);
        machine = next;
        action = answer.unwrap();
    }
}

fn registry_with_token(registry: &str, digests: Vec<(&str, &str, DigestOutcome)>) -> RegistryAnswers {
    RegistryAnswers {
        registry: registry.to_string(),
        probe: challenge("https://auth.example/token", registry),
        token: TokenOutcome::Granted("secret-token".to_string()),
        digests: digests
            .into_iter()
            .map(|(repository, tag, outcome)| DigestAnswer {
                repository: repository.to_string(),
                tag: tag.to_string(),
                outcome,
            })
            .collect(),
    }
}

#[test]
fn two_images_on_one_registry_step_by_step() {
    let x = image("a.example/x:latest", "sha256:d1");
    let y = image("a.example/y:latest", "sha256:d2");
    let (machine, action) = Orchestrator::new(None, Vec::new());
    assert_eq!(machine.phase(), Phase::Collecting);
    assert!(matches!(action, Action::ListImages { references: None }));

    let (machine, action) = machine.step(Event::ImagesListed(vec![x, y]));
    assert_eq!(machine.phase(), Phase::Probing);
    match action.unwrap() {
        Action::ProbeAuth { registry } => assert_eq!(registry, "a.example"),
        other => panic!("unexpected action {:?}", other),
    }

    let (machine, action) =
        machine.step(Event::AuthProbed(challenge("https://auth.a.example/token", "a.example")));
    assert_eq!(machine.phase(), Phase::FetchingToken);
    match action.unwrap() {
        Action::FetchToken(request) => {
            assert_eq!(request.registry, "a.example");
            assert_eq!(request.realm, "https://auth.a.example/token");
            assert_eq!(request.service, "a.example");
            assert_eq!(request.scopes, vec!["repository:x:pull", "repository:y:pull"]);
            assert!(request.credentials.is_none());
            assert_eq!(
                request.url(),
                "https://auth.a.example/token?service=a.example&scope=repository:x:pull&scope=repository:y:pull"
            );
        }
        other => panic!("unexpected action {:?}", other),
    }

    let (machine, action) =
        machine.step(Event::TokenFetched(TokenOutcome::Granted("t0k3n".to_string())));
    assert_eq!(machine.phase(), Phase::Checking);
    match action.unwrap() {
        Action::CheckDigests(requests) => {
            assert_eq!(requests.len(), 2);
            assert_eq!(requests[0].registry, "a.example");
            assert_eq!(requests[0].repository, "x");
            assert_eq!(requests[0].tag, "latest");
            assert_eq!(requests[0].token.as_deref(), Some("t0k3n"));
            assert_eq!(requests[1].repository, "y");
            assert_eq!(requests[1].token.as_deref(), Some("t0k3n"));
            assert_eq!(requests[1].url(), "https://a.example/v2/y/manifests/latest");
        }
        other => panic!("unexpected action {:?}", other),
    }

    let (machine, action) = machine.step(Event::DigestsChecked(vec![
        Ok("sha256:d1".to_string()),
        Ok("sha256:d3".to_string()),
    ]));
    assert_eq!(machine.phase(), Phase::Done);
    match action.unwrap() {
        Action::Finish(images) => {
            assert_eq!(images.len(), 2);
            assert_eq!(images[0].reference(), "a.example/x:latest");
            assert_eq!(images[0].verdict(), Verdict::UpToDate);
            assert_eq!(images[1].reference(), "a.example/y:latest");
            assert_eq!(images[1].verdict(), Verdict::UpdateAvailable);
            assert_eq!(images[1].latest_digest(), &Some(Ok("sha256:d3".to_string())));
        }
        other => panic!("unexpected action {:?}", other),
    }
}

#[test]
fn two_images_on_one_registry_need_one_token() {
    let snapshot = Snapshot {
        registries: vec![registry_with_token(
            "a.example",
            vec![
                ("x", "latest", Ok("sha256:d1".to_string())),
                ("y", "latest", Ok("sha256:d3".to_string())),
            ],
        )],
    };
    let listed = vec![image("a.example/x:latest", "sha256:d1"), image("a.example/y:latest", "sha256:d2")];
    let (images, probed, asked_tokens) = drive(listed, None, Vec::new(), &snapshot);
    assert_eq!(probed, vec!["a.example"]);
    assert_eq!(asked_tokens, vec!["a.example"]);
    assert_eq!(images[0].verdict(), Verdict::UpToDate);
    assert_eq!(images[1].verdict(), Verdict::UpdateAvailable);
}

#[test]
fn many_images_on_two_registries_need_one_token_each() {
    let snapshot = Snapshot {
        registries: vec![
            registry_with_token("a.example", vec![("x", "1", Ok("sha256:a".to_string()))]),
            registry_with_token("b.example", vec![("z", "1", Ok("sha256:b".to_string()))]),
        ],
    };
    let listed = vec![
        image("a.example/x:1", "sha256:a"),
        image("b.example/z:1", "sha256:b"),
        image("a.example/x:1", "sha256:old"),
        image("a.example/x:2", "sha256:a"),
        image("b.example/z:1", "sha256:b"),
    ];
    let (images, probed, asked_tokens) = drive(listed, None, Vec::new(), &snapshot);
    assert_eq!(probed, vec!["a.example", "b.example"]);
    assert_eq!(asked_tokens, vec!["a.example", "b.example"]);
    assert_eq!(images.len(), 5);
    assert_eq!(images[0].verdict(), Verdict::UpToDate);
    assert_eq!(images[1].verdict(), Verdict::UpToDate);
    assert_eq!(images[2].verdict(), Verdict::UpdateAvailable);
    assert_eq!(
        images[3].verdict(),
        Verdict::Failed(CheckFailure { kind: FailureKind::DigestFetch, cause: RequestFailure::Network })
    );
    assert_eq!(images[4].verdict(), Verdict::UpToDate);
}

#[test]
fn token_scopes_name_each_repository_once() {
    let listed = vec![
        image("a.example/x:1", "sha256:a"),
        image("a.example/y:1", "sha256:a"),
        image("a.example/x:2", "sha256:a"),
        image("a.example/y:2", "sha256:a"),
        image("a.example/x:3", "sha256:a"),
    ];
    let (machine, _) = Orchestrator::new(None, Vec::new());
    let (machine, _) = machine.step(Event::ImagesListed(listed));
    let (_, action) = machine.step(Event::AuthProbed(challenge("https://auth/token", "svc")));
    match action.unwrap() {
        Action::FetchToken(request) => {
            assert_eq!(request.scopes, vec!["repository:x:pull", "repository:y:pull"]);
        }
        other => panic!("unexpected action {:?}", other),
    }
}

#[test]
fn token_request_carries_the_credentials_of_its_registry() {
    let credentials = vec![
        RegistryCredentials {
            registry: "b.example".to_string(),
            credentials: Credentials { username: "bob".to_string(), secret: "b".to_string() },
        },
        RegistryCredentials {
            registry: "a.example".to_string(),
            credentials: Credentials { username: "alice".to_string(), secret: "a1".to_string() },
        },
        RegistryCredentials {
            registry: "a.example".to_string(),
            credentials: Credentials { username: "other".to_string(), secret: "a2".to_string() },
        },
    ];
    let (machine, _) = Orchestrator::new(None, credentials);
    let (machine, _) = machine.step(Event::ImagesListed(vec![image("a.example/x:1", "sha256:a")]));
    let (_, action) = machine.step(Event::AuthProbed(challenge("https://auth/token", "svc")));
    match action.unwrap() {
        Action::FetchToken(request) => {
            let credentials = request.credentials.unwrap();
            assert_eq!(credentials.username, "alice");
            assert_eq!(credentials.secret, "a1");
        }
        other => panic!("unexpected action {:?}", other),
    }
}

#[test]
fn failed_probe_fails_every_image_of_that_registry_only() {
    let snapshot = Snapshot {
        registries: vec![
            RegistryAnswers {
                registry: "bad.example".to_string(),
                probe: ProbeOutcome::Failed(RequestFailure::Status(503)),
                token: TokenOutcome::Granted("unused".to_string()),
                digests: vec![DigestAnswer {
                    repository: "x".to_string(),
                    tag: "1".to_string(),
                    outcome: Ok("sha256:a".to_string()),
                }],
            },
            RegistryAnswers {
                registry: "good.example".to_string(),
                probe: ProbeOutcome::Open,
                token: TokenOutcome::Failed(RequestFailure::Network),
                digests: vec![DigestAnswer {
                    repository: "y".to_string(),
                    tag: "1".to_string(),
                    outcome: Ok("sha256:b".to_string()),
                }],
            },
        ],
    };
    let listed = vec![
        image("bad.example/x:1", "sha256:a"),
        image("good.example/y:1", "sha256:b"),
        image("bad.example/x:2", "sha256:a"),
    ];
    let (images, probed, asked_tokens) = drive(listed, None, Vec::new(), &snapshot);
    let failure = CheckFailure { kind: FailureKind::AuthProbe, cause: RequestFailure::Status(503) };
    assert_eq!(probed, vec!["bad.example", "good.example"]);
    assert!(asked_tokens.is_empty());
    assert_eq!(images.len(), 3);
    assert_eq!(images[0].latest_digest(), &Some(Err(failure)));
    assert_eq!(images[0].verdict(), Verdict::Failed(failure));
    assert_eq!(images[1].verdict(), Verdict::UpToDate);
    assert_eq!(images[2].verdict(), Verdict::Failed(failure));
}

#[test]
fn failed_token_fails_every_image_and_asks_for_no_digest() {
    let (machine, _) = Orchestrator::new(None, Vec::new());
    let (machine, _) = machine.step(Event::ImagesListed(vec![
        image("a.example/x:1", "sha256:a"),
        image("b.example/y:1", "sha256:b"),
    ]));
    let (machine, _) = machine.step(Event::AuthProbed(challenge("https://auth/token", "svc")));
    let (machine, action) =
        machine.step(Event::TokenFetched(TokenOutcome::Failed(RequestFailure::Status(403))));
    match action.unwrap() {
        Action::ProbeAuth { registry } => assert_eq!(registry, "b.example"),
        other => panic!("unexpected action {:?}", other),
    }
    let (machine, action) = machine.step(Event::AuthProbed(ProbeOutcome::Open));
    match action.unwrap() {
        Action::CheckDigests(requests) => {
            assert_eq!(requests.len(), 1);
            assert_eq!(requests[0].registry, "b.example");
            assert_eq!(requests[0].token, None);
        }
        other => panic!("unexpected action {:?}", other),
    }
    let (_, action) = machine.step(Event::DigestsChecked(vec![Err(RequestFailure::Malformed)]));
    match action.unwrap() {
        Action::Finish(images) => {
            assert_eq!(
                images[0].verdict(),
                Verdict::Failed(CheckFailure {
                    kind: FailureKind::TokenAcquisition,
                    cause: RequestFailure::Status(403),
                })
            );
            assert_eq!(
                images[1].verdict(),
                Verdict::Failed(CheckFailure {
                    kind: FailureKind::DigestFetch,
                    cause: RequestFailure::Malformed,
                })
            );
        }
        other => panic!("unexpected action {:?}", other),
    }
}

#[test]
fn requested_references_are_added_once_unless_listed() {
    let references = vec![
        "a.example/x:1".to_string(),
        "a.example/new:1".to_string(),
        "c.example/other".to_string(),
        "a.example/new:1".to_string(),
        "a.example/broken:".to_string(),
    ];
    let (machine, action) = Orchestrator::new(Some(references.clone()), Vec::new());
    match action {
        Action::ListImages { references: asked } => assert_eq!(asked, Some(references)),
        other => panic!("unexpected action {:?}", other),
    }
    let (machine, _) = machine.step(Event::ImagesListed(vec![
        image("a.example/x:1", "sha256:a"),
        image("a.example/y:1", "sha256:b"),
    ]));
    assert_eq!(machine.rejected().len(), 1);
    assert_eq!(machine.rejected()[0].reference, "a.example/broken:");
    assert_eq!(machine.rejected()[0].error, ReferenceParseError::MissingTag);
    let (machine, action) = machine.step(Event::AuthProbed(ProbeOutcome::Open));
    match action.unwrap() {
        Action::ProbeAuth { registry } => assert_eq!(registry, "c.example"),
        other => panic!("unexpected action {:?}", other),
    }
    let (machine, action) = machine.step(Event::AuthProbed(ProbeOutcome::Open));
    let requests = match action.unwrap() {
        Action::CheckDigests(requests) => requests,
        other => panic!("unexpected action {:?}", other),
    };
    assert_eq!(requests.len(), 4);
    let outcomes: Vec<DigestOutcome> = requests.iter().map(|_| Ok("sha256:a".to_string())).collect();
    let (_, action) = machine.step(Event::DigestsChecked(outcomes));
    match action.unwrap() {
        Action::Finish(images) => {
            let reported: Vec<&str> = images.iter().map(|i| i.reference().as_str()).collect();
            assert_eq!(
                reported,
                vec!["a.example/x:1", "a.example/y:1", "a.example/new:1", "c.example/other"]
            );
            assert_eq!(images[0].verdict(), Verdict::UpToDate);
            assert_eq!(images[1].verdict(), Verdict::UpdateAvailable);
            assert_eq!(images[2].verdict(), Verdict::Unknown);
            assert_eq!(images[3].verdict(), Verdict::Unknown);
            assert_eq!(images[3].tag(), "latest");
        }
        other => panic!("unexpected action {:?}", other),
    }
}

#[test]
fn no_images_give_an_empty_report() {
    let (machine, _) = Orchestrator::new(None, Vec::new());
    let (machine, action) = machine.step(Event::ImagesListed(Vec::new()));
    assert_eq!(machine.phase(), Phase::Checking);
    match action.unwrap() {
        Action::CheckDigests(requests) => assert!(requests.is_empty()),
        other => panic!("unexpected action {:?}", other),
    }
    let (machine, action) = machine.step(Event::DigestsChecked(Vec::new()));
    assert_eq!(machine.phase(), Phase::Done);
    match action.unwrap() {
        Action::Finish(images) => assert!(images.is_empty()),
        other => panic!("unexpected action {:?}", other),
    }
}

#[test]
fn an_event_out_of_turn_is_refused_and_changes_nothing() {
    let (machine, _) = Orchestrator::new(None, Vec::new());
    let (machine, answer) = machine.step(Event::AuthProbed(ProbeOutcome::Open));
    assert_eq!(answer.unwrap_err(), ProtocolError::UnexpectedEvent);
    assert_eq!(machine.phase(), Phase::Collecting);
    let (machine, _) = machine.step(Event::ImagesListed(vec![image("a.example/x:1", "sha256:a")]));
    let (machine, answer) =
        machine.step(Event::TokenFetched(TokenOutcome::Granted("t".to_string())));
    assert_eq!(answer.unwrap_err(), ProtocolError::UnexpectedEvent);
    assert_eq!(machine.phase(), Phase::Probing);
    let (machine, answer) = machine.step(Event::AuthProbed(ProbeOutcome::Open));
    assert!(answer.is_ok());
    let (machine, answer) = machine.step(Event::DigestsChecked(Vec::new()));
    assert_eq!(answer.unwrap_err(), ProtocolError::WrongNumberOfAnswers);
    assert_eq!(machine.phase(), Phase::Checking);
    let (machine, answer) = machine.step(Event::DigestsChecked(vec![Ok("sha256:a".to_string())]));
    assert!(matches!(answer, Ok(Action::Finish(_))));
    let (machine, answer) = machine.step(Event::ImagesListed(Vec::new()));
    assert_eq!(answer.unwrap_err(), ProtocolError::UnexpectedEvent);
    assert_eq!(machine.phase(), Phase::Done);
}
