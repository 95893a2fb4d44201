use update_check::check::{get_updates, DigestAnswer, RegistryAnswers, Snapshot};
use update_check::grouping::group_by_registry;
use update_check::image::{CheckFailure, FailureKind, Image, RequestFailure, Verdict};
use update_check::registry::{
    find_credentials, make_probe_url, make_pull_scope, AuthChallenge, Credentials, DigestRequest,
    ProbeOutcome, RegistryCredentials, TokenOutcome, TokenRequest,
};

fn image(reference: &str, digest: &str) -> Image {
    Image::from_reference(reference, Some(digest.to_string())).unwrap()
}

fn answer(repository: &str, tag: &str, digest: &str) -> DigestAnswer {
    DigestAnswer {
        repository: repository.to_string(),
        tag: tag.to_string(),
        outcome: Ok(digest.to_string()),
    }
}

fn a_example() -> Snapshot {
    Snapshot {
        registries: vec![RegistryAnswers {
            registry: "a.example".to_string(),
            probe: ProbeOutcome::Challenged(AuthChallenge {
                realm: "https://auth.a.example/token".to_string(),
                service: "a.example".to_string(),
            }),
            token: TokenOutcome::Granted("t".to_string()),
            digests: vec![answer("x", "latest", "sha256:d1"), answer("y", "latest", "sha256:d3")],
        }],
    }
}

fn verdicts(images: &[Image]) -> Vec<Verdict> {
    images.iter().map(|image| image.verdict()).collect()
}

#[test]
fn unchanged_and_changed_image_on_one_registry() {
    let listed = vec![image("a.example/x:latest", "sha256:d1"), image("a.example/y:latest", "sha256:d2")];
    let reported = get_updates(listed, None, Vec::new(), &a_example());
    assert_eq!(reported.len(), 2);
    assert_eq!(reported[0].reference(), "a.example/x:latest");
    assert_eq!(reported[1].reference(), "a.example/y:latest");
    assert_eq!(verdicts(&reported), vec![Verdict::UpToDate, Verdict::UpdateAvailable]);
}

#[test]
fn checking_twice_gives_the_same_verdicts() {
    let listed = || {
        vec![
            image("a.example/x:latest", "sha256:d1"),
            image("gone.example/z:1", "sha256:d9"),
            image("a.example/y:latest", "sha256:d2"),
            image("a.example/missing:1", "sha256:d2"),
        ]
    };
    let references = Some(vec!["a.example/x:latest".to_string(), "a.example/y:2".to_string()]);
    let snapshot = a_example();
    let first = get_updates(listed(), references.clone(), Vec::new(), &snapshot);
    let second = get_updates(listed(), references, Vec::new(), &snapshot);
    assert_eq!(verdicts(&first), verdicts(&second));
    let no_answer =
        Verdict::Failed(CheckFailure { kind: FailureKind::DigestFetch, cause: RequestFailure::Network });
    assert_eq!(
        verdicts(&first),
        vec![
            Verdict::UpToDate,
            Verdict::Failed(CheckFailure { kind: FailureKind::AuthProbe, cause: RequestFailure::Network }),
            Verdict::UpdateAvailable,
            no_answer,
            no_answer,
        ]
    );
}

#[test]
fn report_has_every_listed_image_and_every_new_reference_once() {
    let listed = vec![image("a.example/x:latest", "sha256:d1"), image("a.example/x:latest", "sha256:d1")];
    let references = Some(vec![
        "a.example/y:latest".to_string(),
        "a.example/x:latest".to_string(),
        "a.example/y:latest".to_string(),
        "b.example/w".to_string(),
    ]);
    let reported = get_updates(listed, references, Vec::new(), &a_example());
    let names: Vec<&str> = reported.iter().map(|i| i.reference().as_str()).collect();
    assert_eq!(
        names,
        vec!["a.example/x:latest", "a.example/x:latest", "a.example/y:latest", "b.example/w"]
    );
    assert!(reported.iter().all(|i| i.latest_digest().is_some()));
}

#[test]
fn nothing_listed_and_nothing_requested_reports_nothing() {
    assert!(get_updates(Vec::new(), None, Vec::new(), &a_example()).is_empty());
    assert!(get_updates(Vec::new(), Some(Vec::new()), Vec::new(), &Snapshot { registries: Vec::new() })
        .is_empty());
}

#[test]
fn first_entry_of_a_snapshot_counts() {
    let mut snapshot = a_example();
    snapshot.registries[0].digests.insert(0, answer("y", "latest", "sha256:first"));
    snapshot.registries.push(RegistryAnswers {
        registry: "a.example".to_string(),
        probe: ProbeOutcome::Failed(RequestFailure::Status(500)),
        token: TokenOutcome::Failed(RequestFailure::Status(500)),
        digests: Vec::new(),
    });
    assert!(matches!(snapshot.probe(&"a.example".to_string()), ProbeOutcome::Challenged(_)));
    assert!(matches!(
        snapshot.probe(&"b.example".to_string()),
        ProbeOutcome::Failed(RequestFailure::Network)
    ));
    let request = DigestRequest {
        registry: "a.example".to_string(),
        repository: "y".to_string(),
        tag: "latest".to_string(),
        token: None,
    };
    assert_eq!(snapshot.digest(&request), Ok("sha256:first".to_string()));
    let token = snapshot.token(&TokenRequest {
        registry: "a.example".to_string(),
        realm: String::new(),
        service: String::new(),
        scopes: Vec::new(),
        credentials: None,
    });
    assert!(matches!(token, TokenOutcome::Granted(t) if t == "t"));
}

#[test]
fn images_are_grouped_by_registry() {
    let images = vec![
        image("b.example/x:1", "d"),
        image("a.example/y:1", "d"),
        image("b.example/z:1", "d"),
        image("plain", "d"),
        image("a.example/y:2", "d"),
    ];
    let grouping = group_by_registry(&images);
    assert_eq!(grouping.registries, vec!["b.example", "a.example", "registry-1.docker.io"]);
    assert_eq!(grouping.members, vec![vec![0, 2], vec![1, 4], vec![3]]);
    assert_eq!(grouping.registry_of, vec![0, 1, 0, 2, 1]);
    let none = group_by_registry(&Vec::new());
    assert!(none.registries.is_empty() && none.members.is_empty() && none.registry_of.is_empty());
}

#[test]
fn credentials_of_the_first_entry_for_a_registry() {
    let entries = vec![
        RegistryCredentials {
            registry: "a.example".to_string(),
            credentials: Credentials { username: "u1".to_string(), secret: "s1".to_string() },
        },
        RegistryCredentials {
            registry: "a.example".to_string(),
            credentials: Credentials { username: "u2".to_string(), secret: "s2".to_string() },
        },
    ];
    let found = find_credentials(&entries, &"a.example".to_string()).unwrap();
    assert_eq!(found.username, "u1");
    assert_eq!(found.secret, "s1");
    assert!(find_credentials(&entries, &"b.example".to_string()).is_none());
    assert!(find_credentials(&Vec::new(), &"a.example".to_string()).is_none());
}

#[test]
fn addresses_are_spelled_out() {
    assert_eq!(make_pull_scope(&"team/app".to_string()), "repository:team/app:pull");
    assert_eq!(make_probe_url(&"a.example".to_string()), "https://a.example/v2/");
    let request = TokenRequest {
        registry: "a.example".to_string(),
        realm: "https://auth/token".to_string(),
        service: "svc".to_string(),
        scopes: Vec::new(),
        credentials: None,
    };
    assert_eq!(request.url(), "https://auth/token?service=svc");
}
