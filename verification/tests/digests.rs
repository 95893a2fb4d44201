use update_check::image::{same_digest, CheckFailure, FailureKind, Image, RequestFailure, Verdict};

fn checked(current: Option<&str>, remote: &str) -> Image {
    Image::from_reference("a.example/x:latest", current.map(|d| d.to_string()))
        .unwrap()
        .with_latest(Ok(remote.to_string()))
}

#[test]
fn same_digest_is_up_to_date() {
    assert_eq!(checked(Some("sha256:aaa"), "sha256:aaa").verdict(), Verdict::UpToDate);
}

#[test]
fn other_digest_is_an_update() {
    assert_eq!(checked(Some("sha256:aaa"), "sha256:bbb").verdict(), Verdict::UpdateAvailable);
}

#[test]
fn no_local_digest_is_unknown_and_not_up_to_date() {
    let image = checked(None, "sha256:ccc");
    assert_eq!(image.verdict(), Verdict::Unknown);
    assert_ne!(image.verdict(), Verdict::UpToDate);
    assert_eq!(image.latest_digest(), &Some(Ok("sha256:ccc".to_string())));
}

#[test]
fn unchecked_and_failed_images_say_so() {
    let image = Image::from_reference("a.example/x:latest", Some("sha256:aaa".to_string())).unwrap();
    assert_eq!(image.verdict(), Verdict::Unchecked);
    let failure = CheckFailure { kind: FailureKind::DigestFetch, cause: RequestFailure::Status(404) };
    assert_eq!(image.with_latest(Err(failure)).verdict(), Verdict::Failed(failure));
}

#[test]
fn with_latest_leaves_the_image_as_it_is() {
    let image = Image::from_reference("a.example/x:1", Some("sha256:aaa".to_string())).unwrap();
    let annotated = image.with_latest(Ok("sha256:bbb".to_string()));
    assert!(image.latest_digest().is_none());
    assert_eq!(annotated.reference(), image.reference());
    assert_eq!(annotated.registry(), "a.example");
    assert_eq!(annotated.repository(), "x");
    assert_eq!(annotated.tag(), "1");
    assert_eq!(annotated.current_digest(), &Some("sha256:aaa".to_string()));
}

#[test]
fn clone_keeps_every_part() {
    let image = checked(Some("sha256:aaa"), "sha256:bbb");
    let copy = image.clone();
    assert_eq!(copy.reference(), image.reference());
    assert_eq!(copy.registry(), image.registry());
    assert_eq!(copy.repository(), image.repository());
    assert_eq!(copy.tag(), image.tag());
    assert_eq!(copy.current_digest(), image.current_digest());
    assert_eq!(copy.latest_digest(), image.latest_digest());
}

#[test]
fn algorithm_name_is_compared_without_case() {
    assert!(same_digest("SHA256:abc", "sha256:abc"));
    assert!(same_digest("Sha256:abc", "sHA256:abc"));
    assert!(same_digest("sha256:abc", "sha256:abc"));
}

#[test]
fn digest_value_is_compared_exactly() {
    assert!(!same_digest("sha256:ABC", "sha256:abc"));
    assert!(!same_digest("sha256:abc", "sha256:abd"));
    assert!(!same_digest("sha256:abc", "sha256:abcd"));
    assert!(!same_digest("sha256:abc", "sha512:abc"));
}

#[test]
fn digest_without_algorithm_is_compared_exactly() {
    assert!(same_digest("abc", "abc"));
    assert!(!same_digest("ABC", "abc"));
    assert!(same_digest("", ""));
    assert!(!same_digest("", "a"));
}

#[test]
fn only_the_part_before_the_first_colon_is_the_algorithm() {
    assert!(same_digest("SHA256:a:B", "sha256:a:B"));
    assert!(!same_digest("sha256:a:B", "sha256:a:b"));
}
