//! An image, what is known of it locally, and what its registry said.

use crate::reference::{parse_reference, reference_parts, ReferenceParseError};
use crate::text::{chars_of, find_first, first_index_of};
use vstd::prelude::*;
use vstd::string::*;

verus! {

/// The step of a check at which an image was given up.
#[derive(Clone, Copy, Debug, PartialEq, Eq, Structural)]
pub enum FailureKind {
    /// The registry did not say whether it wants a token.
    AuthProbe,
    /// The registry wants a token and none could be had.
    TokenAcquisition,
    /// The registry did not give the digest of the image's tag.
    DigestFetch,
}

/// Why a request, with its retries, did not give what was asked for.
#[derive(Clone, Copy, Debug, PartialEq, Eq, Structural)]
pub enum RequestFailure {
    /// The answer carried this status, which the request does not allow for.
    Status(u16),
    /// No answer came: the connection failed or timed out on every attempt.
    Network,
    /// The answer had the right status and lacked what was asked for.
    Malformed,
}

/// Why an image has no remote digest.
#[derive(Clone, Copy, Debug, PartialEq, Eq, Structural)]
pub struct CheckFailure {
    pub kind: FailureKind,
    pub cause: RequestFailure,
}

/// What a registry said of an image's tag: its digest, or why there is none.
pub type Resolution = Result<String, CheckFailure>;

/// An image as the contracts of this crate see it.
pub struct ImageView {
    pub reference: Seq<char>,
    pub registry: Seq<char>,
    pub repository: Seq<char>,
    pub tag: Seq<char>,
    pub current_digest: Option<Seq<char>>,
    pub latest_digest: Option<Result<Seq<char>, CheckFailure>>,
}

impl ImageView {
    /// This image with `resolution` as what its registry said.
    pub open spec fn resolved(self, resolution: Result<Seq<char>, CheckFailure>) -> ImageView {
        ImageView { latest_digest: Some(resolution), ..self }
    }

    /// Whether the image names a registry at all.
    pub open spec fn well_formed(self) -> bool {
        self.registry.len() > 0
    }
}

/// The characters of what a registry said.
pub open spec fn resolution_view(resolution: Resolution) -> Result<Seq<char>, CheckFailure> {
    match resolution {
        Ok(digest) => Ok(digest@),
        Err(failure) => Err(failure),
    }
}

/// One image reference with its parts, the digest known locally, and, once
/// its registry was asked, the digest there or the reason why none was had.
#[derive(Debug)]
pub struct Image {
    reference: String,
    registry: String,
    repository: String,
    tag: String,
    current_digest: Option<String>,
    latest_digest: Option<Resolution>,
}

impl View for Image {
    type V = ImageView;

    closed spec fn view(&self) -> ImageView {
        ImageView {
            reference: self.reference@,
            registry: self.registry@,
            repository: self.repository@,
            tag: self.tag@,
            current_digest: match self.current_digest {
                Some(digest) => Some(digest@),
                None => None,
            },
            latest_digest: match self.latest_digest {
                Some(resolution) => Some(resolution_view(resolution)),
                None => None,
            },
        }
    }
}

impl DeepView for Image {
    type V = ImageView;

    open spec fn deep_view(&self) -> ImageView {
        self@
    }
}

impl Clone for Image {
    fn clone(&self) -> (copy: Self)
        ensures
            copy@ == self@,
    {
        proof {
            use_type_invariant(self);
        }
        Image {
            reference: self.reference.clone(),
            registry: self.registry.clone(),
            repository: self.repository.clone(),
            tag: self.tag.clone(),
            current_digest: match &self.current_digest {
                Some(digest) => Some(digest.clone()),
                None => None,
            },
            latest_digest: match &self.latest_digest {
                Some(Ok(digest)) => Some(Ok(digest.clone())),
                Some(Err(failure)) => Some(Err(*failure)),
                None => None,
            },
        }
    }
}

impl Image {
    #[verifier::type_invariant]
    spec fn names_registry(self) -> bool {
        self.registry@.len() > 0
    }

    /// Reads `reference` and pairs its parts with the digest known locally.
    /// A reference without a repository or with an empty tag gives no image.
    pub fn from_reference(reference: &str, current_digest: Option<String>) -> (made: Result<
        Image,
        ReferenceParseError,
    >)
        ensures
            match made {
                Ok(image) => {
                    &&& reference_parts(reference@) is Ok
                    &&& image@.reference == reference@
                    &&& image@.registry == reference_parts(reference@)->Ok_0.registry
                    &&& image@.repository == reference_parts(reference@)->Ok_0.repository
                    &&& image@.tag == reference_parts(reference@)->Ok_0.tag
                    &&& image@.current_digest == current_digest.deep_view()
                    &&& image@.latest_digest is None
                    &&& image@.well_formed()
                },
                Err(error) => reference_parts(reference@) is Err && reference_parts(reference@)->Err_0 == error,
            },
    {
        match parse_reference(reference) {
            Ok((registry, repository, tag)) => Ok(
                Image {
                    reference: reference.to_owned(),
                    registry,
                    repository,
                    tag,
                    current_digest,
                    latest_digest: None,
                },
            ),
            Err(error) => Err(error),
        }
    }

    /// The reference as it was given.
    pub fn reference(&self) -> (text: &String)
        ensures
            text@ == self@.reference,
    {
        &self.reference
    }

    /// The registry's host, never empty.
    pub fn registry(&self) -> (text: &String)
        ensures
            text@ == self@.registry,
            text@.len() > 0,
    {
        proof {
            use_type_invariant(self);
        }
        &self.registry
    }

    /// The repository's path in the registry.
    pub fn repository(&self) -> (text: &String)
        ensures
            text@ == self@.repository,
    {
        &self.repository
    }

    /// The tag that is tracked.
    pub fn tag(&self) -> (text: &String)
        ensures
            text@ == self@.tag,
    {
        &self.tag
    }

    /// The digest known locally, if any.
    pub fn current_digest(&self) -> (digest: &Option<String>)
        ensures
            digest.deep_view() == self@.current_digest,
    {
        &self.current_digest
    }

    /// What the registry said, if it was asked.
    pub fn latest_digest(&self) -> (latest: &Option<Resolution>)
        ensures
            match *latest {
                Some(resolution) => self@.latest_digest == Some(resolution_view(resolution)),
                None => self@.latest_digest is None,
            },
    {
        &self.latest_digest
    }

    /// A copy of this image that carries `resolution` as what its registry
    /// said; the image itself is left as it is.
    pub fn with_latest(&self, resolution: Resolution) -> (annotated: Image)
        ensures
            annotated@ == self@.resolved(resolution_view(resolution)),
    {
        proof {
            use_type_invariant(self);
        }
        Image {
            reference: self.reference.clone(),
            registry: self.registry.clone(),
            repository: self.repository.clone(),
            tag: self.tag.clone(),
            current_digest: match &self.current_digest {
                Some(digest) => Some(digest.clone()),
                None => None,
            },
            latest_digest: Some(resolution),
        }
    }

    /// What the check says of this image.
    pub fn verdict(&self) -> (verdict: Verdict)
        ensures
            verdict == verdict_of(self@),
    {
        match &self.latest_digest {
            None => Verdict::Unchecked,
            Some(Err(failure)) => Verdict::Failed(*failure),
            Some(Ok(remote)) => match &self.current_digest {
                None => Verdict::Unknown,
                Some(current) => if same_digest(current.as_str(), remote.as_str()) {
                    Verdict::UpToDate
                } else {
                    Verdict::UpdateAvailable
                },
            },
        }
    }
}

/// What a check says of one image.
#[derive(Clone, Copy, Debug, PartialEq, Eq, Structural)]
pub enum Verdict {
    /// The registry holds the digest that is known locally.
    UpToDate,
    /// The registry holds another digest than the one known locally.
    UpdateAvailable,
    /// The registry gave a digest and none is known locally to hold it against.
    Unknown,
    /// The registry gave no digest.
    Failed(CheckFailure),
    /// The registry was not asked yet.
    Unchecked,
}

/// `c` in lower case if it is a capital letter of ASCII, else `c` itself.
pub open spec fn lower(c: char) -> char {
    if 'A' <= c && c <= 'Z' {
        ((c as u8) + 32) as char
    } else {
        c
    }
}

/// The length of the algorithm name that `digest` starts with: what stands
/// before its first `:`, and nothing where it has no `:`.
pub open spec fn algorithm_len(digest: Seq<char>) -> int {
    if digest.contains(':') {
        first_index_of(digest, ':')
    } else {
        0
    }
}

/// `digest` with its algorithm name in lower case.
pub open spec fn normalized(digest: Seq<char>) -> Seq<char> {
    Seq::new(
        digest.len(),
        |i: int|
            if i < algorithm_len(digest) {
                lower(digest[i])
            } else {
                digest[i]
            },
    )
}

/// Two digests name the same content when they are equal once normalized.
pub open spec fn digests_agree(a: Seq<char>, b: Seq<char>) -> bool {
    normalized(a) == normalized(b)
}

/// The verdict on an image.
pub open spec fn verdict_of(image: ImageView) -> Verdict {
    match image.latest_digest {
        None => Verdict::Unchecked,
        Some(Err(failure)) => Verdict::Failed(failure),
        Some(Ok(remote)) => match image.current_digest {
            None => Verdict::Unknown,
            Some(current) => if digests_agree(current, remote) {
                Verdict::UpToDate
            } else {
                Verdict::UpdateAvailable
            },
        },
    }
}

fn lower_char(c: char) -> (l: char)
    ensures
        l == lower(c),
{
    if 'A' <= c && c <= 'Z' {
        ((c as u8) + 32) as char
    } else {
        c
    }
}

fn algorithm_end(chars: &Vec<char>) -> (end: usize)
    ensures
        end == algorithm_len(chars@),
{
    let at = find_first(chars, ':');
    proof {
        crate::text::lemma_first_index_of(chars@, ':');
    }
    if at < chars.len() {
        at
    } else {
        0
    }
}

/// Whether `a` and `b` name the same content: they are compared character by
/// character, the algorithm name without regard to case.
pub fn same_digest(a: &str, b: &str) -> (same: bool)
    ensures
        same == digests_agree(a@, b@),
{
    let left = chars_of(a);
    let right = chars_of(b);
    if left.len() != right.len() {
        assert(normalized(a@).len() != normalized(b@).len());
        return false;
    }
    let left_end = algorithm_end(&left);
    let right_end = algorithm_end(&right);
    let mut i: usize = 0;
    while i < left.len()
        invariant
            left@ == a@,
            right@ == b@,
            left.len() == right.len(),
            left_end == algorithm_len(a@),
            right_end == algorithm_len(b@),
            i <= left.len(),
            forall|j: int| 0 <= j < i ==> normalized(a@)[j] == normalized(b@)[j],
        decreases left.len() - i,
    {
        let x = if i < left_end {
            lower_char(left[i])
        } else {
            left[i]
        };
        let y = if i < right_end {
            lower_char(right[i])
        } else {
            right[i]
        };
        if x != y {
            assert(normalized(a@)[i as int] != normalized(b@)[i as int]);
            return false;
        }
        i += 1;
    }
    assert(normalized(a@) =~= normalized(b@));
    true
}

} // verus!
