//! Reading an image reference: an optional registry host, the repository's
//! path, and an optional tag, as in `registry.example/team/app:1.2`.

use crate::text::{chars_of, find_first, first_index_of, lemma_first_index_of, occurs_between, spells};
use vstd::prelude::*;
use vstd::string::*;

verus! {

/// The registry of a reference that names none.
pub const DEFAULT_REGISTRY: &'static str = "registry-1.docker.io";

/// The tag of a reference that names none.
pub const DEFAULT_TAG: &'static str = "latest";

/// The parts of a reference.
pub struct ReferenceParts {
    pub registry: Seq<char>,
    pub repository: Seq<char>,
    pub tag: Seq<char>,
}

/// Why a reference names no image.
#[derive(Clone, Copy, Debug, PartialEq, Eq, Structural)]
pub enum ReferenceParseError {
    /// Nothing is left for the repository.
    MissingRepository,
    /// A `:` announces a tag and nothing follows it.
    MissingTag,
}

/// Whether the first component of a reference is a host and not the start of
/// the repository's path: a host has a dot or a port, or is `localhost`.
pub open spec fn names_host(component: Seq<char>) -> bool {
    component.contains('.') || component.contains(':') || component == "localhost"@
}

/// The length of the registry host that `reference` starts with, if it
/// starts with one: what stands before its first `/`, if that names a host.
pub open spec fn host_len(reference: Seq<char>) -> Option<int> {
    let slash = first_index_of(reference, '/');
    if slash < reference.len() && names_host(reference.take(slash)) {
        Some(slash)
    } else {
        None
    }
}

/// The index of the `:` that sets the tag apart in `path`: its last `:`,
/// unless a `/` follows it.
pub open spec fn tag_separator(path: Seq<char>) -> Option<int>
    decreases path.len(),
{
    if path.len() == 0 {
        None
    } else if path.last() == ':' {
        Some(path.len() - 1)
    } else if path.last() == '/' {
        None
    } else {
        tag_separator(path.drop_last())
    }
}

/// The parts that `reference` names, with the defaults where it names no
/// registry or no tag, or why it names no image.
pub open spec fn reference_parts(reference: Seq<char>) -> Result<ReferenceParts, ReferenceParseError> {
    let (registry, path) = match host_len(reference) {
        Some(n) => (reference.take(n), reference.skip(n + 1)),
        None => (DEFAULT_REGISTRY@, reference),
    };
    let (repository, tag) = match tag_separator(path) {
        Some(k) => (path.take(k), path.skip(k + 1)),
        None => (path, DEFAULT_TAG@),
    };
    if repository.len() == 0 {
        Err(ReferenceParseError::MissingRepository)
    } else if tag.len() == 0 {
        Err(ReferenceParseError::MissingTag)
    } else {
        Ok(ReferenceParts { registry, repository, tag })
    }
}

/// A tag separator lies within the path.
pub proof fn lemma_tag_separator_in_bounds(path: Seq<char>)
    ensures
        tag_separator(path) matches Some(k) ==> 0 <= k < path.len() && path[k] == ':',
    decreases path.len(),
{
    if path.len() > 0 && path.last() != ':' && path.last() != '/' {
        lemma_tag_separator_in_bounds(path.drop_last());
    }
}

/// The registry of a reference that has parts is never empty.
pub proof fn lemma_registry_nonempty(reference: Seq<char>)
    requires
        reference_parts(reference) is Ok,
    ensures
        reference_parts(reference)->Ok_0.registry.len() > 0,
{
    reveal_strlit("registry-1.docker.io");
    reveal_strlit("localhost");
    match host_len(reference) {
        Some(n) => {
            let host = reference.take(n);
            if host.contains('.') {
                assert(host.len() > 0);
            } else if host.contains(':') {
                assert(host.len() > 0);
            }
        },
        None => {},
    }
}

/// Where the tag separator of `chars` from `start` on stands, counted from
/// `start`; the length of `chars` stands for none.
fn find_tag_separator(chars: &Vec<char>, start: usize) -> (at: usize)
    requires
        start <= chars.len(),
    ensures
        match tag_separator(chars@.skip(start as int)) {
            Some(k) => at == start + k,
            None => at == chars.len(),
        },
        start <= at <= chars.len(),
{
    let ghost path = chars@.skip(start as int);
    let mut i: usize = chars.len();
    proof {
        assert(path.take(path.len() as int) =~= path);
    }
    while i > start
        invariant
            start <= i <= chars.len(),
            path == chars@.skip(start as int),
            tag_separator(path) == tag_separator(path.take(i - start)),
        decreases i,
    {
        let c = chars[i - 1];
        let ghost part = path.take(i - start);
        assert(part.last() == c);
        if c == ':' {
            return i - 1;
        }
        if c == '/' {
            return chars.len();
        }
        assert(part.drop_last() =~= path.take(i - 1 - start));
        i -= 1;
    }
    chars.len()
}

/// Reads `reference` into registry, repository and tag.
pub fn parse_reference(reference: &str) -> (parsed: Result<(String, String, String), ReferenceParseError>)
    ensures
        match parsed {
            Ok((registry, repository, tag)) => {
                &&& reference_parts(reference@) is Ok
                &&& reference_parts(reference@)->Ok_0.registry == registry@
                &&& reference_parts(reference@)->Ok_0.repository == repository@
                &&& reference_parts(reference@)->Ok_0.tag == tag@
                &&& registry@.len() > 0
            },
            Err(error) => reference_parts(reference@) is Err && reference_parts(reference@)->Err_0
                == error,
        },
{
    let chars = chars_of(reference);
    let len = chars.len();
    let slash = find_first(&chars, '/');
    proof {
        lemma_first_index_of(chars@, '/');
        assert(chars@.take(slash as int) =~= chars@.subrange(0, slash as int));
    }
    let hosted = slash < len && (occurs_between(&chars, '.', 0, slash) || occurs_between(
        &chars,
        ':',
        0,
        slash,
    ) || spells(&chars, 0, slash, "localhost"));
    assert(hosted == (host_len(reference@) is Some));
    let start: usize = if hosted {
        slash + 1
    } else {
        0
    };
    let ghost path = chars@.skip(start as int);
    assert(!hosted ==> path =~= reference@);
    let separator = find_tag_separator(&chars, start);
    let tagged = separator < len;
    proof {
        lemma_tag_separator_in_bounds(path);
        if tagged {
            assert(path.take(separator - start) =~= reference@.subrange(
                start as int,
                separator as int,
            ));
            assert(path.skip(separator - start + 1) =~= reference@.subrange(
                separator + 1,
                len as int,
            ));
        } else {
            assert(path =~= reference@.subrange(start as int, len as int));
        }
    }
    if separator == start {
        return Err(ReferenceParseError::MissingRepository);
    }
    if tagged && separator + 1 == len {
        return Err(ReferenceParseError::MissingTag);
    }
    proof {
        reveal_strlit("latest");
    }
    let registry = if hosted {
        reference.substring_char(0, slash).to_owned()
    } else {
        DEFAULT_REGISTRY.to_owned()
    };
    let repository = reference.substring_char(start, separator).to_owned();
    let tag = if tagged {
        reference.substring_char(separator + 1, len).to_owned()
    } else {
        DEFAULT_TAG.to_owned()
    };
    proof {
        lemma_registry_nonempty(reference@);
    }
    Ok((registry, repository, tag))
}

} // verus!
