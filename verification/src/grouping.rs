//! The images of a run grouped by registry: the distinct registries, which
//! images belong to each, and to which registry each image belongs.

use crate::distinct::{lemma_first_occurrences, unique_strings};
use crate::image::{Image, ImageView};
use crate::lookup::{table_entries, table_get, table_insert, table_new};
use crate::model::{members_of, registries_of, registry_names};
use vstd::prelude::*;

verus! {

/// The numbers of `indices` as integers.
pub open spec fn as_ints(indices: Seq<usize>) -> Seq<int> {
    indices.map_values(|i: usize| i as int)
}

/// An index over the images of a run. Registries and images are known by
/// their positions, so the index borrows nothing from the images.
pub struct Grouping {
    /// The registries, each once, in the order in which the images first
    /// name them.
    pub registries: Vec<String>,
    /// For each registry, the positions of its images, ascending.
    pub members: Vec<Vec<usize>>,
    /// For each image, the position of its registry.
    pub registry_of: Vec<usize>,
}

impl Grouping {
    /// Whether this is the index over `images`.
    pub open spec fn groups(&self, images: Seq<ImageView>) -> bool {
        &&& self.registries.deep_view() == registries_of(images)
        &&& self.members.len() == self.registries.len()
        &&& forall|k: int|
            0 <= k < self.members.len() ==> as_ints(#[trigger] self.members[k]@) == members_of(
                images,
                self.registries[k]@,
            )
        &&& self.registry_of.len() == images.len()
        &&& forall|i: int|
            0 <= i < images.len() ==> (#[trigger] self.registry_of[i]) < self.registries.len()
                && self.registries[self.registry_of[i] as int]@ == images[i].registry
    }
}

/// In a sequence that repeats nothing, an element is found where it stands.
pub proof fn lemma_index_of_unique<A>(s: Seq<A>, i: int)
    requires
        s.no_duplicates(),
        0 <= i < s.len(),
    ensures
        s.index_of(s[i]) == i,
{
    assert(s.contains(s[i]));
}

/// In the index over `images`, the registry of image `i` is found at the
/// position that the index gives for it.
pub proof fn lemma_registry_position(grouping: &Grouping, images: Seq<ImageView>, i: int)
    requires
        grouping.groups(images),
        0 <= i < images.len(),
    ensures
        registries_of(images).index_of(images[i].registry) == grouping.registry_of[i],
        0 <= grouping.registry_of[i] < registries_of(images).len(),
{
    lemma_first_occurrences(registry_names(images));
    let k = grouping.registry_of[i] as int;
    assert(grouping.registries.deep_view()[k] == grouping.registries[k]@);
    lemma_index_of_unique(registries_of(images), k);
}

/// The registry of each image, in the order of the images.
fn registry_names_of(images: &Vec<Image>) -> (names: Vec<String>)
    ensures
        names.deep_view() == registry_names(images.deep_view()),
{
    let mut names: Vec<String> = Vec::with_capacity(images.len());
    let mut i: usize = 0;
    while i < images.len()
        invariant
            i <= images.len(),
            names.deep_view() == registry_names(images.deep_view().take(i as int)),
        decreases images.len() - i,
    {
        let ghost earlier = names.deep_view();
        names.push(images[i].registry().clone());
        assert(names.deep_view() =~= earlier.push(images[i as int]@.registry));
        assert(images.deep_view().take(i + 1) =~= images.deep_view().take(i as int).push(
            images[i as int]@,
        ));
        assert(names.deep_view() =~= registry_names(images.deep_view().take(i + 1)));
        i += 1;
    }
    assert(images.deep_view().take(images.len() as int) =~= images.deep_view());
    names
}

/// Groups `images` by registry.
pub fn group_by_registry(images: &Vec<Image>) -> (grouping: Grouping)
    ensures
        grouping.groups(images.deep_view()),
{
    let ghost views = images.deep_view();
    let names = registry_names_of(images);
    let registries = unique_strings(&names);
    proof {
        lemma_first_occurrences(registry_names(views));
    }
    let mut table = table_new();
    let mut members: Vec<Vec<usize>> = Vec::with_capacity(registries.len());
    let mut k: usize = 0;
    while k < registries.len()
        invariant
            k <= registries.len(),
            members.len() == k,
            forall|j: int| 0 <= j < k ==> (#[trigger] members[j])@.len() == 0,
            forall|name: Seq<char>| #[trigger]
                table_entries(table).contains_key(name) ==> 0 <= table_entries(table)[name] < k
                    && registries[table_entries(table)[name] as int]@ == name,
            forall|j: int| 0 <= j < k ==> table_entries(table).contains_key(#[trigger] registries[j]@),
        decreases registries.len() - k,
    {
        table_insert(&mut table, registries[k].clone(), k);
        members.push(Vec::new());
        k += 1;
    }
    let mut registry_of: Vec<usize> = Vec::with_capacity(images.len());
    let mut i: usize = 0;
    while i < images.len()
        invariant
            i <= images.len(),
            views == images.deep_view(),
            registries.deep_view() == registries_of(views),
            registries.deep_view().no_duplicates(),
            forall|name: Seq<char>| #[trigger]
                registries.deep_view().contains(name) <==> registry_names(views).contains(name),
            forall|name: Seq<char>| #[trigger]
                table_entries(table).contains_key(name) ==> 0 <= table_entries(table)[name]
                    < registries.len() && registries[table_entries(table)[name] as int]@ == name,
            forall|j: int|
                0 <= j < registries.len() ==> table_entries(table).contains_key(
                    #[trigger] registries[j]@,
                ),
            members.len() == registries.len(),
            forall|j: int|
                0 <= j < members.len() ==> as_ints(#[trigger] members[j]@) == members_of(
                    views.take(i as int),
                    registries[j]@,
                ),
            registry_of.len() == i,
            forall|j: int|
                0 <= j < i ==> (#[trigger] registry_of[j]) < registries.len()
                    && registries[registry_of[j] as int]@ == views[j].registry,
        decreases images.len() - i,
    {
        let ghost name = views[i as int].registry;
        let found = table_get(&table, images[i].registry());
        let k: usize = match found {
            Some(k) => k,
            None => {
                proof {
                    assert(registry_names(views)[i as int] == name);
                    assert(registries.deep_view().contains(name));
                    let j = registries.deep_view().index_of(name);
                    assert(registries[j]@ == name);
                    assert(false);
                }
                0
            },
        };
        let ghost before = members;
        members[k].push(i);
        registry_of.push(k);
        proof {
            let grown = views.take(i + 1);
            assert(grown.drop_last() =~= views.take(i as int));
            assert(grown.last() == views[i as int]);
            assert forall|j: int| 0 <= j < members.len() implies as_ints(#[trigger] members[j]@)
                == members_of(grown, registries[j]@) by {
                if j == k {
                    assert(as_ints(members[j]@) =~= as_ints(before[j]@).push(i as int));
                } else {
                    assert(members[j] == before[j]);
                    assert(registries.deep_view()[j] != registries.deep_view()[k as int]);
                }
            }
        }
        i += 1;
    }
    assert(views.take(images.len() as int) =~= views);
    Grouping { registries, members, registry_of }
}

} // verus!
