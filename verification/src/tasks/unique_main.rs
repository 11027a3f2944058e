//! Counting the names of the packages that the documents are about.

use crate::frequency::{countable, fits, seen_all, CountOverflow, Entry, FrequencyTable, lists};
use crate::sbom::{Sbom, SbomView};
use crate::tasks::{described, distinct, find_package, package_with, MISSING_MAIN_PACKAGE};
use crate::text::texts_view;
use vstd::prelude::*;
use vstd::string::*;

verus! {

/// Counts, over all documents, the names of the described packages.
#[derive(Debug, PartialEq, Eq)]
pub struct UniqueMainPackages {
    map: FrequencyTable,
}

/// The packages that a document is looked up for: those that it is about,
/// each once; the word for a missing package if it is about none.
pub open spec fn wanted(sbom: SbomView) -> Seq<Seq<char>> {
    if sbom.document_describes.len() == 0 {
        seq![MISSING_MAIN_PACKAGE@]
    } else {
        distinct(sbom.document_describes)
    }
}

/// The key under which one package is counted: its name, or its identifier
/// where the document does not hold it.
pub open spec fn package_key(sbom: SbomView, id: Seq<char>) -> Seq<char> {
    match package_with(sbom.package_information, id) {
        Some(package) => package.package_name,
        None => id,
    }
}

/// The keys that a document adds, one for each package it is looked up for.
pub open spec fn observed(sbom: SbomView) -> Seq<Seq<char>> {
    Seq::new(wanted(sbom).len(), |i: int| package_key(sbom, wanted(sbom)[i]))
}

/// The keys that a document adds.
pub fn observe(sbom: &Sbom) -> (keys: Vec<String>)
    ensures
        texts_view(keys@) == observed(sbom@),
{
    let mut ids = described(sbom);
    if ids.len() == 0 {
        proof {
            if sbom@.document_describes.len() > 0 {
                let all = sbom@.document_describes;
                crate::tasks::lemma_distinct_holds_the_same(all, all[0]);
                assert(distinct(all).contains(all[0]));
            }
        }
        ids.push(String::from_str(MISSING_MAIN_PACKAGE));
    }
    assert(texts_view(ids@) =~= wanted(sbom@));
    let mut keys: Vec<String> = Vec::new();
    let mut i: usize = 0;
    while i < ids.len()
        invariant
            i <= ids.len(),
            keys.len() == i,
            texts_view(ids@) == wanted(sbom@),
            forall|j: int| 0 <= j < i ==> (#[trigger] keys[j])@ == package_key(sbom@, ids[j]@),
        decreases ids.len() - i,
    {
        match find_package(sbom, ids[i].as_str()) {
            Some(package) => keys.push(package.package_name.clone()),
            None => keys.push(ids[i].clone()),
        }
        i += 1;
    }
    assert(texts_view(keys@) =~= observed(sbom@)) by {
        assert forall|j: int| 0 <= j < keys.len() implies texts_view(keys@)[j] == observed(
            sbom@,
        )[j] by {
            assert(texts_view(ids@)[j] == ids[j]@);
        }
    }
    keys
}

impl UniqueMainPackages {
    /// The counts so far.
    pub closed spec fn counts(&self) -> Map<Seq<char>, nat> {
        self.map@
    }

    /// A task that has counted nothing yet.
    pub fn new() -> (task: UniqueMainPackages)
        ensures
            task.counts() == Map::<Seq<char>, nat>::empty(),
    {
        UniqueMainPackages { map: FrequencyTable::new() }
    }

    /// Counts the keys of one document. A key whose count is at the largest
    /// number stops the work; the keys before it stay counted.
    pub fn process(&mut self, sbom: &Sbom) -> (outcome: Result<(), CountOverflow>)
        ensures
            final(self).counts() == seen_all(
                old(self).counts(),
                observed(sbom@).take(countable(old(self).counts(), observed(sbom@))),
            ),
            0 <= countable(old(self).counts(), observed(sbom@)) <= observed(sbom@).len(),
            outcome is Ok <==> countable(old(self).counts(), observed(sbom@)) == observed(
                sbom@,
            ).len(),
            outcome is Ok <==> fits(old(self).counts(), observed(sbom@)),
            outcome is Ok ==> final(self).counts() == seen_all(old(self).counts(), observed(sbom@)),
            outcome matches Err(error) ==> error.key@ == observed(sbom@)[countable(
                old(self).counts(),
                observed(sbom@),
            )],
    {
        let keys = observe(sbom);
        self.map.record_all(&keys)
    }

    /// Ends the task: the keys it has counted, in their order, each with its
    /// count.
    pub fn finalize(self) -> (report: Vec<Entry>)
        ensures
            lists(report@, self.counts()),
    {
        self.map.into_entries()
    }
}

impl Default for UniqueMainPackages {
    fn default() -> (task: UniqueMainPackages)
        ensures
            task.counts() == Map::<Seq<char>, nat>::empty(),
    {
        UniqueMainPackages::new()
    }
}

} // verus!
