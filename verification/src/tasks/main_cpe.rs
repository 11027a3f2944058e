//! Counting the identifiers of the packages that the documents are about.

use crate::frequency::{countable, fits, seen_all, CountOverflow, Entry, FrequencyTable, lists};
use crate::sbom::{Sbom, SbomView};
use crate::tasks::{
    cpe_locators, cpes_of, described, distinct, find_package, package_with, INVALID_PACKAGE_ID,
    MISSING_MAIN_PACKAGE, NO_CPE,
};
use crate::text::texts_view;
use vstd::prelude::*;
use vstd::string::*;

verus! {

/// Counts, over all documents, the identifiers that the described packages
/// refer to.
#[derive(Debug, PartialEq, Eq)]
pub struct MainCpe {
    pub map: FrequencyTable,
}

/// The keys that one described package adds: its identifiers, or a note
/// that it has none, or a note that the document does not hold it.
pub open spec fn package_keys(sbom: SbomView, id: Seq<char>) -> Seq<Seq<char>> {
    match package_with(sbom.package_information, id) {
        Some(package) => {
            let locators = cpe_locators(package.external_reference);
            if locators.len() == 0 {
                seq![NO_CPE@]
            } else {
                locators
            }
        },
        None => seq![INVALID_PACKAGE_ID@],
    }
}

/// The keys that the packages `ids` add, one package after the other.
pub open spec fn keys_for(sbom: SbomView, ids: Seq<Seq<char>>) -> Seq<Seq<char>>
    decreases ids.len(),
{
    if ids.len() == 0 {
        Seq::empty()
    } else {
        keys_for(sbom, ids.drop_last()) + package_keys(sbom, ids.last())
    }
}

/// The keys that a document adds: those of each package that it is about,
/// each package once; a note if it is about none.
pub open spec fn observed(sbom: SbomView) -> Seq<Seq<char>> {
    if sbom.document_describes.len() == 0 {
        seq![MISSING_MAIN_PACKAGE@]
    } else {
        keys_for(sbom, distinct(sbom.document_describes))
    }
}

/// The keys that a document adds.
pub fn observe(sbom: &Sbom) -> (keys: Vec<String>)
    ensures
        texts_view(keys@) == observed(sbom@),
{
    let mut keys: Vec<String> = Vec::new();
    if sbom.document_describes.len() == 0 {
        keys.push(String::from_str(MISSING_MAIN_PACKAGE));
        assert(texts_view(keys@) =~= seq![MISSING_MAIN_PACKAGE@]);
        return keys;
    }
    let ids = described(sbom);
    let ghost all = texts_view(ids@);
    let mut i: usize = 0;
    while i < ids.len()
        invariant
            i <= ids.len(),
            all == texts_view(ids@),
            texts_view(keys@) == keys_for(sbom@, all.take(i as int)),
        decreases ids.len() - i,
    {
        let ghost before = keys@;
        proof {
            assert(all.take(i + 1).drop_last() =~= all.take(i as int));
            assert(all.take(i + 1).last() == ids@[i as int]@);
        }
        match find_package(sbom, ids[i].as_str()) {
            Some(package) => {
                let mut locators = cpes_of(package);
                if locators.len() == 0 {
                    keys.push(String::from_str(NO_CPE));
                    assert(texts_view(keys@) =~= texts_view(before) + seq![NO_CPE@]);
                } else {
                    let ghost added = locators@;
                    keys.append(&mut locators);
                    assert(texts_view(keys@) =~= texts_view(before) + texts_view(added));
                }
            },
            None => {
                keys.push(String::from_str(INVALID_PACKAGE_ID));
                assert(texts_view(keys@) =~= texts_view(before) + seq![INVALID_PACKAGE_ID@]);
            },
        }
        i += 1;
    }
    assert(all.take(ids.len() as int) =~= all);
    keys
}

impl MainCpe {
    /// A task that has counted nothing yet.
    pub fn new() -> (task: MainCpe)
        ensures
            task.map@ == Map::<Seq<char>, nat>::empty(),
    {
        MainCpe { map: FrequencyTable::new() }
    }

    /// Counts the keys of one document. A key whose count is at the largest
    /// number stops the work; the keys before it stay counted.
    pub fn process(&mut self, sbom: &Sbom) -> (outcome: Result<(), CountOverflow>)
        ensures
            final(self).map@ == seen_all(
                old(self).map@,
                observed(sbom@).take(countable(old(self).map@, observed(sbom@))),
            ),
            0 <= countable(old(self).map@, observed(sbom@)) <= observed(sbom@).len(),
            outcome is Ok <==> countable(old(self).map@, observed(sbom@)) == observed(sbom@).len(),
            outcome is Ok <==> fits(old(self).map@, observed(sbom@)),
            outcome is Ok ==> final(self).map@ == seen_all(old(self).map@, observed(sbom@)),
            outcome matches Err(error) ==> error.key@ == observed(sbom@)[countable(
                old(self).map@,
                observed(sbom@),
            )],
    {
        let keys = observe(sbom);
        self.map.record_all(&keys)
    }

    /// Ends the task: the keys it has counted, in their order, each with its
    /// count.
    pub fn finalize(self) -> (report: Vec<Entry>)
        ensures
            lists(report@, self.map@),
    {
        self.map.into_entries()
    }
}

impl Default for MainCpe {
    fn default() -> (task: MainCpe)
        ensures
            task.map@ == Map::<Seq<char>, nat>::empty(),
    {
        MainCpe::new()
    }
}

} // verus!
