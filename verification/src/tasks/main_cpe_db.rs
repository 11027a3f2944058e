//! Counting the titles that the reference dictionary gives to the
//! identifiers of the packages that the documents are about.

use crate::frequency::{countable, fits, seen_all, CountOverflow, Entry, FrequencyTable, lists};
use crate::sbom::{Sbom, SbomView};
use crate::tasks::{
    cpe_locators, cpes_of, described, distinct, find_package, package_with, INVALID_PACKAGE_ID,
    MISSING_MAIN_PACKAGE, NO_CPE,
};
use crate::text::texts_view;
use crate::utils::cpe_dictionary::CpeList;
use vstd::prelude::*;
use vstd::string::*;

verus! {

/// The key under which an identifier is counted that the dictionary gives no
/// title in the language of the report.
pub const MISSING_TITLE: &'static str = "MISSING TITLE";

/// The language of the report.
pub const LANGUAGE: &'static str = "en_US";

/// Counts, over all documents, the titles of the identifiers that the
/// described packages refer to.
pub struct MainCpeDb {
    map: FrequencyTable,
    dictionary: CpeList,
}

/// The key under which one identifier is counted: its title, or a note that
/// it has none.
pub open spec fn title_key(dictionary: CpeList, locator: Seq<char>) -> Seq<char> {
    match dictionary.lookup_title_spec(locator, LANGUAGE@) {
        Some(title) => title,
        None => MISSING_TITLE@,
    }
}

/// The keys under which identifiers are counted, one for each.
pub open spec fn title_keys(dictionary: CpeList, locators: Seq<Seq<char>>) -> Seq<Seq<char>> {
    Seq::new(locators.len(), |i: int| title_key(dictionary, locators[i]))
}

/// The keys that one described package adds: the titles of its identifiers,
/// or a note that it has none, or a note that the document does not hold it.
pub open spec fn package_keys(dictionary: CpeList, sbom: SbomView, id: Seq<char>) -> Seq<
    Seq<char>,
> {
    match package_with(sbom.package_information, id) {
        Some(package) => {
            let locators = cpe_locators(package.external_reference);
            if locators.len() == 0 {
                seq![NO_CPE@]
            } else {
                title_keys(dictionary, locators)
            }
        },
        None => seq![INVALID_PACKAGE_ID@],
    }
}

/// The keys that the packages `ids` add, one package after the other.
pub open spec fn keys_for(dictionary: CpeList, sbom: SbomView, ids: Seq<Seq<char>>) -> Seq<
    Seq<char>,
>
    decreases ids.len(),
{
    if ids.len() == 0 {
        Seq::empty()
    } else {
        keys_for(dictionary, sbom, ids.drop_last()) + package_keys(dictionary, sbom, ids.last())
    }
}

/// The keys that a document adds: those of each package that it is about,
/// each package once; a note if it is about none.
pub open spec fn observed(dictionary: CpeList, sbom: SbomView) -> Seq<Seq<char>> {
    if sbom.document_describes.len() == 0 {
        seq![MISSING_MAIN_PACKAGE@]
    } else {
        keys_for(dictionary, sbom, distinct(sbom.document_describes))
    }
}

/// The keys under which identifiers are counted.
pub fn titles_of(dictionary: &CpeList, locators: &Vec<String>) -> (keys: Vec<String>)
    ensures
        texts_view(keys@) == title_keys(*dictionary, texts_view(locators@)),
{
    let mut keys: Vec<String> = Vec::new();
    let mut i: usize = 0;
    while i < locators.len()
        invariant
            i <= locators.len(),
            keys.len() == i,
            forall|j: int|
                0 <= j < i ==> (#[trigger] keys[j])@ == title_key(*dictionary, locators[j]@),
        decreases locators.len() - i,
    {
        match dictionary.lookup_title(locators[i].as_str(), LANGUAGE) {
            Some(title) => keys.push(String::from_str(title)),
            None => keys.push(String::from_str(MISSING_TITLE)),
        }
        i += 1;
    }
    assert(texts_view(keys@) =~= title_keys(*dictionary, texts_view(locators@)));
    keys
}

/// The keys that a document adds.
pub fn observe(dictionary: &CpeList, sbom: &Sbom) -> (keys: Vec<String>)
    ensures
        texts_view(keys@) == observed(*dictionary, sbom@),
{
    let mut keys: Vec<String> = Vec::new();
    if sbom.document_describes.len() == 0 {
        keys.push(String::from_str(MISSING_MAIN_PACKAGE));
        assert(texts_view(keys@) =~= seq![MISSING_MAIN_PACKAGE@]);
        return keys;
    }
    let ids = described(sbom);
    let ghost all = texts_view(ids@);
    let mut i: usize = 0;
    while i < ids.len()
        invariant
            i <= ids.len(),
            all == texts_view(ids@),
            texts_view(keys@) == keys_for(*dictionary, sbom@, all.take(i as int)),
        decreases ids.len() - i,
    {
        let ghost before = keys@;
        proof {
            assert(all.take(i + 1).drop_last() =~= all.take(i as int));
            assert(all.take(i + 1).last() == ids@[i as int]@);
        }
        match find_package(sbom, ids[i].as_str()) {
            Some(package) => {
                let locators = cpes_of(package);
                if locators.len() == 0 {
                    keys.push(String::from_str(NO_CPE));
                    assert(texts_view(keys@) =~= texts_view(before) + seq![NO_CPE@]);
                } else {
                    let mut titles = titles_of(dictionary, &locators);
                    let ghost added = titles@;
                    keys.append(&mut titles);
                    assert(texts_view(keys@) =~= texts_view(before) + texts_view(added));
                }
            },
            None => {
                keys.push(String::from_str(INVALID_PACKAGE_ID));
                assert(texts_view(keys@) =~= texts_view(before) + seq![INVALID_PACKAGE_ID@]);
            },
        }
        i += 1;
    }
    assert(all.take(ids.len() as int) =~= all);
    keys
}

impl MainCpeDb {
    /// The counts so far.
    pub closed spec fn counts(&self) -> Map<Seq<char>, nat> {
        self.map@
    }

    /// The dictionary that the task reads.
    pub closed spec fn dictionary(&self) -> CpeList {
        self.dictionary
    }

    /// A task that has counted nothing yet and reads `dictionary`.
    pub fn new(dictionary: CpeList) -> (task: MainCpeDb)
        ensures
            task.counts() == Map::<Seq<char>, nat>::empty(),
            task.dictionary() == dictionary,
    {
        MainCpeDb { map: FrequencyTable::new(), dictionary }
    }

    /// Counts the keys of one document. A key whose count is at the largest
    /// number stops the work; the keys before it stay counted.
    pub fn process(&mut self, sbom: &Sbom) -> (outcome: Result<(), CountOverflow>)
        ensures
            final(self).dictionary() == old(self).dictionary(),
            final(self).counts() == seen_all(
                old(self).counts(),
                observed(old(self).dictionary(), sbom@).take(
                    countable(old(self).counts(), observed(old(self).dictionary(), sbom@)),
                ),
            ),
            0 <= countable(old(self).counts(), observed(old(self).dictionary(), sbom@))
                <= observed(old(self).dictionary(), sbom@).len(),
            outcome is Ok <==> countable(
                old(self).counts(),
                observed(old(self).dictionary(), sbom@),
            ) == observed(old(self).dictionary(), sbom@).len(),
            outcome is Ok <==> fits(old(self).counts(), observed(old(self).dictionary(), sbom@)),
            outcome is Ok ==> final(self).counts() == seen_all(
                old(self).counts(),
                observed(old(self).dictionary(), sbom@),
            ),
            outcome matches Err(error) ==> error.key@ == observed(
                old(self).dictionary(),
                sbom@,
            )[countable(old(self).counts(), observed(old(self).dictionary(), sbom@))],
    {
        let keys = observe(&self.dictionary, sbom);
        self.map.record_all(&keys)
    }

    /// Ends the task: the keys it has counted, in their order, each with its
    /// count.
    pub fn finalize(self) -> (report: Vec<Entry>)
        ensures
            lists(report@, self.counts()),
    {
        self.map.into_entries()
    }
}

} // verus!
