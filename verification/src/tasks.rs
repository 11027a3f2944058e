//! The tasks: what is counted of each document.
//!
//! A task reads one document at a time and counts keys in a table of its
//! own. What the tasks share stands here: how the packages that a document
//! is about are found.

use crate::sbom::{ExternalReferenceView, Package, PackageView, Sbom};
use crate::text::{
    compare, lemma_text_before_asymmetric, lemma_text_before_transitive, lemma_text_comparable,
    same_text, strictly_rising, text_before, texts_view, Order,
};
use vstd::prelude::*;
use vstd::string::*;

pub mod main_cpe;
pub mod main_cpe_db;
pub mod unique_main;
pub mod unique_names;

verus! {

/// The key under which a document is counted that says of no package that it
/// is about it.
pub const MISSING_MAIN_PACKAGE: &'static str = "MISSING-MAIN-PACKAGE";

/// The key under which a package is counted that refers to no identifier.
pub const NO_CPE: &'static str = "NO-CPE";

/// The key under which a package is counted that the document names but does
/// not hold.
pub const INVALID_PACKAGE_ID: &'static str = "INVALID-PACKAGE-ID";

/// The kind of reference that holds an identifier.
pub const CPE22_TYPE: &'static str = "cpe22Type";

/// `sorted` with `id` put in its place among the texts that come before it,
/// unless it is there already.
pub open spec fn put(sorted: Seq<Seq<char>>, id: Seq<char>) -> Seq<Seq<char>>
    decreases sorted.len(),
{
    if sorted.len() == 0 {
        seq![id]
    } else if sorted.last() == id {
        sorted
    } else if text_before(sorted.last(), id) {
        sorted.push(id)
    } else {
        put(sorted.drop_last(), id).push(sorted.last())
    }
}

/// `ids` as a set in the order of texts: each identifier once, the lesser
/// before the greater.
pub open spec fn distinct(ids: Seq<Seq<char>>) -> Seq<Seq<char>>
    decreases ids.len(),
{
    if ids.len() == 0 {
        Seq::empty()
    } else {
        put(distinct(ids.drop_last()), ids.last())
    }
}

/// The place of the first package with the identifier `id`; the number of
/// packages if none has it.
pub open spec fn package_place(packages: Seq<PackageView>, id: Seq<char>) -> int
    decreases packages.len(),
{
    if packages.len() == 0 || packages.first().package_spdx_identifier == id {
        0
    } else {
        1 + package_place(packages.drop_first(), id)
    }
}

/// The first package with the identifier `id`, if there is one.
pub open spec fn package_with(packages: Seq<PackageView>, id: Seq<char>) -> Option<PackageView> {
    let place = package_place(packages, id);
    if place < packages.len() {
        Some(packages[place])
    } else {
        None
    }
}

/// The identifiers that the references of a package hold, in their order.
pub open spec fn cpe_locators(references: Seq<ExternalReferenceView>) -> Seq<Seq<char>>
    decreases references.len(),
{
    if references.len() == 0 {
        Seq::empty()
    } else if references.last().reference_type == CPE22_TYPE@ {
        cpe_locators(references.drop_last()).push(references.last().reference_locator)
    } else {
        cpe_locators(references.drop_last())
    }
}

/// `package_place` is the place of a package with the identifier before
/// which no package has it, or the number of packages when none has it.
pub proof fn lemma_package_place(packages: Seq<PackageView>, id: Seq<char>)
    ensures
        0 <= package_place(packages, id) <= packages.len(),
        package_place(packages, id) < packages.len() ==> packages[package_place(
            packages,
            id,
        )].package_spdx_identifier == id,
        forall|j: int|
            0 <= j < package_place(packages, id) ==> (#[trigger] packages[j]).package_spdx_identifier
                != id,
    decreases packages.len(),
{
    if packages.len() > 0 && packages.first().package_spdx_identifier != id {
        let rest = packages.drop_first();
        lemma_package_place(rest, id);
        assert forall|j: int| 0 <= j < package_place(packages, id) implies (
        #[trigger] packages[j]).package_spdx_identifier != id by {
            if j > 0 {
                assert(packages[j] == rest[j - 1]);
            }
        }
    }
}

/// Putting an identifier in its place adds it and nothing else.
pub proof fn lemma_put_holds(sorted: Seq<Seq<char>>, id: Seq<char>, other: Seq<char>)
    ensures
        put(sorted, id).contains(other) <==> sorted.contains(other) || other == id,
    decreases sorted.len(),
{
    let result = put(sorted, id);
    if sorted.len() == 0 {
        assert(result[0] == id);
        if result.contains(other) {
            let j = choose|j: int| 0 <= j < result.len() && result[j] == other;
        }
    } else if sorted.last() == id {
        assert(sorted[sorted.len() - 1] == id);
    } else if text_before(sorted.last(), id) {
        assert(result[sorted.len() as int] == id);
        if sorted.contains(other) {
            let j = choose|j: int| 0 <= j < sorted.len() && sorted[j] == other;
            assert(result[j] == other);
        }
        if result.contains(other) {
            let j = choose|j: int| 0 <= j < result.len() && result[j] == other;
            if j < sorted.len() {
                assert(sorted[j] == other);
            }
        }
    } else {
        let before = sorted.drop_last();
        let inner = put(before, id);
        lemma_put_holds(before, id, other);
        if result.contains(other) {
            let j = choose|j: int| 0 <= j < result.len() && result[j] == other;
            if j < inner.len() {
                assert(inner[j] == other);
                assert(inner.contains(other));
                if before.contains(other) {
                    let k = choose|k: int| 0 <= k < before.len() && before[k] == other;
                    assert(sorted[k] == other);
                }
            } else {
                assert(sorted[sorted.len() - 1] == other);
            }
        }
        if sorted.contains(other) {
            let k = choose|k: int| 0 <= k < sorted.len() && sorted[k] == other;
            if k < before.len() {
                assert(before[k] == other);
                assert(before.contains(other));
                let j = choose|j: int| 0 <= j < inner.len() && inner[j] == other;
                assert(result[j] == other);
            } else {
                assert(result[inner.len() as int] == other);
            }
        }
        if other == id {
            assert(inner.contains(other));
            let j = choose|j: int| 0 <= j < inner.len() && inner[j] == other;
            assert(result[j] == other);
        }
    }
}

/// Taking the repetitions out loses no identifier and adds none.
pub proof fn lemma_distinct_holds_the_same(ids: Seq<Seq<char>>, id: Seq<char>)
    ensures
        distinct(ids).contains(id) <==> ids.contains(id),
    decreases ids.len(),
{
    if ids.len() > 0 {
        let before = ids.drop_last();
        lemma_distinct_holds_the_same(before, id);
        lemma_put_holds(distinct(before), ids.last(), id);
        if ids.contains(id) {
            let j = choose|j: int| 0 <= j < ids.len() && ids[j] == id;
            if j < before.len() {
                assert(before[j] == id);
            }
        }
        if before.contains(id) {
            let j = choose|j: int| 0 <= j < before.len() && before[j] == id;
            assert(ids[j] == id);
        }
        if id == ids.last() {
            assert(ids[ids.len() - 1] == id);
        }
    }
}

/// Putting an identifier in its place keeps the order.
pub proof fn lemma_put_rising(sorted: Seq<Seq<char>>, id: Seq<char>)
    requires
        strictly_rising(sorted),
    ensures
        strictly_rising(put(sorted, id)),
    decreases sorted.len(),
{
    let result = put(sorted, id);
    if sorted.len() == 0 {
    } else if sorted.last() == id {
    } else if text_before(sorted.last(), id) {
        assert forall|i: int, j: int| 0 <= i < j < result.len() implies text_before(
            #[trigger] result[i],
            #[trigger] result[j],
        ) by {
            if j < sorted.len() {
                assert(text_before(sorted[i], sorted[j]));
            } else if i < sorted.len() - 1 {
                assert(text_before(sorted[i], sorted[sorted.len() - 1]));
                lemma_text_before_transitive(sorted[i], sorted.last(), id);
            }
        }
    } else {
        let before = sorted.drop_last();
        let inner = put(before, id);
        lemma_text_comparable(sorted.last(), id);
        assert forall|i: int, j: int| 0 <= i < j < before.len() implies text_before(
            #[trigger] before[i],
            #[trigger] before[j],
        ) by {
            assert(text_before(sorted[i], sorted[j]));
        }
        lemma_put_rising(before, id);
        assert forall|i: int, j: int| 0 <= i < j < result.len() implies text_before(
            #[trigger] result[i],
            #[trigger] result[j],
        ) by {
            if j < inner.len() {
                assert(text_before(inner[i], inner[j]));
            } else {
                lemma_put_holds(before, id, inner[i]);
                assert(inner.contains(inner[i]));
                if before.contains(inner[i]) {
                    let k = choose|k: int| 0 <= k < before.len() && before[k] == inner[i];
                    assert(text_before(sorted[k], sorted[sorted.len() - 1]));
                }
            }
        }
    }
}

/// The set of identifiers is in the order of texts.
pub proof fn lemma_distinct_rising(ids: Seq<Seq<char>>)
    ensures
        strictly_rising(distinct(ids)),
    decreases ids.len(),
{
    if ids.len() > 0 {
        lemma_distinct_rising(ids.drop_last());
        lemma_put_rising(distinct(ids.drop_last()), ids.last());
    }
}

/// Where an identifier is put: at a place before which everything comes
/// before it or is it, and from which on everything comes after it.
proof fn lemma_put_at(sorted: Seq<Seq<char>>, id: Seq<char>, place: int)
    requires
        0 <= place <= sorted.len(),
        forall|k: int| place <= k < sorted.len() ==> text_before(id, #[trigger] sorted[k]),
        place > 0 ==> sorted[place - 1] == id || text_before(sorted[place - 1], id),
    ensures
        put(sorted, id) == if place > 0 && sorted[place - 1] == id {
            sorted
        } else {
            sorted.insert(place, id)
        },
    decreases sorted.len(),
{
    if sorted.len() == 0 {
        assert(sorted.insert(0, id) =~= seq![id]);
    } else if place == sorted.len() {
        if sorted.last() != id {
            assert(sorted.insert(place, id) =~= sorted.push(id));
        }
    } else {
        let last = sorted.last();
        assert(text_before(id, sorted[sorted.len() - 1]));
        lemma_text_before_asymmetric(id, last);
        let before = sorted.drop_last();
        lemma_put_at(before, id, place);
        if place > 0 && sorted[place - 1] == id {
            assert(before.push(last) =~= sorted);
        } else {
            assert(before.insert(place, id).push(last) =~= sorted.insert(place, id));
        }
    }
}

/// Puts an identifier in its place among sorted ones.
fn put_in_place(ids: &mut Vec<String>, id: &String)
    ensures
        texts_view(final(ids)@) == put(texts_view(old(ids)@), id@),
{
    let ghost sorted = texts_view(ids@);
    let mut place: usize = ids.len();
    let mut found = false;
    while place > 0 && !found
        invariant
            place <= ids.len(),
            sorted == texts_view(ids@),
            ids@ == old(ids)@,
            forall|k: int| place <= k < sorted.len() ==> text_before(id@, #[trigger] sorted[k]),
            found ==> place > 0 && (sorted[place - 1] == id@ || text_before(sorted[place - 1], id@)),
        decreases place + (if found { 0int } else { 1int }),
    {
        match compare(ids[place - 1].as_str(), id.as_str()) {
            Order::After => {
                assert(text_before(id@, sorted[place - 1]));
                place -= 1;
            },
            _ => {
                found = true;
            },
        }
    }
    proof {
        lemma_put_at(sorted, id@, place as int);
    }
    if place > 0 && same_text(ids[place - 1].as_str(), id.as_str()) {
        return;
    }
    ids.insert(place, id.clone());
    assert(texts_view(ids@) =~= sorted.insert(place as int, id@));
}

/// The identifiers of the packages that a document is about, as a set in the
/// order of texts.
pub fn described(sbom: &Sbom) -> (ids: Vec<String>)
    ensures
        texts_view(ids@) == distinct(sbom@.document_describes),
        strictly_rising(texts_view(ids@)),
        forall|id: Seq<char>|
            texts_view(ids@).contains(id) <==> sbom@.document_describes.contains(id),
{
    let ghost all = sbom@.document_describes;
    proof {
        lemma_distinct_rising(all);
        assert forall|id: Seq<char>| distinct(all).contains(id) <==> all.contains(id) by {
            lemma_distinct_holds_the_same(all, id);
        }
    }
    let mut ids: Vec<String> = Vec::new();
    assert(texts_view(ids@) =~= Seq::<Seq<char>>::empty());
    let mut i: usize = 0;
    while i < sbom.document_describes.len()
        invariant
            i <= sbom.document_describes.len(),
            all == sbom@.document_describes,
            texts_view(ids@) == distinct(all.take(i as int)),
        decreases sbom.document_describes.len() - i,
    {
        proof {
            assert(all.take(i + 1).drop_last() =~= all.take(i as int));
            assert(all.take(i + 1).last() == sbom.document_describes@[i as int]@);
        }
        put_in_place(&mut ids, &sbom.document_describes[i]);
        i += 1;
    }
    assert(all.take(sbom.document_describes.len() as int) =~= all);
    ids
}

/// The first package of a document with the identifier `id`.
pub fn find_package<'a>(sbom: &'a Sbom, id: &str) -> (found: Option<&'a Package>)
    ensures
        match package_with(sbom@.package_information, id@) {
            Some(package) => found matches Some(it) && it@ == package,
            None => found is None,
        },
        found matches Some(it) ==> it.package_spdx_identifier@ == id@,
        found is None ==> forall|j: int|
            0 <= j < sbom.package_information.len() ==> (
            #[trigger] sbom.package_information[j]).package_spdx_identifier@ != id@,
{
    let ghost packages = sbom@.package_information;
    assert(packages.skip(0) =~= packages);
    let mut i: usize = 0;
    while i < sbom.package_information.len()
        invariant
            i <= sbom.package_information.len(),
            packages == sbom@.package_information,
            package_place(packages, id@) == i + package_place(packages.skip(i as int), id@),
        decreases sbom.package_information.len() - i,
    {
        assert(packages.skip(i as int).first() == sbom.package_information[i as int]@);
        assert(packages.skip(i as int).drop_first() =~= packages.skip(i + 1));
        if same_text(sbom.package_information[i].package_spdx_identifier.as_str(), id) {
            return Some(&sbom.package_information[i]);
        }
        i += 1;
    }
    proof {
        lemma_package_place(packages, id@);
        assert forall|j: int| 0 <= j < sbom.package_information.len() implies (
        #[trigger] sbom.package_information[j]).package_spdx_identifier@ != id@ by {
            assert(packages[j] == sbom.package_information[j]@);
        }
    }
    None
}

/// The identifiers that the references of a package hold.
pub fn cpes_of(package: &Package) -> (locators: Vec<String>)
    ensures
        texts_view(locators@) == cpe_locators(package@.external_reference),
{
    let ghost references = package@.external_reference;
    let mut locators: Vec<String> = Vec::new();
    let mut i: usize = 0;
    while i < package.external_reference.len()
        invariant
            i <= package.external_reference.len(),
            references == package@.external_reference,
            texts_view(locators@) == cpe_locators(references.take(i as int)),
        decreases package.external_reference.len() - i,
    {
        proof {
            assert(references.take(i + 1).drop_last() =~= references.take(i as int));
            assert(references.take(i + 1).last() == package.external_reference[i as int]@);
        }
        if same_text(package.external_reference[i].reference_type.as_str(), CPE22_TYPE) {
            let ghost before = locators@;
            locators.push(package.external_reference[i].reference_locator.clone());
            assert(texts_view(locators@) =~= texts_view(before).push(
                references[i as int].reference_locator,
            ));
        }
        i += 1;
    }
    assert(references.take(package.external_reference.len() as int) =~= references);
    locators
}

} // verus!
