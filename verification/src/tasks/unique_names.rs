//! Collecting the names of the documents.

use crate::frequency::{has_key, keys_of, CountOverflow, FrequencyTable};
use crate::sbom::Sbom;
use crate::text::{strictly_rising, texts_view};
use vstd::prelude::*;
use vstd::string::*;

verus! {

/// Collects, over all documents, their names, each once.
#[derive(Debug, PartialEq, Eq)]
pub struct UniqueNames {
    set: FrequencyTable,
}

impl View for UniqueNames {
    type V = Set<Seq<char>>;

    closed spec fn view(&self) -> Set<Seq<char>> {
        self.set@.dom()
    }
}

impl UniqueNames {
    /// A task that has seen no document yet.
    pub fn new() -> (task: UniqueNames)
        ensures
            task@ == Set::<Seq<char>>::empty(),
    {
        let task = UniqueNames { set: FrequencyTable::new() };
        assert(task@ =~= Set::<Seq<char>>::empty());
        task
    }

    /// Adds the name of one document. This never fails.
    pub fn process(&mut self, sbom: &Sbom) -> (outcome: Result<(), CountOverflow>)
        ensures
            outcome is Ok,
            final(self)@ == old(self)@.insert(sbom@.document_name),
    {
        let ghost before = self.set@;
        let counted = self.set.increment(sbom.document_name.clone());
        assert(self.set@.dom() =~= before.dom().insert(sbom@.document_name));
        Ok(())
    }

    /// Ends the task: the names it has collected, in their order.
    pub fn finalize(self) -> (names: Vec<String>)
        ensures
            strictly_rising(texts_view(names@)),
            forall|name: Seq<char>| texts_view(names@).contains(name) <==> self@.contains(name),
    {
        let ghost counts = self.set@;
        let entries = self.set.into_entries();
        let mut names: Vec<String> = Vec::new();
        let mut i: usize = 0;
        while i < entries.len()
            invariant
                i <= entries.len(),
                names.len() == i,
                forall|j: int| 0 <= j < i ==> (#[trigger] names[j])@ == entries[j].key@,
            decreases entries.len() - i,
        {
            names.push(entries[i].key.clone());
            i += 1;
        }
        proof {
            assert(texts_view(names@) =~= keys_of(entries@));
            assert forall|name: Seq<char>| texts_view(names@).contains(name) <==> counts.dom().contains(
                name,
            ) by {
                if texts_view(names@).contains(name) {
                    let j = choose|j: int|
                        0 <= j < texts_view(names@).len() && texts_view(names@)[j] == name;
                    assert(counts.contains_pair(entries[j].key@, entries[j].count as nat));
                }
                if counts.dom().contains(name) {
                    assert(has_key(entries@, name));
                    let j = choose|j: int|
                        0 <= j < entries.len() && (#[trigger] entries[j]).key@ == name;
                    assert(texts_view(names@)[j] == name);
                }
            }
        }
        names
    }
}

impl Default for UniqueNames {
    fn default() -> (task: UniqueNames)
        ensures
            task@ == Set::<Seq<char>>::empty(),
    {
        UniqueNames::new()
    }
}

} // verus!
