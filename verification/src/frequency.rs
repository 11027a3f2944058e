//! A table that counts how often each key was seen.
//!
//! The entries are kept in the order of their keys, each key once, so that a
//! listing of the table always comes out in the same order.

use crate::text::{
    compare, lemma_text_before_asymmetric, lemma_text_before_transitive, strictly_rising,
    text_before, texts_view, Order,
};
use vstd::prelude::*;
use vstd::string::*;

verus! {

/// One key of the table with the number of times it was seen.
#[derive(Debug, Clone, PartialEq, Eq)]
pub struct Entry {
    pub key: String,
    pub count: usize,
}

/// The keys of a list of entries, in their order.
pub open spec fn keys_of(entries: Seq<Entry>) -> Seq<Seq<char>> {
    Seq::new(entries.len(), |i: int| entries[i].key@)
}

/// Whether a list of entries lists what a map holds: the keys rise strictly,
/// each entry is a pair of the map, and each key of the map has an entry.
pub open spec fn lists(entries: Seq<Entry>, counts: Map<Seq<char>, nat>) -> bool {
    &&& strictly_rising(keys_of(entries))
    &&& forall|i: int|
        0 <= i < entries.len() ==> counts.contains_pair(
            (#[trigger] entries[i]).key@,
            entries[i].count as nat,
        )
    &&& forall|key: Seq<char>| #[trigger] counts.dom().contains(key) ==> has_key(entries, key)
}

/// How often a key was seen, according to a map of counts.
pub open spec fn count_in(counts: Map<Seq<char>, nat>, key: Seq<char>) -> nat {
    if counts.dom().contains(key) {
        counts[key]
    } else {
        0
    }
}

/// The map of counts after `key` was seen once more.
pub open spec fn seen(counts: Map<Seq<char>, nat>, key: Seq<char>) -> Map<Seq<char>, nat> {
    counts.insert(key, count_in(counts, key) + 1)
}

/// The map of counts after each of `keys` was seen once more, one after the
/// other.
pub open spec fn seen_all(counts: Map<Seq<char>, nat>, keys: Seq<Seq<char>>) -> Map<
    Seq<char>,
    nat,
>
    decreases keys.len(),
{
    if keys.len() == 0 {
        counts
    } else {
        seen(seen_all(counts, keys.drop_last()), keys.last())
    }
}

/// Whether each of `keys` can be seen once more without a count going beyond
/// the largest number.
pub open spec fn fits(counts: Map<Seq<char>, nat>, keys: Seq<Seq<char>>) -> bool {
    forall|key: Seq<char>| count_in(seen_all(counts, keys), key) <= usize::MAX
}

/// How many of `keys` are counted before the counting stops: all of them,
/// or those before the first key whose count is at the largest number when
/// its turn comes.
pub open spec fn countable(counts: Map<Seq<char>, nat>, keys: Seq<Seq<char>>) -> int
    decreases keys.len(),
{
    if keys.len() == 0 {
        0
    } else {
        let before = keys.drop_last();
        if countable(counts, before) == before.len() && count_in(
            seen_all(counts, before),
            keys.last(),
        ) < usize::MAX {
            keys.len() as int
        } else {
            countable(counts, before)
        }
    }
}

/// The counting never goes past the keys.
pub proof fn lemma_countable_bounded(counts: Map<Seq<char>, nat>, keys: Seq<Seq<char>>)
    ensures
        0 <= countable(counts, keys) <= keys.len(),
    decreases keys.len(),
{
    if keys.len() > 0 {
        lemma_countable_bounded(counts, keys.drop_last());
    }
}

/// Where the counting stops short, a longer list of keys does not get it
/// further.
pub proof fn lemma_countable_stops(counts: Map<Seq<char>, nat>, keys: Seq<Seq<char>>, n: int)
    requires
        0 <= n <= keys.len(),
        countable(counts, keys.take(n)) < n,
    ensures
        countable(counts, keys) == countable(counts, keys.take(n)),
    decreases keys.len() - n,
{
    if n < keys.len() {
        assert(keys.take(n + 1).drop_last() =~= keys.take(n));
        lemma_countable_stops(counts, keys, n + 1);
    } else {
        assert(keys.take(n) =~= keys);
    }
}

/// A key whose count could not be raised.
#[derive(Debug, Clone, PartialEq, Eq)]
pub struct CountOverflow {
    pub key: String,
}

/// Seeing more keys lowers no count.
pub proof fn lemma_seen_all_grows(
    counts: Map<Seq<char>, nat>,
    keys: Seq<Seq<char>>,
    n: int,
    key: Seq<char>,
)
    requires
        0 <= n <= keys.len(),
    ensures
        count_in(seen_all(counts, keys.take(n)), key) <= count_in(seen_all(counts, keys), key),
    decreases keys.len() - n,
{
    if n < keys.len() {
        assert(keys.take(n + 1).drop_last() =~= keys.take(n));
        lemma_seen_all_grows(counts, keys, n + 1, key);
    } else {
        assert(keys.take(n) =~= keys);
    }
}

/// Whether one of the entries has the key.
pub open spec fn has_key(entries: Seq<Entry>, key: Seq<char>) -> bool {
    exists|i: int| 0 <= i < entries.len() && (#[trigger] entries[i]).key@ == key
}

/// The place of an entry that has the key, if there is one.
pub open spec fn place_of(entries: Seq<Entry>, key: Seq<char>) -> int {
    choose|i: int| 0 <= i < entries.len() && (#[trigger] entries[i]).key@ == key
}

/// A table of keys and counts.
#[derive(Debug, PartialEq, Eq)]
pub struct FrequencyTable {
    entries: Vec<Entry>,
}

impl View for FrequencyTable {
    type V = Map<Seq<char>, nat>;

    closed spec fn view(&self) -> Map<Seq<char>, nat> {
        Map::new(
            |key: Seq<char>| has_key(self.entries@, key),
            |key: Seq<char>| self.entries[place_of(self.entries@, key)].count as nat,
        )
    }
}

impl FrequencyTable {
    /// The keys rise strictly, so none occurs twice.
    #[verifier::type_invariant]
    spec fn keys_rise(self) -> bool {
        strictly_rising(keys_of(self.entries@))
    }

    /// How often `key` was seen.
    pub open spec fn count_of(self, key: Seq<char>) -> nat {
        count_in(self@, key)
    }

    /// The entries list the view, whenever their keys rise.
    proof fn lemma_entries_list_view(self)
        requires
            strictly_rising(keys_of(self.entries@)),
        ensures
            lists(self.entries@, self@),
    {
        let keys = keys_of(self.entries@);
        assert forall|i: int| 0 <= i < self.entries.len() implies self@.contains_pair(
            (#[trigger] self.entries[i]).key@,
            self.entries[i].count as nat,
        ) by {
            let key = self.entries[i].key@;
            assert(0 <= i < self.entries.len() && self.entries[i].key@ == key);
            assert(self@.dom().contains(key));
            let j = place_of(self.entries@, key);
            assert(self@[key] == self.entries[j].count as nat);
            if j < i {
                assert(text_before(keys[j], keys[i]));
                lemma_text_before_asymmetric(keys[j], keys[i]);
            }
            if i < j {
                assert(text_before(keys[i], keys[j]));
                lemma_text_before_asymmetric(keys[i], keys[j]);
            }
        }
    }

    /// A table in which nothing was seen.
    pub fn new() -> (table: FrequencyTable)
        ensures
            table@ == Map::<Seq<char>, nat>::empty(),
    {
        let table = FrequencyTable { entries: Vec::new() };
        assert(table@ =~= Map::<Seq<char>, nat>::empty());
        table
    }

    /// Where `key` stands among the entries: the place of its entry if it has
    /// one, else the place at which an entry for it belongs.
    fn find(&self, key: &str) -> (place: (usize, bool))
        ensures
            place.0 <= self.entries.len(),
            forall|i: int| 0 <= i < place.0 ==> text_before(#[trigger] self.entries[i].key@, key@),
            forall|i: int|
                place.0 + (if place.1 { 1int } else { 0int }) <= i < self.entries.len() ==> text_before(
                    key@,
                    #[trigger] self.entries[i].key@,
                ),
            place.1 ==> place.0 < self.entries.len() && self.entries[place.0 as int].key@ == key@,
    {
        proof {
            use_type_invariant(self);
        }
        let ghost keys = keys_of(self.entries@);
        let mut low: usize = 0;
        let mut high: usize = self.entries.len();
        while low < high
            invariant
                low <= high <= self.entries.len(),
                keys == keys_of(self.entries@),
                strictly_rising(keys),
                forall|i: int| 0 <= i < low ==> text_before(#[trigger] self.entries[i].key@, key@),
                forall|i: int|
                    high <= i < self.entries.len() ==> text_before(
                        key@,
                        #[trigger] self.entries[i].key@,
                    ),
            decreases high - low,
        {
            let middle = low + (high - low) / 2;
            match compare(self.entries[middle].key.as_str(), key) {
                Order::Before => {
                    assert forall|i: int| 0 <= i < middle + 1 implies text_before(
                        #[trigger] self.entries[i].key@,
                        key@,
                    ) by {
                        if i < middle {
                            assert(text_before(keys[i], keys[middle as int]));
                            lemma_text_before_transitive(keys[i], keys[middle as int], key@);
                        }
                    }
                    low = middle + 1;
                },
                Order::Same => {
                    assert forall|i: int| middle + 1 <= i < self.entries.len() implies text_before(
                        key@,
                        #[trigger] self.entries[i].key@,
                    ) by {
                        assert(text_before(keys[middle as int], keys[i]));
                    }
                    assert forall|i: int| 0 <= i < middle implies text_before(
                        #[trigger] self.entries[i].key@,
                        key@,
                    ) by {
                        assert(text_before(keys[i], keys[middle as int]));
                    }
                    return (middle, true);
                },
                Order::After => {
                    assert forall|i: int| middle <= i < self.entries.len() implies text_before(
                        key@,
                        #[trigger] self.entries[i].key@,
                    ) by {
                        if middle < i {
                            assert(text_before(keys[middle as int], keys[i]));
                            lemma_text_before_transitive(key@, keys[middle as int], keys[i]);
                        }
                    }
                    high = middle;
                },
            }
        }
        (low, false)
    }

    /// How often `key` was seen.
    pub fn get(&self, key: &str) -> (count: usize)
        ensures
            count == self.count_of(key@),
    {
        proof {
            use_type_invariant(self);
            self.lemma_entries_list_view();
        }
        let (place, found) = self.find(key);
        if found {
            self.entries[place].count
        } else {
            proof {
                if self@.dom().contains(key@) {
                    let i = place_of(self.entries@, key@);
                    if i < place {
                        lemma_text_before_asymmetric(self.entries[i].key@, key@);
                    } else {
                        lemma_text_before_asymmetric(key@, self.entries[i].key@);
                    }
                }
            }
            0
        }
    }

    /// The number of keys that were seen.
    pub fn len(&self) -> (len: usize)
        ensures
            len == self.listing().len(),
            len == self@.dom().len(),
            self@.dom().finite(),
    {
        proof {
            use_type_invariant(self);
            let keys = keys_of(self.entries@);
            assert forall|i: int, j: int|
                0 <= i < keys.len() && 0 <= j < keys.len() && i != j implies keys[i] != keys[j] by {
                if i < j {
                    assert(text_before(keys[i], keys[j]));
                    lemma_text_before_asymmetric(keys[i], keys[j]);
                } else {
                    assert(text_before(keys[j], keys[i]));
                    lemma_text_before_asymmetric(keys[j], keys[i]);
                }
            }
            keys.unique_seq_to_set();
            assert(self@.dom() =~= keys.to_set()) by {
                assert forall|key: Seq<char>| self@.dom().contains(key) <==> keys.to_set().contains(
                    key,
                ) by {
                    if has_key(self.entries@, key) {
                        let i = place_of(self.entries@, key);
                        assert(keys[i] == key);
                    }
                    if keys.contains(key) {
                        let i = choose|i: int| 0 <= i < keys.len() && keys[i] == key;
                        assert(self.entries[i].key@ == key);
                    }
                }
            }
            vstd::seq_lib::seq_to_set_is_finite(keys);
        }
        self.entries.len()
    }

    /// The entries of the table in the order of their keys.
    pub closed spec fn listing(self) -> Seq<Entry> {
        self.entries@
    }

    /// The entries of the table in the order of their keys.
    pub fn entries(&self) -> (entries: &Vec<Entry>)
        ensures
            entries@ == self.listing(),
            lists(entries@, self@),
    {
        proof {
            use_type_invariant(self);
            self.lemma_entries_list_view();
        }
        &self.entries
    }

    /// Counts `key` once more, unless its count is at the largest number
    /// already: then the table stays as it is.
    pub fn increment(&mut self, key: String) -> (counted: bool)
        ensures
            counted == (old(self).count_of(key@) < usize::MAX),
            final(self)@ == if counted {
                seen(old(self)@, key@)
            } else {
                old(self)@
            },
    {
        proof {
            use_type_invariant(&*self);
            self.lemma_entries_list_view();
        }
        let ghost before = *self;
        let ghost old_keys = keys_of(self.entries@);
        let (place, found) = self.find(key.as_str());
        if found {
            assert(before@.contains_pair(
                before.entries[place as int].key@,
                before.entries[place as int].count as nat,
            ));
            if self.entries[place].count == usize::MAX {
                return false;
            }
        }
        let mut entries: Vec<Entry> = Vec::new();
        core::mem::swap(&mut self.entries, &mut entries);
        if found {
            let count = entries[place].count;
            entries.set(place, Entry { key, count: count + 1 });
            assert(keys_of(entries@) =~= old_keys);
            self.entries = entries;
            proof {
                self.lemma_entries_list_view();
                assert forall|k: Seq<char>| #[trigger]
                    self@.dom().contains(k) <==> seen(before@, key@).dom().contains(k) by {
                    if self@.dom().contains(k) {
                        let i = place_of(self.entries@, k);
                        assert(before.entries[i].key@ == k);
                    }
                    if before@.dom().contains(k) {
                        let i = place_of(before.entries@, k);
                        assert(self.entries[i].key@ == k);
                    }
                    if k == key@ {
                        assert(self.entries[place as int].key@ == k);
                    }
                }
                assert forall|k: Seq<char>| #[trigger]
                    self@.dom().contains(k) implies self@[k] == seen(before@, key@)[k] by {
                    let i = place_of(self.entries@, k);
                    assert(self@.contains_pair(self.entries[i].key@, self.entries[i].count as nat));
                    if i != place {
                        assert(before@.contains_pair(
                            before.entries[i].key@,
                            before.entries[i].count as nat,
                        ));
                        if i < place {
                            assert(text_before(old_keys[i], old_keys[place as int]));
                            lemma_text_before_asymmetric(old_keys[i], old_keys[place as int]);
                        } else {
                            assert(text_before(old_keys[place as int], old_keys[i]));
                            lemma_text_before_asymmetric(old_keys[place as int], old_keys[i]);
                        }
                    } else {
                        assert(before@.contains_pair(
                            before.entries[place as int].key@,
                            before.entries[place as int].count as nat,
                        ));
                    }
                }
                assert(self@ =~= seen(before@, key@));
            }
        } else {
            proof {
                if before@.dom().contains(key@) {
                    let i = place_of(before.entries@, key@);
                    if i < place {
                        lemma_text_before_asymmetric(before.entries[i].key@, key@);
                    } else {
                        lemma_text_before_asymmetric(key@, before.entries[i].key@);
                    }
                }
            }
            let ghost the_key = key@;
            entries.insert(place, Entry { key, count: 1 });
            proof {
                let new_keys = keys_of(entries@);
                assert forall|i: int, j: int| 0 <= i < j < new_keys.len() implies text_before(
                    #[trigger] new_keys[i],
                    #[trigger] new_keys[j],
                ) by {
                    let oi = if i < place { i } else { i - 1 };
                    let oj = if j < place { j } else { j - 1 };
                    if i == place {
                        assert(new_keys[j] == before.entries[oj].key@);
                    } else if j == place {
                        assert(new_keys[i] == before.entries[oi].key@);
                    } else {
                        assert(new_keys[i] == old_keys[oi]);
                        assert(new_keys[j] == old_keys[oj]);
                        assert(text_before(old_keys[oi], old_keys[oj]));
                    }
                }
            }
            self.entries = entries;
            proof {
                self.lemma_entries_list_view();
                assert forall|k: Seq<char>| #[trigger]
                    self@.dom().contains(k) <==> seen(before@, the_key).dom().contains(k) by {
                    if self@.dom().contains(k) {
                        let i = place_of(self.entries@, k);
                        if i < place {
                            assert(before.entries[i].key@ == k);
                        } else if i > place {
                            assert(before.entries[i - 1].key@ == k);
                        }
                    }
                    if before@.dom().contains(k) {
                        let i = place_of(before.entries@, k);
                        if i < place {
                            assert(self.entries[i].key@ == k);
                        } else {
                            assert(self.entries[i + 1].key@ == k);
                        }
                    }
                    if k == the_key {
                        assert(self.entries[place as int].key@ == k);
                    }
                }
                assert forall|k: Seq<char>| #[trigger]
                    self@.dom().contains(k) implies self@[k] == seen(before@, the_key)[k] by {
                    let i = place_of(self.entries@, k);
                    assert(self@.contains_pair(self.entries[i].key@, self.entries[i].count as nat));
                    if i < place {
                        assert(before@.contains_pair(
                            before.entries[i].key@,
                            before.entries[i].count as nat,
                        ));
                    } else if i > place {
                        assert(before@.contains_pair(
                            before.entries[i - 1].key@,
                            before.entries[i - 1].count as nat,
                        ));
                    }
                }
                assert(self@ =~= seen(before@, the_key));
            }
        }
        true
    }

    /// Counts each of `keys` once more, one after the other. The first key
    /// whose count is at the largest number already stops the work: the keys
    /// before it stay counted, and the error names it.
    pub fn record_all(&mut self, keys: &Vec<String>) -> (outcome: Result<(), CountOverflow>)
        ensures
            final(self)@ == seen_all(
                old(self)@,
                texts_view(keys@).take(countable(old(self)@, texts_view(keys@))),
            ),
            0 <= countable(old(self)@, texts_view(keys@)) <= keys.len(),
            outcome is Ok <==> countable(old(self)@, texts_view(keys@)) == keys.len(),
            outcome is Ok <==> fits(old(self)@, texts_view(keys@)),
            outcome is Ok ==> final(self)@ == seen_all(old(self)@, texts_view(keys@)),
            outcome matches Err(error) ==> error.key@ == texts_view(keys@)[countable(
                old(self)@,
                texts_view(keys@),
            )],
    {
        let ghost start = self@;
        let ghost all = texts_view(keys@);
        proof {
            lemma_countable_bounded(start, all);
        }
        let mut i: usize = 0;
        while i < keys.len()
            invariant
                i <= keys.len(),
                all == texts_view(keys@),
                start == old(self)@,
                0 <= countable(start, all) <= all.len(),
                self@ == seen_all(start, all.take(i as int)),
                countable(start, all.take(i as int)) == i,
            decreases keys.len() - i,
        {
            proof {
                assert(all.take(i + 1).drop_last() =~= all.take(i as int));
                assert(all.take(i + 1).last() == keys@[i as int]@);
            }
            if !self.increment(keys[i].clone()) {
                proof {
                    let key = all[i as int];
                    lemma_seen_all_grows(start, all, i + 1, key);
                    assert(count_in(seen_all(start, all.take(i + 1)), key) == usize::MAX + 1);
                    assert(!fits(start, all));
                    assert(countable(start, all.take(i + 1)) == i);
                    lemma_countable_stops(start, all, i + 1);
                }
                return Err(CountOverflow { key: keys[i].clone() });
            }
            i += 1;
        }
        proof {
            assert(all.take(keys.len() as int) =~= all);
            self.lemma_counts_fit();
        }
        Ok(())
    }

    /// No count of a table is beyond the largest number.
    pub proof fn lemma_counts_fit(self)
        ensures
            forall|key: Seq<char>| count_in(self@, key) <= usize::MAX,
    {
    }

    /// The table that a list of entries describes, if the keys of the list
    /// rise strictly.
    pub fn from_entries(entries: Vec<Entry>) -> (table: Option<FrequencyTable>)
        ensures
            table is Some <==> strictly_rising(keys_of(entries@)),
            table matches Some(made) ==> made.listing() == entries@ && lists(entries@, made@),
    {
        let ghost keys = keys_of(entries@);
        let mut i: usize = 1;
        while i < entries.len()
            invariant
                1 <= i,
                keys == keys_of(entries@),
                forall|a: int, b: int|
                    0 <= a < b < i && b < entries.len() ==> text_before(
                        #[trigger] keys[a],
                        #[trigger] keys[b],
                    ),
            decreases entries.len() - i,
        {
            match compare(entries[i - 1].key.as_str(), entries[i].key.as_str()) {
                Order::Before => {
                    assert forall|a: int, b: int| 0 <= a < b < i + 1 implies text_before(
                        #[trigger] keys[a],
                        #[trigger] keys[b],
                    ) by {
                        if b == i && a < i - 1 {
                            assert(text_before(keys[a], keys[i - 1]));
                            lemma_text_before_transitive(keys[a], keys[i - 1], keys[i as int]);
                        }
                    }
                },
                _ => {
                    assert(!text_before(keys[i - 1], keys[i as int]));
                    return None;
                },
            }
            i += 1;
        }
        let table = FrequencyTable { entries };
        proof {
            table.lemma_entries_list_view();
        }
        Some(table)
    }

    /// Hands the entries out, in the order of their keys.
    pub fn into_entries(self) -> (entries: Vec<Entry>)
        ensures
            entries@ == self.listing(),
            lists(entries@, self@),
    {
        proof {
            use_type_invariant(&self);
            self.lemma_entries_list_view();
        }
        self.entries
    }
}

} // verus!
