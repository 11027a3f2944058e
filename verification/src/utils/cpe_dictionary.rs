//! The reference dictionary: canonical identifiers with their titles in one
//! or more languages. It is loaded once and only read after that.

use crate::text::same_text;
use vstd::prelude::*;
use vstd::string::*;

verus! {

/// What made the dictionary, and when.
#[derive(Clone, Debug, PartialEq, Eq)]
pub struct Generator {
    pub product_name: String,
    pub product_version: String,
    pub schema_version: String,
    pub timestamp: String,
}

/// One entry of the dictionary: an identifier and its titles.
#[derive(Clone, Debug, PartialEq, Eq)]
pub struct CpeItem {
    pub name: String,
    pub title: Vec<Title>,
}

/// A title in one language.
#[derive(Clone, Debug, PartialEq, Eq)]
pub struct Title {
    pub lang: String,
    pub title: String,
}

/// The dictionary.
#[derive(Clone, Debug, PartialEq, Eq)]
pub struct CpeList {
    pub generator: Generator,
    pub items: Vec<CpeItem>,
}

/// The place of the first item that has the name; the number of items if
/// none has it.
pub open spec fn first_named(items: Seq<CpeItem>, name: Seq<char>) -> int
    decreases items.len(),
{
    if items.len() == 0 || items.first().name@ == name {
        0
    } else {
        1 + first_named(items.drop_first(), name)
    }
}

/// The place of the first title in the language; the number of titles if
/// there is none.
pub open spec fn first_in_language(titles: Seq<Title>, lang: Seq<char>) -> int
    decreases titles.len(),
{
    if titles.len() == 0 || titles.first().lang@ == lang {
        0
    } else {
        1 + first_in_language(titles.drop_first(), lang)
    }
}

/// Whether one of the titles is in the language.
pub open spec fn has_language(titles: Seq<Title>, lang: Seq<char>) -> bool {
    exists|j: int| 0 <= j < titles.len() && (#[trigger] titles[j]).lang@ == lang
}

/// `first_named` is the place of an item with the name before which no item
/// has it, or the number of items when none has it.
pub proof fn lemma_first_named(items: Seq<CpeItem>, name: Seq<char>)
    ensures
        0 <= first_named(items, name) <= items.len(),
        first_named(items, name) < items.len() ==> items[first_named(items, name)].name@ == name,
        forall|j: int| 0 <= j < first_named(items, name) ==> (#[trigger] items[j]).name@ != name,
    decreases items.len(),
{
    if items.len() > 0 && items.first().name@ != name {
        let rest = items.drop_first();
        lemma_first_named(rest, name);
        assert forall|j: int| 0 <= j < first_named(items, name) implies (#[trigger] items[j]).name@
            != name by {
            if j > 0 {
                assert(items[j] == rest[j - 1]);
            }
        }
    }
}

/// `first_in_language` is the place of a title in the language before which
/// no title is in it, or the number of titles when none is.
pub proof fn lemma_first_in_language(titles: Seq<Title>, lang: Seq<char>)
    ensures
        0 <= first_in_language(titles, lang) <= titles.len(),
        first_in_language(titles, lang) < titles.len() ==> titles[first_in_language(
            titles,
            lang,
        )].lang@ == lang,
        forall|j: int|
            0 <= j < first_in_language(titles, lang) ==> (#[trigger] titles[j]).lang@ != lang,
    decreases titles.len(),
{
    if titles.len() > 0 && titles.first().lang@ != lang {
        let rest = titles.drop_first();
        lemma_first_in_language(rest, lang);
        assert forall|j: int| 0 <= j < first_in_language(titles, lang) implies (
        #[trigger] titles[j]).lang@ != lang by {
            if j > 0 {
                assert(titles[j] == rest[j - 1]);
            }
        }
    }
}

impl CpeList {
    /// The first item that has the name `cpe`, if there is one.
    pub open spec fn lookup_spec(&self, cpe: Seq<char>) -> Option<CpeItem> {
        let place = first_named(self.items@, cpe);
        if place < self.items.len() {
            Some(self.items[place])
        } else {
            None
        }
    }

    /// The title in the language `lang` of the first item that has the name
    /// `cpe`: the first such title of that item, if the item is there and has
    /// one.
    pub open spec fn lookup_title_spec(&self, cpe: Seq<char>, lang: Seq<char>) -> Option<
        Seq<char>,
    > {
        match self.lookup_spec(cpe) {
            Some(item) => {
                let place = first_in_language(item.title@, lang);
                if place < item.title.len() {
                    Some(item.title[place].title@)
                } else {
                    None
                }
            },
            None => None,
        }
    }

    /// Looks an identifier up in the dictionary.
    pub fn lookup(&self, cpe: &str) -> (found: Option<&CpeItem>)
        ensures
            match self.lookup_spec(cpe@) {
                Some(item) => found == Some(&item),
                None => found is None,
            },
            found matches Some(item) ==> item.name@ == cpe@,
            found is None ==> forall|j: int|
                0 <= j < self.items.len() ==> (#[trigger] self.items[j]).name@ != cpe@,
    {
        let ghost items = self.items@;
        proof {
            lemma_first_named(items, cpe@);
        }
        assert(items.skip(0) =~= items);
        let mut i: usize = 0;
        while i < self.items.len()
            invariant
                i <= self.items.len(),
                items == self.items@,
                first_named(items, cpe@) == i + first_named(items.skip(i as int), cpe@),
            decreases self.items.len() - i,
        {
            assert(items.skip(i as int).first() == items[i as int]);
            assert(items.skip(i as int).drop_first() =~= items.skip(i + 1));
            if same_text(self.items[i].name.as_str(), cpe) {
                return Some(&self.items[i]);
            }
            i += 1;
        }
        None
    }

    /// The title of an identifier in a language.
    pub fn lookup_title(&self, cpe: &str, lang: &str) -> (found: Option<&str>)
        ensures
            match self.lookup_title_spec(cpe@, lang@) {
                Some(title) => found matches Some(text) && text@ == title,
                None => found is None,
            },
            found is Some <==> self.lookup_spec(cpe@) is Some && has_language(
                self.lookup_spec(cpe@)->0.title@,
                lang@,
            ),
    {
        match self.lookup(cpe) {
            Some(item) => {
                let ghost titles = item.title@;
                proof {
                    lemma_first_in_language(titles, lang@);
                }
                assert(titles.skip(0) =~= titles);
                let mut i: usize = 0;
                while i < item.title.len()
                    invariant
                        i <= item.title.len(),
                        titles == item.title@,
                        self.lookup_spec(cpe@) == Some(*item),
                        first_in_language(titles, lang@) == i + first_in_language(
                            titles.skip(i as int),
                            lang@,
                        ),
                    decreases item.title.len() - i,
                {
                    assert(titles.skip(i as int).first() == titles[i as int]);
                    assert(titles.skip(i as int).drop_first() =~= titles.skip(i + 1));
                    if same_text(item.title[i].lang.as_str(), lang) {
                        return Some(item.title[i].title.as_str());
                    }
                    i += 1;
                }
                None
            },
            None => None,
        }
    }
}

} // verus!
