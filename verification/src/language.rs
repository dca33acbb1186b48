//! Languages and the table that tells the language of a file by the
//! extension of its name.

use crate::error::Error;
use vstd::prelude::*;

verus! {

/// A language: its name, and the delimiter that begins a line comment in it.
/// The delimiter is never empty.
#[derive(Debug)]
pub struct Language {
    name: String,
    comment: String,
}

/// A [`Language`] as sequences of characters.
pub struct LanguageView {
    pub name: Seq<char>,
    pub comment: Seq<char>,
}

impl View for Language {
    type V = LanguageView;

    closed spec fn view(&self) -> LanguageView {
        LanguageView { name: self.name@, comment: self.comment@ }
    }
}

impl Language {
    #[verifier::type_invariant]
    spec fn has_delimiter(&self) -> bool {
        self.comment@.len() > 0
    }

    /// The language called `name` whose line comments begin with `comment`.
    /// A language without a comment delimiter is refused.
    pub fn new(name: String, comment: String) -> (result: Result<Language, Error>)
        ensures
            comment@.len() == 0 ==> result == Err::<Language, Error>(Error::LangMapInitFailed),
            comment@.len() > 0 ==> result is Ok && result->Ok_0@ == (LanguageView {
                name: name@,
                comment: comment@,
            }),
    {
        if comment.as_str().is_empty() {
            Err(Error::LangMapInitFailed)
        } else {
            Ok(Language { name, comment })
        }
    }

    /// The name of the language.
    pub fn name(&self) -> (name: &String)
        ensures
            name@ == self@.name,
    {
        &self.name
    }

    /// The delimiter that begins a line comment.
    pub fn comment(&self) -> (comment: &String)
        ensures
            comment@ == self@.comment,
            comment@.len() > 0,
    {
        proof {
            use_type_invariant(self);
        }
        &self.comment
    }
}

struct Entry {
    extension: String,
    language: Language,
}

/// Whether `extension` stands in `entries`.
spec fn holds(entries: Seq<Entry>, extension: Seq<char>) -> bool {
    exists|i: int| 0 <= i < entries.len() && entries[i].extension@ == extension
}

/// Where `extension` stands in `entries`.
spec fn index_of(entries: Seq<Entry>, extension: Seq<char>) -> int {
    choose|i: int| 0 <= i < entries.len() && entries[i].extension@ == extension
}

/// Whether no extension stands in `entries` twice.
spec fn distinct(entries: Seq<Entry>) -> bool {
    forall|i: int, j: int|
        0 <= i < j < entries.len() ==> entries[i].extension@ != entries[j].extension@
}

/// The language under each extension of `entries`.
spec fn map_of(entries: Seq<Entry>) -> Map<Seq<char>, LanguageView> {
    Map::new(
        |extension: Seq<char>| holds(entries, extension),
        |extension: Seq<char>| entries[index_of(entries, extension)].language@,
    )
}

/// An extension stands at one place only.
proof fn lemma_index_of(entries: Seq<Entry>, at: int)
    requires
        distinct(entries),
        0 <= at < entries.len(),
    ensures
        holds(entries, entries[at].extension@),
        index_of(entries, entries[at].extension@) == at,
{
}

/// An entry under a new extension adds that extension to the table.
proof fn lemma_push(entries: Seq<Entry>, entry: Entry)
    requires
        distinct(entries),
        !holds(entries, entry.extension@),
    ensures
        distinct(entries.push(entry)),
        map_of(entries.push(entry)) == map_of(entries).insert(entry.extension@, entry.language@),
{
    let after = entries.push(entry);
    assert(distinct(after)) by {
        assert forall|i: int, j: int| 0 <= i < j < after.len() implies after[i].extension@
            != after[j].extension@ by {
            if j < entries.len() {
                assert(after[i] == entries[i] && after[j] == entries[j]);
            } else {
                assert(after[i] == entries[i]);
            }
        }
    }
    let wanted = map_of(entries).insert(entry.extension@, entry.language@);
    assert forall|extension: Seq<char>| #[trigger]
        map_of(after).dom().contains(extension) == wanted.dom().contains(extension) by {
        if holds(after, extension) {
            let i = index_of(after, extension);
            if i < entries.len() {
                assert(entries[i] == after[i]);
            }
        }
        if holds(entries, extension) {
            let i = index_of(entries, extension);
            assert(after[i] == entries[i]);
        }
        if extension == entry.extension@ {
            assert(after[entries.len() as int] == entry);
        }
    }
    assert forall|extension: Seq<char>| #[trigger]
        map_of(after).dom().contains(extension) implies map_of(after)[extension]
        == wanted[extension] by {
        let i = index_of(after, extension);
        lemma_index_of(after, i);
        if i < entries.len() {
            assert(after[i] == entries[i]);
            lemma_index_of(entries, i);
        }
    }
    assert(map_of(after) =~= wanted);
}

/// Without one of its entries the table lacks the extension of that entry.
proof fn lemma_remove(entries: Seq<Entry>, at: int)
    requires
        distinct(entries),
        0 <= at < entries.len(),
    ensures
        distinct(entries.remove(at)),
        !holds(entries.remove(at), entries[at].extension@),
        map_of(entries.remove(at)) == map_of(entries).remove(entries[at].extension@),
{
    let after = entries.remove(at);
    let gone = entries[at].extension@;
    assert forall|i: int| 0 <= i < after.len() implies #[trigger] after[i] == entries[if i
        < at {
        i
    } else {
        i + 1
    }] by {}
    assert(distinct(after)) by {
        assert forall|i: int, j: int| 0 <= i < j < after.len() implies after[i].extension@
            != after[j].extension@ by {
            assert(after[i] == entries[if i < at { i } else { i + 1 }]);
            assert(after[j] == entries[if j < at { j } else { j + 1 }]);
        }
    }
    assert(!holds(after, gone)) by {
        if holds(after, gone) {
            let i = index_of(after, gone);
            assert(after[i] == entries[if i < at { i } else { i + 1 }]);
        }
    }
    let wanted = map_of(entries).remove(gone);
    assert forall|extension: Seq<char>| #[trigger]
        map_of(after).dom().contains(extension) == wanted.dom().contains(extension) by {
        if holds(after, extension) {
            let i = index_of(after, extension);
            assert(after[i] == entries[if i < at { i } else { i + 1 }]);
        }
        if holds(entries, extension) && extension != gone {
            let i = index_of(entries, extension);
            assert(after[if i < at { i } else { i - 1 }] == entries[i]);
        }
    }
    assert forall|extension: Seq<char>| #[trigger]
        map_of(after).dom().contains(extension) implies map_of(after)[extension]
        == wanted[extension] by {
        let i = index_of(after, extension);
        let before = if i < at { i } else { i + 1 };
        assert(after[i] == entries[before]);
        lemma_index_of(entries, before);
    }
    assert(map_of(after) =~= wanted);
}

/// The languages that are known, each under the extension of its files. No
/// extension stands in the table twice.
pub struct LanguageTable {
    entries: Vec<Entry>,
}

impl View for LanguageTable {
    type V = Map<Seq<char>, LanguageView>;

    closed spec fn view(&self) -> Map<Seq<char>, LanguageView> {
        map_of(self.entries@)
    }
}

impl LanguageTable {
    #[verifier::type_invariant]
    spec fn no_extension_twice(&self) -> bool {
        distinct(self.entries@)
    }

    /// A table without languages.
    pub fn new() -> (table: LanguageTable)
        ensures
            table@ == Map::<Seq<char>, LanguageView>::empty(),
    {
        let table = LanguageTable { entries: Vec::new() };
        assert(table@ =~= Map::<Seq<char>, LanguageView>::empty());
        table
    }

    /// Where `extension` stands in the table.
    fn position(&self, extension: &str) -> (at: Option<usize>)
        ensures
            at is Some <==> holds(self.entries@, extension@),
            at matches Some(i) ==> i < self.entries@.len() && self.entries@[i as int].extension@
                == extension@,
    {
        let wanted = extension.to_owned();
        let mut i: usize = 0;
        while i < self.entries.len()
            invariant
                i <= self.entries@.len(),
                wanted@ == extension@,
                forall|j: int| 0 <= j < i ==> self.entries@[j].extension@ != extension@,
            decreases self.entries.len() - i,
        {
            if self.entries[i].extension == wanted {
                return Some(i);
            }
            i += 1;
        }
        None
    }

    /// The language that stands under `extension`.
    pub fn get(&self, extension: &str) -> (language: Option<&Language>)
        ensures
            language is Some <==> self@.dom().contains(extension@),
            language matches Some(found) ==> found@ == self@[extension@],
    {
        proof {
            use_type_invariant(self);
        }
        match self.position(extension) {
            Some(i) => {
                proof {
                    lemma_index_of(self.entries@, i as int);
                }
                Some(&self.entries[i].language)
            },
            None => None,
        }
    }

    /// Puts `language` under `extension`, and gives back the language that
    /// stood there before.
    pub fn insert(&mut self, extension: String, language: Language) -> (previous: Option<Language>)
        ensures
            final(self)@ == old(self)@.insert(extension@, language@),
            previous is Some <==> old(self)@.dom().contains(extension@),
            previous matches Some(before) ==> before@ == old(self)@[extension@],
    {
        proof {
            use_type_invariant(&*self);
        }
        let found = self.position(extension.as_str());
        let mut entries: Vec<Entry> = Vec::new();
        std::mem::swap(&mut self.entries, &mut entries);
        let ghost before = entries@;
        let previous = match found {
            Some(i) => {
                proof {
                    lemma_index_of(before, i as int);
                    lemma_remove(before, i as int);
                }
                Some(entries.remove(i).language)
            },
            None => None,
        };
        let entry = Entry { extension, language };
        proof {
            lemma_push(entries@, entry);
            assert(map_of(entries@.push(entry)) =~= map_of(before).insert(
                extension@,
                language@,
            ));
        }
        entries.push(entry);
        self.entries = entries;
        previous
    }
}

} // verus!
