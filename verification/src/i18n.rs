//! Translated user-interface text. A key missing from the active language
//! falls back to the Simplified Chinese pack (`zh_CN`), then to the key itself.
use vstd::prelude::*;
use crate::search::{first_index, lemma_first_index_bounds, lemma_first_index_prefix};

verus! {

/// One language: its code (such as `en_US`), its display name and its
/// translated strings as `(key, text)` entries. Where a key occurs more than
/// once, its first entry is the one used.
#[derive(Clone, Debug)]
pub struct LanguageFile {
    pub code: String,
    pub name: String,
    pub strings: Vec<(String, String)>,
}

/// The text stored under `key` in `entries`: that of the first entry with that key.
pub open spec fn lookup(entries: Seq<(String, String)>, key: Seq<char>) -> Option<Seq<char>>
    decreases entries.len(),
{
    if entries.len() == 0 {
        None
    } else if entries[0].0@ == key {
        Some(entries[0].1@)
    } else {
        lookup(entries.drop_first(), key)
    }
}

pub open spec fn has_code(code: Seq<char>) -> spec_fn(LanguageFile) -> bool {
    |file: LanguageFile| file.code@ == code
}

/// Index of the first language whose code is `code`.
pub open spec fn position_of(files: Seq<LanguageFile>, code: Seq<char>) -> Option<int> {
    first_index(files, has_code(code))
}

/// The language chosen when the requested one is not available.
pub open spec fn default_code() -> Seq<char> {
    "en_US"@
}

/// The language whose text stands in for a missing translation.
pub open spec fn reference_code() -> Seq<char> {
    "zh_CN"@
}

/// The language chosen for a requested code: that language, else English,
/// else the first one.
pub open spec fn initial_active(files: Seq<LanguageFile>, language: Seq<char>) -> int {
    match position_of(files, language) {
        Some(i) => i,
        None => match position_of(files, default_code()) {
            Some(i) => i,
            None => 0,
        },
    }
}

/// The text shown for `key`: the active language's text, else the text of the
/// first Simplified Chinese language file, else the key itself.
pub open spec fn spec_text(files: Seq<LanguageFile>, active: int, key: Seq<char>) -> Seq<char> {
    match lookup(files[active].strings@, key) {
        Some(text) => text,
        None => match position_of(files, reference_code()) {
            Some(i) => match lookup(files[i].strings@, key) {
                Some(text) => text,
                None => key,
            },
            None => key,
        },
    }
}

/// The first entry with a key decides the lookup.
proof fn lemma_lookup_first(entries: Seq<(String, String)>, key: Seq<char>, j: int)
    requires
        0 <= j < entries.len(),
        entries[j].0@ == key,
        forall|k: int| 0 <= k < j ==> (#[trigger] entries[k]).0@ != key,
    ensures
        lookup(entries, key) == Some(entries[j].1@),
    decreases j,
{
    if j > 0 {
        let rest = entries.drop_first();
        assert forall|k: int| 0 <= k < j - 1 implies (#[trigger] rest[k]).0@ != key by {
            assert(rest[k] == entries[k + 1]);
        }
        lemma_lookup_first(rest, key, j - 1);
    }
}

/// A key that no entry carries is not found.
proof fn lemma_lookup_absent(entries: Seq<(String, String)>, key: Seq<char>)
    requires
        forall|k: int| 0 <= k < entries.len() ==> (#[trigger] entries[k]).0@ != key,
    ensures
        lookup(entries, key) is None,
    decreases entries.len(),
{
    if entries.len() > 0 {
        let rest = entries.drop_first();
        assert forall|k: int| 0 <= k < rest.len() implies (#[trigger] rest[k]).0@ != key by {
            assert(rest[k] == entries[k + 1]);
        }
        lemma_lookup_absent(rest, key);
    }
}

/// The active language's own text wins: when the active language has an
/// entry for `key`, the text shown is that of its first such entry, whatever
/// the other languages hold.
pub proof fn lemma_active_language_text_wins(files: Seq<LanguageFile>, active: int, key: Seq<char>, j: int)
    requires
        0 <= active < files.len(),
        0 <= j < files[active].strings@.len(),
        files[active].strings@[j].0@ == key,
        forall|k: int| 0 <= k < j ==> (#[trigger] files[active].strings@[k]).0@ != key,
    ensures
        spec_text(files, active, key) == files[active].strings@[j].1@,
{
    lemma_lookup_first(files[active].strings@, key, j);
}

/// A key missing from the active language shows the text of the first
/// Simplified Chinese (`zh_CN`) language, taken from its first entry for the key.
pub proof fn lemma_missing_text_uses_the_chinese_pack(
    files: Seq<LanguageFile>,
    active: int,
    key: Seq<char>,
    reference: int,
    j: int,
)
    requires
        0 <= active < files.len(),
        forall|k: int| 0 <= k < files[active].strings@.len() ==> (#[trigger] files[active].strings@[k]).0@ != key,
        0 <= reference < files.len(),
        files[reference].code@ == "zh_CN"@,
        forall|f: int| 0 <= f < reference ==> (#[trigger] files[f]).code@ != "zh_CN"@,
        0 <= j < files[reference].strings@.len(),
        files[reference].strings@[j].0@ == key,
        forall|k: int| 0 <= k < j ==> (#[trigger] files[reference].strings@[k]).0@ != key,
    ensures
        spec_text(files, active, key) == files[reference].strings@[j].1@,
{
    lemma_lookup_absent(files[active].strings@, key);
    assert forall|f: int| 0 <= f < reference implies !has_code(reference_code())(#[trigger] files[f]) by {}
    lemma_first_index_prefix(files, has_code(reference_code()), reference);
    lemma_lookup_first(files[reference].strings@, key, j);
}

/// A key that neither the active language nor any Simplified Chinese
/// language has is shown as the key itself.
pub proof fn lemma_untranslated_key_is_shown_as_is(files: Seq<LanguageFile>, active: int, key: Seq<char>)
    requires
        0 <= active < files.len(),
        forall|k: int| 0 <= k < files[active].strings@.len() ==> (#[trigger] files[active].strings@[k]).0@ != key,
        forall|f: int, k: int|
            0 <= f < files.len() && files[f].code@ == "zh_CN"@ && 0 <= k < files[f].strings@.len()
                ==> (#[trigger] files[f].strings@[k]).0@ != key,
    ensures
        spec_text(files, active, key) == key,
{
    lemma_lookup_absent(files[active].strings@, key);
    lemma_first_index_bounds(files, has_code(reference_code()));
    match position_of(files, reference_code()) {
        Some(i) => {
            assert forall|k: int| 0 <= k < files[i].strings@.len() implies (#[trigger] files[i].strings@[k]).0@ != key by {}
            lemma_lookup_absent(files[i].strings@, key);
        },
        None => {},
    }
}

fn find_entry(entries: &Vec<(String, String)>, key: &String) -> (found: Option<String>)
    ensures
        found matches Some(text) ==> lookup(entries@, key@) == Some(text@),
        found is None ==> lookup(entries@, key@) is None,
{
    let mut i: usize = 0;
    assert(entries@.skip(0) =~= entries@);
    while i < entries.len()
        invariant
            i <= entries@.len(),
            lookup(entries@, key@) == lookup(entries@.skip(i as int), key@),
        decreases entries@.len() - i,
    {
        let ghost rest = entries@.skip(i as int);
        assert(rest.drop_first() =~= entries@.skip(i + 1));
        if entries[i].0 == *key {
            return Some(entries[i].1.clone());
        }
        i = i + 1;
    }
    None
}

fn find_file(files: &Vec<LanguageFile>, code: &String) -> (found: Option<usize>)
    ensures
        found matches Some(i) ==> position_of(files@, code@) == Some(i as int),
        found is None ==> position_of(files@, code@) is None,
{
    let mut i: usize = 0;
    while i < files.len()
        invariant
            i <= files@.len(),
            forall|j: int| 0 <= j < i ==> !has_code(code@)(#[trigger] files@[j]),
        decreases files@.len() - i,
    {
        if files[i].code == *code {
            proof {
                lemma_first_index_prefix(files@, has_code(code@), i as int);
            }
            return Some(i);
        }
        i = i + 1;
    }
    proof {
        lemma_first_index_prefix(files@, has_code(code@), files@.len() as int);
    }
    None
}

/// All languages and the one currently shown.
pub struct Translations {
    files: Vec<LanguageFile>,
    active: usize,
}

impl Translations {
    #[verifier::type_invariant]
    spec fn well_formed(self) -> bool {
        self.files@.len() == 0 || self.active < self.files@.len()
    }

    /// The languages, in the order they were given.
    pub closed spec fn spec_files(&self) -> Seq<LanguageFile> {
        self.files@
    }

    /// Index of the language currently shown.
    pub closed spec fn spec_active(&self) -> int {
        self.active as int
    }

    /// Starts with the language whose code is `language`, else English, else
    /// the first language.
    pub fn from_files(files: Vec<LanguageFile>, language: &str) -> (translations: Self)
        ensures
            translations.spec_files() == files@,
            translations.spec_active() == initial_active(files@, language@),
            files@.len() > 0 ==> translations.spec_active() < files@.len(),
    {
        let wanted = language.to_owned();
        let default = "en_US".to_owned();
        proof {
            lemma_first_index_bounds(files@, has_code(language@));
            lemma_first_index_bounds(files@, has_code(default_code()));
        }
        let active = match find_file(&files, &wanted) {
            Some(index) => index,
            None => match find_file(&files, &default) {
                Some(index) => index,
                None => 0,
            },
        };
        Translations { files, active }
    }

    /// Makes language `index` the active one; an index past the end is ignored.
    pub fn select(&mut self, index: usize)
        ensures
            final(self).spec_files() == old(self).spec_files(),
            final(self).spec_active() == if index < old(self).spec_files().len() {
                index as int
            } else {
                old(self).spec_active()
            },
    {
        if index < self.files.len() {
            self.active = index;
        }
    }

    /// The code of the active language.
    pub fn language_code(&self) -> (code: &str)
        requires
            self.spec_files().len() > 0,
        ensures
            code@ == self.spec_files()[self.spec_active()].code@,
    {
        proof {
            use_type_invariant(self);
        }
        self.files[self.active].code.as_str()
    }

    /// The display names of all languages, in order.
    pub fn language_names(&self) -> (names: Vec<String>)
        ensures
            names@.len() == self.spec_files().len(),
            forall|i: int| 0 <= i < names@.len() ==> #[trigger] names@[i]@ == self.spec_files()[i].name@,
    {
        let mut names: Vec<String> = Vec::new();
        let mut i: usize = 0;
        while i < self.files.len()
            invariant
                i <= self.files@.len(),
                names@.len() == i,
                forall|j: int| 0 <= j < i ==> #[trigger] names@[j]@ == self.files@[j].name@,
            decreases self.files@.len() - i,
        {
            names.push(self.files[i].name.clone());
            i = i + 1;
        }
        names
    }

    /// Index of the language currently shown; it always names one of the
    /// languages, unless there are none.
    pub fn active_index(&self) -> (index: usize)
        ensures
            index == self.spec_active(),
            self.spec_files().len() == 0 || index < self.spec_files().len(),
    {
        proof {
            use_type_invariant(self);
        }
        self.active
    }

    /// The text for `key` in the active language, falling back to Simplified
    /// Chinese and then to the key itself.
    pub fn text(&self, key: &str) -> (text: String)
        requires
            self.spec_files().len() > 0,
        ensures
            text@ == spec_text(self.spec_files(), self.spec_active(), key@),
    {
        proof {
            use_type_invariant(self);
            lemma_first_index_bounds(self.files@, has_code(reference_code()));
        }
        let wanted = key.to_owned();
        match find_entry(&self.files[self.active].strings, &wanted) {
            Some(text) => text,
            None => {
                let reference = "zh_CN".to_owned();
                match find_file(&self.files, &reference) {
                    Some(index) => match find_entry(&self.files[index].strings, &wanted) {
                        Some(text) => text,
                        None => wanted,
                    },
                    None => wanted,
                }
            },
        }
    }
}

} // verus!
