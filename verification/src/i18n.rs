//! The languages of the interface: which one is chosen, and how its texts are filled in.
use vstd::prelude::*;

use crate::text::{
    ascii_lower, chars_of, eq_ignore_case, is_blank, occurs, occurs_at, same_ignoring_case,
    same_text, to_ascii_lower, trimmed,
};

verus! {

/// A text of a language and the key that it is asked for by.
#[derive(Debug, PartialEq, Eq)]
pub struct Entry {
    pub key: String,
    pub value: String,
}

#[derive(Debug, PartialEq, Eq)]
pub struct EmbeddedLanguage {
    pub locale: String,
    pub display_name: String,
    pub strings: Vec<Entry>,
}

/// Some entry has the key.
pub open spec fn has_key(strings: Seq<Entry>, key: Seq<char>) -> bool {
    exists|i: int| 0 <= i < strings.len() && (#[trigger] strings[i]).key@ == key
}

/// The text of the first entry with the key.
pub open spec fn text_of(strings: Seq<Entry>, key: Seq<char>) -> Seq<char>
    decreases strings.len(),
{
    if strings.len() == 0 {
        Seq::empty()
    } else if strings[0].key@ == key {
        strings[0].value@
    } else {
        text_of(strings.skip(1), key)
    }
}

fn key_present(strings: &Vec<Entry>, key: &str) -> (r: bool)
    ensures
        r == has_key(strings@, key@),
{
    let mut i: usize = 0;
    while i < strings.len()
        invariant
            i <= strings@.len(),
            forall|j: int| 0 <= j < i ==> (#[trigger] strings@[j]).key@ != key@,
        decreases strings@.len() - i,
    {
        if same_text(strings[i].key.as_str(), key) {
            assert(strings@[i as int].key@ == key@);
            return true;
        }
        i = i + 1;
    }
    false
}

/// Every key of one list is in the other.
pub open spec fn keys_within(a: Seq<Entry>, b: Seq<Entry>) -> bool {
    forall|i: int| 0 <= i < a.len() ==> has_key(b, (#[trigger] a[i]).key@)
}

fn keys_contained(a: &Vec<Entry>, b: &Vec<Entry>) -> (r: bool)
    ensures
        r == keys_within(a@, b@),
{
    let mut i: usize = 0;
    while i < a.len()
        invariant
            i <= a@.len(),
            forall|j: int| 0 <= j < i ==> has_key(b@, (#[trigger] a@[j]).key@),
        decreases a@.len() - i,
    {
        if !key_present(b, a[i].key.as_str()) {
            assert(!has_key(b@, a@[i as int].key@));
            return false;
        }
        i = i + 1;
    }
    true
}

/// A language by itself is complete: it has a name, and no text is empty.
pub open spec fn language_ok(language: EmbeddedLanguage) -> bool {
    &&& trimmed(language.locale@).len() > 0
    &&& trimmed(language.display_name@).len() > 0
    &&& language.strings@.len() > 0
    &&& forall|i: int|
        0 <= i < language.strings@.len() ==> (#[trigger] language.strings@[i]).value@.len() > 0
}

fn language_complete(language: &EmbeddedLanguage) -> (r: bool)
    ensures
        r == language_ok(*language),
{
    if is_blank(language.locale.as_str()) || is_blank(language.display_name.as_str())
        || language.strings.len() == 0 {
        return false;
    }
    let mut i: usize = 0;
    while i < language.strings.len()
        invariant
            i <= language.strings@.len(),
            forall|j: int| 0 <= j < i ==> (#[trigger] language.strings@[j]).value@.len() > 0,
        decreases language.strings@.len() - i,
    {
        if language.strings[i].value.as_str().is_empty() {
            assert(language.strings@[i as int].value@.len() == 0);
            return false;
        }
        i = i + 1;
    }
    true
}

/// No earlier language has the same name.
pub open spec fn locale_is_new(languages: Seq<EmbeddedLanguage>, i: int) -> bool {
    forall|j: int|
        0 <= j < i ==> !same_ignoring_case(
            (#[trigger] languages[j]).locale@,
            languages[i].locale@,
        )
}

/// The languages fit together: each is complete, no two have one name, all have the same keys,
/// and English is among them.
pub open spec fn languages_ok(languages: Seq<EmbeddedLanguage>) -> bool {
    &&& forall|i: int| 0 <= i < languages.len() ==> #[trigger] fits(languages, i)
    &&& has_english(languages)
}

/// One language fits to those before it.
pub open spec fn fits(languages: Seq<EmbeddedLanguage>, i: int) -> bool {
    &&& language_ok(languages[i])
    &&& locale_is_new(languages, i)
    &&& keys_within(languages[0].strings@, languages[i].strings@)
    &&& keys_within(languages[i].strings@, languages[0].strings@)
}

pub open spec fn has_english(languages: Seq<EmbeddedLanguage>) -> bool {
    exists|i: int|
        0 <= i < languages.len() && same_ignoring_case((#[trigger] languages[i]).locale@, "en"@)
}

fn is_new_locale(languages: &Vec<EmbeddedLanguage>, i: usize) -> (r: bool)
    requires
        i < languages@.len(),
    ensures
        r == locale_is_new(languages@, i as int),
{
    let mut j: usize = 0;
    while j < i
        invariant
            j <= i < languages@.len(),
            forall|k: int|
                0 <= k < j ==> !same_ignoring_case(
                    (#[trigger] languages@[k]).locale@,
                    languages@[i as int].locale@,
                ),
        decreases i - j,
    {
        if eq_ignore_case(languages[j].locale.as_str(), languages[i].locale.as_str()) {
            assert(same_ignoring_case(languages@[j as int].locale@, languages@[i as int].locale@));
            return false;
        }
        j = j + 1;
    }
    true
}

/// Whether a set of languages can be used.
pub fn check_languages(languages: &Vec<EmbeddedLanguage>) -> (r: bool)
    ensures
        r == languages_ok(languages@),
{
    let mut english = false;
    let mut i: usize = 0;
    while i < languages.len()
        invariant
            i <= languages@.len(),
            forall|j: int| 0 <= j < i ==> #[trigger] fits(languages@, j),
            english <==> exists|j: int|
                0 <= j < i && same_ignoring_case((#[trigger] languages@[j]).locale@, "en"@),
        decreases languages@.len() - i,
    {
        if !language_complete(&languages[i]) || !is_new_locale(languages, i) || !keys_contained(
            &languages[0].strings,
            &languages[i].strings,
        ) || !keys_contained(&languages[i].strings, &languages[0].strings) {
            assert(!fits(languages@, i as int));
            return false;
        }
        assert(fits(languages@, i as int));
        if eq_ignore_case(languages[i].locale.as_str(), "en") {
            assert(same_ignoring_case(languages@[i as int].locale@, "en"@));
            english = true;
        }
        i = i + 1;
    }
    english
}

/// A text that one language has, every language has.
pub proof fn languages_have_the_same_texts(
    languages: Seq<EmbeddedLanguage>,
    a: int,
    b: int,
    key: Seq<char>,
)
    requires
        languages_ok(languages),
        0 <= a < languages.len(),
        0 <= b < languages.len(),
        has_key(languages[a].strings@, key),
    ensures
        has_key(languages[b].strings@, key),
{
    assert(fits(languages, a) && fits(languages, b));
    let i = choose|i: int|
        0 <= i < languages[a].strings@.len() && (#[trigger] languages[a].strings@[i]).key@ == key;
    assert(has_key(languages[0].strings@, languages[a].strings@[i].key@));
    let k = choose|k: int|
        0 <= k < languages[0].strings@.len() && (#[trigger] languages[0].strings@[k]).key@ == key;
    assert(has_key(languages[b].strings@, languages[0].strings@[k].key@));
}

/// A locale in one spelling: with hyphens, in lower case.
pub open spec fn normal_locale(text: Seq<char>) -> Seq<char> {
    ascii_lower(
        Seq::new(
            text.len(),
            |i: int|
                if text[i] == '_' {
                    '-'
                } else {
                    text[i]
                },
        ),
    )
}

fn normalize_locale(text: &str) -> (r: String)
    ensures
        r@ == normal_locale(text@),
{
    let ghost changed = Seq::new(
        text@.len(),
        |i: int|
            if text@[i] == '_' {
                '-'
            } else {
                text@[i]
            },
    );
    let mut out = String::new();
    for c in iter: text.chars()
        invariant
            iter.seq() == text@,
            changed == Seq::new(
                text@.len(),
                |i: int|
                    if text@[i] == '_' {
                        '-'
                    } else {
                        text@[i]
                    },
            ),
            out@ == changed.take(iter.index()),
    {
        let ghost at = iter.index();
        if c == '_' {
            out.push('-');
        } else {
            out.push(c);
        }
        assert(changed.take(at + 1) =~= changed.take(at).push(changed[at]));
    }
    assert(changed.take(text@.len() as int) =~= changed);
    to_ascii_lower(out.as_str())
}

/// The part of a locale before its first hyphen: the language itself.
pub open spec fn primary(locale: Seq<char>) -> Seq<char>
    decreases locale.len(),
{
    if locale.len() == 0 || locale[0] == '-' {
        Seq::empty()
    } else {
        seq![locale[0]] + primary(locale.skip(1))
    }
}

fn primary_part(locale: &str) -> (r: String)
    ensures
        r@ == primary(locale@),
{
    let chars = chars_of(locale);
    let ghost whole = chars@;
    let mut out = String::new();
    let mut i: usize = 0;
    assert(whole.skip(0) =~= whole);
    assert(primary(whole) =~= out@ + primary(whole.skip(0)));
    while i < chars.len() && chars[i] != '-'
        invariant
            i <= chars@.len(),
            chars@ == whole,
            primary(whole) == out@ + primary(whole.skip(i as int)),
        decreases chars@.len() - i,
    {
        let ghost rest = whole.skip(i as int);
        let ghost before = out@;
        assert(rest[0] == whole[i as int]);
        assert(rest.skip(1) =~= whole.skip(i + 1));
        out.push(chars[i]);
        assert(before + (seq![rest[0]] + primary(rest.skip(1))) =~= out@ + primary(
            whole.skip(i + 1),
        ));
        i = i + 1;
    }
    let ghost rest = whole.skip(i as int);
    assert(primary(rest) =~= Seq::empty()) by {
        if i < whole.len() {
            assert(rest[0] == whole[i as int]);
        }
    }
    assert(out@ + Seq::<char>::empty() =~= out@);
    out
}

/// The first language with exactly this name stands at `at`.
pub open spec fn named_at(languages: Seq<EmbeddedLanguage>, wanted: Seq<char>, at: int) -> bool {
    &&& 0 <= at < languages.len()
    &&& same_ignoring_case(languages[at].locale@, wanted)
    &&& forall|j: int|
        0 <= j < at ==> !same_ignoring_case((#[trigger] languages[j]).locale@, wanted)
}

/// The first language of the family stands at `at`.
pub open spec fn family_at(languages: Seq<EmbeddedLanguage>, wanted: Seq<char>, at: int) -> bool {
    &&& 0 <= at < languages.len()
    &&& same_ignoring_case(primary(languages[at].locale@), primary(wanted))
    &&& forall|j: int|
        0 <= j < at ==> !same_ignoring_case(
            primary((#[trigger] languages[j]).locale@),
            primary(wanted),
        )
}

/// The language at `at` is the one for a locale: the exact one, else one of its family.
pub open spec fn is_match(languages: Seq<EmbeddedLanguage>, requested: Seq<char>, at: int) -> bool {
    let wanted = normal_locale(requested);
    if exists|i: int| #[trigger] named_at(languages, wanted, i) {
        named_at(languages, wanted, at)
    } else {
        family_at(languages, wanted, at)
    }
}

/// Some language is the one for a locale.
pub open spec fn is_supported(languages: Seq<EmbeddedLanguage>, requested: Seq<char>) -> bool {
    exists|at: int| #[trigger] is_match(languages, requested, at)
}

/// Position of the language for a locale.
pub fn find_language(languages: &Vec<EmbeddedLanguage>, requested: &str) -> (r: Option<usize>)
    ensures
        match r {
            Some(at) => is_match(languages@, requested@, at as int),
            None => !is_supported(languages@, requested@),
        },
{
    let wanted = normalize_locale(requested);
    let mut i: usize = 0;
    while i < languages.len()
        invariant
            i <= languages@.len(),
            wanted@ == normal_locale(requested@),
            forall|j: int|
                0 <= j < i ==> !same_ignoring_case((#[trigger] languages@[j]).locale@, wanted@),
        decreases languages@.len() - i,
    {
        if eq_ignore_case(languages[i].locale.as_str(), wanted.as_str()) {
            assert(named_at(languages@, wanted@, i as int));
            return Some(i);
        }
        i = i + 1;
    }
    assert forall|j: int| !(#[trigger] named_at(languages@, wanted@, j)) by {
        if named_at(languages@, wanted@, j) {
            assert(same_ignoring_case(languages@[j].locale@, wanted@));
        }
    }
    let family = primary_part(wanted.as_str());
    let mut i: usize = 0;
    while i < languages.len()
        invariant
            i <= languages@.len(),
            wanted@ == normal_locale(requested@),
            family@ == primary(wanted@),
            forall|j: int| !(#[trigger] named_at(languages@, wanted@, j)),
            forall|j: int|
                0 <= j < i ==> !same_ignoring_case(
                    primary((#[trigger] languages@[j]).locale@),
                    family@,
                ),
        decreases languages@.len() - i,
    {
        let own = primary_part(languages[i].locale.as_str());
        if eq_ignore_case(own.as_str(), family.as_str()) {
            assert(family_at(languages@, wanted@, i as int));
            return Some(i);
        }
        i = i + 1;
    }
    assert forall|j: int| !(#[trigger] is_match(languages@, requested@, j)) by {
        if is_match(languages@, requested@, j) {
            assert(same_ignoring_case(primary(languages@[j].locale@), family@));
        }
    }
    None
}

/// The language for a locale, or English.
pub open spec fn is_choice(languages: Seq<EmbeddedLanguage>, requested: Seq<char>, at: int) -> bool {
    if is_supported(languages, requested) {
        is_match(languages, requested, at)
    } else {
        is_match(languages, "en"@, at)
    }
}

/// The texts of one language.
#[derive(Debug, PartialEq, Eq)]
pub struct Catalog {
    pub locale: String,
    pub strings: Vec<Entry>,
}

/// What the operating system reports as the user's language, through `sys_locale::get_locale`.
/// It depends on the machine and its settings, so nothing is known of it.
#[verifier::external_body]
fn system_locale() -> (r: Option<String>) {
    sys_locale::get_locale()
}

fn copy_entries(strings: &Vec<Entry>) -> (r: Vec<Entry>)
    ensures
        r@.len() == strings@.len(),
        forall|i: int|
            0 <= i < r@.len() ==> (#[trigger] r@[i]).key@ == strings@[i].key@ && r@[i].value@
                == strings@[i].value@,
{
    let mut out: Vec<Entry> = Vec::new();
    let mut i: usize = 0;
    while i < strings.len()
        invariant
            i <= strings@.len(),
            out@.len() == i,
            forall|j: int|
                0 <= j < i ==> (#[trigger] out@[j]).key@ == strings@[j].key@ && out@[j].value@
                    == strings@[j].value@,
        decreases strings@.len() - i,
    {
        out.push(
            Entry { key: strings[i].key.clone(), value: strings[i].value.clone() },
        );
        i = i + 1;
    }
    out
}

/// Both lists hold the same texts under the same keys.
pub open spec fn same_entries(a: Seq<Entry>, b: Seq<Entry>) -> bool {
    &&& a.len() == b.len()
    &&& forall|i: int|
        0 <= i < a.len() ==> (#[trigger] a[i]).key@ == b[i].key@ && a[i].value@ == b[i].value@
}

proof fn lemma_english(languages: Seq<EmbeddedLanguage>)
    requires
        has_english(languages),
    ensures
        is_supported(languages, "en"@),
{
    reveal_strlit("en");
    assert(normal_locale("en"@) =~= "en"@);
    let some = choose|i: int|
        0 <= i < languages.len() && same_ignoring_case((#[trigger] languages[i]).locale@, "en"@);
    lemma_first_named(languages, "en"@, some);
    let at = choose|i: int| #[trigger] named_at(languages, "en"@, i);
    assert(is_match(languages, "en"@, at));
}

proof fn lemma_first_named(languages: Seq<EmbeddedLanguage>, wanted: Seq<char>, some: int)
    requires
        0 <= some < languages.len(),
        same_ignoring_case(languages[some].locale@, wanted),
    ensures
        exists|i: int| #[trigger] named_at(languages, wanted, i),
    decreases some,
{
    if forall|j: int|
        0 <= j < some ==> !same_ignoring_case((#[trigger] languages[j]).locale@, wanted) {
        assert(named_at(languages, wanted, some));
    } else {
        let earlier = choose|j: int|
            0 <= j < some && same_ignoring_case((#[trigger] languages[j]).locale@, wanted);
        lemma_first_named(languages, wanted, earlier);
    }
}

/// A language of the program: its name, its own name for itself, and its texts.
pub open spec fn is_language(
    language: EmbeddedLanguage,
    locale: Seq<char>,
    display_name: Seq<char>,
    exit: Seq<char>,
) -> bool {
    &&& language.locale@ == locale
    &&& language.display_name@ == display_name
    &&& language.strings@.len() == 2
    &&& language.strings@[0].key@ == "app_title"@
    &&& language.strings@[0].value@ == "Codex Hosts"@
    &&& language.strings@[1].key@ == "tray_exit"@
    &&& language.strings@[1].value@ == exit
}

/// These are the languages of the program.
pub open spec fn is_embedded(languages: Seq<EmbeddedLanguage>) -> bool {
    &&& languages.len() == 4
    &&& is_language(languages[0], "en"@, "English"@, "Exit"@)
    &&& is_language(languages[1], "ja"@, "日本語"@, "終了"@)
    &&& is_language(languages[2], "zh-CN"@, "简体中文"@, "退出"@)
    &&& is_language(languages[3], "zh-TW"@, "繁體中文"@, "退出"@)
}

fn embed(locale: &str, display_name: &str, exit: &str) -> (r: EmbeddedLanguage)
    ensures
        is_language(r, locale@, display_name@, exit@),
{
    let mut strings: Vec<Entry> = Vec::new();
    strings.push(Entry { key: "app_title".to_owned(), value: "Codex Hosts".to_owned() });
    strings.push(Entry { key: "tray_exit".to_owned(), value: exit.to_owned() });
    EmbeddedLanguage {
        locale: locale.to_owned(),
        display_name: display_name.to_owned(),
        strings,
    }
}

proof fn lemma_embedded_english(languages: Seq<EmbeddedLanguage>)
    requires
        is_embedded(languages),
    ensures
        has_english(languages),
{
    assert(same_ignoring_case(languages[0].locale@, "en"@));
}

/// What is put in place of a placeholder.
#[derive(Debug, PartialEq, Eq)]
pub struct Fill {
    pub name: &'static str,
    pub value: String,
}

/// The text with every occurrence of the needle replaced, from the left.
pub open spec fn replaced(text: Seq<char>, needle: Seq<char>, value: Seq<char>) -> Seq<char>
    decreases text.len(),
{
    if text.len() == 0 || needle.len() == 0 {
        text
    } else if occurs_at(text, needle, 0) {
        value + replaced(text.skip(needle.len() as int), needle, value)
    } else {
        seq![text[0]] + replaced(text.skip(1), needle, value)
    }
}

/// How a placeholder is written.
pub open spec fn placeholder(name: Seq<char>) -> Seq<char> {
    seq!['{'] + name + seq!['}']
}

/// The text with the placeholders replaced, one name after the other.
pub open spec fn filled(text: Seq<char>, values: Seq<Fill>) -> Seq<char>
    decreases values.len(),
{
    if values.len() == 0 {
        text
    } else {
        replaced(
            filled(text, values.drop_last()),
            placeholder(values.last().name@),
            values.last().value@,
        )
    }
}

/// Replaces every occurrence of a needle that is not empty.
pub fn replace_all(text: &str, needle: &str, value: &str) -> (r: String)
    requires
        needle@.len() > 0,
    ensures
        r@ == replaced(text@, needle@, value@),
{
    let chars = chars_of(text);
    let wanted = chars_of(needle);
    let ghost whole = chars@;
    let mut out = String::new();
    let mut i: usize = 0;
    assert(whole.skip(0) =~= whole);
    assert(replaced(whole, needle@, value@) =~= out@ + replaced(whole.skip(0), needle@, value@));
    while i < chars.len()
        invariant
            i <= chars@.len(),
            chars@ == whole,
            wanted@ == needle@,
            needle@.len() > 0,
            replaced(whole, needle@, value@) == out@ + replaced(
                whole.skip(i as int),
                needle@,
                value@,
            ),
        decreases chars@.len() - i,
    {
        let ghost rest = whole.skip(i as int);
        let ghost before = out@;
        if chars.len() - i >= wanted.len() && occurs(&chars, &wanted, i) {
            proof {
                assert(occurs_at(rest, needle@, 0)) by {
                    assert(rest.subrange(0, needle@.len() as int) =~= whole.subrange(
                        i as int,
                        i + needle@.len(),
                    ));
                }
                assert(rest.skip(needle@.len() as int) =~= whole.skip(i + needle@.len()));
            }
            out.append(value);
            assert(before + (value@ + replaced(whole.skip(i + needle@.len()), needle@, value@))
                =~= out@ + replaced(whole.skip(i + needle@.len()), needle@, value@));
            i = i + wanted.len();
        } else {
            proof {
                assert(!occurs_at(rest, needle@, 0)) by {
                    if occurs_at(rest, needle@, 0) {
                        assert(rest.subrange(0, needle@.len() as int) =~= whole.subrange(
                            i as int,
                            i + needle@.len(),
                        ));
                    }
                }
                assert(rest[0] == whole[i as int]);
                assert(rest.skip(1) =~= whole.skip(i + 1));
            }
            out.push(chars[i]);
            assert(before + (seq![rest[0]] + replaced(whole.skip(i + 1), needle@, value@)) =~= out@
                + replaced(whole.skip(i + 1), needle@, value@));
            i = i + 1;
        }
    }
    assert(whole.skip(i as int) =~= Seq::empty());
    assert(out@ + Seq::<char>::empty() =~= out@);
    out
}

impl Catalog {
    /// The texts for a locale.
    pub fn select(languages: &Vec<EmbeddedLanguage>, requested: &str) -> (r: Self)
        requires
            has_english(languages@),
        ensures
            exists|at: int| #[trigger]
                is_choice(languages@, requested@, at) && 0 <= at < languages@.len()
                    && r.locale@ == languages@[at].locale@ && same_entries(
                    r.strings@,
                    languages@[at].strings@,
                ),
    {
        let at: usize = match find_language(languages, requested) {
            Some(at) => {
                assert(is_match(languages@, requested@, at as int));
                at
            },
            None => {
                proof {
                    lemma_english(languages@);
                }
                match find_language(languages, "en") {
                    Some(at) => at,
                    None => vstd::pervasive::unreached(),
                }
            },
        };
        assert(is_choice(languages@, requested@, at as int));
        Catalog {
            locale: languages[at].locale.clone(),
            strings: copy_entries(&languages[at].strings),
        }
    }

    /// The languages that come with the program.
    pub fn available() -> (r: Vec<EmbeddedLanguage>)
        ensures
            is_embedded(r@),
    {
        let mut languages: Vec<EmbeddedLanguage> = Vec::new();
        languages.push(embed("en", "English", "Exit"));
        languages.push(embed("ja", "日本語", "終了"));
        languages.push(embed("zh-CN", "简体中文", "退出"));
        languages.push(embed("zh-TW", "繁體中文", "退出"));
        languages
    }

    /// The texts for a locale, or for the user's own when none is asked for.
    pub fn for_locale(requested: Option<&str>) -> (r: Self)
        ensures
            requested matches Some(wanted) ==> r.is_for(wanted@),
            requested is None ==> exists|own: Seq<char>| #[trigger] r.is_for(own),
    {
        let languages = Catalog::available();
        proof {
            lemma_embedded_english(languages@);
        }
        let catalog = Catalog::for_locale_among(&languages, requested);
        proof {
            if requested is None {
                let own = choose|own: Seq<char>| #[trigger] catalog.is_from(languages@, own);
                assert(catalog.is_for(own));
            }
        }
        catalog
    }

    /// The texts for a locale, or for the user's own when none is asked for, among some languages.
    pub fn for_locale_among(
        languages: &Vec<EmbeddedLanguage>,
        requested: Option<&str>,
    ) -> (r: Self)
        requires
            has_english(languages@),
        ensures
            requested matches Some(wanted) ==> r.is_from(languages@, wanted@),
            requested is None ==> exists|own: Seq<char>| #[trigger] r.is_from(languages@, own),
    {
        match requested {
            Some(wanted) => Catalog::select(languages, wanted),
            None => {
                let own = match system_locale() {
                    Some(own) => own,
                    None => "en".to_owned(),
                };
                let catalog = Catalog::select(languages, own.as_str());
                assert(catalog.is_from(languages@, own@));
                catalog
            },
        }
    }

    /// The catalog is that of the language for a locale.
    pub open spec fn is_from(self, languages: Seq<EmbeddedLanguage>, wanted: Seq<char>) -> bool {
        exists|at: int| #[trigger]
            is_choice(languages, wanted, at) && 0 <= at < languages.len() && self.locale@
                == languages[at].locale@ && same_entries(self.strings@, languages[at].strings@)
    }

    /// The catalog is that of the embedded language for a locale.
    pub open spec fn is_for(self, wanted: Seq<char>) -> bool {
        exists|languages: Seq<EmbeddedLanguage>, at: int|
            is_embedded(languages) && #[trigger] is_choice(languages, wanted, at) && 0 <= at
                < languages.len() && self.locale@ == languages[at].locale@ && same_entries(
                self.strings@,
                languages[at].strings@,
            )
    }

    pub fn locale(&self) -> (r: &str)
        ensures
            r@ == self.locale@,
    {
        self.locale.as_str()
    }

    /// The text for a key that the catalog has.
    pub fn text(&self, key: &str) -> (r: &str)
        requires
            has_key(self.strings@, key@),
        ensures
            r@ == text_of(self.strings@, key@),
    {
        let ghost all = self.strings@;
        let mut i: usize = 0;
        assert(all.skip(0) =~= all);
        while i < self.strings.len()
            invariant
                i <= self.strings@.len(),
                all == self.strings@,
                has_key(all, key@),
                text_of(all.skip(i as int), key@) == text_of(all, key@),
                forall|j: int| 0 <= j < i ==> (#[trigger] all[j]).key@ != key@,
            decreases self.strings@.len() - i,
        {
            assert(all.skip(i as int)[0] == all[i as int]);
            if same_text(self.strings[i].key.as_str(), key) {
                return self.strings[i].value.as_str();
            }
            assert(all.skip(i as int).skip(1) =~= all.skip(i + 1));
            i = i + 1;
        }
        vstd::pervasive::unreached()
    }

    /// The text for a key, with its placeholders filled in.
    pub fn format(&self, key: &str, values: &Vec<Fill>) -> (r: String)
        requires
            has_key(self.strings@, key@),
        ensures
            r@ == filled(text_of(self.strings@, key@), values@),
    {
        let mut out = self.text(key).to_owned();
        let ghost base = out@;
        let mut i: usize = 0;
        assert(values@.take(0) =~= Seq::empty());
        while i < values.len()
            invariant
                i <= values@.len(),
                base == text_of(self.strings@, key@),
                out@ == filled(base, values@.take(i as int)),
            decreases values@.len() - i,
        {
            let mut name = String::new();
            name.push('{');
            name.append(values[i].name);
            name.push('}');
            assert(name@ =~= placeholder(values@[i as int].name@));
            out = replace_all(out.as_str(), name.as_str(), values[i].value.as_str());
            assert(values@.take(i + 1).drop_last() =~= values@.take(i as int));
            i = i + 1;
        }
        assert(values@.take(i as int) =~= values@);
        out
    }
}

/// A text without the placeholder stays what it is.
pub proof fn other_texts_are_unchanged(text: Seq<char>, needle: Seq<char>, value: Seq<char>)
    requires
        needle.len() > 0,
        forall|at: int| !(#[trigger] occurs_at(text, needle, at)),
    ensures
        replaced(text, needle, value) == text,
    decreases text.len(),
{
    if text.len() > 0 {
        let rest = text.skip(1);
        assert(!occurs_at(text, needle, 0));
        assert forall|at: int| !(#[trigger] occurs_at(rest, needle, at)) by {
            if occurs_at(rest, needle, at) {
                assert(rest.subrange(at, at + needle.len()) =~= text.subrange(
                    at + 1,
                    at + 1 + needle.len(),
                ));
                assert(occurs_at(text, needle, at + 1));
            }
        }
        other_texts_are_unchanged(rest, needle, value);
        assert(seq![text[0]] + rest =~= text);
    }
}

/// A name without braces.
pub open spec fn is_plain_name(name: Seq<char>) -> bool {
    forall|i: int| 0 <= i < name.len() ==> (#[trigger] name[i]) != '{' && name[i] != '}'
}

/// No value is given for the name, and the names that are given are plain.
pub open spec fn leaves_out(values: Seq<Fill>, name: Seq<char>) -> bool {
    forall|i: int|
        0 <= i < values.len() ==> (#[trigger] values[i]).name@ != name && is_plain_name(
            values[i].name@,
        )
}

/// One placeholder does not begin where another stands.
proof fn lemma_placeholders_differ(
    name: Seq<char>,
    other: Seq<char>,
    rest: Seq<char>,
    at: int,
)
    requires
        is_plain_name(name),
        is_plain_name(other),
        name != other,
        0 <= at < placeholder(name).len(),
    ensures
        !occurs_at((placeholder(name) + rest).skip(at), placeholder(other), 0),
{
    let here = (placeholder(name) + rest).skip(at);
    let needle = placeholder(other);
    if occurs_at(here, needle, 0) {
        let found = here.subrange(0, needle.len() as int);
        assert(found[0] == '{');
        assert(here[0] == placeholder(name)[at]);
        if at > name.len() {
            assert(placeholder(name)[at] == '}');
        } else if at > 0 {
            assert(placeholder(name)[at] == name[at - 1]);
        } else {
            assert forall|i: int| 0 <= i < needle.len() && i < placeholder(name).len() implies (
            #[trigger] needle[i]) == placeholder(name)[i] by {
                assert(found[i] == here[i]);
            }
            if other.len() < name.len() {
                assert(needle[other.len() as int + 1] == '}');
                assert(placeholder(name)[other.len() as int + 1] == name[other.len() as int]);
            } else if other.len() > name.len() {
                assert(placeholder(name)[name.len() as int + 1] == '}');
                assert(needle[name.len() as int + 1] == other[name.len() as int]);
            } else {
                assert forall|i: int| 0 <= i < name.len() implies name[i] == other[i] by {
                    assert(needle[i + 1] == placeholder(name)[i + 1]);
                }
                assert(name =~= other);
            }
        }
    }
}

proof fn lemma_placeholder_stays(
    name: Seq<char>,
    other: Seq<char>,
    rest: Seq<char>,
    value: Seq<char>,
    at: int,
)
    requires
        is_plain_name(name),
        is_plain_name(other),
        name != other,
        0 <= at <= placeholder(name).len(),
    ensures
        replaced((placeholder(name) + rest).skip(at), placeholder(other), value) == placeholder(
            name,
        ).skip(at) + replaced(rest, placeholder(other), value),
    decreases placeholder(name).len() - at,
{
    let whole = placeholder(name) + rest;
    let needle = placeholder(other);
    if at == placeholder(name).len() {
        assert(whole.skip(at) =~= rest);
        assert(placeholder(name).skip(at) + replaced(rest, needle, value) =~= replaced(
            rest,
            needle,
            value,
        ));
    } else {
        lemma_placeholders_differ(name, other, rest, at);
        lemma_placeholder_stays(name, other, rest, value, at + 1);
        assert(whole.skip(at).skip(1) =~= whole.skip(at + 1));
        assert(whole.skip(at)[0] == placeholder(name)[at]);
        assert(placeholder(name).skip(at) =~= seq![placeholder(name)[at]] + placeholder(name).skip(
            at + 1,
        ));
        assert(seq![placeholder(name)[at]] + (placeholder(name).skip(at + 1) + replaced(
            rest,
            needle,
            value,
        )) =~= placeholder(name).skip(at) + replaced(rest, needle, value));
    }
}

/// Replacing one placeholder leaves another where it stands, and replaces in the texts on both
/// sides of it.
proof fn lemma_sides_are_replaced(
    before: Seq<char>,
    name: Seq<char>,
    after: Seq<char>,
    other: Seq<char>,
    value: Seq<char>,
)
    requires
        is_plain_name(name),
        is_plain_name(other),
        name != other,
    ensures
        replaced(before + placeholder(name) + after, placeholder(other), value) == replaced(
            before,
            placeholder(other),
            value,
        ) + placeholder(name) + replaced(after, placeholder(other), value),
    decreases before.len(),
{
    let needle = placeholder(other);
    let whole = before + placeholder(name) + after;
    let right = replaced(after, needle, value);
    if before.len() == 0 {
        lemma_placeholder_stays(name, other, after, value, 0);
        assert(whole =~= (placeholder(name) + after).skip(0));
        assert(placeholder(name).skip(0) =~= placeholder(name));
        assert(replaced(before, needle, value) + placeholder(name) + right =~= placeholder(name)
            + right);
    } else if occurs_at(whole, needle, 0) {
        let size = needle.len() as int;
        let found = whole.subrange(0, size);
        assert(size <= before.len()) by {
            if size > before.len() {
                assert(found[before.len() as int] == whole[before.len() as int]);
                assert(whole[before.len() as int] == '{');
                if before.len() <= other.len() {
                    assert(needle[before.len() as int] == other[before.len() - 1]);
                } else {
                    assert(needle[before.len() as int] == '}');
                }
            }
        }
        assert(before.subrange(0, size) =~= found);
        assert(occurs_at(before, needle, 0));
        let rest = before.skip(size);
        assert(whole.skip(size) =~= rest + placeholder(name) + after);
        lemma_sides_are_replaced(rest, name, after, other, value);
        assert(value + (replaced(rest, needle, value) + placeholder(name) + right) =~= value
            + replaced(rest, needle, value) + placeholder(name) + right);
    } else {
        assert(!occurs_at(before, needle, 0)) by {
            if occurs_at(before, needle, 0) {
                assert(whole.subrange(0, needle.len() as int) =~= before.subrange(
                    0,
                    needle.len() as int,
                ));
            }
        }
        let rest = before.skip(1);
        assert(whole[0] == before[0]);
        assert(whole.skip(1) =~= rest + placeholder(name) + after);
        lemma_sides_are_replaced(rest, name, after, other, value);
        assert(seq![before[0]] + (replaced(rest, needle, value) + placeholder(name) + right)
            =~= seq![before[0]] + replaced(rest, needle, value) + placeholder(name) + right);
    }
}

/// A placeholder that no value names stays as it is, and the texts on both sides of it are filled
/// in as if it were not there. Names hold no braces.
pub proof fn other_placeholders_stay(
    before: Seq<char>,
    name: Seq<char>,
    after: Seq<char>,
    values: Seq<Fill>,
)
    requires
        is_plain_name(name),
        leaves_out(values, name),
    ensures
        filled(before + placeholder(name) + after, values) == filled(before, values) + placeholder(
            name,
        ) + filled(after, values),
    decreases values.len(),
{
    if values.len() > 0 {
        let fewer = values.drop_last();
        assert(forall|i: int| 0 <= i < fewer.len() ==> fewer[i] == values[i]);
        other_placeholders_stay(before, name, after, fewer);
        let last = values[values.len() - 1];
        lemma_sides_are_replaced(
            filled(before, fewer),
            name,
            filled(after, fewer),
            last.name@,
            last.value@,
        );
    }
}

/// Without values a text stays what it is.
pub proof fn no_values_change_nothing(text: Seq<char>)
    ensures
        filled(text, Seq::empty()) == text,
{
}

/// The text for a key is that of the first entry that has it.
pub proof fn texts_stand_under_their_keys(strings: Seq<Entry>, key: Seq<char>, i: int)
    requires
        0 <= i < strings.len(),
        strings[i].key@ == key,
        forall|j: int| 0 <= j < i ==> (#[trigger] strings[j]).key@ != key,
    ensures
        text_of(strings, key) == strings[i].value@,
    decreases strings.len(),
{
    if i > 0 {
        let rest = strings.skip(1);
        assert(strings[0].key@ != key);
        assert forall|j: int| 0 <= j < i - 1 implies (#[trigger] rest[j]).key@ != key by {
            assert(rest[j] == strings[j + 1]);
        }
        texts_stand_under_their_keys(rest, key, i - 1);
    }
}

/// A placeholder is replaced by its value, and what stands before and behind it stays there.
pub proof fn placeholders_are_replaced(
    before: Seq<char>,
    needle: Seq<char>,
    after: Seq<char>,
    value: Seq<char>,
)
    requires
        needle.len() > 0,
        forall|at: int|
            0 <= at < before.len() ==> !(#[trigger] occurs_at(before + needle + after, needle, at)),
    ensures
        replaced(before + needle + after, needle, value) == before + value + replaced(
            after,
            needle,
            value,
        ),
    decreases before.len(),
{
    let text = before + needle + after;
    if before.len() == 0 {
        assert(text.subrange(0, needle.len() as int) =~= needle);
        assert(occurs_at(text, needle, 0));
        assert(text.skip(needle.len() as int) =~= after);
        assert(before + value + replaced(after, needle, value) =~= value + replaced(
            after,
            needle,
            value,
        ));
    } else {
        let rest = before.skip(1);
        let tail = rest + needle + after;
        assert(text.skip(1) =~= tail);
        assert(!occurs_at(text, needle, 0));
        assert forall|at: int| 0 <= at < rest.len() implies !(#[trigger] occurs_at(
            tail,
            needle,
            at,
        )) by {
            if occurs_at(tail, needle, at) {
                assert(tail.subrange(at, at + needle.len()) =~= text.subrange(
                    at + 1,
                    at + 1 + needle.len(),
                ));
                assert(occurs_at(text, needle, at + 1));
            }
        }
        placeholders_are_replaced(rest, needle, after, value);
        assert(seq![text[0]] + (rest + value + replaced(after, needle, value)) =~= before + value
            + replaced(after, needle, value));
    }
}

/// A value fills the placeholder with its name in braces, after those that stand before it in the
/// list have filled theirs.
pub proof fn values_fill_their_placeholders(text: Seq<char>, values: Seq<Fill>, fill: Fill)
    ensures
        filled(text, values.push(fill)) == replaced(
            filled(text, values),
            seq!['{'] + fill.name@ + seq!['}'],
            fill.value@,
        ),
{
    assert(values.push(fill).drop_last() =~= values);
}

/// A locale is looked for by its exact name first, whatever the case of its letters, and with
/// underscores for hyphens.
pub proof fn exact_locales_win(
    languages: Seq<EmbeddedLanguage>,
    requested: Seq<char>,
    at: int,
    i: int,
)
    requires
        is_match(languages, requested, at),
        0 <= i < languages.len(),
        same_ignoring_case(languages[i].locale@, normal_locale(requested)),
        forall|j: int|
            0 <= j < i ==> !same_ignoring_case(
                (#[trigger] languages[j]).locale@,
                normal_locale(requested),
            ),
    ensures
        at == i,
        same_ignoring_case(languages[at].locale@, normal_locale(requested)),
{
    let wanted = normal_locale(requested);
    assert(named_at(languages, wanted, i));
    assert(named_at(languages, wanted, at));
    if at < i {
        assert(same_ignoring_case(languages[at].locale@, wanted));
    } else if i < at {
        assert(same_ignoring_case(languages[i].locale@, wanted));
    }
}

/// A locale that no language has exactly goes to one of its family; and one that no language has
/// at all goes to English.
pub proof fn other_locales_go_to_their_family(
    languages: Seq<EmbeddedLanguage>,
    requested: Seq<char>,
    at: int,
)
    requires
        is_choice(languages, requested, at),
    ensures
        is_supported(languages, requested) ==> is_match(languages, requested, at),
        is_supported(languages, requested) && (forall|j: int|
            0 <= j < languages.len() ==> !same_ignoring_case(
                (#[trigger] languages[j]).locale@,
                normal_locale(requested),
            )) ==> same_ignoring_case(
            primary(languages[at].locale@),
            primary(normal_locale(requested)),
        ),
        !is_supported(languages, requested) ==> is_match(languages, "en"@, at),
{
    let wanted = normal_locale(requested);
    if is_supported(languages, requested) && (forall|j: int|
        0 <= j < languages.len() ==> !same_ignoring_case(
            (#[trigger] languages[j]).locale@,
            wanted,
        )) {
        assert forall|k: int| !(#[trigger] named_at(languages, wanted, k)) by {
            if named_at(languages, wanted, k) {
                assert(same_ignoring_case(languages[k].locale@, wanted));
            }
        }
        assert(family_at(languages, wanted, at));
    }
}

} // verus!
