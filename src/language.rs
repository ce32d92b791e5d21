//! Target-language resolution and the statistical language detector.

use vstd::prelude::*;
use crate::text::{chars_of, string_of, trim_ws, trim_ws_vec};

verus! {

#[verifier::external_type_specification]
#[verifier::external_body]
pub struct ExLanguageDetector(lingua::LanguageDetector);

/// The names of the languages that the detector is built with.
pub open spec fn detector_languages() -> Seq<Seq<char>> {
    seq![
        "Belarusian"@, "Bulgarian"@, "Czech"@, "English"@, "French"@, "German"@, "Kazakh"@,
        "Macedonian"@, "Mongolian"@, "Polish"@, "Russian"@, "Serbian"@, "Slovak"@, "Spanish"@,
        "Ukrainian"@,
    ]
}

/// `d` is the ASCII lower-case form of `c`.
pub open spec fn ascii_lowered(c: char, d: char) -> bool {
    if 'A' <= c && c <= 'Z' {
        d as u32 == c as u32 + 32
    } else {
        d == c
    }
}

/// What `str::to_lowercase` yields for a text.
pub uninterp spec fn lower_of(text: Seq<char>) -> Seq<char>;

/// A language detector over every language the detector crate was built with.
pub struct Detector {
    inner: lingua::LanguageDetector,
}

impl Detector {
    /// Relies on `LanguageDetectorBuilder::from_all_languages`, `with_preloaded_language_models`
    /// and `build`: a detector over all built-in languages, with its models loaded up front.
    #[verifier::external_body]
    pub fn new() -> (r: Detector) {
        Detector {
            inner: lingua::LanguageDetectorBuilder::from_all_languages()
                .with_preloaded_language_models()
                .build(),
        }
    }

    /// Relies on `LanguageDetector::detect_language_of`: the most likely language of the text
    /// by its variant's name, or `None` when it cannot be told reliably. The answer sums
    /// floating-point scores in hash order, so two calls on one text may differ near a tie;
    /// nothing is promised of it.
    #[verifier::external_body]
    pub fn detect(&self, text: &str) -> (r: Option<String>) {
        self.inner.detect_language_of(text).map(|l| format!("{l:?}"))
    }
}

/// Relies on `lingua::Language::all`: every variant of `Language` that the crate's features
/// enable, once each, in no particular order, written by its name.
#[verifier::external_body]
fn language_names() -> (r: Vec<String>)
    ensures
        forall|i: int| 0 <= i < r@.len() ==> detector_languages().contains(#[trigger] r@[i]@),
        forall|j: int|
            0 <= j < detector_languages().len() ==> exists|i: int|
                0 <= i < r@.len() && #[trigger] r@[i]@ == #[trigger] detector_languages()[j],
{
    lingua::Language::all().into_iter().map(|l| format!("{l:?}")).collect()
}

/// Relies on `str::to_lowercase`: the result depends on the characters alone, and an ASCII
/// text is lowered character by character, `A`-`Z` to `a`-`z`.
#[verifier::external_body]
fn lowercase(s: &str) -> (r: String)
    ensures
        r@ == lower_of(s@),
        (forall|i: int| 0 <= i < s@.len() ==> (#[trigger] s@[i] as u32) < 128) ==> (r@.len()
            == s@.len() && forall|i: int| 0 <= i < s@.len() ==> ascii_lowered(s@[i], #[trigger] r@[i])),
{
    s.to_lowercase()
}

/// Whether two texts hold the same characters.
pub fn text_equals(a: &str, b: &str) -> (r: bool)
    ensures
        r == (a@ == b@),
{
    let x = chars_of(a);
    let y = chars_of(b);
    if x.len() != y.len() {
        return false;
    }
    let mut i: usize = 0;
    while i < x.len()
        invariant
            x.len() == y.len(),
            x@ == a@,
            y@ == b@,
            i <= x.len(),
            forall|k: int| 0 <= k < i ==> x@[k] == y@[k],
        decreases x.len() - i,
    {
        if x[i] != y[i] {
            return false;
        }
        i = i + 1;
    }
    assert(x@ =~= y@);
    true
}

/// The language that a short code or a name stands for, where it is one of the common
/// aliases (lower case).
pub open spec fn alias_language(code: Seq<char>) -> Option<Seq<char>> {
    if code == "uk"@ || code == "ukr"@ || code == "ukrainian"@ || code == "українська"@ {
        Some("Ukrainian"@)
    } else if code == "en"@ || code == "eng"@ || code == "english"@ {
        Some("English"@)
    } else if code == "ru"@ || code == "rus"@ || code == "russian"@ || code == "русский"@ {
        Some("Russian"@)
    } else if code == "pl"@ || code == "polish"@ {
        Some("Polish"@)
    } else if code == "de"@ || code == "german"@ {
        Some("German"@)
    } else if code == "fr"@ || code == "french"@ {
        Some("French"@)
    } else if code == "es"@ || code == "spanish"@ {
        Some("Spanish"@)
    } else {
        None
    }
}

/// The first of the names whose lower-case form is the code.
pub open spec fn first_named(names: Seq<String>, code: Seq<char>) -> Option<Seq<char>>
    decreases names.len(),
{
    if names.len() == 0 {
        None
    } else if lower_of(names[0]@) == code {
        Some(names[0]@)
    } else {
        first_named(names.drop_first(), code)
    }
}

/// The language a lower-case code resolves to against a list of known language names.
pub open spec fn resolved_language(code: Seq<char>, names: Seq<String>) -> Option<Seq<char>> {
    match alias_language(code) {
        Some(n) => Some(n),
        None => first_named(names, code),
    }
}

/// A language code or name that names no known language.
pub struct UnknownLanguage {
    pub value: String,
}

impl UnknownLanguage {
    /// A readable message that names the offending value.
    pub fn message(&self) -> (r: String)
        ensures
            r@ == "Unknown language: '"@ + self.value@ + "'"@,
    {
        let head = String::from_str("Unknown language: '");
        let with_value = head.concat(self.value.as_str());
        with_value.concat("'")
    }
}

fn alias_of(code: &str) -> (r: Option<String>)
    ensures
        match r {
            Some(s) => alias_language(code@) == Some(s@),
            None => alias_language(code@) is None,
        },
{
    if text_equals(code, "uk") || text_equals(code, "ukr") || text_equals(code, "ukrainian")
        || text_equals(code, "українська") {
        Some(String::from_str("Ukrainian"))
    } else if text_equals(code, "en") || text_equals(code, "eng") || text_equals(
        code,
        "english",
    ) {
        Some(String::from_str("English"))
    } else if text_equals(code, "ru") || text_equals(code, "rus") || text_equals(code, "russian")
        || text_equals(code, "русский") {
        Some(String::from_str("Russian"))
    } else if text_equals(code, "pl") || text_equals(code, "polish") {
        Some(String::from_str("Polish"))
    } else if text_equals(code, "de") || text_equals(code, "german") {
        Some(String::from_str("German"))
    } else if text_equals(code, "fr") || text_equals(code, "french") {
        Some(String::from_str("French"))
    } else if text_equals(code, "es") || text_equals(code, "spanish") {
        Some(String::from_str("Spanish"))
    } else {
        None
    }
}

/// Resolves a trimmed, lower-case code against the common aliases first and then against
/// the lower-case forms of the given language names, in their order.
pub fn resolve_language(code: &str, names: &Vec<String>) -> (r: Result<String, UnknownLanguage>)
    ensures
        match r {
            Ok(s) => resolved_language(code@, names@) == Some(s@),
            Err(e) => {
                &&& resolved_language(code@, names@) is None
                &&& forall|i: int| 0 <= i < names@.len() ==> lower_of(#[trigger] names@[i]@) != code@
                &&& e.value@ == code@
            },
        },
{
    proof {
        lemma_first_named(names@, code@);
    }
    match alias_of(code) {
        Some(n) => return Ok(n),
        None => {},
    }
    let mut i: usize = 0;
    assert(names@.subrange(0, names.len() as int) == names@);
    while i < names.len()
        invariant
            i <= names.len(),
            alias_language(code@) is None,
            first_named(names@, code@) == first_named(
                names@.subrange(i as int, names.len() as int),
                code@,
            ),
        decreases names.len() - i,
    {
        let ghost rest = names@.subrange(i as int, names.len() as int);
        assert(rest.drop_first() == names@.subrange(i + 1, names.len() as int));
        let lowered = lowercase(names[i].as_str());
        if text_equals(lowered.as_str(), code) {
            return Ok(names[i].clone());
        }
        i = i + 1;
    }
    Err(UnknownLanguage { value: String::from_str(code) })
}

/// Parses a target language: the input is trimmed of white space and put in lower case, then
/// resolved against the common aliases and, failing those, the names of the detector's
/// languages.
pub fn parse_language(code: &str) -> (r: Result<String, UnknownLanguage>)
    ensures
        ({
            let key = lower_of(trim_ws(code@));
            match r {
                Ok(s) => alias_language(key) == Some(s@) || (alias_language(key) is None
                    && detector_languages().contains(s@) && lower_of(s@) == key),
                Err(e) => {
                    &&& alias_language(key) is None
                    &&& forall|j: int|
                        0 <= j < detector_languages().len() ==> lower_of(
                            #[trigger] detector_languages()[j],
                        ) != key
                    &&& e.value@ == key
                },
            }
        }),
{
    let trimmed = string_of(&trim_ws_vec(&chars_of(code)));
    let key = lowercase(trimmed.as_str());
    let names = language_names();
    let r = resolve_language(key.as_str(), &names);
    proof {
        lemma_first_named(names@, key@);
        assert forall|j: int| 0 <= j < detector_languages().len() && r is Err implies lower_of(
            #[trigger] detector_languages()[j],
        ) != key@ by {
            let i = choose|i: int| 0 <= i < names@.len() && names@[i]@ == detector_languages()[j];
            assert(lower_of(names@[i]@) != key@);
        }
    }
    r
}

proof fn lemma_first_named(names: Seq<String>, code: Seq<char>)
    ensures
        first_named(names, code) matches Some(s) ==> lower_of(s) == code && exists|i: int|
            0 <= i < names.len() && #[trigger] names[i]@ == s,
        first_named(names, code) is None ==> forall|i: int|
            0 <= i < names.len() ==> lower_of(#[trigger] names[i]@) != code,
    decreases names.len(),
{
    if names.len() > 0 {
        lemma_first_named(names.drop_first(), code);
        if first_named(names.drop_first(), code) is Some && lower_of(names[0]@) != code {
            let i = choose|i: int|
                0 <= i < names.drop_first().len() && #[trigger] names.drop_first()[i]@
                    == first_named(names.drop_first(), code)->0;
            assert(names[i + 1] == names.drop_first()[i]);
        }
        if first_named(names, code) is None {
            assert forall|i: int| 0 <= i < names.len() implies lower_of(
                #[trigger] names[i]@,
            ) != code by {
                if i > 0 {
                    assert(names[i] == names.drop_first()[i - 1]);
                }
            }
        }
    }
}

} // verus!
