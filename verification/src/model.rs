//! The decoded response model: one entry per matching headword, together
//! with the options that control how entries are rendered.

use vstd::prelude::*;

verus! {

/// One pronunciation entry of a headword.
#[derive(Clone, Debug)]
pub struct Phonetic {
    pub text: Option<String>,
    pub audio: Option<String>,
}

/// The licence under which a headword's data is published.
#[derive(Clone, Debug)]
pub struct License {
    pub name: String,
    pub url: String,
}

/// One definition of a headword under some part of speech.
#[derive(Clone, Debug)]
pub struct Definition {
    pub definition: String,
    pub example: Option<String>,
    pub synonyms: Option<Vec<String>>,
    pub antonyms: Option<Vec<String>>,
}

/// A group of definitions of a headword under one part of speech.
#[derive(Clone, Debug)]
pub struct Meaning {
    pub part_of_speech: Option<String>,
    pub definitions: Vec<Definition>,
    pub synonyms: Option<Vec<String>>,
    pub antonyms: Option<Vec<String>>,
}

/// One entry of a lookup response: a headword with its pronunciations,
/// meanings and sources.
#[derive(Clone, Debug)]
pub struct LookupResult {
    pub word: String,
    pub phonetic: Option<String>,
    pub phonetics: Option<Vec<Phonetic>>,
    pub meanings: Vec<Meaning>,
    pub license: Option<License>,
    pub source_urls: Option<Vec<String>>,
}

/// What rendering shows: everything when `detailed`, else at most `limit`
/// definitions per meaning. The limit is meant to be at least one; a limit
/// of zero shows no definitions, only the truncation hint.
#[derive(Clone, Copy, Debug)]
pub struct DisplayOptions {
    pub detailed: bool,
    pub limit: usize,
}

pub struct PhoneticView {
    pub text: Option<Seq<char>>,
    pub audio: Option<Seq<char>>,
}

pub struct LicenseView {
    pub name: Seq<char>,
    pub url: Seq<char>,
}

pub struct DefinitionView {
    pub definition: Seq<char>,
    pub example: Option<Seq<char>>,
    pub synonyms: Option<Seq<Seq<char>>>,
    pub antonyms: Option<Seq<Seq<char>>>,
}

pub struct MeaningView {
    pub part_of_speech: Option<Seq<char>>,
    pub definitions: Seq<DefinitionView>,
    pub synonyms: Option<Seq<Seq<char>>>,
    pub antonyms: Option<Seq<Seq<char>>>,
}

pub struct LookupResultView {
    pub word: Seq<char>,
    pub phonetic: Option<Seq<char>>,
    pub phonetics: Option<Seq<PhoneticView>>,
    pub meanings: Seq<MeaningView>,
    pub license: Option<LicenseView>,
    pub source_urls: Option<Seq<Seq<char>>>,
}

impl View for Phonetic {
    type V = PhoneticView;

    open spec fn view(&self) -> PhoneticView {
        PhoneticView { text: self.text.deep_view(), audio: self.audio.deep_view() }
    }
}

impl DeepView for Phonetic {
    type V = PhoneticView;

    open spec fn deep_view(&self) -> PhoneticView {
        self.view()
    }
}

impl View for License {
    type V = LicenseView;

    open spec fn view(&self) -> LicenseView {
        LicenseView { name: self.name@, url: self.url@ }
    }
}

impl DeepView for License {
    type V = LicenseView;

    open spec fn deep_view(&self) -> LicenseView {
        self.view()
    }
}

impl View for Definition {
    type V = DefinitionView;

    open spec fn view(&self) -> DefinitionView {
        DefinitionView {
            definition: self.definition@,
            example: self.example.deep_view(),
            synonyms: self.synonyms.deep_view(),
            antonyms: self.antonyms.deep_view(),
        }
    }
}

impl DeepView for Definition {
    type V = DefinitionView;

    open spec fn deep_view(&self) -> DefinitionView {
        self.view()
    }
}

impl View for Meaning {
    type V = MeaningView;

    open spec fn view(&self) -> MeaningView {
        MeaningView {
            part_of_speech: self.part_of_speech.deep_view(),
            definitions: self.definitions.deep_view(),
            synonyms: self.synonyms.deep_view(),
            antonyms: self.antonyms.deep_view(),
        }
    }
}

impl DeepView for Meaning {
    type V = MeaningView;

    open spec fn deep_view(&self) -> MeaningView {
        self.view()
    }
}

impl View for LookupResult {
    type V = LookupResultView;

    open spec fn view(&self) -> LookupResultView {
        LookupResultView {
            word: self.word@,
            phonetic: self.phonetic.deep_view(),
            phonetics: self.phonetics.deep_view(),
            meanings: self.meanings.deep_view(),
            license: self.license.deep_view(),
            source_urls: self.source_urls.deep_view(),
        }
    }
}

impl DeepView for LookupResult {
    type V = LookupResultView;

    open spec fn deep_view(&self) -> LookupResultView {
        self.view()
    }
}

} // verus!
