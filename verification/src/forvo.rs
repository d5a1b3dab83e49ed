//! Pronunciation recordings from Forvo: the countries they come from, how
//! close in accent two countries are, reading a recording out of the page's
//! captures, and choosing the recording closest to a requested country.
use base64::Engine;
use vstd::prelude::*;
use vstd::string::StringExecFns;
use crate::text::{chars_of, push_str};

verus! {

/// The language a recording is in.
#[derive(PartialEq, Eq, Debug, Clone, Copy, Structural)]
pub enum Language {
    English,
    Spanish,
    Unknown,
}

/// A country a recording can come from.
#[derive(Debug, PartialEq, Eq, Clone, Copy, Structural)]
pub enum Country {
    Argentina,
    Uruguay,
    Chile,
    Peru,
    Bolivia,
    Paraguay,
    Ecuador,
    Colombia,
    Venezuela,
    Panama,
    CostaRica,
    ElSalvador,
    Nicaragua,
    Guatemala,
    Honduras,
    Mexico,
    Cuba,
    DominicanRepublic,
    Spain,
    UnitedStates,
    Canada,
    UnitedKingdom,
    Ireland,
    Australia,
    NewZealand,
}

/// The number of countries.
pub const COUNTRY_COUNT: usize = 25;

impl Country {
    /// The position of the country in the list of countries, which is its
    /// node in the accent graph.
    pub open spec fn spec_index(self) -> nat {
        match self {
            Country::Argentina => 0,
            Country::Uruguay => 1,
            Country::Chile => 2,
            Country::Peru => 3,
            Country::Bolivia => 4,
            Country::Paraguay => 5,
            Country::Ecuador => 6,
            Country::Colombia => 7,
            Country::Venezuela => 8,
            Country::Panama => 9,
            Country::CostaRica => 10,
            Country::ElSalvador => 11,
            Country::Nicaragua => 12,
            Country::Guatemala => 13,
            Country::Honduras => 14,
            Country::Mexico => 15,
            Country::Cuba => 16,
            Country::DominicanRepublic => 17,
            Country::Spain => 18,
            Country::UnitedStates => 19,
            Country::Canada => 20,
            Country::UnitedKingdom => 21,
            Country::Ireland => 22,
            Country::Australia => 23,
            Country::NewZealand => 24,
        }
    }

    /// The flag emoji of the country.
    pub open spec fn spec_flag(self) -> Seq<char> {
        match self {
            Country::Argentina => "🇦🇷"@,
            Country::Uruguay => "🇺🇾"@,
            Country::Chile => "🇨🇱"@,
            Country::Peru => "🇵🇪"@,
            Country::Bolivia => "🇧🇴"@,
            Country::Paraguay => "🇵🇾"@,
            Country::Ecuador => "🇪🇨"@,
            Country::Colombia => "🇨🇴"@,
            Country::Venezuela => "🇻🇪"@,
            Country::Panama => "🇵🇦"@,
            Country::CostaRica => "🇨🇷"@,
            Country::ElSalvador => "🇸🇻"@,
            Country::Nicaragua => "🇳🇮"@,
            Country::Guatemala => "🇬🇹"@,
            Country::Honduras => "🇭🇳"@,
            Country::Mexico => "🇲🇽"@,
            Country::Cuba => "🇨🇺"@,
            Country::DominicanRepublic => "🇩🇴"@,
            Country::Spain => "🇪🇸"@,
            Country::UnitedStates => "🇺🇸"@,
            Country::Canada => "🇨🇦"@,
            Country::UnitedKingdom => "🇬🇧"@,
            Country::Ireland => "🇮🇪"@,
            Country::Australia => "🇦🇺"@,
            Country::NewZealand => "🇳🇿"@,
        }
    }

    /// The name of the country.
    pub open spec fn spec_name(self) -> Seq<char> {
        match self {
            Country::Argentina => "Argentina"@,
            Country::Uruguay => "Uruguay"@,
            Country::Chile => "Chile"@,
            Country::Peru => "Peru"@,
            Country::Bolivia => "Bolivia"@,
            Country::Paraguay => "Paraguay"@,
            Country::Ecuador => "Ecuador"@,
            Country::Colombia => "Colombia"@,
            Country::Venezuela => "Venezuela"@,
            Country::Panama => "Panama"@,
            Country::CostaRica => "Costa Rica"@,
            Country::ElSalvador => "El Salvador"@,
            Country::Nicaragua => "Nicaragua"@,
            Country::Guatemala => "Guatemala"@,
            Country::Honduras => "Honduras"@,
            Country::Mexico => "Mexico"@,
            Country::Cuba => "Cuba"@,
            Country::DominicanRepublic => "Dominican Republic"@,
            Country::Spain => "Spain"@,
            Country::UnitedStates => "United States"@,
            Country::Canada => "Canada"@,
            Country::UnitedKingdom => "United Kingdom"@,
            Country::Ireland => "Ireland"@,
            Country::Australia => "Australia"@,
            Country::NewZealand => "New Zealand"@,
        }
    }

    /// The language spoken in the country: Spanish from Argentina to Spain,
    /// English from the United States on.
    pub open spec fn spec_language(self) -> Language {
        if self.spec_index() < 19 {
            Language::Spanish
        } else {
            Language::English
        }
    }

    /// The node index of the country in the accent graph.
    pub fn index(&self) -> (r: usize)
        ensures
            r == self.spec_index(),
            r < COUNTRY_COUNT,
    {
        match self {
            Country::Argentina => 0,
            Country::Uruguay => 1,
            Country::Chile => 2,
            Country::Peru => 3,
            Country::Bolivia => 4,
            Country::Paraguay => 5,
            Country::Ecuador => 6,
            Country::Colombia => 7,
            Country::Venezuela => 8,
            Country::Panama => 9,
            Country::CostaRica => 10,
            Country::ElSalvador => 11,
            Country::Nicaragua => 12,
            Country::Guatemala => 13,
            Country::Honduras => 14,
            Country::Mexico => 15,
            Country::Cuba => 16,
            Country::DominicanRepublic => 17,
            Country::Spain => 18,
            Country::UnitedStates => 19,
            Country::Canada => 20,
            Country::UnitedKingdom => 21,
            Country::Ireland => 22,
            Country::Australia => 23,
            Country::NewZealand => 24,
        }
    }

    /// The country at a node index.
    pub fn from_index(index: usize) -> (r: Option<Country>)
        ensures
            r is Some <==> index < COUNTRY_COUNT,
            r matches Some(c) ==> c.spec_index() == index,
    {
        match index {
            0 => Some(Country::Argentina),
            1 => Some(Country::Uruguay),
            2 => Some(Country::Chile),
            3 => Some(Country::Peru),
            4 => Some(Country::Bolivia),
            5 => Some(Country::Paraguay),
            6 => Some(Country::Ecuador),
            7 => Some(Country::Colombia),
            8 => Some(Country::Venezuela),
            9 => Some(Country::Panama),
            10 => Some(Country::CostaRica),
            11 => Some(Country::ElSalvador),
            12 => Some(Country::Nicaragua),
            13 => Some(Country::Guatemala),
            14 => Some(Country::Honduras),
            15 => Some(Country::Mexico),
            16 => Some(Country::Cuba),
            17 => Some(Country::DominicanRepublic),
            18 => Some(Country::Spain),
            19 => Some(Country::UnitedStates),
            20 => Some(Country::Canada),
            21 => Some(Country::UnitedKingdom),
            22 => Some(Country::Ireland),
            23 => Some(Country::Australia),
            24 => Some(Country::NewZealand),
            _ => None,
        }
    }

    /// The flag emoji of the country, which is how it is displayed.
    pub fn flag(&self) -> (r: &'static str)
        ensures
            r@ == self.spec_flag(),
    {
        match self {
            Country::Argentina => "🇦🇷",
            Country::Uruguay => "🇺🇾",
            Country::Chile => "🇨🇱",
            Country::Peru => "🇵🇪",
            Country::Bolivia => "🇧🇴",
            Country::Paraguay => "🇵🇾",
            Country::Ecuador => "🇪🇨",
            Country::Colombia => "🇨🇴",
            Country::Venezuela => "🇻🇪",
            Country::Panama => "🇵🇦",
            Country::CostaRica => "🇨🇷",
            Country::ElSalvador => "🇸🇻",
            Country::Nicaragua => "🇳🇮",
            Country::Guatemala => "🇬🇹",
            Country::Honduras => "🇭🇳",
            Country::Mexico => "🇲🇽",
            Country::Cuba => "🇨🇺",
            Country::DominicanRepublic => "🇩🇴",
            Country::Spain => "🇪🇸",
            Country::UnitedStates => "🇺🇸",
            Country::Canada => "🇨🇦",
            Country::UnitedKingdom => "🇬🇧",
            Country::Ireland => "🇮🇪",
            Country::Australia => "🇦🇺",
            Country::NewZealand => "🇳🇿",
        }
    }

    /// The name of the country.
    pub fn name(&self) -> (r: &'static str)
        ensures
            r@ == self.spec_name(),
    {
        match self {
            Country::Argentina => "Argentina",
            Country::Uruguay => "Uruguay",
            Country::Chile => "Chile",
            Country::Peru => "Peru",
            Country::Bolivia => "Bolivia",
            Country::Paraguay => "Paraguay",
            Country::Ecuador => "Ecuador",
            Country::Colombia => "Colombia",
            Country::Venezuela => "Venezuela",
            Country::Panama => "Panama",
            Country::CostaRica => "Costa Rica",
            Country::ElSalvador => "El Salvador",
            Country::Nicaragua => "Nicaragua",
            Country::Guatemala => "Guatemala",
            Country::Honduras => "Honduras",
            Country::Mexico => "Mexico",
            Country::Cuba => "Cuba",
            Country::DominicanRepublic => "Dominican Republic",
            Country::Spain => "Spain",
            Country::UnitedStates => "United States",
            Country::Canada => "Canada",
            Country::UnitedKingdom => "United Kingdom",
            Country::Ireland => "Ireland",
            Country::Australia => "Australia",
            Country::NewZealand => "New Zealand",
        }
    }

    /// The language spoken in the country.
    pub fn get_language(&self) -> (r: Language)
        ensures
            r == self.spec_language(),
    {
        if self.index() < 19 {
            Language::Spanish
        } else {
            Language::English
        }
    }
}

/// The country a text names, by its flag emoji or its name.
pub open spec fn spec_country_from_str(s: Seq<char>) -> Option<Country> {
    if s == Country::Argentina.spec_flag() || s == Country::Argentina.spec_name() {
        Some(Country::Argentina)
    } else if s == Country::Uruguay.spec_flag() || s == Country::Uruguay.spec_name() {
        Some(Country::Uruguay)
    } else if s == Country::Chile.spec_flag() || s == Country::Chile.spec_name() {
        Some(Country::Chile)
    } else if s == Country::Peru.spec_flag() || s == Country::Peru.spec_name() {
        Some(Country::Peru)
    } else if s == Country::Bolivia.spec_flag() || s == Country::Bolivia.spec_name() {
        Some(Country::Bolivia)
    } else if s == Country::Paraguay.spec_flag() || s == Country::Paraguay.spec_name() {
        Some(Country::Paraguay)
    } else if s == Country::Ecuador.spec_flag() || s == Country::Ecuador.spec_name() {
        Some(Country::Ecuador)
    } else if s == Country::Colombia.spec_flag() || s == Country::Colombia.spec_name() {
        Some(Country::Colombia)
    } else if s == Country::Venezuela.spec_flag() || s == Country::Venezuela.spec_name() {
        Some(Country::Venezuela)
    } else if s == Country::Panama.spec_flag() || s == Country::Panama.spec_name() {
        Some(Country::Panama)
    } else if s == Country::CostaRica.spec_flag() || s == Country::CostaRica.spec_name() {
        Some(Country::CostaRica)
    } else if s == Country::ElSalvador.spec_flag() || s == Country::ElSalvador.spec_name() {
        Some(Country::ElSalvador)
    } else if s == Country::Nicaragua.spec_flag() || s == Country::Nicaragua.spec_name() {
        Some(Country::Nicaragua)
    } else if s == Country::Guatemala.spec_flag() || s == Country::Guatemala.spec_name() {
        Some(Country::Guatemala)
    } else if s == Country::Honduras.spec_flag() || s == Country::Honduras.spec_name() {
        Some(Country::Honduras)
    } else if s == Country::Mexico.spec_flag() || s == Country::Mexico.spec_name() {
        Some(Country::Mexico)
    } else if s == Country::Cuba.spec_flag() || s == Country::Cuba.spec_name() {
        Some(Country::Cuba)
    } else if s == Country::DominicanRepublic.spec_flag() || s == Country::DominicanRepublic.spec_name() {
        Some(Country::DominicanRepublic)
    } else if s == Country::Spain.spec_flag() || s == Country::Spain.spec_name() {
        Some(Country::Spain)
    } else if s == Country::UnitedStates.spec_flag() || s == Country::UnitedStates.spec_name() {
        Some(Country::UnitedStates)
    } else if s == Country::Canada.spec_flag() || s == Country::Canada.spec_name() {
        Some(Country::Canada)
    } else if s == Country::UnitedKingdom.spec_flag() || s == Country::UnitedKingdom.spec_name() {
        Some(Country::UnitedKingdom)
    } else if s == Country::Ireland.spec_flag() || s == Country::Ireland.spec_name() {
        Some(Country::Ireland)
    } else if s == Country::Australia.spec_flag() || s == Country::Australia.spec_name() {
        Some(Country::Australia)
    } else if s == Country::NewZealand.spec_flag() || s == Country::NewZealand.spec_name() {
        Some(Country::NewZealand)
    } else {
        None
    }
}

impl Country {
    /// The country a text names, by its flag emoji or its name.
    pub fn from_str(s: &str) -> (r: Option<Country>)
        ensures
            r == spec_country_from_str(s@),
    {
        if crate::text::str_eq(s, Country::Argentina.flag()) || crate::text::str_eq(s, Country::Argentina.name()) {
            return Some(Country::Argentina);
        }
        if crate::text::str_eq(s, Country::Uruguay.flag()) || crate::text::str_eq(s, Country::Uruguay.name()) {
            return Some(Country::Uruguay);
        }
        if crate::text::str_eq(s, Country::Chile.flag()) || crate::text::str_eq(s, Country::Chile.name()) {
            return Some(Country::Chile);
        }
        if crate::text::str_eq(s, Country::Peru.flag()) || crate::text::str_eq(s, Country::Peru.name()) {
            return Some(Country::Peru);
        }
        if crate::text::str_eq(s, Country::Bolivia.flag()) || crate::text::str_eq(s, Country::Bolivia.name()) {
            return Some(Country::Bolivia);
        }
        if crate::text::str_eq(s, Country::Paraguay.flag()) || crate::text::str_eq(s, Country::Paraguay.name()) {
            return Some(Country::Paraguay);
        }
        if crate::text::str_eq(s, Country::Ecuador.flag()) || crate::text::str_eq(s, Country::Ecuador.name()) {
            return Some(Country::Ecuador);
        }
        if crate::text::str_eq(s, Country::Colombia.flag()) || crate::text::str_eq(s, Country::Colombia.name()) {
            return Some(Country::Colombia);
        }
        if crate::text::str_eq(s, Country::Venezuela.flag()) || crate::text::str_eq(s, Country::Venezuela.name()) {
            return Some(Country::Venezuela);
        }
        if crate::text::str_eq(s, Country::Panama.flag()) || crate::text::str_eq(s, Country::Panama.name()) {
            return Some(Country::Panama);
        }
        if crate::text::str_eq(s, Country::CostaRica.flag()) || crate::text::str_eq(s, Country::CostaRica.name()) {
            return Some(Country::CostaRica);
        }
        if crate::text::str_eq(s, Country::ElSalvador.flag()) || crate::text::str_eq(s, Country::ElSalvador.name()) {
            return Some(Country::ElSalvador);
        }
        if crate::text::str_eq(s, Country::Nicaragua.flag()) || crate::text::str_eq(s, Country::Nicaragua.name()) {
            return Some(Country::Nicaragua);
        }
        if crate::text::str_eq(s, Country::Guatemala.flag()) || crate::text::str_eq(s, Country::Guatemala.name()) {
            return Some(Country::Guatemala);
        }
        if crate::text::str_eq(s, Country::Honduras.flag()) || crate::text::str_eq(s, Country::Honduras.name()) {
            return Some(Country::Honduras);
        }
        if crate::text::str_eq(s, Country::Mexico.flag()) || crate::text::str_eq(s, Country::Mexico.name()) {
            return Some(Country::Mexico);
        }
        if crate::text::str_eq(s, Country::Cuba.flag()) || crate::text::str_eq(s, Country::Cuba.name()) {
            return Some(Country::Cuba);
        }
        if crate::text::str_eq(s, Country::DominicanRepublic.flag()) || crate::text::str_eq(s, Country::DominicanRepublic.name()) {
            return Some(Country::DominicanRepublic);
        }
        if crate::text::str_eq(s, Country::Spain.flag()) || crate::text::str_eq(s, Country::Spain.name()) {
            return Some(Country::Spain);
        }
        if crate::text::str_eq(s, Country::UnitedStates.flag()) || crate::text::str_eq(s, Country::UnitedStates.name()) {
            return Some(Country::UnitedStates);
        }
        if crate::text::str_eq(s, Country::Canada.flag()) || crate::text::str_eq(s, Country::Canada.name()) {
            return Some(Country::Canada);
        }
        if crate::text::str_eq(s, Country::UnitedKingdom.flag()) || crate::text::str_eq(s, Country::UnitedKingdom.name()) {
            return Some(Country::UnitedKingdom);
        }
        if crate::text::str_eq(s, Country::Ireland.flag()) || crate::text::str_eq(s, Country::Ireland.name()) {
            return Some(Country::Ireland);
        }
        if crate::text::str_eq(s, Country::Australia.flag()) || crate::text::str_eq(s, Country::Australia.name()) {
            return Some(Country::Australia);
        }
        if crate::text::str_eq(s, Country::NewZealand.flag()) || crate::text::str_eq(s, Country::NewZealand.name()) {
            return Some(Country::NewZealand);
        }
        None
    }
}

impl Default for Country {
    fn default() -> (r: Self)
        ensures
            r == Country::Argentina,
    {
        Country::Argentina
    }
}


/// The kind of capture that a recording needs from the page.
#[derive(Debug, Copy, Clone, PartialEq, Eq, Structural)]
pub enum ForvoCaptureType {
    Base64,
    Country,
}

/// A capture group that the recording pattern did not give.
#[derive(Debug, Copy, Clone)]
pub struct ForvoRegexCaptureError {
    pub regex_str: &'static str,
    pub capture_group_idx: usize,
    pub capture_type: ForvoCaptureType,
}

impl ForvoRegexCaptureError {
    pub fn new(regex_str: &'static str, capture_group_idx: usize, capture_type: ForvoCaptureType) -> (r: Self)
        ensures
            r.regex_str == regex_str,
            r.capture_group_idx == capture_group_idx,
            r.capture_type == capture_type,
    {
        Self { regex_str, capture_group_idx, capture_type }
    }
}

/// Why a recording could not be read.
#[derive(Debug)]
pub enum ForvoError {
    /// The recording's link is not valid base64.
    InvalidBase64,
    /// The recording's decoded link is not valid UTF-8.
    InvalidUtf8Decode,
    BadBase64RegexMatching(ForvoRegexCaptureError),
    BadCountryRegexMatching(ForvoRegexCaptureError),
    /// The recording's country is none of the known countries.
    InvalidMatchedCountry,
}

impl From<ForvoRegexCaptureError> for ForvoError {
    fn from(regex_capture_error: ForvoRegexCaptureError) -> (r: Self) {
        match regex_capture_error.capture_type {
            ForvoCaptureType::Base64 => ForvoError::BadBase64RegexMatching(regex_capture_error),
            ForvoCaptureType::Country => ForvoError::BadCountryRegexMatching(regex_capture_error),
        }
    }
}

impl vstd::std_specs::convert::FromSpecImpl<ForvoRegexCaptureError> for ForvoError {
    open spec fn obeys_from_spec() -> bool {
        true
    }

    open spec fn from_spec(regex_capture_error: ForvoRegexCaptureError) -> Self {
        match regex_capture_error.capture_type {
            ForvoCaptureType::Base64 => ForvoError::BadBase64RegexMatching(regex_capture_error),
            ForvoCaptureType::Country => ForvoError::BadCountryRegexMatching(regex_capture_error),
        }
    }
}

/// A recording found on the page.
#[derive(Debug)]
pub struct ForvoRecording {
    pub country: Country,
    pub recording_link: String,
    pub language: Language,
}

impl ForvoRecording {
    pub fn new(country: Country, recording_link: String, language: Language) -> (r: ForvoRecording)
        ensures
            r.country == country,
            r.recording_link == recording_link,
            r.language == language,
    {
        ForvoRecording { country, recording_link, language }
    }
}

/// The recording chosen for a term, with its audio once fetched.
#[derive(Debug, Clone)]
pub struct RecordingData {
    pub country: Country,
    pub term: String,
    pub recording_link: String,
    pub recording: Option<Vec<u8>>,
}

impl RecordingData {
    pub open spec fn spec_recording(&self) -> Option<Seq<u8>> {
        match self.recording {
            Some(v) => Some(v@),
            None => None,
        }
    }

    /// The data of a chosen recording, its audio not fetched yet.
    pub fn new(recording: ForvoRecording, term: &str) -> (r: Self)
        ensures
            r.country == recording.country,
            r.recording_link == recording.recording_link,
            r.term@ == term@,
            r.spec_recording() is None,
    {
        Self { country: recording.country, term: term.to_string(), recording_link: recording.recording_link, recording: None }
    }

    /// Whether the audio was fetched already.
    pub fn has_recording(&self) -> (r: bool)
        ensures
            r == self.spec_recording() is Some,
    {
        self.recording.is_some()
    }

    /// Keeps the fetched audio; audio fetched before is kept instead.
    pub fn store_recording(&mut self, audio: Vec<u8>)
        ensures
            final(self).spec_recording() == (match old(self).spec_recording() {
                Some(a) => Some(a),
                None => Some(audio@),
            }),
            final(self).country == old(self).country,
            final(self).term == old(self).term,
            final(self).recording_link == old(self).recording_link,
    {
        if self.recording.is_none() {
            self.recording = Some(audio);
        }
    }

    /// The fetched audio, if any.
    pub fn recording(&self) -> (r: Option<&Vec<u8>>)
        ensures
            match r {
                Some(v) => self.spec_recording() == Some(v@),
                None => self.spec_recording() is None,
            },
    {
        match &self.recording {
            Some(v) => Some(v),
            None => None,
        }
    }
}

} // verus!

verus! {

/// The pattern that finds a recording in a language container of the page:
/// its base64 link in group 1 and its country's name in group 2.
pub const FORVO_HTML_PATTERN: &'static str = r"(?s)Play\(\d+,'(\w+=*).*?'h'\);return.*? from ([a-zA-Z ]+)";

/// The selector of the elements of a page that hold the recordings of one
/// language.
pub const LANGUAGE_CONTAINER_SELECTOR: &'static str = "div.language-container";

/// The captures of a regular expression over HTML, groups 1 and 2 of each
/// match, in order.
pub uninterp spec fn forvo_captures(pattern: Seq<char>, html: Seq<char>) -> Seq<(Option<Seq<char>>, Option<Seq<char>>)>;

/// The `id` attribute and the inner HTML (attributes in source order) of
/// each element of a page that a CSS selector picks, in document order.
pub uninterp spec fn language_containers(selector: Seq<char>, page: Seq<char>) -> Seq<(Option<Seq<char>>, Seq<char>)>;

/// What decoding a text as standard base64 gives, `None` where it is not
/// valid base64.
pub uninterp spec fn base64_decoded(text: Seq<char>) -> Option<Seq<u8>>;

/// The shortest distances from `start` to every node reachable from it in
/// the undirected graph with the given weighted edges.
pub uninterp spec fn dijkstra_distances(edges: Seq<(u32, u32, u32)>, start: nat) -> Map<nat, u32>;

pub open spec fn opt_string_view(o: Option<String>) -> Option<Seq<char>> {
    match o {
        Some(s) => Some(s@),
        None => None,
    }
}

pub open spec fn opt_str_view(o: Option<&str>) -> Option<Seq<char>> {
    match o {
        Some(s) => Some(s@),
        None => None,
    }
}

/// The text of an optional string, borrowed.
fn opt_as_str(o: &Option<String>) -> (r: Option<&str>)
    ensures
        opt_str_view(r) == opt_string_view(*o),
{
    match o {
        Some(s) => Some(s.as_str()),
        None => None,
    }
}

/// The captures of groups 1 and 2 of each match of a regular expression
/// over HTML (`regex::Regex::new`, then `captures_iter`). The pattern is
/// one known to compile, so that building the expression does not fail.
#[verifier::external_body]
fn recording_captures(pattern: &str, html: &str) -> (r: Vec<(Option<String>, Option<String>)>)
    requires
        pattern@ == FORVO_HTML_PATTERN@,
    ensures
        r@.len() == forvo_captures(pattern@, html@).len(),
        forall|i: int|
            0 <= i < r@.len() ==> (opt_string_view(#[trigger] r@[i].0), opt_string_view(r@[i].1))
                == forvo_captures(pattern@, html@)[i],
{
    let matcher = regex::Regex::new(pattern).unwrap();
    matcher
        .captures_iter(html)
        .map(|c| (c.get(1).map(|m| m.as_str().to_string()), c.get(2).map(|m| m.as_str().to_string())))
        .collect()
}

/// The `id` and inner HTML of each element of a page that a CSS selector
/// picks (`scraper::Selector::parse`, `Html::parse_document`, `select`,
/// `inner_html`; with the crate's `deterministic` feature, attributes keep
/// their source order). The selector is one known to parse.
#[verifier::external_body]
fn page_language_containers(selector: &str, page: &str) -> (r: Vec<(Option<String>, String)>)
    requires
        selector@ == LANGUAGE_CONTAINER_SELECTOR@,
    ensures
        r@.len() == language_containers(selector@, page@).len(),
        forall|i: int|
            0 <= i < r@.len() ==> (opt_string_view(#[trigger] r@[i].0), r@[i].1@) == language_containers(
                selector@,
                page@,
            )[i],
{
    let selector = scraper::Selector::parse(selector).unwrap();
    let document = scraper::Html::parse_document(page);
    document.select(&selector).map(|e| (e.value().id().map(|id| id.to_string()), e.inner_html())).collect()
}

/// Decodes standard base64 (`base64` crate, the engine that
/// `base64::decode` uses).
#[verifier::external_body]
fn decode_base64(text: &str) -> (r: Option<Vec<u8>>)
    ensures
        match r {
            Some(v) => base64_decoded(text@) == Some(v@),
            None => base64_decoded(text@) is None,
        },
{
    base64::engine::general_purpose::STANDARD.decode(text).ok()
}

/// Reads bytes as UTF-8 (`String::from_utf8`): `None` exactly where they
/// are not valid UTF-8, else the characters they encode.
#[verifier::external_body]
pub(crate) fn string_from_utf8(bytes: Vec<u8>) -> (r: Option<String>)
    ensures
        match r {
            Some(s) => vstd::utf8::valid_utf8(bytes@) && s@ == vstd::utf8::decode_utf8(bytes@),
            None => !vstd::utf8::valid_utf8(bytes@),
        },
{
    String::from_utf8(bytes).ok()
}

/// The number of nodes of a graph made from its edges: one more than the
/// largest endpoint.
pub open spec fn edge_node_count(edges: Seq<(u32, u32, u32)>) -> nat
    decreases edges.len(),
{
    if edges.len() == 0 {
        0
    } else {
        let rest = edge_node_count(edges.drop_last());
        let e = edges.last();
        let m = if e.0 >= e.1 { e.0 + 1 } else { e.1 + 1 };
        if m > rest { m as nat } else { rest }
    }
}

/// The sum of the weights of the edges.
pub open spec fn total_weight(edges: Seq<(u32, u32, u32)>) -> nat
    decreases edges.len(),
{
    if edges.len() == 0 {
        0
    } else {
        total_weight(edges.drop_last()) + edges.last().2 as nat
    }
}

/// Whether every edge has a positive weight.
pub open spec fn positive_weights(edges: Seq<(u32, u32, u32)>) -> bool
    decreases edges.len(),
{
    edges.len() == 0 || (positive_weights(edges.drop_last()) && edges.last().2 > 0)
}

/// The shortest distances from `start` in an undirected weighted graph
/// (`petgraph`'s Dijkstra), one entry per reachable node, each node of the
/// graph. The weights must not sum past `u32::MAX`, so that no path length
/// overflows. The start is listed at distance zero; every other node
/// listed is at the distance of a listed neighbour plus the weight of the
/// edge between them (so with positive weights at a positive distance); and
/// no edge from a listed node leads to a node that is unlisted or farther
/// than its distance plus the edge's weight. Together these make the
/// distances the least total weights of the paths from the start.
#[verifier::external_body]
fn shortest_distances(edges: &Vec<(u32, u32, u32)>, start: u32) -> (r: Vec<(u32, u32)>)
    requires
        start < edge_node_count(edges@),
        total_weight(edges@) <= u32::MAX,
    ensures
        forall|i: int|
            0 <= i < r@.len() ==> (#[trigger] r@[i]).0 < edge_node_count(edges@) && dijkstra_distances(
                edges@,
                start as nat,
            ).contains_key(r@[i].0 as nat) && dijkstra_distances(edges@, start as nat)[r@[i].0 as nat] == r@[i].1,
        forall|k: nat|
            #[trigger] dijkstra_distances(edges@, start as nat).contains_key(k) ==> exists|i: int|
                0 <= i < r@.len() && r@[i].0 == k,
        exists|i: int| 0 <= i < r@.len() && r@[i] == (start, 0u32),
        positive_weights(edges@) ==> forall|i: int| 0 <= i < r@.len() && (#[trigger] r@[i]).0 != start ==> r@[i].1 > 0,
        forall|i: int, j: int|
            0 <= i < r@.len() && 0 <= j < edges@.len() && (#[trigger] r@[i]).0 == (#[trigger] edges@[j]).0
                ==> exists|k: int| 0 <= k < r@.len() && r@[k].0 == edges@[j].1 && r@[k].1 <= r@[i].1 + edges@[j].2,
        forall|i: int, j: int|
            0 <= i < r@.len() && 0 <= j < edges@.len() && (#[trigger] r@[i]).0 == (#[trigger] edges@[j]).1
                ==> exists|k: int| 0 <= k < r@.len() && r@[k].0 == edges@[j].0 && r@[k].1 <= r@[i].1 + edges@[j].2,
        forall|k: int|
            0 <= k < r@.len() && (#[trigger] r@[k]).0 != start ==> exists|i: int, j: int|
                0 <= i < r@.len() && 0 <= j < edges@.len() && r@[k].1 == r@[i].1 + edges@[j].2 && ((edges@[j].0
                    == r@[i].0 && edges@[j].1 == r@[k].0) || (edges@[j].1 == r@[i].0 && edges@[j].0 == r@[k].0)),
{
    let graph = petgraph::graph::UnGraph::<(), u32>::from_edges(edges.iter().copied());
    let start = petgraph::graph::NodeIndex::new(start as usize);
    let distances = petgraph::algo::dijkstra(&graph, start, None, |e| *e.weight());
    distances.into_iter().map(|(node, d)| (node.index() as u32, d)).collect()
}

/// The accent graph: how far apart the accents of neighbouring countries
/// are, by node index. Spanish and English speaking countries are joined by
/// one very long edge, so that every country is reachable.
pub open spec fn country_edges() -> Seq<(u32, u32, u32)> {
    seq![(0, 1, 1), (0, 2, 3), (0, 3, 3), (0, 5, 2), (2, 4, 3), (4, 3, 1), (3, 5, 3), (4, 6, 2), (6, 7, 4), (7, 8, 1), (8, 17, 2), (8, 16, 2), (17, 16, 1), (7, 9, 4), (9, 10, 1), (9, 15, 2), (10, 11, 1), (11, 12, 1), (12, 13, 1), (13, 14, 1), (14, 15, 1), (18, 0, 30), (19, 20, 1), (19, 23, 11), (20, 21, 10), (21, 23, 5), (21, 22, 4), (23, 24, 2), (0, 19, 2147483647)]
}

fn country_edge_list() -> (r: Vec<(u32, u32, u32)>)
    ensures
        r@ == country_edges(),
{
    let mut r: Vec<(u32, u32, u32)> = Vec::new();

    r.push((0, 1, 1));
    r.push((0, 2, 3));
    r.push((0, 3, 3));
    r.push((0, 5, 2));
    r.push((2, 4, 3));
    r.push((4, 3, 1));
    r.push((3, 5, 3));
    r.push((4, 6, 2));
    r.push((6, 7, 4));
    r.push((7, 8, 1));
    r.push((8, 17, 2));
    r.push((8, 16, 2));
    r.push((17, 16, 1));
    r.push((7, 9, 4));
    r.push((9, 10, 1));
    r.push((9, 15, 2));
    r.push((10, 11, 1));
    r.push((11, 12, 1));
    r.push((12, 13, 1));
    r.push((13, 14, 1));
    r.push((14, 15, 1));
    r.push((18, 0, 30));
    r.push((19, 20, 1));
    r.push((19, 23, 11));
    r.push((20, 21, 10));
    r.push((21, 23, 5));
    r.push((21, 22, 4));
    r.push((23, 24, 2));
    r.push((0, 19, 2147483647));
    assert(r@ =~= country_edges());
    r
}

proof fn lemma_country_edges()
    ensures
        edge_node_count(country_edges()) == COUNTRY_COUNT,
        total_weight(country_edges()) <= u32::MAX,
        positive_weights(country_edges()),
{
    reveal_with_fuel(edge_node_count, 30);
    reveal_with_fuel(total_weight, 30);
    reveal_with_fuel(positive_weights, 30);

}

/// The country at a node index of the accent graph.
pub open spec fn country_at(i: nat) -> Country {
    if i == 0 {
        Country::Argentina
    } else if i == 1 {
        Country::Uruguay
    } else if i == 2 {
        Country::Chile
    } else if i == 3 {
        Country::Peru
    } else if i == 4 {
        Country::Bolivia
    } else if i == 5 {
        Country::Paraguay
    } else if i == 6 {
        Country::Ecuador
    } else if i == 7 {
        Country::Colombia
    } else if i == 8 {
        Country::Venezuela
    } else if i == 9 {
        Country::Panama
    } else if i == 10 {
        Country::CostaRica
    } else if i == 11 {
        Country::ElSalvador
    } else if i == 12 {
        Country::Nicaragua
    } else if i == 13 {
        Country::Guatemala
    } else if i == 14 {
        Country::Honduras
    } else if i == 15 {
        Country::Mexico
    } else if i == 16 {
        Country::Cuba
    } else if i == 17 {
        Country::DominicanRepublic
    } else if i == 18 {
        Country::Spain
    } else if i == 19 {
        Country::UnitedStates
    } else if i == 20 {
        Country::Canada
    } else if i == 21 {
        Country::UnitedKingdom
    } else if i == 22 {
        Country::Ireland
    } else if i == 23 {
        Country::Australia
    } else if i == 24 {
        Country::NewZealand
    } else {
        Country::NewZealand
    }
}

/// How far apart the accents of two countries are: the length of the
/// shortest path between them in the accent graph, `u32::MAX` where there
/// is none.
pub open spec fn accent_distance(from: Country, to: Country) -> u32 {
    let m = dijkstra_distances(country_edges(), from.spec_index());
    if m.contains_key(to.spec_index()) {
        m[to.spec_index()]
    } else {
        u32::MAX
    }
}

} // verus!

verus! {

/// What reading one recording out of its two captures gives: an error for a
/// missing capture, an unknown country, invalid base64 or invalid UTF-8, in
/// that order of checking; else a recording of that country and language
/// whose link is the Forvo MP3 address of the decoded text.
pub open spec fn recording_read_ok(
    r: Result<ForvoRecording, ForvoError>,
    caps: (Option<Seq<char>>, Option<Seq<char>>),
    regex: Seq<char>,
    language: Language,
) -> bool {
    match caps.0 {
        None => r matches Err(ForvoError::BadBase64RegexMatching(e)) && e.regex_str@ == regex
            && e.capture_group_idx == 1 && e.capture_type == ForvoCaptureType::Base64,
        Some(data) => match caps.1 {
            None => r matches Err(ForvoError::BadCountryRegexMatching(e)) && e.regex_str@ == regex
                && e.capture_group_idx == 2 && e.capture_type == ForvoCaptureType::Country,
            Some(country_text) => match spec_country_from_str(country_text) {
                None => r matches Err(ForvoError::InvalidMatchedCountry),
                Some(country) => match base64_decoded(data) {
                    None => r matches Err(ForvoError::InvalidBase64),
                    Some(bytes) => if vstd::utf8::valid_utf8(bytes) {
                        r matches Ok(rec) && rec.country == country && rec.language == language
                            && rec.recording_link@ == "https://forvo.com/mp3/"@ + vstd::utf8::decode_utf8(bytes)
                    } else {
                        r matches Err(ForvoError::InvalidUtf8Decode)
                    },
                },
            },
        },
    }
}

/// Reads one recording out of the captures of the recording pattern.
pub fn get_language_recording(
    data: Option<&str>,
    country: Option<&str>,
    regex: &'static str,
    language: Language,
) -> (r: Result<ForvoRecording, ForvoError>)
    ensures
        recording_read_ok(r, (opt_str_view(data), opt_str_view(country)), regex@, language),
{
    let url_base64_data = match data {
        Some(d) => d,
        None => {
            return Err(ForvoError::BadBase64RegexMatching(ForvoRegexCaptureError::new(regex, 1, ForvoCaptureType::Base64)));
        },
    };
    let country_text = match country {
        Some(c) => c,
        None => {
            return Err(ForvoError::BadCountryRegexMatching(ForvoRegexCaptureError::new(regex, 2, ForvoCaptureType::Country)));
        },
    };
    let country = match Country::from_str(country_text) {
        Some(c) => c,
        None => {
            return Err(ForvoError::InvalidMatchedCountry);
        },
    };
    let decoded_bytes = match decode_base64(url_base64_data) {
        Some(b) => b,
        None => {
            return Err(ForvoError::InvalidBase64);
        },
    };
    let decoded_link = match string_from_utf8(decoded_bytes) {
        Some(l) => l,
        None => {
            return Err(ForvoError::InvalidUtf8Decode);
        },
    };
    let mut link = String::from_str("https://forvo.com/mp3/");
    push_str(&mut link, decoded_link.as_str());
    Ok(ForvoRecording::new(country, link, language))
}

/// Whether `v` lists what reading each recording of a container's HTML
/// gives, in order.
pub open spec fn recordings_read_ok(v: Seq<Result<ForvoRecording, ForvoError>>, html: Seq<char>, language: Language) -> bool {
    &&& v.len() == forvo_captures(FORVO_HTML_PATTERN@, html).len()
    &&& forall|j: int|
        0 <= j < v.len() ==> recording_read_ok(
            #[trigger] v[j],
            forvo_captures(FORVO_HTML_PATTERN@, html)[j],
            FORVO_HTML_PATTERN@,
            language,
        )
}

/// Reads every recording of a language container's HTML.
pub fn get_language_recordings(entries: &str, language: Language) -> (r: Vec<Result<ForvoRecording, ForvoError>>)
    ensures
        recordings_read_ok(r@, entries@, language),
{
    let captures = recording_captures(FORVO_HTML_PATTERN, entries);
    let mut recordings: Vec<Result<ForvoRecording, ForvoError>> = Vec::new();
    let mut i: usize = 0;
    while i < captures.len()
        invariant
            i <= captures@.len(),
            captures@.len() == forvo_captures(FORVO_HTML_PATTERN@, entries@).len(),
            forall|k: int|
                0 <= k < captures@.len() ==> (opt_string_view(#[trigger] captures@[k].0), opt_string_view(
                    captures@[k].1,
                )) == forvo_captures(FORVO_HTML_PATTERN@, entries@)[k],
            recordings@.len() == i,
            forall|j: int|
                0 <= j < i ==> recording_read_ok(
                    #[trigger] recordings@[j],
                    forvo_captures(FORVO_HTML_PATTERN@, entries@)[j],
                    FORVO_HTML_PATTERN@,
                    language,
                ),
        decreases captures@.len() - i,
    {
        let data = opt_as_str(&captures[i].0);
        let country = opt_as_str(&captures[i].1);
        proof {
            assert(opt_string_view(captures@[i as int].0) == forvo_captures(FORVO_HTML_PATTERN@, entries@)[i as int].0);
        }
        let recording = get_language_recording(data, country, FORVO_HTML_PATTERN, language);
        recordings.push(recording);
        i = i + 1;
    }
    recordings
}

} // verus!

verus! {

/// The language whose recordings a language container holds, where they
/// are wanted: the Spanish container unless English is requested, the
/// English one unless Spanish is requested.
pub open spec fn wanted_container_language(id: Option<Seq<char>>, requested: Option<Country>) -> Option<Language> {
    let (do_english, do_spanish) = match requested {
        Some(c) => match c.spec_language() {
            Language::English => (true, false),
            Language::Spanish => (false, true),
            Language::Unknown => (true, true),
        },
        None => (true, true),
    };
    if id == Some("language-container-es"@) && do_spanish {
        Some(Language::Spanish)
    } else if id == Some("language-container-en"@) && do_english {
        Some(Language::English)
    } else {
        None
    }
}

/// The wanted containers among `cs`, with their language, in order.
pub open spec fn wanted_containers(cs: Seq<(Option<Seq<char>>, Seq<char>)>, requested: Option<Country>) -> Seq<
    (Seq<char>, Language),
>
    decreases cs.len(),
{
    if cs.len() == 0 {
        seq![]
    } else {
        let rest = wanted_containers(cs.drop_last(), requested);
        match wanted_container_language(cs.last().0, requested) {
            Some(l) => rest.push((cs.last().1, l)),
            None => rest,
        }
    }
}

/// Reads the recordings of a term's Forvo page: one list per wanted
/// language container, in page order.
pub fn get_all_recordings(page: &str, requested_country: Option<Country>) -> (r: Vec<
    Vec<Result<ForvoRecording, ForvoError>>,
>)
    ensures
        r@.len() == wanted_containers(language_containers(LANGUAGE_CONTAINER_SELECTOR@, page@), requested_country).len(),
        forall|i: int|
            0 <= i < r@.len() ==> recordings_read_ok(
                (#[trigger] r@[i])@,
                wanted_containers(language_containers(LANGUAGE_CONTAINER_SELECTOR@, page@), requested_country)[i].0,
                wanted_containers(language_containers(LANGUAGE_CONTAINER_SELECTOR@, page@), requested_country)[i].1,
            ),
{
    let containers = page_language_containers(LANGUAGE_CONTAINER_SELECTOR, page);
    let ghost cs = language_containers(LANGUAGE_CONTAINER_SELECTOR@, page@);
    let (do_english, do_spanish) = match requested_country {
        Some(c) => match c.get_language() {
            Language::English => (true, false),
            Language::Spanish => (false, true),
            Language::Unknown => (true, true),
        },
        None => (true, true),
    };
    let mut all: Vec<Vec<Result<ForvoRecording, ForvoError>>> = Vec::new();
    let mut i: usize = 0;
    while i < containers.len()
        invariant
            i <= containers@.len(),
            containers@.len() == cs.len(),
            forall|k: int| 0 <= k < containers@.len() ==> (opt_string_view(#[trigger] containers@[k].0), containers@[k].1@) == cs[k],
            (do_english, do_spanish) == (match requested_country {
                Some(c) => match c.spec_language() {
                    Language::English => (true, false),
                    Language::Spanish => (false, true),
                    Language::Unknown => (true, true),
                },
                None => (true, true),
            }),
            all@.len() == wanted_containers(cs.take(i as int), requested_country).len(),
            forall|k: int|
                0 <= k < all@.len() ==> recordings_read_ok(
                    (#[trigger] all@[k])@,
                    wanted_containers(cs.take(i as int), requested_country)[k].0,
                    wanted_containers(cs.take(i as int), requested_country)[k].1,
                ),
        decreases containers@.len() - i,
    {
        let id = opt_as_str(&containers[i].0);
        let html = containers[i].1.as_str();
        proof {
            assert(cs.take(i + 1).drop_last() =~= cs.take(i as int));
            assert(cs.take(i + 1).last() == cs[i as int]);
        }
        let ghost before = all@;
        let is_es = match id {
            Some(x) => crate::text::str_eq(x, "language-container-es"),
            None => false,
        };
        let is_en = match id {
            Some(x) => crate::text::str_eq(x, "language-container-en"),
            None => false,
        };
        if is_es && do_spanish {
            all.push(get_language_recordings(html, Language::Spanish));
        } else if is_en && do_english {
            all.push(get_language_recordings(html, Language::English));
        }
        proof {
            let w = wanted_containers(cs.take(i + 1), requested_country);
            assert forall|k: int| 0 <= k < all@.len() implies recordings_read_ok(
                (#[trigger] all@[k])@,
                w[k].0,
                w[k].1,
            ) by {
                if k < before.len() {
                    assert(all@[k] == before[k]);
                }
            }
        }
        i = i + 1;
    }
    proof {
        assert(cs.take(i as int) =~= cs);
    }
    all
}

} // verus!

verus! {

broadcast use vstd::std_specs::hash::group_hash_axioms;

/// The key of a pair of countries in the accent distance cache.
pub open spec fn pair_key(from: Country, to: Country) -> nat {
    from.spec_index() * (COUNTRY_COUNT as nat) + to.spec_index()
}

/// Accent distances computed so far, by pair of countries.
pub struct AccentDistances {
    cache: std::collections::HashMap<u64, u32>,
}

impl AccentDistances {
    /// Every cached distance is the accent distance of its pair.
    pub closed spec fn wf(&self) -> bool {
        forall|k: u64|
            #[trigger] self.cache@.contains_key(k) ==> k < COUNTRY_COUNT * COUNTRY_COUNT && self.cache@[k]
                == accent_distance(country_at(k as nat / COUNTRY_COUNT as nat), country_at(k as nat % COUNTRY_COUNT as nat))
                && (self.cache@[k] == 0 <==> k as nat / COUNTRY_COUNT as nat == k as nat % COUNTRY_COUNT as nat)
    }

    /// No distance computed yet.
    pub fn new() -> (r: Self)
        ensures
            r.wf(),
    {
        AccentDistances { cache: std::collections::HashMap::new() }
    }
}

proof fn lemma_country_at_index(c: Country)
    ensures
        country_at(c.spec_index()) == c,
        c.spec_index() < COUNTRY_COUNT,
{
}

proof fn lemma_pair_key(from: Country, to: Country)
    ensures
        pair_key(from, to) < COUNTRY_COUNT * COUNTRY_COUNT,
        pair_key(from, to) / COUNTRY_COUNT as nat == from.spec_index(),
        pair_key(from, to) % COUNTRY_COUNT as nat == to.spec_index(),
{
    lemma_country_at_index(from);
    lemma_country_at_index(to);
    let f = from.spec_index();
    let t = to.spec_index();
    assert((f * 25 + t) / 25 == f && (f * 25 + t) % 25 == t) by (nonlinear_arith)
        requires
            t < 25,
    ;
}

/// The country whose accent a recording is measured from: the requested
/// one, else the main country of the recording's language.
pub open spec fn distance_origin(input_country: Option<Country>, language: Language) -> Option<Country> {
    match input_country {
        Some(c) => Some(c),
        None => match language {
            Language::English => Some(Country::UnitedStates),
            Language::Spanish => Some(Country::Argentina),
            Language::Unknown => None,
        },
    }
}

/// How far the accent of a recording is from the requested country (or,
/// with none requested, from the main country of its language);
/// `u32::MAX` for a recording of unknown language.
pub open spec fn spec_recording_distance(country: Country, language: Language, input_country: Option<Country>) -> u32 {
    match distance_origin(input_country, language) {
        Some(from) => accent_distance(from, country),
        None => u32::MAX,
    }
}

/// How far the accent of a recording is from the requested country,
/// looking it up in the cache, or computing every distance from the origin
/// country and caching them all.
pub fn recording_to_distance(
    recording: &ForvoRecording,
    input_country: Option<Country>,
    accent_differences: &mut AccentDistances,
) -> (r: u32)
    requires
        old(accent_differences).wf(),
    ensures
        final(accent_differences).wf(),
        r == spec_recording_distance(recording.country, recording.language, input_country),
        distance_origin(input_country, recording.language) matches Some(from) ==> (r == 0 <==> from
            == recording.country),
{
    let country = match (input_country, recording.language) {
        (Some(c), _) => c,
        (None, Language::English) => Country::UnitedStates,
        (None, Language::Spanish) => Country::Argentina,
        (None, Language::Unknown) => {
            return u32::MAX;
        },
    };
    proof {
        lemma_pair_key(country, recording.country);
        lemma_country_at_index(country);
        lemma_country_at_index(recording.country);
    }
    let key: u64 = (country.index() * COUNTRY_COUNT + recording.country.index()) as u64;
    match accent_differences.cache.get(&key) {
        Some(d) => {
            return *d;
        },
        None => {},
    }
    let edges = country_edge_list();
    proof {
        lemma_country_edges();
    }
    let distance_map = shortest_distances(&edges, country.index() as u32);
    let ghost m = dijkstra_distances(country_edges(), country.spec_index());
    proof {
        let s = choose|i: int| 0 <= i < distance_map@.len() && distance_map@[i] == (country.spec_index() as u32, 0u32);
        assert(distance_map@[s] == (country.spec_index() as u32, 0u32));
        assert forall|k: nat| #[trigger] m.contains_key(k) implies (m[k] == 0 <==> k == country.spec_index()) by {
            let i = choose|i: int| 0 <= i < distance_map@.len() && distance_map@[i].0 == k;
            assert(distance_map@[i].0 as nat == k);
        }
    }
    let mut recording_distance: Option<u32> = None;
    let mut i: usize = 0;
    while i < distance_map.len()
        invariant
            accent_differences.wf(),
            edges@ == country_edges(),
            edge_node_count(country_edges()) == COUNTRY_COUNT,
            m == dijkstra_distances(country_edges(), country.spec_index()),
            m.contains_key(country.spec_index()),
            forall|k: nat| #[trigger] m.contains_key(k) ==> (m[k] == 0 <==> k == country.spec_index()),
            country.spec_index() < COUNTRY_COUNT,
            i <= distance_map@.len(),
            forall|j: int|
                0 <= j < distance_map@.len() ==> (#[trigger] distance_map@[j]).0 < COUNTRY_COUNT && m.contains_key(
                    distance_map@[j].0 as nat,
                ) && m[distance_map@[j].0 as nat] == distance_map@[j].1,
            match recording_distance {
                Some(d) => m.contains_key(recording.country.spec_index()) && d == m[recording.country.spec_index()],
                None => forall|j: int| 0 <= j < i ==> (#[trigger] distance_map@[j]).0 != recording.country.spec_index(),
            },
        decreases distance_map@.len() - i,
    {
        let (node, distance) = distance_map[i];
        let target_country = match Country::from_index(node as usize) {
            Some(c) => c,
            None => {
                proof {
                    assert(false);
                }
                return u32::MAX;
            },
        };
        proof {
            lemma_pair_key(country, target_country);
            lemma_country_at_index(country);
            lemma_country_at_index(target_country);
        }
        let target_key: u64 = (country.index() * COUNTRY_COUNT + target_country.index()) as u64;
        accent_differences.cache.insert(target_key, distance);
        if target_country == recording.country {
            recording_distance = Some(distance);
        }
        i = i + 1;
    }
    match recording_distance {
        Some(d) => d,
        None => {
            proof {
                if m.contains_key(recording.country.spec_index()) {
                    let j = choose|j: int| 0 <= j < distance_map@.len() && distance_map@[j].0 == recording.country.spec_index();
                    assert(distance_map@[j].0 != recording.country.spec_index());
                }
            }
            u32::MAX
        },
    }
}

/// Whether `first` is closer in accent to the requested country than
/// `second`; nothing is closer than a recording from the requested country
/// itself.
pub open spec fn spec_is_closer(
    first_country: Country,
    first_language: Language,
    second_country: Country,
    second_language: Language,
    country: Option<Country>,
) -> bool {
    if country == Some(second_country) {
        false
    } else {
        spec_recording_distance(first_country, first_language, country) < spec_recording_distance(
            second_country,
            second_language,
            country,
        )
    }
}

/// Whether `first` is closer in accent to the requested country than
/// `second`.
pub fn is_closer(
    first: &ForvoRecording,
    second: &ForvoRecording,
    country: Option<Country>,
    accent_map: &mut AccentDistances,
) -> (r: bool)
    requires
        old(accent_map).wf(),
    ensures
        final(accent_map).wf(),
        r == spec_is_closer(first.country, first.language, second.country, second.language, country),
        country == Some(first.country) && second.country != first.country ==> r,
{
    if let Some(c) = country {
        if c == second.country {
            return false;
        }
    }
    let first_distance = recording_to_distance(first, country, accent_map);
    let second_distance = recording_to_distance(second, country, accent_map);
    first_distance < second_distance
}

} // verus!

verus! {

/// The recording kept among the readable ones of `list`: going through
/// them in order, each replaces the one kept so far where it is closer.
pub open spec fn closest_recording(list: Seq<Result<ForvoRecording, ForvoError>>, country: Option<Country>) -> Option<
    ForvoRecording,
>
    decreases list.len(),
{
    if list.len() == 0 {
        None
    } else {
        let prev = closest_recording(list.drop_last(), country);
        match list.last() {
            Ok(curr) => match prev {
                Some(min) => if spec_is_closer(curr.country, curr.language, min.country, min.language, country) {
                    Some(curr)
                } else {
                    Some(min)
                },
                None => Some(curr),
            },
            Err(_) => prev,
        }
    }
}

/// The errors of `list`, in order.
pub open spec fn recording_errors(list: Seq<Result<ForvoRecording, ForvoError>>) -> Seq<ForvoError>
    decreases list.len(),
{
    if list.len() == 0 {
        seq![]
    } else {
        let prev = recording_errors(list.drop_last());
        match list.last() {
            Ok(_) => prev,
            Err(e) => prev.push(e),
        }
    }
}

/// Whether a country is requested and one of the first `n` entries of
/// `list` is a recording from it.
pub open spec fn has_recording_from(list: Seq<Result<ForvoRecording, ForvoError>>, country: Option<Country>, n: int) -> bool {
    exists|j: int| 0 <= j < n && (#[trigger] list[j] matches Ok(rec) && country == Some(rec.country))
}

/// What is sent for the recordings of one language: every error, in order,
/// then the closest recording, if any could be read. Where a recording from
/// the requested country could be read, that is the closest.
pub fn possible_recordings_to_data(
    term: &str,
    country: Option<Country>,
    possible_recordings: Vec<Result<ForvoRecording, ForvoError>>,
    accent_differences: &mut AccentDistances,
) -> (r: Vec<Result<RecordingData, ForvoError>>)
    requires
        old(accent_differences).wf(),
    ensures
        final(accent_differences).wf(),
        ({
            let errors = recording_errors(possible_recordings@);
            let closest = closest_recording(possible_recordings@, country);
            &&& r@.len() == errors.len() + (if closest is Some { 1int } else { 0 })
            &&& forall|i: int| 0 <= i < errors.len() ==> r@[i] == Err::<RecordingData, ForvoError>(errors[i])
            &&& closest matches Some(c) ==> r@.last() matches Ok(d) && d.country == c.country && d.recording_link
                == c.recording_link && d.term@ == term@ && d.spec_recording() is None
        }),
        has_recording_from(possible_recordings@, country, possible_recordings@.len() as int) ==> (closest_recording(
            possible_recordings@,
            country,
        ) matches Some(k) && country == Some(k.country)),
{
    let ghost list = possible_recordings@;
    let mut possible_data: Vec<Result<RecordingData, ForvoError>> = Vec::new();
    let mut closest: Option<ForvoRecording> = None;
    for possible_recording in it: possible_recordings
        invariant
            it.seq() == list,
            accent_differences.wf(),
            closest == closest_recording(list.take(it.index() as int), country),
            possible_data@.len() == recording_errors(list.take(it.index() as int)).len(),
            has_recording_from(list, country, it.index() as int) ==> (closest matches Some(k) && country == Some(
                k.country,
            )),
            forall|i: int|
                0 <= i < possible_data@.len() ==> possible_data@[i] == Err::<RecordingData, ForvoError>(
                    recording_errors(list.take(it.index() as int))[i],
                ),
    {
        proof {
            assert(list.take(it.index() + 1).drop_last() =~= list.take(it.index() as int));
            assert(list.take(it.index() + 1).last() == list[it.index() as int]);
        }
        let ghost index = it.index() as int;
        proof {
            if has_recording_from(list, country, index + 1) && !has_recording_from(list, country, index) {
                let j = choose|j: int| 0 <= j < index + 1 && (#[trigger] list[j] matches Ok(rec) && country == Some(rec.country));
                assert(j == index);
            }
        }
        match possible_recording {
            Ok(curr) => {
                let replace = match &closest {
                    Some(min) => is_closer(&curr, min, country, accent_differences),
                    None => true,
                };
                if replace {
                    closest = Some(curr);
                }
            },
            Err(err) => {
                possible_data.push(Err(err));
            },
        }
    }
    proof {
        assert(list.take(list.len() as int) =~= list);
    }
    if let Some(c) = closest {
        possible_data.push(Ok(RecordingData::new(c, term)));
    }
    possible_data
}

/// The text sent with a recording: where a country was requested and the
/// recording is from another one, it says the recording's country is the
/// closest in accent.
pub fn get_pronounce_message(term: &str, country: Country, requested_country: Option<Country>) -> (r: String)
    ensures
        r@ == (if requested_country matches Some(c) && c != country {
            "Here is the pronunciation of ``"@ + term@
                + "``. The pronunciation from the country closest in terms of accent to the requested country is "@
                + country.spec_flag() + "."@
        } else {
            "Here is the pronunciation of ``"@ + term@ + "``. Country: "@ + country.spec_flag() + "."@
        }),
{
    let mut s = String::from_str("Here is the pronunciation of ``");
    push_str(&mut s, term);
    let other = match requested_country {
        Some(c) => c != country,
        None => false,
    };
    if other {
        push_str(
            &mut s,
            "``. The pronunciation from the country closest in terms of accent to the requested country is ",
        );
    } else {
        push_str(&mut s, "``. Country: ");
    }
    push_str(&mut s, country.flag());
    push_str(&mut s, ".");
    s
}

} // verus!

verus! {

/// Whether a byte is left as it is in a URL: an ASCII letter or digit, or
/// one of `-._~`.
pub open spec fn is_unreserved(b: u8) -> bool {
    (48 <= b <= 57) || (65 <= b <= 90) || (97 <= b <= 122) || b == 45 || b == 46 || b == 95 || b == 126
}

/// An uppercase hexadecimal digit.
pub open spec fn upper_hex_digit(n: nat) -> char {
    if n < 10 {
        ((n + '0' as nat) as u32) as char
    } else {
        ((n - 10 + 'A' as nat) as u32) as char
    }
}

/// Bytes percent-encoded: unreserved bytes as they are, every other byte
/// as `%` and two uppercase hexadecimal digits.
pub open spec fn percent_encoded(bytes: Seq<u8>) -> Seq<char>
    decreases bytes.len(),
{
    if bytes.len() == 0 {
        seq![]
    } else {
        let b = bytes.last();
        percent_encoded(bytes.drop_last()) + if is_unreserved(b) {
            seq![(b as u32) as char]
        } else {
            seq!['%', upper_hex_digit(b as nat / 16), upper_hex_digit(b as nat % 16)]
        }
    }
}

/// Percent-encodes the UTF-8 bytes of a text (`urlencoding::encode`).
#[verifier::external_body]
fn url_encode(text: &str) -> (r: String)
    ensures
        r@ == percent_encoded(vstd::utf8::encode_utf8(text@)),
{
    urlencoding::encode(text).into_owned()
}

/// The term to pronounce, ready to go in a Forvo address: the first
/// argument percent-encoded; an error where there is none.
pub fn parse_term(arg: Option<&str>) -> (r: Result<String, crate::argument_parser::NotEnoughArgumentsError>)
    ensures
        match arg {
            Some(a) => r matches Ok(t) && t@ == percent_encoded(vstd::utf8::encode_utf8(a@)),
            None => r == Err::<String, crate::argument_parser::NotEnoughArgumentsError>(
                crate::argument_parser::NotEnoughArgumentsError { min_args: 1, args_provided: 0 },
            ),
        },
{
    match arg {
        Some(a) => Ok(url_encode(a)),
        None => Err(crate::argument_parser::NotEnoughArgumentsError::new(1, 0)),
    }
}

/// The address of a term's Forvo page.
pub fn forvo_word_url(term: &str) -> (r: String)
    ensures
        r@ == "https://forvo.com/word/"@ + term@ + "/"@,
{
    let mut s = String::from_str("https://forvo.com/word/");
    push_str(&mut s, term);
    push_str(&mut s, "/");
    s
}

/// The reply where no recording could be sent.
pub fn no_pronunciation_reply() -> (r: &'static str)
    ensures
        r@ == "No pronunciation found for the given term."@,
{
    "No pronunciation found for the given term."
}

/// Whether a failed recording is reported as an error: all failures are,
/// but for a recording from an unknown country.
pub fn is_reported_error(error: &ForvoError) -> (r: bool)
    ensures
        r == !(*error is InvalidMatchedCountry),
{
    match error {
        ForvoError::InvalidMatchedCountry => false,
        _ => true,
    }
}

} // verus!

verus! {

/// The recording kept is one of the readable recordings, and one is kept
/// exactly where any recording could be read.
pub proof fn lemma_closest_recording(list: Seq<Result<ForvoRecording, ForvoError>>, country: Option<Country>)
    ensures
        closest_recording(list, country) matches Some(c) ==> exists|i: int|
            0 <= i < list.len() && #[trigger] list[i] == Ok::<ForvoRecording, ForvoError>(c),
        closest_recording(list, country) is None <==> forall|i: int| 0 <= i < list.len() ==> #[trigger] list[i] is Err,
    decreases list.len(),
{
    if list.len() > 0 {
        let init = list.drop_last();
        lemma_closest_recording(init, country);
        if let Some(c) = closest_recording(list, country) {
            if list.last() == Ok::<ForvoRecording, ForvoError>(c) {
                assert(list[list.len() - 1] == Ok::<ForvoRecording, ForvoError>(c));
            } else {
                let i = choose|i: int| 0 <= i < init.len() && #[trigger] init[i] == Ok::<ForvoRecording, ForvoError>(c);
                assert(list[i] == init[i]);
            }
        }
        if forall|i: int| 0 <= i < list.len() ==> #[trigger] list[i] is Err {
            assert forall|i: int| 0 <= i < init.len() implies #[trigger] init[i] is Err by {
                assert(list[i] == init[i]);
            }
            assert(list[list.len() - 1] is Err);
        }
        if closest_recording(list, country) is None {
            assert forall|i: int| 0 <= i < list.len() implies #[trigger] list[i] is Err by {
                if i < init.len() {
                    assert(list[i] == init[i]);
                }
            }
        }
    }
}

} // verus!

verus! {

/// Every country is read back from its name and from its flag: the names
/// and flags of two countries never clash, so reading one finds the country
/// it belongs to.
pub proof fn lemma_country_read_back(c: Country)
    ensures
        spec_country_from_str(c.spec_name()) == Some(c),
        spec_country_from_str(c.spec_flag()) == Some(c),
{
    reveal_strlit("🇦🇷");
    assert("🇦🇷"@.len() == 2 && "🇦🇷"@[0] == '\u{1F1E6}' && "🇦🇷"@[1] == '\u{1F1F7}');
    reveal_strlit("Argentina");
    assert("Argentina"@.len() == 9 && "Argentina"@[0] == 'A' && "Argentina"@[1] == 'r');
    reveal_strlit("🇺🇾");
    assert("🇺🇾"@.len() == 2 && "🇺🇾"@[0] == '\u{1F1FA}' && "🇺🇾"@[1] == '\u{1F1FE}');
    reveal_strlit("Uruguay");
    assert("Uruguay"@.len() == 7 && "Uruguay"@[0] == 'U');
    reveal_strlit("🇨🇱");
    assert("🇨🇱"@.len() == 2 && "🇨🇱"@[0] == '\u{1F1E8}' && "🇨🇱"@[1] == '\u{1F1F1}');
    reveal_strlit("Chile");
    assert("Chile"@.len() == 5 && "Chile"@[0] == 'C');
    reveal_strlit("🇵🇪");
    assert("🇵🇪"@.len() == 2 && "🇵🇪"@[0] == '\u{1F1F5}' && "🇵🇪"@[1] == '\u{1F1EA}');
    reveal_strlit("Peru");
    assert("Peru"@.len() == 4 && "Peru"@[0] == 'P');
    reveal_strlit("🇧🇴");
    assert("🇧🇴"@.len() == 2 && "🇧🇴"@[0] == '\u{1F1E7}');
    reveal_strlit("Bolivia");
    assert("Bolivia"@.len() == 7 && "Bolivia"@[0] == 'B');
    reveal_strlit("🇵🇾");
    assert("🇵🇾"@.len() == 2 && "🇵🇾"@[0] == '\u{1F1F5}' && "🇵🇾"@[1] == '\u{1F1FE}');
    reveal_strlit("Paraguay");
    assert("Paraguay"@.len() == 8 && "Paraguay"@[0] == 'P');
    reveal_strlit("🇪🇨");
    assert("🇪🇨"@.len() == 2 && "🇪🇨"@[0] == '\u{1F1EA}' && "🇪🇨"@[1] == '\u{1F1E8}');
    reveal_strlit("Ecuador");
    assert("Ecuador"@.len() == 7 && "Ecuador"@[0] == 'E');
    reveal_strlit("🇨🇴");
    assert("🇨🇴"@.len() == 2 && "🇨🇴"@[0] == '\u{1F1E8}' && "🇨🇴"@[1] == '\u{1F1F4}');
    reveal_strlit("Colombia");
    assert("Colombia"@.len() == 8 && "Colombia"@[0] == 'C');
    reveal_strlit("🇻🇪");
    assert("🇻🇪"@.len() == 2 && "🇻🇪"@[0] == '\u{1F1FB}');
    reveal_strlit("Venezuela");
    assert("Venezuela"@.len() == 9 && "Venezuela"@[0] == 'V');
    reveal_strlit("🇵🇦");
    assert("🇵🇦"@.len() == 2 && "🇵🇦"@[0] == '\u{1F1F5}' && "🇵🇦"@[1] == '\u{1F1E6}');
    reveal_strlit("Panama");
    assert("Panama"@.len() == 6 && "Panama"@[0] == 'P');
    reveal_strlit("🇨🇷");
    assert("🇨🇷"@.len() == 2 && "🇨🇷"@[0] == '\u{1F1E8}' && "🇨🇷"@[1] == '\u{1F1F7}');
    reveal_strlit("Costa Rica");
    assert("Costa Rica"@.len() == 10);
    reveal_strlit("🇸🇻");
    assert("🇸🇻"@.len() == 2 && "🇸🇻"@[0] == '\u{1F1F8}');
    reveal_strlit("El Salvador");
    assert("El Salvador"@.len() == 11 && "El Salvador"@[0] == 'E');
    reveal_strlit("🇳🇮");
    assert("🇳🇮"@.len() == 2 && "🇳🇮"@[0] == '\u{1F1F3}' && "🇳🇮"@[1] == '\u{1F1EE}');
    reveal_strlit("Nicaragua");
    assert("Nicaragua"@.len() == 9 && "Nicaragua"@[0] == 'N');
    reveal_strlit("🇬🇹");
    assert("🇬🇹"@.len() == 2 && "🇬🇹"@[0] == '\u{1F1EC}' && "🇬🇹"@[1] == '\u{1F1F9}');
    reveal_strlit("Guatemala");
    assert("Guatemala"@.len() == 9 && "Guatemala"@[0] == 'G');
    reveal_strlit("🇭🇳");
    assert("🇭🇳"@.len() == 2 && "🇭🇳"@[0] == '\u{1F1ED}');
    reveal_strlit("Honduras");
    assert("Honduras"@.len() == 8 && "Honduras"@[0] == 'H');
    reveal_strlit("🇲🇽");
    assert("🇲🇽"@.len() == 2 && "🇲🇽"@[0] == '\u{1F1F2}');
    reveal_strlit("Mexico");
    assert("Mexico"@.len() == 6 && "Mexico"@[0] == 'M');
    reveal_strlit("🇨🇺");
    assert("🇨🇺"@.len() == 2 && "🇨🇺"@[0] == '\u{1F1E8}' && "🇨🇺"@[1] == '\u{1F1FA}');
    reveal_strlit("Cuba");
    assert("Cuba"@.len() == 4 && "Cuba"@[0] == 'C');
    reveal_strlit("🇩🇴");
    assert("🇩🇴"@.len() == 2 && "🇩🇴"@[0] == '\u{1F1E9}');
    reveal_strlit("Dominican Republic");
    assert("Dominican Republic"@.len() == 18);
    reveal_strlit("🇪🇸");
    assert("🇪🇸"@.len() == 2 && "🇪🇸"@[0] == '\u{1F1EA}' && "🇪🇸"@[1] == '\u{1F1F8}');
    reveal_strlit("Spain");
    assert("Spain"@.len() == 5 && "Spain"@[0] == 'S');
    reveal_strlit("🇺🇸");
    assert("🇺🇸"@.len() == 2 && "🇺🇸"@[0] == '\u{1F1FA}' && "🇺🇸"@[1] == '\u{1F1F8}');
    reveal_strlit("United States");
    assert("United States"@.len() == 13);
    reveal_strlit("🇨🇦");
    assert("🇨🇦"@.len() == 2 && "🇨🇦"@[0] == '\u{1F1E8}' && "🇨🇦"@[1] == '\u{1F1E6}');
    reveal_strlit("Canada");
    assert("Canada"@.len() == 6 && "Canada"@[0] == 'C');
    reveal_strlit("🇬🇧");
    assert("🇬🇧"@.len() == 2 && "🇬🇧"@[0] == '\u{1F1EC}' && "🇬🇧"@[1] == '\u{1F1E7}');
    reveal_strlit("United Kingdom");
    assert("United Kingdom"@.len() == 14);
    reveal_strlit("🇮🇪");
    assert("🇮🇪"@.len() == 2 && "🇮🇪"@[0] == '\u{1F1EE}');
    reveal_strlit("Ireland");
    assert("Ireland"@.len() == 7 && "Ireland"@[0] == 'I');
    reveal_strlit("🇦🇺");
    assert("🇦🇺"@.len() == 2 && "🇦🇺"@[0] == '\u{1F1E6}' && "🇦🇺"@[1] == '\u{1F1FA}');
    reveal_strlit("Australia");
    assert("Australia"@.len() == 9 && "Australia"@[0] == 'A' && "Australia"@[1] == 'u');
    reveal_strlit("🇳🇿");
    assert("🇳🇿"@.len() == 2 && "🇳🇿"@[0] == '\u{1F1F3}' && "🇳🇿"@[1] == '\u{1F1FF}');
    reveal_strlit("New Zealand");
    assert("New Zealand"@.len() == 11 && "New Zealand"@[0] == 'N');
    match c {
        Country::Argentina => {},
        Country::Uruguay => {},
        Country::Chile => {},
        Country::Peru => {},
        Country::Bolivia => {},
        Country::Paraguay => {},
        Country::Ecuador => {},
        Country::Colombia => {},
        Country::Venezuela => {},
        Country::Panama => {},
        Country::CostaRica => {},
        Country::ElSalvador => {},
        Country::Nicaragua => {},
        Country::Guatemala => {},
        Country::Honduras => {},
        Country::Mexico => {},
        Country::Cuba => {},
        Country::DominicanRepublic => {},
        Country::Spain => {},
        Country::UnitedStates => {},
        Country::Canada => {},
        Country::UnitedKingdom => {},
        Country::Ireland => {},
        Country::Australia => {},
        Country::NewZealand => {},
    }
}

} // verus!
