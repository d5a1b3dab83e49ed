use burdbot::forvo::{
    get_all_recordings, get_language_recording, get_language_recordings, get_pronounce_message, is_closer,
    is_reported_error, parse_term, possible_recordings_to_data, recording_to_distance, AccentDistances, Country,
    ForvoCaptureType, ForvoError, ForvoRecording, ForvoRegexCaptureError, Language, RecordingData,
    FORVO_HTML_PATTERN,
};

fn recording(country: Country, link: &str, language: Language) -> ForvoRecording {
    ForvoRecording::new(country, link.to_string(), language)
}

#[test]
fn countries() {
    assert_eq!(Country::from_str("Argentina"), Some(Country::Argentina));
    assert_eq!(Country::from_str("🇦🇷"), Some(Country::Argentina));
    assert_eq!(Country::from_str("Costa Rica"), Some(Country::CostaRica));
    assert_eq!(Country::from_str("🇳🇿"), Some(Country::NewZealand));
    assert_eq!(Country::from_str("argentina"), None);
    assert_eq!(Country::from_str("France"), None);
    assert_eq!(Country::Mexico.index(), 15);
    assert_eq!(Country::from_index(19), Some(Country::UnitedStates));
    assert_eq!(Country::from_index(25), None);
    assert_eq!(Country::Spain.flag(), "🇪🇸");
    assert_eq!(Country::ElSalvador.name(), "El Salvador");
    assert_eq!(Country::Spain.get_language(), Language::Spanish);
    assert_eq!(Country::Ireland.get_language(), Language::English);
    assert_eq!(Country::default(), Country::Argentina);
}

#[test]
fn reading_one_recording() {
    match get_language_recording(Some("YWJjLm1wMw=="), Some("Spain"), FORVO_HTML_PATTERN, Language::Spanish) {
        Ok(r) => {
            assert_eq!(r.country, Country::Spain);
            assert_eq!(r.recording_link, "https://forvo.com/mp3/abc.mp3");
            assert_eq!(r.language, Language::Spanish);
        },
        Err(e) => panic!("unexpected error {e:?}"),
    }
    assert!(matches!(
        get_language_recording(None, Some("Spain"), FORVO_HTML_PATTERN, Language::Spanish),
        Err(ForvoError::BadBase64RegexMatching(ForvoRegexCaptureError { capture_group_idx: 1, capture_type: ForvoCaptureType::Base64, .. }))
    ));
    assert!(matches!(
        get_language_recording(Some("YWJj"), None, FORVO_HTML_PATTERN, Language::Spanish),
        Err(ForvoError::BadCountryRegexMatching(ForvoRegexCaptureError { capture_group_idx: 2, capture_type: ForvoCaptureType::Country, .. }))
    ));
    assert!(matches!(
        get_language_recording(Some("YWJj"), Some("France"), FORVO_HTML_PATTERN, Language::Spanish),
        Err(ForvoError::InvalidMatchedCountry)
    ));
    assert!(matches!(
        get_language_recording(Some("!!!"), Some("Spain"), FORVO_HTML_PATTERN, Language::Spanish),
        Err(ForvoError::InvalidBase64)
    ));
    assert!(matches!(
        get_language_recording(Some("/w=="), Some("Spain"), FORVO_HTML_PATTERN, Language::Spanish),
        Err(ForvoError::InvalidUtf8Decode)
    ));
}

#[test]
fn reading_a_page() {
    let container = "<li>Play(1,'YWJj','x','h');return false; from Mexico</li><li>Play(2,'ZGVm','y','h');return false; from France</li>";
    let recordings = get_language_recordings(container, Language::Spanish);
    assert_eq!(recordings.len(), 2);
    assert!(matches!(&recordings[0], Ok(r) if r.country == Country::Mexico && r.recording_link == "https://forvo.com/mp3/abc"));
    assert!(matches!(recordings[1], Err(ForvoError::InvalidMatchedCountry)));

    let page = format!(
        "<html><body><div class=\"language-container\" id=\"language-container-en\">Play(3,'Z2hp','z','h');return x from Canada</div>\
         <div class=\"language-container\" id=\"language-container-es\">{container}</div>\
         <div class=\"language-container\" id=\"language-container-fr\">Play(4,'YWJj','z','h');return x from Spain</div></body></html>"
    );
    let all = get_all_recordings(&page, None);
    assert_eq!(all.len(), 2);
    assert_eq!(all[0].len(), 1);
    assert_eq!(all[1].len(), 2);
    let spanish_only = get_all_recordings(&page, Some(Country::Chile));
    assert_eq!(spanish_only.len(), 1);
    assert_eq!(spanish_only[0].len(), 2);
    let english_only = get_all_recordings(&page, Some(Country::Canada));
    assert_eq!(english_only.len(), 1);
    assert!(matches!(&english_only[0][0], Ok(r) if r.country == Country::Canada && r.language == Language::English));
}

#[test]
fn accent_distances() {
    let mut cache = AccentDistances::new();
    let mexico = recording(Country::Mexico, "m", Language::Spanish);
    assert_eq!(recording_to_distance(&mexico, None, &mut cache), 16);
    assert_eq!(recording_to_distance(&mexico, None, &mut cache), 16);
    assert_eq!(recording_to_distance(&mexico, Some(Country::Mexico), &mut cache), 0);
    let australia = recording(Country::Australia, "a", Language::English);
    assert_eq!(recording_to_distance(&australia, None, &mut cache), 11);
    assert_eq!(recording_to_distance(&australia, Some(Country::Spain), &mut cache), 30 + 2147483647 + 11);
    let unknown = recording(Country::Spain, "u", Language::Unknown);
    assert_eq!(recording_to_distance(&unknown, None, &mut cache), u32::MAX);
    assert!(!is_closer(&australia, &mexico, Some(Country::Mexico), &mut cache));
    assert!(is_closer(&mexico, &australia, Some(Country::Panama), &mut cache));
}

#[test]
fn choosing_the_closest_recording() {
    let mut cache = AccentDistances::new();
    let list = vec![
        Ok(recording(Country::Spain, "es", Language::Spanish)),
        Err(ForvoError::InvalidBase64),
        Ok(recording(Country::Uruguay, "uy", Language::Spanish)),
        Ok(recording(Country::Mexico, "mx", Language::Spanish)),
        Err(ForvoError::InvalidMatchedCountry),
    ];
    let data = possible_recordings_to_data("pollo", Some(Country::Argentina), list, &mut cache);
    assert_eq!(data.len(), 3);
    assert!(matches!(data[0], Err(ForvoError::InvalidBase64)));
    assert!(matches!(data[1], Err(ForvoError::InvalidMatchedCountry)));
    match &data[2] {
        Ok(d) => {
            assert_eq!(d.country, Country::Uruguay);
            assert_eq!(d.recording_link, "uy");
            assert_eq!(d.term, "pollo");
            assert!(!d.has_recording());
        },
        Err(e) => panic!("unexpected {e:?}"),
    }
    let none = possible_recordings_to_data("x", None, vec![Err(ForvoError::InvalidUtf8Decode)], &mut cache);
    assert_eq!(none.len(), 1);
}

#[test]
fn recording_data_keeps_the_first_audio() {
    let mut d = RecordingData::new(recording(Country::Chile, "cl", Language::Spanish), "hola");
    assert!(!d.has_recording());
    d.store_recording(vec![1, 2]);
    d.store_recording(vec![3]);
    assert_eq!(d.recording(), Some(&vec![1, 2]));
}

#[test]
fn pronounce_texts() {
    assert_eq!(
        get_pronounce_message("pollo", Country::Mexico, None),
        "Here is the pronunciation of ``pollo``. Country: 🇲🇽."
    );
    assert_eq!(
        get_pronounce_message("pollo", Country::Mexico, Some(Country::Mexico)),
        "Here is the pronunciation of ``pollo``. Country: 🇲🇽."
    );
    assert_eq!(
        get_pronounce_message("pollo", Country::Mexico, Some(Country::Chile)),
        "Here is the pronunciation of ``pollo``. The pronunciation from the country closest in terms of accent to the requested country is 🇲🇽."
    );
    assert_eq!(parse_term(Some("hola mundo")).unwrap(), "hola%20mundo");
    assert_eq!(parse_term(Some("año")).unwrap(), "a%C3%B1o");
    let err = parse_term(None).unwrap_err();
    assert_eq!((err.min_args, err.args_provided), (1, 0));
    assert!(!is_reported_error(&ForvoError::InvalidMatchedCountry));
    assert!(is_reported_error(&ForvoError::InvalidBase64));
}

#[test]
fn a_recording_from_the_requested_country_wins_wherever_it_comes() {
    let mut cache = AccentDistances::new();
    let list = vec![
        Ok(recording(Country::Uruguay, "uy", Language::Spanish)),
        Ok(recording(Country::Chile, "cl", Language::Spanish)),
        Ok(recording(Country::Argentina, "ar", Language::Spanish)),
        Ok(recording(Country::Paraguay, "py", Language::Spanish)),
        Ok(recording(Country::Argentina, "ar2", Language::Spanish)),
    ];
    let data = possible_recordings_to_data("pollo", Some(Country::Argentina), list, &mut cache);
    assert_eq!(data.len(), 1);
    match &data[0] {
        Ok(d) => {
            assert_eq!(d.country, Country::Argentina);
            assert_eq!(d.recording_link, "ar");
        },
        Err(e) => panic!("unexpected {e:?}"),
    }
    let own = recording(Country::Peru, "pe", Language::Spanish);
    assert_eq!(recording_to_distance(&own, Some(Country::Peru), &mut cache), 0);
    assert!(recording_to_distance(&own, Some(Country::Bolivia), &mut cache) > 0);
    let english = recording(Country::UnitedStates, "us", Language::English);
    assert_eq!(recording_to_distance(&english, None, &mut cache), 0);
}
