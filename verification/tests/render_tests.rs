use terminal_words::decode::decode_response;
use terminal_words::model::{Definition, DisplayOptions, LookupResult, Meaning};
use terminal_words::render::{format_list, render};

fn definition(text: &str) -> Definition {
    Definition {
        definition: text.to_string(),
        example: None,
        synonyms: None,
        antonyms: None,
    }
}

#[test]
fn test_format_list_with_items() {
    let items = Some(vec!["a".to_string(), "b".to_string(), "c".to_string()]);
    assert_eq!(format_list(&items), Some("a, b, c".to_string()));
}

#[test]
fn test_format_list_with_single_item() {
    let items = Some(vec!["only".to_string()]);
    assert_eq!(format_list(&items), Some("only".to_string()));
}

#[test]
fn test_format_list_with_empty_vec() {
    let items: Option<Vec<String>> = Some(vec![]);
    assert_eq!(format_list(&items), None);
}

#[test]
fn test_format_list_with_none() {
    let items: Option<Vec<String>> = None;
    assert_eq!(format_list(&items), None);
}

#[test]
fn five_definitions_with_limit_three_render_three_numbered_lines_and_a_hint() {
    let meaning = Meaning {
        part_of_speech: Some("noun".to_string()),
        definitions: vec![
            definition("one"),
            definition("two"),
            definition("three"),
            definition("four"),
            definition("five"),
        ],
        synonyms: None,
        antonyms: None,
    };
    let result = LookupResult {
        word: "w".to_string(),
        phonetic: None,
        phonetics: None,
        meanings: vec![meaning],
        license: None,
        source_urls: None,
    };
    let options = DisplayOptions { detailed: false, limit: 3 };
    let lines = render(&result, &options);
    let numbered: Vec<&String> = lines
        .iter()
        .filter(|l| {
            let cs: Vec<char> = l.chars().collect();
            cs.len() >= 3 && cs[0] == ' ' && cs[1] == ' ' && cs[2].is_ascii_digit()
        })
        .collect();
    assert_eq!(numbered.len(), 3);
    assert_eq!(numbered[0], "  1. one");
    assert_eq!(numbered[1], "  2. two");
    assert_eq!(numbered[2], "  3. three");
    let hints: Vec<&String> = lines
        .iter()
        .filter(|l| l.contains("(+2 more, use -d for all)"))
        .collect();
    assert_eq!(hints.len(), 1);
    assert_eq!(hints[0], "     ... (+2 more, use -d for all)");
}

#[test]
fn detailed_rendering_shows_everything_and_first_source_url() {
    let json = r#"{
        "word": "hello",
        "phonetic": "/h/",
        "phonetics": [{"text": "/h1/"}, {"audio": "a.mp3"}, {"text": "/h2/"}],
        "meanings": [{
            "partOfSpeech": "noun",
            "definitions": [
                {"definition": "first", "example": "e1", "synonyms": ["s1", "s2"], "antonyms": ["a1"]},
                {"definition": "second", "example": "e2"}
            ],
            "synonyms": ["ms1", "ms2"],
            "antonyms": ["ma1"]
        }],
        "sourceUrls": ["https://first.example", "https://second.example"]
    }"#;
    let results = decode_response(json).unwrap();
    let options = DisplayOptions { detailed: true, limit: 1 };
    let lines = render(&results[0], &options);
    assert!(lines.contains(&"Word: hello".to_string()));
    assert!(lines.contains(&"Phonetic: /h/".to_string()));
    assert!(lines.contains(&"Pronunciation: /h1/".to_string()));
    assert!(lines.contains(&"Pronunciation: /h2/".to_string()));
    assert!(lines.contains(&"Part of speech: noun".to_string()));
    assert!(lines.contains(&"  1. first".to_string()));
    assert!(lines.contains(&"  2. second".to_string()));
    assert!(lines.contains(&"     Example: e1".to_string()));
    assert!(lines.contains(&"     Example: e2".to_string()));
    assert!(lines.contains(&"     Synonyms: s1, s2".to_string()));
    assert!(lines.contains(&"     Antonyms: a1".to_string()));
    assert!(lines.contains(&"  Synonyms: ms1, ms2".to_string()));
    assert!(lines.contains(&"  Antonyms: ma1".to_string()));
    assert!(lines.contains(&"Source: https://first.example".to_string()));
    assert!(!lines.contains(&"Source: https://second.example".to_string()));
}

#[test]
fn summary_rendering_shows_example_only_on_first_definition() {
    let json = r#"{"word":"w","meanings":[{"definitions":[
        {"definition":"first","example":"e1"},
        {"definition":"second","example":"e2"}
    ]}]}"#;
    let results = decode_response(json).unwrap();
    let options = DisplayOptions { detailed: false, limit: 3 };
    let lines = render(&results[0], &options);
    assert!(lines.contains(&"     Example: e1".to_string()));
    assert!(!lines.contains(&"     Example: e2".to_string()));
    assert!(!lines.iter().any(|l| l.contains("more, use -d for all")));
}

#[test]
fn summary_rendering_hides_synonym_and_antonym_lists() {
    let json = r#"{"word":"w","meanings":[{"definitions":[
        {"definition":"first","synonyms":["s1"]}],"synonyms":["ms1"]}]}"#;
    let results = decode_response(json).unwrap();
    let options = DisplayOptions { detailed: false, limit: 3 };
    let lines = render(&results[0], &options);
    assert!(!lines.iter().any(|l| l.contains("Synonyms:")));
}

#[test]
fn rendering_has_exact_header_and_meaning_lines_in_order() {
    let json = r#"{"word":"tea","phonetic":"/ti/","meanings":[{
        "partOfSpeech":"noun",
        "definitions":[{"definition":"a drink"}]
    }]}"#;
    let results = decode_response(json).unwrap();
    let options = DisplayOptions { detailed: false, limit: 3 };
    let lines = render(&results[0], &options);
    let expected = vec![
        "".to_string(),
        "Word: tea".to_string(),
        "Phonetic: /ti/".to_string(),
        "".to_string(),
        "Part of speech: noun".to_string(),
        "  1. a drink".to_string(),
        "".to_string(),
    ];
    assert_eq!(lines, expected);
}

#[test]
fn absent_part_of_speech_renders_as_unknown() {
    let json = r#"{"word":"w","meanings":[{"definitions":[{"definition":"d"}]}]}"#;
    let results = decode_response(json).unwrap();
    let options = DisplayOptions { detailed: false, limit: 3 };
    let lines = render(&results[0], &options);
    assert!(lines.contains(&"Part of speech: unknown".to_string()));
}

#[test]
fn numbering_reaches_two_digits_in_detailed_mode() {
    let mut defs = Vec::new();
    for i in 0..12 {
        defs.push(definition(&format!("d{}", i)));
    }
    let result = LookupResult {
        word: "w".to_string(),
        phonetic: None,
        phonetics: None,
        meanings: vec![Meaning {
            part_of_speech: None,
            definitions: defs,
            synonyms: None,
            antonyms: None,
        }],
        license: None,
        source_urls: None,
    };
    let options = DisplayOptions { detailed: true, limit: 3 };
    let lines = render(&result, &options);
    assert!(lines.contains(&"  10. d9".to_string()));
    assert!(lines.contains(&"  12. d11".to_string()));
}

#[test]
fn source_url_needs_detailed_mode() {
    let json = r#"{"word":"w","meanings":[{"definitions":[{"definition":"d"}]}],
        "sourceUrls":["https://only.example"]}"#;
    let results = decode_response(json).unwrap();
    let summary = render(&results[0], &DisplayOptions { detailed: false, limit: 3 });
    assert!(!summary.iter().any(|l| l.starts_with("Source: ")));
    let detailed = render(&results[0], &DisplayOptions { detailed: true, limit: 3 });
    assert!(detailed.contains(&"Source: https://only.example".to_string()));
}
