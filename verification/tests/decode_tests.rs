use terminal_words::decode::decode_response;
use terminal_words::session::{evaluate_response, LookupError};

#[test]
fn test_deserialize_dictionary_response() {
    let json = r#"
    {
        "word": "hello",
        "phonetic": "/həˈloʊ/",
        "phonetics": [
            {"text": "/həˈloʊ/", "audio": "https://example.com/audio.mp3"}
        ],
        "meanings": [
            {
                "partOfSpeech": "noun",
                "definitions": [
                    {
                        "definition": "A greeting",
                        "example": "Hello, world!"
                    }
                ],
                "synonyms": ["hi", "hey"],
                "antonyms": ["goodbye"]
            }
        ],
        "license": {
            "name": "CC BY-SA 3.0",
            "url": "https://creativecommons.org/licenses/by-sa/3.0"
        },
        "sourceUrls": ["https://en.wiktionary.org/wiki/hello"]
    }
    "#;

    let results = decode_response(json).unwrap();
    assert_eq!(results.len(), 1);
    let response = &results[0];
    assert_eq!(response.word, "hello");
    assert_eq!(response.phonetic, Some("/həˈloʊ/".to_string()));
    assert_eq!(response.meanings.len(), 1);
    assert_eq!(response.meanings[0].part_of_speech, Some("noun".to_string()));
    assert_eq!(response.meanings[0].definitions.len(), 1);
    assert_eq!(response.meanings[0].definitions[0].definition, "A greeting");
    assert_eq!(
        response.meanings[0].definitions[0].example,
        Some("Hello, world!".to_string())
    );
}

#[test]
fn test_deserialize_minimal_response() {
    let json = r#"
    {
        "word": "test",
        "meanings": [
            {
                "definitions": [
                    {"definition": "A simple test"}
                ]
            }
        ]
    }
    "#;

    let results = decode_response(json).unwrap();
    assert_eq!(results.len(), 1);
    let response = &results[0];
    assert_eq!(response.word, "test");
    assert!(response.phonetic.is_none());
    assert!(response.phonetics.is_none());
    assert_eq!(response.meanings.len(), 1);
}

#[test]
fn test_deserialize_response_array() {
    let json = r#"
    [
        {
            "word": "hello",
            "meanings": [
                {
                    "partOfSpeech": "exclamation",
                    "definitions": [{"definition": "Used as a greeting"}]
                }
            ]
        }
    ]
    "#;

    let responses = decode_response(json).unwrap();
    assert_eq!(responses.len(), 1);
    assert_eq!(responses[0].word, "hello");
}

#[test]
fn minimal_object_decodes_with_all_optional_fields_absent() {
    let json = r#"{"word":"test","meanings":[{"definitions":[{"definition":"A simple test"}]}]}"#;
    let results = decode_response(json).unwrap();
    assert_eq!(results.len(), 1);
    let r = &results[0];
    assert_eq!(r.word, "test");
    assert!(r.phonetic.is_none());
    assert!(r.phonetics.is_none());
    assert!(r.license.is_none());
    assert!(r.source_urls.is_none());
    assert_eq!(r.meanings.len(), 1);
    let m = &r.meanings[0];
    assert!(m.part_of_speech.is_none());
    assert!(m.synonyms.is_none());
    assert!(m.antonyms.is_none());
    assert_eq!(m.definitions.len(), 1);
    let d = &m.definitions[0];
    assert_eq!(d.definition, "A simple test");
    assert!(d.example.is_none());
    assert!(d.synonyms.is_none());
    assert!(d.antonyms.is_none());
}

#[test]
fn missing_word_is_a_decode_error() {
    let json = r#"{"meanings":[{"definitions":[{"definition":"x"}]}]}"#;
    assert!(decode_response(json).is_err());
}

#[test]
fn missing_meanings_is_a_decode_error() {
    let json = r#"{"word":"test"}"#;
    assert!(decode_response(json).is_err());
}

#[test]
fn mistyped_definition_text_is_a_decode_error() {
    let json = r#"{"word":"test","meanings":[{"definitions":[{"definition":7}]}]}"#;
    assert!(decode_response(json).is_err());
}

#[test]
fn mistyped_optional_field_is_a_decode_error() {
    let json = r#"{"word":"test","phonetic":3,"meanings":[{"definitions":[{"definition":"x"}]}]}"#;
    assert!(decode_response(json).is_err());
}

#[test]
fn null_optional_fields_are_absent() {
    let json = r#"{"word":"test","phonetic":null,"phonetics":null,"license":null,
        "meanings":[{"definitions":[{"definition":"x","example":null}]}]}"#;
    let results = decode_response(json).unwrap();
    let r = &results[0];
    assert!(r.phonetic.is_none());
    assert!(r.phonetics.is_none());
    assert!(r.license.is_none());
    assert!(r.meanings[0].definitions[0].example.is_none());
}

#[test]
fn invalid_json_is_a_decode_error() {
    assert!(decode_response("not json at all {").is_err());
    assert!(decode_response("").is_err());
}

#[test]
fn non_object_payload_is_a_decode_error() {
    assert!(decode_response("42").is_err());
    assert!(decode_response("\"word\"").is_err());
}

#[test]
fn license_and_source_urls_are_decoded() {
    let json = r#"{"word":"w","meanings":[{"definitions":[{"definition":"d"}]}],
        "license":{"name":"L","url":"https://l.example"},
        "sourceUrls":["https://a.example","https://b.example"]}"#;
    let results = decode_response(json).unwrap();
    let r = &results[0];
    let license = r.license.as_ref().unwrap();
    assert_eq!(license.name, "L");
    assert_eq!(license.url, "https://l.example");
    assert_eq!(
        r.source_urls,
        Some(vec![
            "https://a.example".to_string(),
            "https://b.example".to_string()
        ])
    );
}

#[test]
fn http_failure_status_is_not_found_or_api_error() {
    let r = evaluate_response(false, "");
    assert_eq!(r.unwrap_err(), LookupError::NotFoundOrApiError);
}

#[test]
fn undecodable_body_on_success_status_is_a_decode_lookup_error() {
    let r = evaluate_response(true, "garbage");
    assert_eq!(r.unwrap_err(), LookupError::Decode);
}

#[test]
fn decodable_body_on_success_status_yields_entries() {
    let json = r#"[{"word":"hi","meanings":[{"definitions":[{"definition":"greeting"}]}]}]"#;
    let results = evaluate_response(true, json).unwrap();
    assert_eq!(results.len(), 1);
    assert_eq!(results[0].word, "hi");
}
