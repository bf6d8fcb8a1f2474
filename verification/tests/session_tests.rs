use terminal_words::session::{
    choose_mode, is_exit_command, lookup_url, session_step, LookupError, SessionAction,
    SessionInput, StartMode,
};

#[test]
fn mode_choice_prefers_interactive_then_word_then_usage() {
    assert!(matches!(choose_mode(None, true), StartMode::Interactive));
    assert!(matches!(
        choose_mode(Some("w".to_string()), true),
        StartMode::Interactive
    ));
    match choose_mode(Some("w".to_string()), false) {
        StartMode::Single(w) => assert_eq!(w, "w"),
        _ => panic!("expected the single-word mode"),
    }
    assert!(matches!(choose_mode(None, false), StartMode::Usage));
}

#[test]
fn test_exit_commands() {
    assert!(is_exit_command("q"));
    assert!(is_exit_command("quit"));
    assert!(is_exit_command("exit"));
}

#[test]
fn test_non_exit_commands() {
    assert!(!is_exit_command("hello"));
    assert!(!is_exit_command(""));
    assert!(!is_exit_command("quit "));
    assert!(!is_exit_command("Q"));
}

#[test]
fn exit_matching_is_case_sensitive_and_exact() {
    assert!(is_exit_command("quit"));
    assert!(!is_exit_command("Quit"));
    assert!(!is_exit_command("QUIT"));
    assert!(!is_exit_command("Exit"));
    assert!(!is_exit_command("qq"));
}

#[test]
fn a_word_line_is_looked_up_trimmed() {
    let a = session_step(SessionInput::Line("  coffee \n".to_string()));
    match a {
        SessionAction::Lookup(w) => assert_eq!(w, "coffee"),
        other => panic!("expected a lookup, got {:?}", other),
    }
}

#[test]
fn blank_input_is_ignored() {
    assert!(matches!(
        session_step(SessionInput::Line("".to_string())),
        SessionAction::Ignore
    ));
    assert!(matches!(
        session_step(SessionInput::Line("   \t  ".to_string())),
        SessionAction::Ignore
    ));
    assert!(matches!(
        session_step(SessionInput::Line("\n".to_string())),
        SessionAction::Ignore
    ));
}

#[test]
fn exit_token_lines_quit_the_session() {
    assert!(matches!(
        session_step(SessionInput::Line("quit\n".to_string())),
        SessionAction::Quit
    ));
    assert!(matches!(
        session_step(SessionInput::Line("  q  ".to_string())),
        SessionAction::Quit
    ));
    assert!(matches!(
        session_step(SessionInput::Line("exit".to_string())),
        SessionAction::Quit
    ));
}

#[test]
fn a_non_exit_token_resembling_one_is_looked_up() {
    match session_step(SessionInput::Line("Quit".to_string())) {
        SessionAction::Lookup(w) => assert_eq!(w, "Quit"),
        other => panic!("expected a lookup, got {:?}", other),
    }
}

#[test]
fn end_of_input_quits_and_read_failure_aborts() {
    assert!(matches!(
        session_step(SessionInput::EndOfInput),
        SessionAction::Quit
    ));
    assert!(matches!(
        session_step(SessionInput::ReadFailure),
        SessionAction::Abort
    ));
}

#[test]
fn hello_then_quit_is_one_lookup_then_a_graceful_end() {
    let mut lookups: Vec<String> = Vec::new();
    let mut quit = false;
    for line in ["hello", "quit"] {
        match session_step(SessionInput::Line(line.to_string())) {
            SessionAction::Lookup(w) => lookups.push(w),
            SessionAction::Quit => {
                quit = true;
                break;
            },
            other => panic!("unexpected action {:?}", other),
        }
    }
    assert_eq!(lookups, vec!["hello".to_string()]);
    assert!(quit);
}

#[test]
fn lookup_url_substitutes_the_word_verbatim() {
    assert_eq!(
        lookup_url("hello"),
        "https://api.dictionaryapi.dev/api/v2/entries/en/hello"
    );
    assert_eq!(
        lookup_url("ice cream"),
        "https://api.dictionaryapi.dev/api/v2/entries/en/ice cream"
    );
}

#[test]
fn error_messages_are_single_fixed_lines() {
    assert_eq!(
        LookupError::NotFoundOrApiError.message(),
        "Word not found or API error"
    );
    assert_eq!(LookupError::Decode.message(), "Failed to decode response");
}
