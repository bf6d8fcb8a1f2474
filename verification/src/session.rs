//! The session's decisions: what one line of interactive input leads to,
//! how a transport response is turned into decoded entries, and the request
//! target for a word.

use vstd::prelude::*;

use crate::decode::{decode_response, spec_decode_payload};
use crate::json::json_of;
use crate::model::LookupResult;
use crate::text::{is_ws_char, trim, trimmed, str_eq};

verus! {

/// Tells whether an interactive input line asks the session to end.
/// Matching is exact and case-sensitive.
pub open spec fn is_exit_input(s: Seq<char>) -> bool {
    s == "q"@ || s == "quit"@ || s == "exit"@
}

/// Exactly `q`, `quit` and `exit` end the session; nothing else does.
pub fn is_exit_command(input: &str) -> (r: bool)
    ensures
        r == is_exit_input(input@),
{
    str_eq(input, "q") || str_eq(input, "quit") || str_eq(input, "exit")
}

/// One read from the interactive prompt.
pub enum SessionInput {
    /// A line was read (its line break already removed).
    Line(String),
    /// The input ended; no more lines will come.
    EndOfInput,
    /// The input could not be read.
    ReadFailure,
}

/// What the session does next after one read.
#[derive(Debug)]
pub enum SessionAction {
    /// Look the word up and show the entries.
    Lookup(String),
    /// Do nothing and prompt again.
    Ignore,
    /// Say farewell and end the session gracefully.
    Quit,
    /// Report the read failure and end the session.
    Abort,
}

/// Decides what one read of interactive input leads to: end of input ends
/// the session gracefully, a failed read ends it with an error, blank input
/// is ignored, an exit command ends it gracefully, and anything else is
/// looked up once, trimmed of surrounding whitespace.
pub fn session_step(input: SessionInput) -> (a: SessionAction)
    ensures
        input is EndOfInput ==> a is Quit,
        input is ReadFailure ==> a is Abort,
        input matches SessionInput::Line(s) ==> {
            &&& trimmed(s@).len() == 0 ==> a is Ignore
            &&& trimmed(s@).len() > 0 && is_exit_input(trimmed(s@)) ==> a is Quit
            &&& trimmed(s@).len() > 0 && !is_exit_input(trimmed(s@)) ==> (a matches
                SessionAction::Lookup(w) && w@ == trimmed(s@))
        },
{
    match input {
        SessionInput::EndOfInput => SessionAction::Quit,
        SessionInput::ReadFailure => SessionAction::Abort,
        SessionInput::Line(line) => {
            let word = trim(line.as_str());
            if word.is_empty() {
                SessionAction::Ignore
            } else if is_exit_command(word) {
                SessionAction::Quit
            } else {
                SessionAction::Lookup(String::from_str(word))
            }
        },
    }
}

/// Input that is nothing but whitespace trims to nothing — together with
/// `session_step`, such input never triggers a lookup and never ends the
/// session.
pub proof fn lemma_whitespace_only_is_ignored(s: Seq<char>)
    requires
        forall|k: int| 0 <= k < s.len() ==> is_ws_char(s[k]),
    ensures
        trimmed(s).len() == 0,
{
    crate::text::lemma_trim_front_all_ws(s);
}

/// How the program runs, decided once at startup.
pub enum StartMode {
    /// Read words from the prompt until an exit command or end of input.
    Interactive,
    /// Look one word up and end.
    Single(String),
    /// Neither a word nor the interactive flag was given: report usage and
    /// end with a failure.
    Usage,
}

/// Decides the mode from the invocation: the interactive flag wins, then a
/// given word, and with neither the invocation is a usage error.
pub fn choose_mode(word: Option<String>, interactive: bool) -> (m: StartMode)
    ensures
        interactive ==> m is Interactive,
        !interactive && word is Some ==> (m matches StartMode::Single(w) && Some(w)
            == word),
        !interactive && word is None ==> m is Usage,
{
    if interactive {
        StartMode::Interactive
    } else {
        match word {
            Some(w) => StartMode::Single(w),
            None => StartMode::Usage,
        }
    }
}

/// Why a lookup failed.
#[derive(Clone, Copy, Debug, PartialEq, Eq, Structural)]
pub enum LookupError {
    /// The transport answered with a non-success status: the word is unknown
    /// or the service failed; the two are not told apart.
    NotFoundOrApiError,
    /// The response body does not have the expected shape.
    Decode,
}

impl LookupError {
    /// The single line reported for this error.
    pub fn message(&self) -> (m: String)
        ensures
            self is NotFoundOrApiError ==> m@ == "Word not found or API error"@,
            self is Decode ==> m@ == "Failed to decode response"@,
    {
        match self {
            LookupError::NotFoundOrApiError => String::from_str("Word not found or API error"),
            LookupError::Decode => String::from_str("Failed to decode response"),
        }
    }
}

/// The request target for a word: the word substituted verbatim into the
/// fixed entries path.
pub fn lookup_url(word: &str) -> (url: String)
    ensures
        url@ == "https://api.dictionaryapi.dev/api/v2/entries/en/"@ + word@,
{
    let mut url = String::from_str("https://api.dictionaryapi.dev/api/v2/entries/en/");
    url.append(word);
    url
}

/// Turns one transport answer into decoded entries: a non-success status is
/// the not-found error, a body that does not parse or decode is the decode
/// error, and anything else yields every decoded entry, in order.
pub fn evaluate_response(status_ok: bool, body: &str) -> (r: Result<
    Vec<LookupResult>,
    LookupError,
>)
    ensures
        !status_ok ==> (r matches Err(e) && e is NotFoundOrApiError),
        status_ok ==> match json_of(body@) {
            Some(jv) => {
                &&& (r matches Ok(v) ==> spec_decode_payload(jv) == Some(v.deep_view()))
                &&& (r is Err <==> spec_decode_payload(jv) is None)
                &&& (r matches Err(e) ==> e is Decode)
            },
            None => r matches Err(e) && e is Decode,
        },
{
    if !status_ok {
        return Err(LookupError::NotFoundOrApiError);
    }
    match decode_response(body) {
        Ok(v) => Ok(v),
        Err(_) => Err(LookupError::Decode),
    }
}

} // verus!
