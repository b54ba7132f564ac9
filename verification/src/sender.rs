//! The request sender's response as shown to the user.
use vstd::prelude::*;

verus! {

broadcast use vstd::string::group_string_axioms;

/// The reason phrase of a status code: what `http::StatusCode::from_u16`
/// and then `canonical_reason` give; none for a code outside 100..=999 or
/// one without a known phrase.
pub uninterp spec fn canonical_reason(code: u16) -> Option<Seq<char>>;

/// `http::StatusCode::from_u16(code)` and its `canonical_reason()`. Claimed:
/// the phrase is the name `canonical_reason` of the code.
#[verifier::external_body]
fn reason_phrase(code: u16) -> (r: Option<String>)
    ensures
        match r {
            Some(t) => canonical_reason(code) == Some(t@),
            None => canonical_reason(code) is None,
        },
{
    http::StatusCode::from_u16(code).ok().and_then(|s| s.canonical_reason()).map(|t| t.to_string())
}

/// The text shown next to a status code: its reason phrase, or `Unknown`.
pub fn status_text(code: u16) -> (r: String)
    ensures
        r@ == match canonical_reason(code) {
            Some(t) => t,
            None => "Unknown"@,
        },
{
    match reason_phrase(code) {
        Some(t) => t,
        None => "Unknown".to_owned(),
    }
}

/// The text reads as a URI: `http::Uri::from_str` accepts it.
pub uninterp spec fn uri_parses(text: Seq<char>) -> bool;

/// The message of the error `http::Uri::from_str` gives for a text it
/// refuses, as the error's `Display` writes it.
pub uninterp spec fn uri_error_text(text: Seq<char>) -> Seq<char>;

/// `http::Uri::from_str`, keeping only whether it succeeded and the error's
/// message. Claimed: `Ok` exactly where the name `uri_parses` holds of the
/// text, and else the message named `uri_error_text` of the text.
#[verifier::external_body]
pub(crate) fn parse_uri(text: &str) -> (r: Result<(), String>)
    ensures
        r is Ok <==> uri_parses(text@),
        r matches Err(m) ==> m@ == uri_error_text(text@),
{
    match text.parse::<http::Uri>() {
        Ok(_) => Ok(()),
        Err(e) => Err(e.to_string()),
    }
}

/// Checks the URL of a request to send: refused, with the parser's message,
/// where it does not read as a URI.
pub fn validate_request_url(url: &str) -> (r: Result<(), String>)
    ensures
        r is Ok <==> uri_parses(url@),
        r matches Err(m) ==> m@ == uri_error_text(url@),
{
    parse_uri(url)
}

/// The response to a request sent from the sender.
pub struct SendResponse {
    pub status: u16,
    pub status_text: String,
    pub headers: Vec<(String, String)>,
    pub body: Vec<u8>,
    pub duration_ms: u64,
}

/// Assembles the sender's response: the status with its text, the headers,
/// the body and the elapsed time.
pub fn send_response(status: u16, headers: Vec<(String, String)>, body: Vec<u8>, duration_ms: u64) -> (r: SendResponse)
    ensures
        r.status == status,
        r.status_text@ == match canonical_reason(status) {
            Some(t) => t,
            None => "Unknown"@,
        },
        r.headers@ == headers@,
        r.body@ == body@,
        r.duration_ms == duration_ms,
{
    let status_text = status_text(status);
    SendResponse { status, status_text, headers, body, duration_ms }
}

} // verus!
