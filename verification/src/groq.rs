//! The vision service's reply: the model's answer in a chat-completions
//! response, without surrounding white space.

use vstd::prelude::*;
use crate::text::{trim_white, trimmed};

verus! {

/// What a chat-completions reply holds at `choices[0].message.content`:
/// `None` when the text is not JSON, `Some(None)` when it is JSON but that
/// field is missing or is not a string.
pub uninterp spec fn groq_content(text: Seq<char>) -> Option<Option<Seq<char>>>;

/// `serde_json::from_str::<Value>` on the reply text, then the string at
/// `choices[0].message.content`. The result is named by `groq_content`; the
/// `Err` string is serde_json's description of the parse error, whose
/// wording is not stated.
#[verifier::external_body]
pub(crate) fn groq_content_of(text: &str) -> (c: Result<Option<String>, String>)
    ensures
        c is Ok <==> groq_content(text@) is Some,
        c matches Ok(o) ==> groq_content(text@) == Some(
            match o {
                Some(t) => Some(t@),
                None => None,
            },
        ),
{
    match serde_json::from_str::<serde_json::Value>(text) {
        Ok(v) => Ok(v["choices"][0]["message"]["content"].as_str().map(str::to_string)),
        Err(e) => Err(e.to_string()),
    }
}

/// Prefix of the error reported when the reply is not JSON.
pub const GROQ_PARSE_ERROR: &'static str = "[flowmeter] Groq JSON parse error: ";
/// Prefix of the error reported when the reply has no text content.
pub const GROQ_SHAPE_ERROR: &'static str = "[flowmeter] unexpected Groq response shape: ";

/// The model's answer given the decoded reply `content` of the reply `text`:
/// the content without surrounding white space; the parse error, or the
/// whole reply when it has no text content, otherwise.
pub fn groq_reply(text: &str, content: Result<Option<String>, String>) -> (r: Result<String, String>)
    ensures
        match content {
            Ok(Some(c)) => r matches Ok(t) && t@ == trimmed(c@),
            Ok(None) => r matches Err(e) && e@ == GROQ_SHAPE_ERROR@ + text@,
            Err(p) => r matches Err(e) && e@ == GROQ_PARSE_ERROR@ + p@,
        },
{
    match content {
        Ok(Some(c)) => Ok(String::from_str(trim_white(c.as_str()))),
        Ok(None) => Err(String::from_str(GROQ_SHAPE_ERROR).concat(text)),
        Err(p) => Err(String::from_str(GROQ_PARSE_ERROR).concat(p.as_str())),
    }
}

/// The model's answer in a chat-completions reply: the text at
/// `choices[0].message.content` without surrounding white space. A reply
/// that is not JSON gives the parse error; one without that text gives the
/// shape error with the whole reply.
pub fn groq_reading(text: &str) -> (r: Result<String, String>)
    ensures
        r is Ok <==> groq_content(text@) matches Some(Some(_)),
        groq_content(text@) matches Some(Some(c)) ==> (r matches Ok(t) && t@ == trimmed(c)),
        groq_content(text@) == Some(None::<Seq<char>>) ==> (r matches Err(e) && e@ == GROQ_SHAPE_ERROR@
            + text@),
        groq_content(text@) is None ==> (r matches Err(e) && exists|p: Seq<char>| e@ == GROQ_PARSE_ERROR@ + p),
{
    let content = groq_content_of(text);
    let ghost c = content;
    let r = groq_reply(text, content);
    proof {
        match c {
            Err(p) => {
                assert(r matches Err(e) && e@ == GROQ_PARSE_ERROR@ + p@);
            },
            _ => {},
        }
    }
    r
}

} // verus!
