use vstd::prelude::*;
use crate::http::HttpMethod;

verus! {

/// The error of `serde_json`, carried through and never looked into.
#[verifier::external_type_specification]
#[verifier::external_body]
pub struct ExJsonError(serde_json::Error);

/// What `serde_json::to_string` makes of a text: the text as a JSON
/// string, in double quotes and with its escapes.
pub uninterp spec fn json_string(text: Seq<char>) -> Seq<char>;

/// Whether every character of `text` stands in a JSON string as it
/// is: none is a control character, a double quote or a backslash.
pub open spec fn unescaped(text: Seq<char>) -> bool {
    forall|i: int|
        0 <= i < text.len() ==> (#[trigger] text[i]) as u32 >= 32 && text[i] != '"' && text[i]
            != '\\'
}

/// A text between double quotes.
pub open spec fn quoted(text: Seq<char>) -> Seq<char> {
    seq!['"'] + text + seq!['"']
}

/// `serde_json::to_string`, called on a text. It writes into a vector
/// of its own, and a text is serialised by writing it, so the call
/// succeeds. Its result is the one that `json_string` names; a text
/// that needs no escapes comes back between double quotes.
#[verifier::external_body]
pub(crate) fn to_json_string(text: &str) -> (r: Result<String, serde_json::Error>)
    ensures
        r is Ok,
        r matches Ok(s) ==> s@ == json_string(text@),
        r matches Ok(s) ==> (unescaped(text@) ==> s@ == quoted(text@)),
{
    serde_json::to_string(text)
}

/// Why a value has no JSON form.
#[derive(Clone, Copy, Debug, PartialEq, Eq, Structural)]
pub enum EncodeError {
    /// The encoder refused the value.
    Refused,
}

/// The outcome of an encoding, with the encoder's error replaced by
/// this library's.
pub fn encoded(result: Result<String, serde_json::Error>) -> (r: Result<String, EncodeError>)
    ensures
        match result {
            Ok(s) => r == Ok::<String, EncodeError>(s),
            Err(_) => r == Err::<String, EncodeError>(EncodeError::Refused),
        },
{
    match result {
        Ok(s) => Ok(s),
        Err(_) => Err(EncodeError::Refused),
    }
}

impl HttpMethod {
    /// The method as it is shown and serialised: its name as a JSON
    /// string, which is the name between double quotes.
    pub fn to_string(&self) -> (r: Result<String, EncodeError>)
        ensures
            r is Ok,
            r->Ok_0@ == json_string(self.spec_name()),
            r->Ok_0@ == quoted(self.spec_name()),
    {
        proof {
            reveal_strlit("GET");
            reveal_strlit("POST");
            reveal_strlit("OPTIONS");
            assert(unescaped(self.spec_name()));
        }
        encoded(to_json_string(self.name()))
    }
}

} // verus!
