//! JSON output.

use vstd::prelude::*;
use vstd::string::StringExecFns;

verus! {

/// Renders the entries as pretty-printed JSON.
pub struct JsonRenderer;

/// The text shown when the entries could not be serialised, for the reason
/// `reason`.
pub open spec fn json_failure_text(reason: Seq<char>) -> Seq<char> {
    "{\"error\": \"Failed to serialize: "@ + reason + "\"}"@
}

impl JsonRenderer {
    /// The output for the outcome of serialising the entries: the JSON text
    /// itself, or a JSON object that names the reason it failed.
    pub fn render(&self, serialized: Result<String, String>) -> (r: String)
        ensures
            match serialized {
                Ok(text) => r == text,
                Err(reason) => r@ == json_failure_text(reason@),
            },
    {
        match serialized {
            Ok(text) => text,
            Err(reason) => {
                let mut s = String::from_str("{\"error\": \"Failed to serialize: ");
                s.append(reason.as_str());
                s.append("\"}");
                s
            },
        }
    }
}

} // verus!
