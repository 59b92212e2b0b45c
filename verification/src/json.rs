//! String fields of JSON texts.

use crate::text;
use vstd::prelude::*;

verus! {

/// The string that stands under `key` in the JSON object that `json` is the
/// text of: absent if the text is no JSON object, or holds no string there.
pub uninterp spec fn json_string(json: Seq<char>, key: Seq<char>) -> Option<Seq<char>>;

/// `serde_json::from_str` to a `serde_json::Value`, its `get` with the key, and
/// `as_str`. The result is a function of the two strings, named
/// [`json_string`]; nothing more is said of it.
#[verifier::external_body]
pub(crate) fn json_string_field(json: &str, key: &str) -> (r: Option<String>)
    ensures
        text::opt_text(r) == json_string(json@, key@),
{
    let value: serde_json::Value = serde_json::from_str(json).ok()?;
    value.get(key)?.as_str().map(|s| s.to_owned())
}

}
