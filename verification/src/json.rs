//! The one question this library asks of a JSON document: the keys of an
//! object member. Parsing is serde_json's.
use vstd::prelude::*;
use crate::text::views;

verus! {

/// The keys of the object that is the member `field` of the JSON document
/// `body`, in the order serde_json's map yields them; `None` when `body` is
/// not a JSON document, is not an object, has no member `field`, or that
/// member is not an object.
pub uninterp spec fn json_member_keys(body: Seq<char>, field: Seq<char>) -> Option<Seq<Seq<char>>>;

/// Parses `body` with `serde_json::from_str::<serde_json::Value>` and reads
/// the keys of the object member `field` (`Value::get`, `Value::as_object`,
/// `Map::keys`). Trusted: the result is `json_member_keys(body, field)`, a
/// function of the two strings alone; what that function is on given
/// strings is not stated.
#[verifier::external_body]
pub(crate) fn member_object_keys(body: &str, field: &str) -> (r: Option<Vec<String>>)
    ensures
        match r {
            Some(v) => json_member_keys(body@, field@) == Some(views(v@)),
            None => json_member_keys(body@, field@) is None,
        },
{
    let doc: serde_json::Value = serde_json::from_str(body).ok()?;
    let members = doc.get(field)?.as_object()?;
    Some(members.keys().cloned().collect())
}

} // verus!
