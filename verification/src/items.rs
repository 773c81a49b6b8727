//! Items: what spiders extract.  Inside the library an item travels as its
//! JSON serialization.
use vstd::prelude::*;

verus! {

/// An item on its way through the pipelines, held as its JSON serialization.
#[derive(Clone, Debug)]
pub struct ItemBox {
    pub json: Vec<u8>,
}

impl ItemBox {
    /// The item whose JSON serialization these bytes are.
    pub fn from_json(json: Vec<u8>) -> (r: Self)
        ensures
            r.json == json,
    {
        ItemBox { json }
    }

    /// The item's JSON serialization.
    pub fn json(&self) -> (r: &Vec<u8>)
        ensures
            *r == self.json,
    {
        &self.json
    }
}

/// A placeholder item with no field.
#[derive(Clone, Copy, Debug)]
pub struct Item {}

impl Default for Item {
    fn default() -> (r: Self)
        ensures
            r == (Item {}),
    {
        Item {}
    }
}

/// What `serde_json` finds at the top of a JSON text: `None` where the
/// bytes are not JSON, `Some(None)` where the value is not an object, and
/// `Some(Some(keys))` with the keys of an object.
pub uninterp spec fn json_object_keys(json: Seq<u8>) -> Option<Option<Seq<Seq<char>>>>;

pub open spec fn keys_view(o: Option<Option<Vec<String>>>) -> Option<Option<Seq<Seq<char>>>> {
    match o {
        None => None,
        Some(None) => Some(None),
        Some(Some(v)) => Some(Some(v@.map_values(|s: String| s@))),
    }
}

/// Parses the bytes with `serde_json::from_slice` into a
/// `serde_json::Value` and, for an object, lists its keys.  The contract
/// claims only that the result is the named [`json_object_keys`].
#[verifier::external_body]
pub fn parse_json_object_keys(json: &[u8]) -> (r: Option<Option<Vec<String>>>)
    ensures
        keys_view(r) == json_object_keys(json@),
{
    match serde_json::from_slice::<serde_json::Value>(json) {
        Err(_) => None,
        Ok(serde_json::Value::Object(map)) => Some(Some(map.into_iter().map(|(k, _)| k).collect())),
        Ok(_) => Some(None),
    }
}

} // verus!
