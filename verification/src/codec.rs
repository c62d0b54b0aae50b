//! Stores as bytes: a store file holds one JSON object whose keys are the
//! names and whose values are the texts.

use vstd::prelude::*;
use std::collections::BTreeMap;
use crate::error::{could_not, ErrorKind, StoreError};
use crate::mapping::{entries_map, names_valid, strictly_sorted, valid_name, Entry, Mapping};

verus! {

/// `serde_json::Error`, the failure of reading or writing JSON: carried
/// through as it comes, and looked into only for its words.
#[verifier::external_type_specification]
#[verifier::external_body]
pub struct ExJsonError(serde_json::Error);

/// The object of strings that `bytes` spell as JSON text, if they spell one:
/// what `serde_json::from_slice` reads out of them as a map from strings to
/// strings.
pub uninterp spec fn json_object(bytes: Seq<u8>) -> Option<Map<Seq<char>, Seq<char>>>;

/// The map that a sequence of pairs builds up when each pair in turn is put
/// under its name.
pub open spec fn pairs_map(pairs: Seq<(String, String)>) -> Map<Seq<char>, Seq<char>>
    decreases pairs.len(),
{
    if pairs.len() == 0 {
        Map::empty()
    } else {
        pairs_map(pairs.drop_last()).insert(pairs.last().0@, pairs.last().1@)
    }
}

/// The mapping that the bytes of a store hold: the JSON object they spell,
/// unless they spell none or one of its names is empty.
pub open spec fn stored(bytes: Seq<u8>) -> Option<Map<Seq<char>, Seq<char>>> {
    match json_object(bytes) {
        Some(map) => if names_valid(map) {
            Some(map)
        } else {
            None
        },
        None => None,
    }
}

/// Calls `serde_json::from_slice` for a map from strings to strings and
/// hands out the pairs of that map.
///
/// Trusted: `json_object` is the name of what this call reads. On success
/// the pairs handed out build up that object, and a failure means that the
/// bytes spell no object of strings.
#[verifier::external_body]
fn parse_object(bytes: &[u8]) -> (r: Result<Vec<(String, String)>, serde_json::Error>)
    ensures
        match r {
            Ok(pairs) => json_object(bytes@) == Some(pairs_map(pairs@)),
            Err(_) => json_object(bytes@) is None,
        },
{
    let object: BTreeMap<String, String> = serde_json::from_slice(bytes)?;
    Ok(object.into_iter().collect())
}

/// Calls `serde_json::to_vec` on the entries as a map from their names to
/// their texts.
///
/// Trusted: the call succeeds, since it fails only on a value that refuses
/// to be written or on a map whose keys are not strings, and a map from
/// strings to strings is neither; and the bytes written spell that map
/// again, so that `serde_json::from_slice` reads the same names and texts
/// out of them.
#[verifier::external_body]
fn write_object(entries: &Vec<Entry>) -> (r: Result<Vec<u8>, serde_json::Error>)
    requires
        strictly_sorted(entries@),
    ensures
        match r {
            Ok(bytes) => json_object(bytes@) == Some(entries_map(entries@)),
            Err(_) => false,
        },
{
    let object: BTreeMap<&str, &str> = entries.iter().map(
        |entry| (entry.name.as_str(), entry.text.as_str()),
    ).collect();
    serde_json::to_vec(&object)
}

/// Every name of the map that pairs build up is the name of one of them.
proof fn lemma_pairs_map_names(pairs: Seq<(String, String)>, name: Seq<char>)
    requires
        pairs_map(pairs).contains_key(name),
    ensures
        exists|i: int| 0 <= i < pairs.len() && (#[trigger] pairs[i]).0@ == name,
    decreases pairs.len(),
{
    if pairs.len() > 0 {
        if pairs.last().0@ == name {
            assert(pairs[pairs.len() - 1].0@ == name);
        } else {
            lemma_pairs_map_names(pairs.drop_last(), name);
            let i = choose|i: int|
                0 <= i < pairs.drop_last().len() && (#[trigger] pairs.drop_last()[i]).0@ == name;
            assert(pairs[i].0@ == name);
        }
    }
}

/// The name of every pair is a name of the map that the pairs build up.
proof fn lemma_pairs_map_holds(pairs: Seq<(String, String)>, i: int)
    requires
        0 <= i < pairs.len(),
    ensures
        pairs_map(pairs).contains_key(pairs[i].0@),
    decreases pairs.len(),
{
    if i < pairs.len() - 1 {
        lemma_pairs_map_holds(pairs.drop_last(), i);
    }
}

/// What reading a store of `bytes` comes to: the mapping that the bytes
/// hold, or, exactly when they hold none, a failure of the kind
/// `CorruptData` that says so.
pub open spec fn read_from(bytes: Seq<u8>, r: Result<Mapping, StoreError>) -> bool {
    match r {
        Ok(mapping) => stored(bytes) == Some(mapping@),
        Err(e) => {
            &&& stored(bytes) is None
            &&& e.kind == ErrorKind::CorruptData
            &&& exists|detail: Seq<char>| e.message@ == could_not("deserialize"@, detail)
        },
    }
}

/// What writing `map` comes to: bytes that hold `map`, always.
pub open spec fn written_for(map: Map<Seq<char>, Seq<char>>, r: Result<Vec<u8>, StoreError>) -> bool {
    match r {
        Ok(bytes) => stored(bytes@) == Some(map),
        Err(_) => false,
    }
}

/// Round trip: whatever bytes are written for a mapping, reading them gives
/// a mapping with the same names and the same text under each.
pub proof fn lemma_round_trip(
    map: Map<Seq<char>, Seq<char>>,
    written: Result<Vec<u8>, StoreError>,
    read: Result<Mapping, StoreError>,
)
    requires
        written_for(map, written),
        written matches Ok(bytes) ==> read_from(bytes@, read),
    ensures
        read matches Ok(mapping) && mapping@ == map,
{
}

/// Reads the mapping out of the bytes of a store.
///
/// Fails with `CorruptData` exactly when the bytes hold no mapping. The
/// diagnostic then ends in the JSON reader's own words, or says that a name
/// is empty.
pub fn deserialize(bytes: &[u8]) -> (r: Result<Mapping, StoreError>)
    ensures
        read_from(bytes@, r),
{
    match parse_object(bytes) {
        Err(error) => {
            let detail = error.to_string();
            Err(StoreError::corrupt(detail.as_str()))
        },
        Ok(pairs) => {
            let mut mapping = Mapping::new();
            let mut i: usize = 0;
            while i < pairs.len()
                invariant
                    i <= pairs@.len(),
                    json_object(bytes@) == Some(pairs_map(pairs@)),
                    mapping@ == pairs_map(pairs@.take(i as int)),
                    forall|j: int| 0 <= j < i ==> valid_name((#[trigger] pairs@[j]).0@),
                decreases pairs@.len() - i,
            {
                if pairs[i].0.as_str().is_empty() {
                    let e = StoreError::corrupt("a name is empty");
                    proof {
                        lemma_pairs_map_holds(pairs@, i as int);
                        assert(!valid_name(pairs@[i as int].0@));
                    }
                    return Err(e);
                }
                proof {
                    assert(pairs@.take(i + 1).drop_last() =~= pairs@.take(i as int));
                }
                mapping.insert(pairs[i].0.clone(), pairs[i].1.clone());
                i = i + 1;
            }
            proof {
                assert(pairs@.take(i as int) =~= pairs@);
                assert forall|name: Seq<char>| mapping@.contains_key(name) implies valid_name(
                    name,
                ) by {
                    lemma_pairs_map_names(pairs@, name);
                }
            }
            Ok(mapping)
        },
    }
}

/// Writes the mapping as the bytes of a store.
///
/// Always succeeds, and the bytes hold the mapping again.
pub fn serialize(mapping: &Mapping) -> (r: Result<Vec<u8>, StoreError>)
    ensures
        written_for(mapping@, r),
{
    let entries = mapping.entries();
    match write_object(entries) {
        Ok(bytes) => Ok(bytes),
        Err(error) => {
            let detail = error.to_string();
            Err(StoreError::write_failed(detail.as_str()))
        },
    }
}

} // verus!
