use vstd::prelude::*;
use crate::proto::{Entry, Field, FieldRepr, JsonEntry, RawEntry, fields_view, fields_sorted};

verus! {

/// What decoding one input line as a JSON object of string-keyed,
/// string-valued fields yields: the fields sorted ascending by name with
/// duplicate names collapsed, or nothing if the line is not such an object.
/// The result depends on the bytes alone.
pub uninterp spec fn json_fields_of(bytes: Seq<u8>) -> Option<Seq<FieldRepr>>;

/// Relies on serde_json::from_slice deserializing into a
/// std::collections::BTreeMap<String, String>: deterministic in the input
/// bytes, it succeeds exactly on a JSON object of string-to-string fields,
/// and the map iterates its entries with unique keys in ascending order of
/// the standard String order, which is lexicographic over the UTF-8 bytes.
#[verifier::external_body]
fn decode_fields(bytes: &Vec<u8>) -> (r: Option<Vec<Field>>)
    ensures
        r is Some <==> json_fields_of(bytes@) is Some,
        r matches Some(fs) ==> {
            &&& Some(fields_view(fs@)) == json_fields_of(bytes@)
            &&& fields_sorted(fields_view(fs@))
        },
{
    match serde_json::from_slice::<std::collections::BTreeMap<String, String>>(&bytes[..]) {
        Ok(m) => Some(m.into_iter().map(|(k, v)| (k.into_bytes(), v.into_bytes())).collect()),
        Err(_) => None,
    }
}

/// The raw payload kept for an undecodable line: the line with one trailing
/// carriage-return/newline pair stripped.
pub open spec fn strip_crlf(b: Seq<u8>) -> Seq<u8> {
    if b.len() >= 2 && b[b.len() - 2] == 13 && b[b.len() - 1] == 10 {
        b.take(b.len() - 2)
    } else {
        b
    }
}

/// Decodes one input line into an entry. A line that parses as a JSON object
/// of string fields becomes a structured entry with its fields sorted by
/// name; any other line becomes an opaque entry of its bytes with a trailing
/// carriage-return/newline pair stripped. Decoding never fails outward.
pub fn parse_entry(bytes: Vec<u8>) -> (r: Entry)
    ensures
        r.wf(),
        json_fields_of(bytes@) matches Some(fs) ==> r.is_json() && r.fields() == fs,
        json_fields_of(bytes@) is None ==> !r.is_json() && r.raw_bytes() == strip_crlf(bytes@),
{
    match decode_fields(&bytes) {
        Some(fields) => Entry::Json(JsonEntry(fields)),
        None => {
            let mut bytes = bytes;
            let n = bytes.len();
            if n >= 2 && bytes[n - 2] == 13 && bytes[n - 1] == 10 {
                bytes.truncate(n - 2);
            }
            Entry::Raw(RawEntry(bytes))
        },
    }
}

} // verus!
