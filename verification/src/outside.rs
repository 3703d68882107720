//! Calls into outside crates that only compute.

use subtle::ConstantTimeEq;
use vstd::prelude::*;

verus! {

/// `ct_eq` of the `subtle` crate on octets: whether two stretches have the same length and
/// the same octets. That it takes the same time whatever the octets are is not stated.
#[verifier::external_body]
pub(crate) fn ct_eq(a: &[u8], b: &[u8]) -> (r: bool)
    ensures
        r == (a@ == b@),
{
    a.ct_eq(b).into()
}

/// `random` of the `rand` crate: any number.
#[verifier::external_body]
pub(crate) fn random_u128() -> u128 {
    rand::random::<u128>()
}

/// `random` of the `rand` crate: any sixteen octets.
#[verifier::external_body]
pub(crate) fn random_octets() -> [u8; 16] {
    rand::random::<[u8; 16]>()
}

/// Whether `from_str` of the `serde_json` crate takes a text for JSON.
pub uninterp spec fn json_valid(text: Seq<char>) -> bool;

/// `serde_json::from_str` into a JSON value: whether it succeeds.
#[verifier::external_body]
pub(crate) fn json_is_valid(text: &str) -> (r: bool)
    ensures
        r == json_valid(text@),
{
    serde_json::from_str::<serde_json::Value>(text).is_ok()
}

/// The items of the array that a JSON pointer leads to in a JSON text, each as JSON text;
/// nothing where the text is not JSON or the pointer leads to no array.
pub uninterp spec fn json_items(text: Seq<char>, pointer: Seq<char>) -> Option<Seq<Seq<char>>>;

/// `Value::pointer` and `Value::as_array` of the `serde_json` crate on a JSON text.
#[verifier::external_body]
pub(crate) fn json_array(text: &str, pointer: &str) -> (r: Option<Vec<String>>)
    ensures
        match r {
            Some(v) => json_items(text@, pointer@) == Some(crate::text::texts(v@)),
            None => json_items(text@, pointer@) is None && r is None,
        },
{
    let value: serde_json::Value = serde_json::from_str(text).ok()?;
    let items = value.pointer(pointer)?.as_array()?;
    Some(items.iter().map(|v| v.to_string()).collect())
}

/// The string that a JSON pointer leads to in a JSON text; nothing where the text is not
/// JSON or the pointer leads to no string.
pub uninterp spec fn json_string(text: Seq<char>, pointer: Seq<char>) -> Option<Seq<char>>;

/// `Value::pointer` and `Value::as_str` of the `serde_json` crate on a JSON text.
#[verifier::external_body]
pub(crate) fn json_str(text: &str, pointer: &str) -> (r: Option<String>)
    ensures
        match r {
            Some(s) => json_string(text@, pointer@) == Some(s@),
            None => json_string(text@, pointer@) is None && r is None,
        },
{
    let value: serde_json::Value = serde_json::from_str(text).ok()?;
    value.pointer(pointer)?.as_str().map(|s| s.to_string())
}

/// The records of CSV data after its header, each as its fields; nothing where the `csv`
/// crate reports an error anywhere in them.
pub uninterp spec fn csv_records(data: Seq<u8>) -> Option<Seq<Seq<Seq<char>>>>;

/// What each field of each record holds.
pub open spec fn fields_of(v: Seq<Vec<String>>) -> Seq<Seq<Seq<char>>> {
    v.map_values(|r: Vec<String>| crate::text::texts(r@))
}

/// `Reader::records` of the `csv` crate on data with a header.
#[verifier::external_body]
pub(crate) fn csv_rows(data: &[u8]) -> (r: Option<Vec<Vec<String>>>)
    ensures
        match r {
            Some(v) => csv_records(data@) == Some(fields_of(v@)),
            None => csv_records(data@) is None && r is None,
        },
{
    let mut reader = csv::ReaderBuilder::new().has_headers(true).from_reader(data);
    reader
        .records()
        .map(|r| r.map(|x| x.iter().map(|f| f.to_string()).collect()))
        .collect::<Result<Vec<Vec<String>>, csv::Error>>()
        .ok()
}

/// A text in lower case, as the Unicode tables that the standard library carries have it.
pub uninterp spec fn lower_text(s: Seq<char>) -> Seq<char>;

/// `str::to_lowercase` of the standard library.
#[verifier::external_body]
pub(crate) fn to_lower(s: &str) -> (r: String)
    ensures
        r@ == lower_text(s@),
{
    s.to_lowercase()
}

/// The text of octets, with a replacement character for what is not UTF-8.
pub uninterp spec fn lossy_text(octets: Seq<u8>) -> Seq<char>;

/// `String::from_utf8_lossy` of the standard library.
#[verifier::external_body]
pub(crate) fn from_utf8_lossy(octets: &[u8]) -> (r: String)
    ensures
        r@ == lossy_text(octets@),
{
    String::from_utf8_lossy(octets).into_owned()
}

} // verus!
