//! The header resolver: where in a header the join key stands.

use crate::csv_specs::{debug_text, record_debug_text, record_fields};
use crate::model::{is_key_position, key_position, lemma_key_position};
use csv::StringRecord;
use vstd::prelude::*;
use vstd::string::StringExecFns;

verus! {

/// The join key was looked for in a header that has no field of that name.
#[derive(Debug)]
pub struct KeyNotFound {
    /// The key name that was looked for.
    pub key: String,
    /// The whole header in which it was looked for.
    pub header: StringRecord,
}

/// The message for a key that is missing from a header, the header being
/// given as the text that shows it.
pub open spec fn key_not_found_text(key: Seq<char>, header_text: Seq<char>) -> Seq<char> {
    "Key '"@ + key + "' not found in "@ + header_text
}

/// Writes the message for a key that is missing from a header: the key
/// between single quotes, then the header as `header_text` shows it.
pub fn key_not_found_message(key: &str, header_text: &str) -> (text: String)
    ensures
        text@ == key_not_found_text(key@, header_text@),
{
    let mut text = String::from_str("Key '");
    text.append(key);
    text.append("' not found in ");
    text.append(header_text);
    text
}

impl KeyNotFound {
    /// The message that names the key and shows the whole header, the header
    /// in the form that `StringRecord` has in debug output.
    pub fn message(&self) -> (text: String)
        ensures
            text@ == key_not_found_text(self.key@, record_debug_text(record_fields(self.header))),
    {
        let header_text = debug_text(&self.header);
        key_not_found_message(self.key.as_str(), header_text.as_str())
    }
}

/// Finds the zero-based position of the first field of `headers` that equals
/// `key`. The comparison is exact: case matters and nothing is trimmed.
///
/// Fails exactly when no field equals `key`; the error then carries the key
/// and the whole header.
pub fn find_key_position(headers: &StringRecord, key: &str) -> (found: Result<usize, KeyNotFound>)
    ensures
        match found {
            Ok(position) => {
                &&& is_key_position(record_fields(*headers), key@, position as int)
                &&& key_position(record_fields(*headers), key@) == Some(position as int)
            },
            Err(missing) => {
                &&& !record_fields(*headers).contains(key@)
                &&& key_position(record_fields(*headers), key@) is None
                &&& missing.key@ == key@
                &&& record_fields(missing.header) == record_fields(*headers)
            },
        },
{
    let ghost fields = record_fields(*headers);
    proof {
        lemma_key_position(fields, key@);
    }
    let count: usize = headers.len();
    let mut index: usize = 0;
    while index < count
        invariant
            fields == record_fields(*headers),
            count == fields.len(),
            index <= count,
            forall|j: int| 0 <= j < index ==> fields[j] != key@,
            forall|i: int|
                is_key_position(fields, key@, i) <==> key_position(fields, key@) == Some(i),
        decreases count - index,
    {
        if let Some(value) = headers.get(index) {
            if value.eq(key) {
                assert(is_key_position(fields, key@, index as int));
                return Ok(index);
            }
        }
        index += 1;
    }
    Err(KeyNotFound { key: key.to_owned(), header: headers.clone() })
}

} // verus!
