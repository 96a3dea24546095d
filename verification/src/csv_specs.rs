//! What the library takes on trust about code that is not its own: the
//! records and the error of the `csv` crate, and the comparison of two string
//! slices.
//!
//! A record is opaque to the verifier. Its content is named by
//! [`record_fields`], and each method that the library calls is given a
//! contract over that name. Nothing in this module is proved: the contracts
//! restate what the `csv` crate's source shows.

use csv::StringRecord;
use vstd::prelude::*;

verus! {

/// `csv::StringRecord`, one row of CSV data as valid UTF-8. The verifier sees
/// nothing inside it.
#[verifier::external_type_specification]
#[verifier::external_body]
pub struct ExStringRecord(csv::StringRecord);

/// `csv::Error`, what a reader or writer of the `csv` crate reports. The
/// library carries such a value through and never looks into it.
#[verifier::external_type_specification]
#[verifier::external_body]
pub struct ExError(csv::Error);

/// The fields that a record holds, first to last, each as its characters.
/// The position that a reader may have attached to the record is no part of it.
pub uninterp spec fn record_fields(record: StringRecord) -> Seq<Seq<char>>;

/// `StringRecord::new` gives a record without fields.
pub assume_specification[ StringRecord::new ]() -> (record: StringRecord)
    ensures
        record_fields(record) == Seq::<Seq<char>>::empty(),
;

/// `StringRecord::len` is the number of fields.
pub assume_specification[ StringRecord::len ](record: &StringRecord) -> (count: usize)
    ensures
        count == record_fields(*record).len(),
;

/// `StringRecord::get` hands out the field at index `i`, and `None` when the
/// record has no such field.
pub assume_specification[ StringRecord::get ](record: &StringRecord, i: usize) -> (field: Option<
    &str,
>)
    ensures
        match field {
            Some(text) => {
                &&& i < record_fields(*record).len()
                &&& text@ == record_fields(*record)[i as int]
            },
            None => i >= record_fields(*record).len(),
        },
;

/// `StringRecord::push_field` appends one field and leaves the earlier ones
/// as they were. The record's buffers grow as a `Vec` does: as with
/// `Vec::push`, running out of memory is outside the contract.
pub assume_specification[ StringRecord::push_field ](record: &mut StringRecord, field: &str)
    ensures
        record_fields(*final(record)) == record_fields(*old(record)).push(field@),
;

/// The derived `Clone` of `StringRecord` copies every field.
pub assume_specification[ <StringRecord as Clone>::clone ](record: &StringRecord) -> (copy:
    StringRecord)
    ensures
        record_fields(copy) == record_fields(*record),
;

/// The text that `StringRecord`'s `Debug` writes for a record with the given
/// fields.
pub uninterp spec fn record_debug_text(fields: Seq<Seq<char>>) -> Seq<char>;

/// Formats a record with `{:?}`. `StringRecord`'s `Debug` collects the fields
/// into a vector of string slices and writes that vector between
/// `StringRecord(` and `)`, so the text depends on the fields alone.
#[verifier::external_body]
pub(crate) fn debug_text(record: &StringRecord) -> (text: String)
    ensures
        text@ == record_debug_text(record_fields(*record)),
{
    format!("{:?}", record)
}

/// `str`'s `eq` compares two slices byte by byte, so it holds exactly when
/// they are the same characters.
pub assume_specification[ <str as PartialEq>::eq ](left: &str, right: &str) -> (same: bool)
    ensures
        same == (left@ == right@),
;

} // verus!
