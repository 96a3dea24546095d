//! The failures that end a run.
//!
//! A row that is too short to have a key is no failure: it is counted and
//! passed over, and the run goes on.

use crate::csv_specs::record_fields;
use crate::header::{find_key_position, KeyNotFound};
use crate::model::{is_key_position, key_position};
use csv::StringRecord;
use vstd::prelude::*;

verus! {

/// Which of the two datasets a failure is about.
#[derive(Debug, Clone, Copy, PartialEq, Eq, Structural)]
pub enum Side {
    /// The dataset whose rows drive the join.
    Primary,
    /// The dataset that is indexed and probed for partners.
    Secondary,
}

/// A failure that ends a run. No counters are handed out for a run that ends
/// in one.
#[derive(Debug)]
pub enum JoinError {
    /// The header of one dataset has no field that equals the join key.
    KeyNotFound {
        /// The dataset whose header lacks the key.
        side: Side,
        /// The key name that was looked for.
        key: String,
        /// The whole header in which it was looked for.
        header: StringRecord,
    },
    /// The reader of one dataset could not hand out a row.
    MalformedRow {
        /// The dataset that was being read.
        side: Side,
        /// What the reader reported.
        cause: csv::Error,
    },
    /// The output sink did not take a row, or could not be flushed.
    SinkError {
        /// What the writer reported.
        cause: csv::Error,
    },
}

/// Resolves the join key in the header of the dataset `side`: its position is
/// that of the first field that equals `key`.
///
/// Fails with `KeyNotFound` exactly when no field equals `key`; the error
/// names the dataset and the key and carries the whole header.
pub fn resolve_key(side: Side, header: &StringRecord, key: &str) -> (found: Result<
    usize,
    JoinError,
>)
    ensures
        match found {
            Ok(position) => {
                &&& is_key_position(record_fields(*header), key@, position as int)
                &&& key_position(record_fields(*header), key@) == Some(position as int)
            },
            Err(error) => {
                &&& !record_fields(*header).contains(key@)
                &&& key_position(record_fields(*header), key@) is None
                &&& error matches JoinError::KeyNotFound { side: at, key: name, header: shown }
                &&& at == side
                &&& name@ == key@
                &&& record_fields(shown) == record_fields(*header)
            },
        },
{
    match find_key_position(header, key) {
        Ok(position) => Ok(position),
        Err(missing) => {
            let KeyNotFound { key, header } = missing;
            Err(JoinError::KeyNotFound { side, key, header })
        },
    }
}

} // verus!
