//! The row-merge helper: one output row from a primary row and its partner.

use crate::csv_specs::record_fields;
use crate::model::{merged, without_field};
use csv::StringRecord;
use vstd::prelude::*;

verus! {

/// Builds the merged row: every field of `from` in order, then every field of
/// `to` in order but for the one at index `exclude`. Where `to` has no field at
/// `exclude`, all of `to` is appended.
///
/// With a field to exclude, the merged row has one field less than the two
/// rows together.
pub fn join_rows(from: &StringRecord, to: &StringRecord, exclude: usize) -> (row: StringRecord)
    ensures
        record_fields(row) == merged(record_fields(*from), record_fields(*to), exclude as int),
        exclude < record_fields(*to).len() ==> record_fields(row).len() == record_fields(
            *from,
        ).len() + record_fields(*to).len() - 1,
        exclude >= record_fields(*to).len() ==> record_fields(row).len() == record_fields(
            *from,
        ).len() + record_fields(*to).len(),
{
    let ghost head = record_fields(*from);
    let ghost tail = record_fields(*to);
    let mut row = StringRecord::new();

    let from_count: usize = from.len();
    let mut index: usize = 0;
    while index < from_count
        invariant
            head == record_fields(*from),
            from_count == head.len(),
            index <= from_count,
            record_fields(row) == head.take(index as int),
        decreases from_count - index,
    {
        if let Some(value) = from.get(index) {
            row.push_field(value);
        }
        assert(head.take(index + 1) == head.take(index as int).push(head[index as int]));
        index += 1;
    }
    assert(head.take(from_count as int) == head);

    let to_count: usize = to.len();
    let mut index: usize = 0;
    while index < to_count
        invariant
            tail == record_fields(*to),
            to_count == tail.len(),
            index <= to_count,
            record_fields(row) == head + without_field(tail.take(index as int), exclude as int),
        decreases to_count - index,
    {
        let ghost seen = tail.take(index as int);
        assert(tail.take(index + 1) == seen.push(tail[index as int]));
        if index != exclude {
            if let Some(value) = to.get(index) {
                row.push_field(value);
            }
            assert(without_field(seen.push(tail[index as int]), exclude as int) == without_field(
                seen,
                exclude as int,
            ).push(tail[index as int]));
            assert(record_fields(row) == head + without_field(
                tail.take(index + 1),
                exclude as int,
            ));
        } else {
            assert(without_field(seen.push(tail[index as int]), exclude as int) == seen);
        }
        index += 1;
    }
    assert(tail.take(to_count as int) == tail);
    row
}

} // verus!
